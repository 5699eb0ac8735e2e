//! Classification of filesystem entries from what was observed of them, one
//! by one, in batches and over directory walks. The caller looks at the
//! filesystem; every decision on what it saw is made here.

use vstd::prelude::*;
use crate::info::{FileInfo, FileInfoView, FileProcessingError, FileProcessingErrorView};
use crate::matcher::{classify, identify_from_bytes, sniffed_mime};

verus! {

/// What metadata and content of one path turned out to be.
#[derive(Debug, Clone, PartialEq, Eq)]
pub enum Probe {
    /// Metadata or content could not be obtained; holds the failure's text.
    Failed(String),
    /// The path is a directory.
    Directory,
    /// The path is a file of `len` bytes by its metadata, read as `content`.
    File { len: u64, content: Vec<u8> },
}

/// One path with what the filesystem said of it.
#[derive(Debug, Clone, PartialEq, Eq)]
pub struct Observed {
    pub path: String,
    /// Whether the path exists. Only asked of paths given as arguments.
    pub exists: bool,
    pub probe: Probe,
}

/// One item of a directory walk: an entry, or a failure of the walk itself.
#[derive(Debug, Clone, PartialEq, Eq)]
pub enum WalkStep {
    Entry(Observed),
    Failed(String),
}

/// A root path with the walk of everything below it, the root included.
#[derive(Debug, Clone, PartialEq, Eq)]
pub struct Tree {
    pub root: Observed,
    pub walk: Vec<WalkStep>,
}

/// The records of a classification, or the error that stopped it.
pub type Outcome = Result<Seq<FileInfoView>, FileProcessingErrorView>;

/// The outcome of a classification that gave `records`.
pub open spec fn all_of(records: Seq<FileInfoView>) -> Outcome {
    Ok(records)
}

/// The outcome of a classification that gave the one `record`.
pub open spec fn one(record: FileInfoView) -> Outcome {
    Ok(seq![record])
}

/// The outcome of a classification that `error` stopped.
pub open spec fn stopped(error: FileProcessingErrorView) -> Outcome {
    Err(error)
}

/// The contents of a sequence of records.
pub open spec fn records_of(infos: Seq<FileInfo>) -> Seq<FileInfoView> {
    infos.map_values(|info: FileInfo| info@)
}

/// The outcome that a result stands for.
pub open spec fn outcome_of(r: Result<Vec<FileInfo>, FileProcessingError>) -> Outcome {
    match r {
        Ok(infos) => all_of(records_of(infos@)),
        Err(e) => stopped(e@),
    }
}

/// The outcome that the result for a single path stands for.
pub open spec fn single_outcome_of(r: Result<FileInfo, FileProcessingError>) -> Outcome {
    match r {
        Ok(info) => one(info@),
        Err(e) => stopped(e@),
    }
}

/// The record of a directory: the fixed label and no size.
pub open spec fn directory_record(path: Seq<char>) -> FileInfoView {
    FileInfoView { path, description: "Directory"@, is_directory: true, size: None }
}

/// The description of a file's content: that of its classification, or the
/// fixed label for content that nothing recognises.
pub open spec fn content_description(content: Seq<u8>, sniffed: Option<Seq<char>>) -> Seq<char> {
    match classify(content, sniffed) {
        Some(record) => record.description,
        None => "Unknown file type"@,
    }
}

/// The record of a file: its size is the length that its metadata gave.
pub open spec fn file_record(path: Seq<char>, len: u64, content: Seq<u8>) -> FileInfoView {
    FileInfoView {
        path,
        description: content_description(content, sniffed_mime(content)),
        is_directory: false,
        size: Some(len),
    }
}

/// What a single path resolves to.
pub open spec fn path_outcome(o: Observed) -> Outcome {
    match o.probe {
        Probe::Failed(text) => stopped(FileProcessingErrorView::Io(text@)),
        Probe::Directory => one(directory_record(o.path@)),
        Probe::File { len, content } => one(file_record(o.path@, len, content@)),
    }
}

/// What a path given as an argument resolves to: it must exist.
pub open spec fn argument_outcome(o: Observed) -> Outcome {
    if !o.exists {
        stopped(FileProcessingErrorView::PathNotFound(o.path@))
    } else {
        path_outcome(o)
    }
}

/// What one item of a walk resolves to.
pub open spec fn step_outcome(step: WalkStep) -> Outcome {
    match step {
        WalkStep::Entry(o) => path_outcome(o),
        WalkStep::Failed(text) => stopped(FileProcessingErrorView::WalkDir(text@)),
    }
}

/// The outcomes of `items` under `each`, joined in order; the first error
/// stops everything and nothing partial remains.
pub open spec fn collect<T>(items: Seq<T>, each: spec_fn(T) -> Outcome) -> Outcome
    decreases items.len(),
{
    if items.len() == 0 {
        Ok(Seq::empty())
    } else {
        match collect(items.drop_last(), each) {
            Err(e) => Err(e),
            Ok(done) => match each(items.last()) {
                Err(e) => Err(e),
                Ok(more) => Ok(done + more),
            },
        }
    }
}

/// `argument_outcome` as a function value.
pub open spec fn by_argument() -> spec_fn(Observed) -> Outcome {
    |o: Observed| argument_outcome(o)
}

/// `step_outcome` as a function value.
pub open spec fn by_step() -> spec_fn(WalkStep) -> Outcome {
    |step: WalkStep| step_outcome(step)
}

/// `target_outcome` as a function value.
pub open spec fn by_target() -> spec_fn(Tree) -> Outcome {
    |tree: Tree| target_outcome(tree)
}

/// What a batch of argument paths resolves to.
pub open spec fn batch_outcome(items: Seq<Observed>) -> Outcome {
    collect(items, by_argument())
}

/// What the walk below an existing root resolves to.
pub open spec fn walk_outcome(walk: Seq<WalkStep>) -> Outcome {
    collect(walk, by_step())
}

/// What a root path resolves to when everything below it is classified.
pub open spec fn tree_outcome(tree: Tree) -> Outcome {
    if !tree.root.exists {
        stopped(FileProcessingErrorView::PathNotFound(tree.root.path@))
    } else {
        walk_outcome(tree.walk@)
    }
}

/// What one argument of a recursive batch resolves to: a directory stands for
/// its whole tree, anything else for itself.
pub open spec fn target_outcome(tree: Tree) -> Outcome {
    if tree.root.exists && tree.root.probe is Directory {
        tree_outcome(tree)
    } else {
        argument_outcome(tree.root)
    }
}

/// What a batch of arguments resolves to when directories are walked.
pub open spec fn recursive_batch_outcome(trees: Seq<Tree>) -> Outcome {
    collect(trees, by_target())
}

/// An error in a prefix is the error of the whole.
pub proof fn lemma_collect_error_stays<T>(items: Seq<T>, each: spec_fn(T) -> Outcome, n: int)
    requires
        0 <= n <= items.len(),
        collect(items.take(n), each) is Err,
    ensures
        collect(items, each) == collect(items.take(n), each),
    decreases items.len() - n,
{
    if n == items.len() {
        assert(items.take(n) =~= items);
    } else {
        assert(items.take(n + 1).drop_last() =~= items.take(n));
        lemma_collect_error_stays(items, each, n + 1);
    }
}

/// Unfolds `collect` at the end of a prefix.
pub proof fn lemma_collect_step<T>(items: Seq<T>, each: spec_fn(T) -> Outcome, n: int)
    requires
        0 <= n < items.len(),
    ensures
        collect(items.take(n + 1), each) == match collect(items.take(n), each) {
            Err(e) => Err(e),
            Ok(done) => match each(items[n]) {
                Err(e) => Err(e),
                Ok(more) => Ok(done + more),
            },
        },
{
    assert(items.take(n + 1).drop_last() =~= items.take(n));
}

/// Everything succeeds exactly when each item does.
pub proof fn lemma_collect_ok_iff_each_ok<T>(items: Seq<T>, each: spec_fn(T) -> Outcome)
    ensures
        collect(items, each) is Ok <==> forall|i: int|
            0 <= i < items.len() ==> (#[trigger] each(items[i])) is Ok,
    decreases items.len(),
{
    if items.len() > 0 {
        let front = items.drop_last();
        lemma_collect_ok_iff_each_ok(front, each);
        assert forall|i: int| 0 <= i < front.len() implies front[i] == items[i] by {}
        if collect(items, each) is Ok {
            assert forall|i: int| 0 <= i < items.len() implies (#[trigger] each(items[i])) is Ok by {
                if i < front.len() {
                    assert(each(front[i]) is Ok);
                }
            }
        }
        if forall|i: int| 0 <= i < items.len() ==> (#[trigger] each(items[i])) is Ok {
            assert forall|i: int| 0 <= i < front.len() implies (#[trigger] each(front[i])) is Ok by {
                assert(each(items[i]) is Ok);
            }
            assert(each(items[items.len() - 1]) is Ok);
        }
    }
}

/// The error of the whole is the error of the first item that fails.
pub proof fn lemma_collect_first_error<T>(items: Seq<T>, each: spec_fn(T) -> Outcome, k: int)
    requires
        0 <= k < items.len(),
        each(items[k]) is Err,
        forall|j: int| 0 <= j < k ==> (#[trigger] each(items[j])) is Ok,
    ensures
        collect(items, each) is Err,
        collect(items, each)->Err_0 == each(items[k])->Err_0,
{
    let front = items.take(k);
    assert forall|j: int| 0 <= j < front.len() implies (#[trigger] each(front[j])) is Ok by {
        assert(each(items[j]) is Ok);
    }
    lemma_collect_ok_iff_each_ok(front, each);
    lemma_collect_step(items, each, k);
    lemma_collect_error_stays(items, each, k + 1);
}

/// Where each item gives one record, the records are those of the items, one
/// for one and in order.
pub proof fn lemma_collect_one_for_one<T>(items: Seq<T>, each: spec_fn(T) -> Outcome)
    requires
        forall|i: int|
            0 <= i < items.len() && (#[trigger] each(items[i])) is Ok ==> each(items[i])->Ok_0.len()
                == 1,
        collect(items, each) is Ok,
    ensures
        collect(items, each)->Ok_0.len() == items.len(),
        forall|i: int|
            0 <= i < items.len() ==> (#[trigger] each(items[i])) == one(
                collect(items, each)->Ok_0[i],
            ),
    decreases items.len(),
{
    if items.len() > 0 {
        let front = items.drop_last();
        assert forall|i: int| 0 <= i < front.len() implies front[i] == items[i] by {}
        assert forall|i: int| 0 <= i < front.len() && (#[trigger] each(front[i])) is Ok implies each(
            front[i],
        )->Ok_0.len() == 1 by {
            assert(each(items[i]) is Ok);
        }
        lemma_collect_one_for_one(front, each);
        let all = collect(items, each)->Ok_0;
        let done = collect(front, each)->Ok_0;
        let more = each(items.last())->Ok_0;
        assert(each(items[items.len() - 1]) is Ok);
        assert(all == done + more);
        assert forall|i: int| 0 <= i < items.len() implies (#[trigger] each(items[i])) == one(
            all[i],
        ) by {
            if i < front.len() {
                assert(each(front[i]) == each(items[i]));
                assert(all[i] == done[i]);
            } else {
                assert(more =~= seq![all[i]]);
            }
        }
    }
}

/// A batch in which a path does not exist, and every path before it
/// resolves, fails with `PathNotFound` for exactly that path: there is no
/// partial output.
pub proof fn lemma_missing_path_fails_batch(items: Seq<Observed>, k: int)
    requires
        0 <= k < items.len(),
        !items[k].exists,
        forall|j: int| 0 <= j < k ==> argument_outcome(#[trigger] items[j]) is Ok,
    ensures
        batch_outcome(items) == stopped(FileProcessingErrorView::PathNotFound(items[k].path@)),
{
    assert forall|j: int| 0 <= j < k implies (#[trigger] by_argument()(items[j])) is Ok by {
        assert(argument_outcome(items[j]) is Ok);
    }
    lemma_collect_first_error(items, by_argument(), k);
}

/// A batch succeeds exactly when every path exists and could be observed;
/// it then holds one record per path, in input order.
pub proof fn lemma_batch_one_record_per_path(items: Seq<Observed>)
    ensures
        batch_outcome(items) is Ok <==> forall|i: int|
            0 <= i < items.len() ==> argument_outcome(#[trigger] items[i]) is Ok,
        batch_outcome(items) matches Ok(records) ==> {
            &&& records.len() == items.len()
            &&& forall|i: int|
                0 <= i < items.len() ==> argument_outcome(#[trigger] items[i]) == one(records[i])
        },
{
    lemma_collect_ok_iff_each_ok(items, by_argument());
    assert forall|i: int| 0 <= i < items.len() implies (argument_outcome(#[trigger] items[i])
        == by_argument()(items[i])) by {}
    if batch_outcome(items) is Ok {
        lemma_collect_one_for_one(items, by_argument());
        assert forall|i: int| 0 <= i < items.len() implies argument_outcome(#[trigger] items[i])
            == one(batch_outcome(items)->Ok_0[i]) by {
            assert(by_argument()(items[i]) == argument_outcome(items[i]));
        }
    }
}

/// A tree whose classification succeeds gives exactly one record per entry of
/// the walk, the root and nested directories included, each entry once and in
/// walk order.
pub proof fn lemma_tree_one_record_per_entry(tree: Tree)
    requires
        tree_outcome(tree) is Ok,
    ensures
        tree_outcome(tree)->Ok_0.len() == tree.walk@.len(),
        forall|i: int|
            0 <= i < tree.walk@.len() ==> step_outcome(#[trigger] tree.walk@[i]) == one(
                tree_outcome(tree)->Ok_0[i],
            ),
{
    let walk = tree.walk@;
    lemma_collect_one_for_one(walk, by_step());
    assert forall|i: int| 0 <= i < walk.len() implies step_outcome(#[trigger] walk[i]) == one(
        tree_outcome(tree)->Ok_0[i],
    ) by {
        assert(by_step()(walk[i]) == step_outcome(walk[i]));
    }
}

/// Creates the record of a directory.
pub fn create_directory_info(path: &str) -> (info: FileInfo)
    ensures
        info@ == directory_record(path@),
{
    FileInfo {
        path: path.to_owned(),
        description: "Directory".to_owned(),
        is_directory: true,
        size: None,
    }
}

/// Classifies one path from what was observed of it. A directory gets its
/// record without a look at any bytes; a file is described by its content and
/// sized by its metadata; a failed observation is the error.
pub fn identify_file_from_path(observed: &Observed) -> (r: Result<FileInfo, FileProcessingError>)
    ensures
        single_outcome_of(r) == path_outcome(*observed),
        observed.probe is Directory ==> r is Ok && r->Ok_0@ == (FileInfoView {
            path: observed.path@,
            description: "Directory"@,
            is_directory: true,
            size: None,
        }),
        r is Err <==> observed.probe is Failed,
        r matches Ok(info) ==> info@.wf() && info@.path == observed.path@,
{
    match &observed.probe {
        Probe::Failed(text) => Err(FileProcessingError::Io(text.clone())),
        Probe::Directory => Ok(create_directory_info(observed.path.as_str())),
        Probe::File { len, content } => {
            let description = match identify_from_bytes(content.as_slice()) {
                Some(info) => info.description,
                None => "Unknown file type".to_owned(),
            };
            Ok(
                FileInfo {
                    path: observed.path.clone(),
                    description,
                    is_directory: false,
                    size: Some(*len),
                },
            )
        },
    }
}

/// Classifies the paths of a batch in input order. A path that does not
/// exist stops the batch with `PathNotFound` for that path, a failed
/// observation with `Io`; no partial result is returned.
pub fn identify_multiple(paths: &[Observed]) -> (r: Result<Vec<FileInfo>, FileProcessingError>)
    ensures
        outcome_of(r) == batch_outcome(paths@),
        r matches Ok(infos) ==> infos.len() == paths.len(),
        r matches Ok(infos) ==> forall|i: int|
            0 <= i < infos.len() ==> (#[trigger] infos[i])@.wf(),
{
    let mut results: Vec<FileInfo> = Vec::new();
    let mut i: usize = 0;
    proof {
        assert(records_of(results@) =~= Seq::empty());
    }
    while i < paths.len()
        invariant
            i <= paths.len(),
            results.len() == i,
            collect(paths@.take(i as int), by_argument()) == all_of(records_of(results@)),
            forall|j: int| 0 <= j < results.len() ==> (#[trigger] results[j])@.wf(),
        decreases paths.len() - i,
    {
        let observed = &paths[i];
        proof {
            lemma_collect_step(paths@, by_argument(), i as int);
        }
        if !observed.exists {
            proof {
                lemma_collect_error_stays(paths@, by_argument(), i + 1);
            }
            return Err(FileProcessingError::PathNotFound(observed.path.clone()));
        }
        match identify_file_from_path(observed) {
            Ok(info) => {
                let ghost before = results@;
                results.push(info);
                proof {
                    assert(records_of(results@) =~= records_of(before) + seq![info@]);
                }
            },
            Err(e) => {
                proof {
                    lemma_collect_error_stays(paths@, by_argument(), i + 1);
                }
                return Err(e);
            },
        }
        i += 1;
    }
    proof {
        assert(paths@.take(paths.len() as int) =~= paths@);
    }
    Ok(results)
}

/// Classifies a root and everything that the walk below it yielded, the root
/// included and nested directories too, one record per entry in walk order.
/// A root that does not exist is `PathNotFound`; a failure of the walk is
/// `WalkDir`; a failed observation of an entry is `Io`.
pub fn identify_recursive(tree: &Tree) -> (r: Result<Vec<FileInfo>, FileProcessingError>)
    ensures
        outcome_of(r) == tree_outcome(*tree),
        r matches Ok(infos) ==> infos.len() == tree.walk.len(),
        r matches Ok(infos) ==> forall|i: int|
            0 <= i < infos.len() ==> (#[trigger] infos[i])@.wf(),
{
    if !tree.root.exists {
        return Err(FileProcessingError::PathNotFound(tree.root.path.clone()));
    }
    let mut results: Vec<FileInfo> = Vec::new();
    let mut i: usize = 0;
    proof {
        assert(records_of(results@) =~= Seq::empty());
    }
    while i < tree.walk.len()
        invariant
            tree.root.exists,
            i <= tree.walk.len(),
            results.len() == i,
            collect(tree.walk@.take(i as int), by_step()) == all_of(records_of(results@)),
            forall|j: int| 0 <= j < results.len() ==> (#[trigger] results[j])@.wf(),
        decreases tree.walk.len() - i,
    {
        proof {
            lemma_collect_step(tree.walk@, by_step(), i as int);
        }
        let step = match &tree.walk[i] {
            WalkStep::Entry(observed) => identify_file_from_path(observed),
            WalkStep::Failed(text) => Err(FileProcessingError::WalkDir(text.clone())),
        };
        match step {
            Ok(info) => {
                let ghost before = results@;
                results.push(info);
                proof {
                    assert(records_of(results@) =~= records_of(before) + seq![info@]);
                }
            },
            Err(e) => {
                proof {
                    lemma_collect_error_stays(tree.walk@, by_step(), i + 1);
                }
                return Err(e);
            },
        }
        i += 1;
    }
    proof {
        assert(tree.walk@.take(tree.walk.len() as int) =~= tree.walk@);
    }
    Ok(results)
}

/// Classifies a batch in input order, walking directories: the records of a
/// directory's whole tree stand together where the directory stood among the
/// arguments, and any other path gives its one record. The first error of any
/// kind stops the batch.
pub fn identify_multiple_recursive(paths: &[Tree]) -> (r: Result<
    Vec<FileInfo>,
    FileProcessingError,
>)
    ensures
        outcome_of(r) == recursive_batch_outcome(paths@),
        r matches Ok(infos) ==> forall|i: int|
            0 <= i < infos.len() ==> (#[trigger] infos[i])@.wf(),
{
    let mut results: Vec<FileInfo> = Vec::new();
    let mut i: usize = 0;
    proof {
        assert(records_of(results@) =~= Seq::empty());
    }
    while i < paths.len()
        invariant
            i <= paths.len(),
            collect(paths@.take(i as int), by_target()) == all_of(records_of(results@)),
            forall|j: int| 0 <= j < results.len() ==> (#[trigger] results[j])@.wf(),
        decreases paths.len() - i,
    {
        let tree = &paths[i];
        proof {
            lemma_collect_step(paths@, by_target(), i as int);
        }
        if !tree.root.exists {
            proof {
                lemma_collect_error_stays(paths@, by_target(), i + 1);
            }
            return Err(FileProcessingError::PathNotFound(tree.root.path.clone()));
        }
        let is_dir = match &tree.root.probe {
            Probe::Directory => true,
            _ => false,
        };
        if is_dir {
            match identify_recursive(tree) {
                Ok(mut more) => {
                    let ghost before = results@;
                    let ghost added = more@;
                    results.append(&mut more);
                    proof {
                        assert(records_of(results@) =~= records_of(before) + records_of(added));
                    }
                },
                Err(e) => {
                    proof {
                        lemma_collect_error_stays(paths@, by_target(), i + 1);
                    }
                    return Err(e);
                },
            }
        } else {
            match identify_file_from_path(&tree.root) {
                Ok(info) => {
                    let ghost before = results@;
                    results.push(info);
                    proof {
                        assert(records_of(results@) =~= records_of(before) + seq![info@]);
                    }
                },
                Err(e) => {
                    proof {
                        lemma_collect_error_stays(paths@, by_target(), i + 1);
                    }
                    return Err(e);
                },
            }
        }
        i += 1;
    }
    proof {
        assert(paths@.take(paths.len() as int) =~= paths@);
    }
    Ok(results)
}

} // verus!
