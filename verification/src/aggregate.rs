//! Filtering and grouping of classification records.

use vstd::prelude::*;
use crate::info::FileInfo;

verus! {

/// The records of `records` that are not directories, in their order.
pub open spec fn files_of(records: Seq<FileInfo>) -> Seq<FileInfo> {
    records.filter(|info: FileInfo| !info.is_directory)
}

/// The records of `records` that are directories, in their order.
pub open spec fn directories_of(records: Seq<FileInfo>) -> Seq<FileInfo> {
    records.filter(|info: FileInfo| info.is_directory)
}

/// For each record of `records`, whether it is a directory.
pub open spec fn kinds_of(records: Seq<FileInfo>) -> Seq<bool> {
    records.map_values(|info: FileInfo| info.is_directory)
}

/// Merges `files` and `directories` back into one sequence: position by
/// position, `kinds` says from which of the two the next record is taken.
pub open spec fn merge_by_position(
    kinds: Seq<bool>,
    files: Seq<FileInfo>,
    directories: Seq<FileInfo>,
) -> Seq<FileInfo>
    decreases kinds.len(),
{
    if kinds.len() == 0 {
        Seq::empty()
    } else if kinds.last() {
        if directories.len() == 0 {
            Seq::empty()
        } else {
            merge_by_position(kinds.drop_last(), files, directories.drop_last()).push(
                directories.last(),
            )
        }
    } else {
        if files.len() == 0 {
            Seq::empty()
        } else {
            merge_by_position(kinds.drop_last(), files.drop_last(), directories).push(files.last())
        }
    }
}

/// The two filters split a sequence of records: no record is kept by both,
/// every record is kept by one, and merging the two results by the position
/// that each record had gives the unfiltered sequence back.
pub proof fn lemma_filters_partition(records: Seq<FileInfo>)
    ensures
        forall|i: int| 0 <= i < files_of(records).len() ==> !(#[trigger] files_of(records)[i]).is_directory,
        forall|i: int|
            0 <= i < directories_of(records).len() ==> (#[trigger] directories_of(
                records,
            )[i]).is_directory,
        forall|info: FileInfo|
            !(files_of(records).contains(info) && directories_of(records).contains(info)),
        files_of(records).len() + directories_of(records).len() == records.len(),
        merge_by_position(kinds_of(records), files_of(records), directories_of(records)) == records,
    decreases records.len(),
{
    reveal(Seq::filter);
    if records.len() > 0 {
        let front = records.drop_last();
        let last = records.last();
        lemma_filters_partition(front);
        assert(records =~= front.push(last));
        front.lemma_filter_push(last, |info: FileInfo| !info.is_directory);
        front.lemma_filter_push(last, |info: FileInfo| info.is_directory);
        assert(kinds_of(records).drop_last() =~= kinds_of(front));
        assert(kinds_of(records).last() == last.is_directory);
        if last.is_directory {
            assert(directories_of(records).drop_last() =~= directories_of(front));
        } else {
            assert(files_of(records).drop_last() =~= files_of(front));
        }
    }
    assert forall|info: FileInfo|
        !(files_of(records).contains(info) && directories_of(records).contains(info)) by {
        if files_of(records).contains(info) && directories_of(records).contains(info) {
            let i = choose|i: int| 0 <= i < files_of(records).len() && files_of(records)[i] == info;
            let j = choose|j: int|
                0 <= j < directories_of(records).len() && directories_of(records)[j] == info;
            assert(!files_of(records)[i].is_directory);
            assert(directories_of(records)[j].is_directory);
        }
    }
}

/// Keeps the records that are not directories, in their order.
pub fn filter_files(results: Vec<FileInfo>) -> (kept: Vec<FileInfo>)
    ensures
        kept@ == files_of(results@),
{
    let ghost all = results@;
    let mut kept: Vec<FileInfo> = Vec::new();
    proof {
        reveal(Seq::filter);
        assert(all.take(0) =~= Seq::empty());
    }
    for info in it: results
        invariant
            it.seq() == all,
            kept@ == files_of(all.take(it.index())),
    {
        proof {
            let done = all.take(it.index());
            assert(all.take(it.index() + 1) =~= done.push(info));
            done.lemma_filter_push(info, |info: FileInfo| !info.is_directory);
        }
        if !info.is_directory {
            kept.push(info);
        }
    }
    proof {
        assert(all.take(all.len() as int) =~= all);
    }
    kept
}

/// Keeps the records that are directories, in their order.
pub fn filter_directories(results: Vec<FileInfo>) -> (kept: Vec<FileInfo>)
    ensures
        kept@ == directories_of(results@),
{
    let ghost all = results@;
    let mut kept: Vec<FileInfo> = Vec::new();
    proof {
        reveal(Seq::filter);
        assert(all.take(0) =~= Seq::empty());
    }
    for info in it: results
        invariant
            it.seq() == all,
            kept@ == directories_of(all.take(it.index())),
    {
        proof {
            let done = all.take(it.index());
            assert(all.take(it.index() + 1) =~= done.push(info));
            done.lemma_filter_push(info, |info: FileInfo| info.is_directory);
        }
        if info.is_directory {
            kept.push(info);
        }
    }
    proof {
        assert(all.take(all.len() as int) =~= all);
    }
    kept
}

/// The descriptions that occur in `records`, each once, in the order in
/// which they first appear.
pub open spec fn distinct_descriptions(records: Seq<FileInfo>) -> Seq<Seq<char>>
    decreases records.len(),
{
    if records.len() == 0 {
        Seq::empty()
    } else {
        let seen = distinct_descriptions(records.drop_last());
        if seen.contains(records.last().description@) {
            seen
        } else {
            seen.push(records.last().description@)
        }
    }
}

/// The records of `records` with the given description, in their order.
pub open spec fn with_description(records: Seq<FileInfo>, description: Seq<char>) -> Seq<FileInfo> {
    records.filter(|info: FileInfo| info.description@ == description)
}

/// A description that is not among the distinct ones has no records.
pub proof fn lemma_unseen_description_has_no_records(
    records: Seq<FileInfo>,
    description: Seq<char>,
)
    requires
        !distinct_descriptions(records).contains(description),
    ensures
        with_description(records, description) == Seq::<FileInfo>::empty(),
    decreases records.len(),
{
    reveal(Seq::filter);
    if records.len() > 0 {
        let front = records.drop_last();
        let seen = distinct_descriptions(front);
        let last = records.last().description@;
        if seen.contains(last) {
        } else {
            assert(seen.push(last).last() == last);
            assert(last != description);
            assert forall|i: int| 0 <= i < seen.len() implies seen[i] != description by {
                assert(seen.push(last)[i] == seen[i]);
            }
        }
        lemma_unseen_description_has_no_records(front, description);
    }
}

/// No description occurs twice among the distinct ones.
pub proof fn lemma_distinct_descriptions_differ(records: Seq<FileInfo>)
    ensures
        forall|i: int, j: int|
            0 <= i < j < distinct_descriptions(records).len() ==> distinct_descriptions(records)[i]
                != distinct_descriptions(records)[j],
    decreases records.len(),
{
    if records.len() > 0 {
        lemma_distinct_descriptions_differ(records.drop_last());
        let seen = distinct_descriptions(records.drop_last());
        let keys = distinct_descriptions(records);
        assert forall|i: int, j: int| 0 <= i < j < keys.len() implies keys[i] != keys[j] by {
            if j < seen.len() {
                assert(keys[i] == seen[i] && keys[j] == seen[j]);
            } else {
                assert(!seen.contains(keys[j]));
                assert(keys[i] == seen[i]);
            }
        }
    }
}

/// Groups the records by description. The groups stand in the order in which
/// their descriptions first appear, no description has two groups, and each
/// group holds all records of its description in the order of the input.
pub fn group_by_type(results: Vec<FileInfo>) -> (groups: Vec<(String, Vec<FileInfo>)>)
    ensures
        groups.len() == distinct_descriptions(results@).len(),
        forall|g: int|
            0 <= g < groups.len() ==> {
                &&& (#[trigger] groups[g]).0@ == distinct_descriptions(results@)[g]
                &&& groups[g].1@ == with_description(results@, distinct_descriptions(results@)[g])
            },
{
    let ghost all = results@;
    let mut groups: Vec<(String, Vec<FileInfo>)> = Vec::new();
    proof {
        assert(all.take(0) =~= Seq::empty());
    }
    for info in it: results
        invariant
            it.seq() == all,
            groups.len() == distinct_descriptions(all.take(it.index())).len(),
            forall|g: int|
                0 <= g < groups.len() ==> {
                    &&& (#[trigger] groups[g]).0@ == distinct_descriptions(all.take(it.index()))[g]
                    &&& groups[g].1@ == with_description(
                        all.take(it.index()),
                        distinct_descriptions(all.take(it.index()))[g],
                    )
                },
    {
        let ghost done = all.take(it.index());
        let ghost keys = distinct_descriptions(done);
        let ghost next = all.take(it.index() + 1);
        proof {
            assert(next.drop_last() =~= done);
            assert(next.last() == info);
            assert forall|d: Seq<char>|
                #[trigger] with_description(next, d) == if info.description@ == d {
                    with_description(done, d).push(info)
                } else {
                    with_description(done, d)
                } by {
                assert(next =~= done.push(info));
                done.lemma_filter_push(info, |x: FileInfo| x.description@ == d);
            }
        }
        let mut g: usize = 0;
        while g < groups.len()
            invariant
                g <= groups.len(),
                groups.len() == keys.len(),
                forall|j: int| 0 <= j < groups.len() ==> (#[trigger] groups[j]).0@ == keys[j],
                forall|j: int| 0 <= j < g ==> keys[j] != info.description@,
            ensures
                g <= groups.len(),
                g < groups.len() ==> keys[g as int] == info.description@,
                forall|j: int| 0 <= j < g ==> keys[j] != info.description@,
            decreases groups.len() - g,
        {
            if groups[g].0 == info.description {
                break ;
            }
            g += 1;
        }
        if g < groups.len() {
            assert(keys.contains(info.description@));
            let ghost before = groups@;
            groups[g].1.push(info);
            proof {
                lemma_distinct_descriptions_differ(done);
                assert(distinct_descriptions(next) == keys);
                assert(groups@.len() == before.len());
                assert(groups@[g as int].0 == before[g as int].0);
                assert(groups@[g as int].1@ == before[g as int].1@.push(info));
                assert forall|j: int| 0 <= j < groups.len() && j != g implies groups@[j]
                    == before[j] by {}
                assert forall|j: int| 0 <= j < groups.len() implies {
                    &&& (#[trigger] groups[j]).0@ == keys[j]
                    &&& groups[j].1@ == with_description(next, keys[j])
                } by {
                    if j != g {
                        assert(keys[j] != keys[g as int]);
                        assert(groups@[j] == before[j]);
                    }
                }
            }
        } else {
            proof {
                if keys.contains(info.description@) {
                    let j = choose|j: int| 0 <= j < keys.len() && keys[j] == info.description@;
                    assert(false);
                }
                lemma_unseen_description_has_no_records(done, info.description@);
            }
            let ghost before = groups@;
            let key = info.description.clone();
            let mut files: Vec<FileInfo> = Vec::new();
            files.push(info);
            groups.push((key, files));
            proof {
                assert(distinct_descriptions(next) == keys.push(info.description@));
                assert(files@ =~= Seq::<FileInfo>::empty().push(info));
                assert forall|j: int| 0 <= j < groups.len() implies {
                    &&& (#[trigger] groups[j]).0@ == keys.push(info.description@)[j]
                    &&& groups[j].1@ == with_description(next, keys.push(info.description@)[j])
                } by {
                    if j < before.len() {
                        assert(groups@[j] == before[j]);
                        assert(keys[j] != info.description@);
                    }
                }
            }
        }
    }
    proof {
        assert(all.take(all.len() as int) =~= all);
    }
    groups
}

} // verus!
