use ufile_core::{
    create_directory_info, filter_directories, filter_files, group_by_type,
    identify_file_from_path, identify_multiple, identify_multiple_recursive, identify_recursive,
    FileInfo, FileProcessingError, Observed, Probe, Tree, WalkStep,
};

const PNG: [u8; 6] = [0x89, 0x50, 0x4E, 0x47, 0x0D, 0x0A];

fn file(path: &str, len: u64, content: &[u8]) -> Observed {
    Observed {
        path: path.to_string(),
        exists: true,
        probe: Probe::File { len, content: content.to_vec() },
    }
}

fn dir(path: &str) -> Observed {
    Observed { path: path.to_string(), exists: true, probe: Probe::Directory }
}

fn missing(path: &str) -> Observed {
    Observed {
        path: path.to_string(),
        exists: false,
        probe: Probe::Failed("No such file or directory".to_string()),
    }
}

fn unreadable(path: &str) -> Observed {
    Observed {
        path: path.to_string(),
        exists: true,
        probe: Probe::Failed("Permission denied".to_string()),
    }
}

fn info(path: &str, description: &str, size: u64) -> FileInfo {
    FileInfo {
        path: path.to_string(),
        description: description.to_string(),
        is_directory: false,
        size: Some(size),
    }
}

fn dir_info(path: &str) -> FileInfo {
    FileInfo {
        path: path.to_string(),
        description: "Directory".to_string(),
        is_directory: true,
        size: None,
    }
}

fn single(root: Observed) -> Tree {
    let walk = vec![WalkStep::Entry(root.clone())];
    Tree { root, walk }
}

fn sample_tree() -> Tree {
    Tree {
        root: dir("d"),
        walk: vec![
            WalkStep::Entry(dir("d")),
            WalkStep::Entry(file("d/a.png", 6, &PNG)),
            WalkStep::Entry(dir("d/sub")),
            WalkStep::Entry(file("d/sub/c.txt", 5, b"hello")),
        ],
    }
}

#[test]
fn directory_record_has_fixed_label_and_no_size() {
    assert_eq!(create_directory_info("some/dir"), dir_info("some/dir"));
    assert_eq!(identify_file_from_path(&dir("some/dir")), Ok(dir_info("some/dir")));
    assert_eq!(create_directory_info(""), dir_info(""));
}

#[test]
fn file_is_described_by_content_and_sized_by_metadata() {
    assert_eq!(identify_file_from_path(&file("a.png", 6, &PNG)), Ok(info("a.png", "PNG image", 6)));
    assert_eq!(
        identify_file_from_path(&file("grown.png", 4096, &PNG)),
        Ok(info("grown.png", "PNG image", 4096))
    );
    assert_eq!(
        identify_file_from_path(&file("c.txt", 5, b"hello")),
        Ok(info("c.txt", "Unknown file type", 5))
    );
    assert_eq!(
        identify_file_from_path(&file("s.flac", 4, &[0x66, 0x4C, 0x61, 0x43])),
        Ok(info("s.flac", "audio/x-flac", 4))
    );
    assert_eq!(
        identify_file_from_path(&file("empty", 0, &[])),
        Ok(info("empty", "Unknown file type", 0))
    );
}

#[test]
fn failed_observation_is_an_io_error() {
    assert_eq!(
        identify_file_from_path(&unreadable("locked")),
        Err(FileProcessingError::Io("Permission denied".to_string()))
    );
    assert_eq!(
        identify_file_from_path(&missing("gone")),
        Err(FileProcessingError::Io("No such file or directory".to_string()))
    );
}

#[test]
fn batch_keeps_input_order() {
    let batch = [file("c.txt", 5, b"hello"), dir("d"), file("a.png", 6, &PNG)];
    assert_eq!(
        identify_multiple(&batch),
        Ok(vec![info("c.txt", "Unknown file type", 5), dir_info("d"), info("a.png", "PNG image", 6)])
    );
    assert_eq!(identify_multiple(&[]), Ok(vec![]));
}

#[test]
fn batch_with_missing_path_fails_with_that_path() {
    let batch = [file("a.png", 6, &PNG), missing("nowhere"), file("c.txt", 5, b"hello")];
    assert_eq!(
        identify_multiple(&batch),
        Err(FileProcessingError::PathNotFound("nowhere".to_string()))
    );
}

#[test]
fn batch_stops_at_the_first_error() {
    let batch = [unreadable("locked"), missing("nowhere")];
    assert_eq!(
        identify_multiple(&batch),
        Err(FileProcessingError::Io("Permission denied".to_string()))
    );
    let batch = [missing("first"), missing("second"), unreadable("locked")];
    assert_eq!(
        identify_multiple(&batch),
        Err(FileProcessingError::PathNotFound("first".to_string()))
    );
}

#[test]
fn tree_gives_one_record_per_entry() {
    let tree = sample_tree();
    let records = identify_recursive(&tree).unwrap();
    assert_eq!(records.len(), 4);
    assert_eq!(
        records,
        vec![
            dir_info("d"),
            info("d/a.png", "PNG image", 6),
            dir_info("d/sub"),
            info("d/sub/c.txt", "Unknown file type", 5),
        ]
    );
}

#[test]
fn tree_of_a_single_file_is_that_file() {
    let tree = single(file("a.png", 6, &PNG));
    assert_eq!(identify_recursive(&tree), Ok(vec![info("a.png", "PNG image", 6)]));
}

#[test]
fn tree_with_missing_root_fails() {
    let tree = Tree { root: missing("nowhere"), walk: vec![] };
    assert_eq!(
        identify_recursive(&tree),
        Err(FileProcessingError::PathNotFound("nowhere".to_string()))
    );
}

#[test]
fn walk_failure_stops_the_tree() {
    let mut tree = sample_tree();
    tree.walk.insert(2, WalkStep::Failed("cannot read d/secret".to_string()));
    assert_eq!(
        identify_recursive(&tree),
        Err(FileProcessingError::WalkDir("cannot read d/secret".to_string()))
    );
    let mut tree = sample_tree();
    tree.walk.push(WalkStep::Entry(unreadable("d/locked")));
    assert_eq!(
        identify_recursive(&tree),
        Err(FileProcessingError::Io("Permission denied".to_string()))
    );
}

#[test]
fn entries_of_a_walk_are_not_asked_for_existence() {
    let mut dangling = file("d/link", 3, b"abc");
    dangling.exists = false;
    let tree = Tree { root: dir("d"), walk: vec![WalkStep::Entry(dir("d")), WalkStep::Entry(dangling)] };
    assert_eq!(
        identify_recursive(&tree),
        Ok(vec![dir_info("d"), info("d/link", "Unknown file type", 3)])
    );
}

#[test]
fn recursive_batch_splices_trees_in_place() {
    let batch = [single(file("first.txt", 5, b"hello")), sample_tree(), single(file("last.png", 6, &PNG))];
    assert_eq!(
        identify_multiple_recursive(&batch),
        Ok(vec![
            info("first.txt", "Unknown file type", 5),
            dir_info("d"),
            info("d/a.png", "PNG image", 6),
            dir_info("d/sub"),
            info("d/sub/c.txt", "Unknown file type", 5),
            info("last.png", "PNG image", 6),
        ])
    );
    assert_eq!(identify_multiple_recursive(&[]), Ok(vec![]));
}

#[test]
fn recursive_batch_ignores_the_walk_of_a_file() {
    let mut odd = single(file("a.png", 6, &PNG));
    odd.walk.push(WalkStep::Failed("never looked at".to_string()));
    assert_eq!(identify_multiple_recursive(&[odd]), Ok(vec![info("a.png", "PNG image", 6)]));
}

#[test]
fn recursive_batch_fails_as_a_whole() {
    let batch = [sample_tree(), Tree { root: missing("nowhere"), walk: vec![] }];
    assert_eq!(
        identify_multiple_recursive(&batch),
        Err(FileProcessingError::PathNotFound("nowhere".to_string()))
    );
    let mut broken = sample_tree();
    broken.walk.push(WalkStep::Failed("loop detected".to_string()));
    assert_eq!(
        identify_multiple_recursive(&[single(file("a.png", 6, &PNG)), broken]),
        Err(FileProcessingError::WalkDir("loop detected".to_string()))
    );
    assert_eq!(
        identify_multiple_recursive(&[single(unreadable("locked"))]),
        Err(FileProcessingError::Io("Permission denied".to_string()))
    );
}

#[test]
fn grouping_png_and_unknown_files() {
    let batch = [file("a.png", 6, &PNG), file("b.png", 6, &PNG), file("c.txt", 5, b"hello")];
    let groups = group_by_type(identify_multiple(&batch).unwrap());
    assert_eq!(
        groups,
        vec![
            ("PNG image".to_string(), vec![info("a.png", "PNG image", 6), info("b.png", "PNG image", 6)]),
            ("Unknown file type".to_string(), vec![info("c.txt", "Unknown file type", 5)]),
        ]
    );
}

#[test]
fn groups_stand_in_order_of_first_appearance() {
    let records = vec![
        info("1", "zeta", 1),
        info("2", "alpha", 2),
        info("3", "zeta", 3),
        dir_info("4"),
        info("5", "alpha", 5),
        info("6", "zeta", 6),
    ];
    assert_eq!(
        group_by_type(records),
        vec![
            ("zeta".to_string(), vec![info("1", "zeta", 1), info("3", "zeta", 3), info("6", "zeta", 6)]),
            ("alpha".to_string(), vec![info("2", "alpha", 2), info("5", "alpha", 5)]),
            ("Directory".to_string(), vec![dir_info("4")]),
        ]
    );
    assert_eq!(group_by_type(vec![]), vec![]);
}

#[test]
fn filters_split_the_records() {
    let records = identify_recursive(&sample_tree()).unwrap();
    let files = filter_files(records.clone());
    let dirs = filter_directories(records.clone());
    assert_eq!(files, vec![info("d/a.png", "PNG image", 6), info("d/sub/c.txt", "Unknown file type", 5)]);
    assert_eq!(dirs, vec![dir_info("d"), dir_info("d/sub")]);
    assert_eq!(files.len() + dirs.len(), records.len());
    assert!(files.iter().all(|f| !dirs.contains(f)));

    let mut next_file = files.iter();
    let mut next_dir = dirs.iter();
    let merged: Vec<FileInfo> = records
        .iter()
        .map(|r| if r.is_directory { next_dir.next().unwrap().clone() } else { next_file.next().unwrap().clone() })
        .collect();
    assert_eq!(merged, records);
}

#[test]
fn filters_on_empty_and_uniform_input() {
    assert_eq!(filter_files(vec![]), vec![]);
    assert_eq!(filter_directories(vec![]), vec![]);
    assert_eq!(filter_files(vec![dir_info("a"), dir_info("b")]), vec![]);
    assert_eq!(filter_directories(vec![dir_info("a"), dir_info("b")]), vec![dir_info("a"), dir_info("b")]);
    assert_eq!(filter_directories(vec![info("x", "PNG image", 1)]), vec![]);
}

#[test]
fn error_messages_name_the_cause() {
    assert_eq!(FileProcessingError::Io("Permission denied".to_string()).message(), "IO error: Permission denied");
    assert_eq!(
        FileProcessingError::PathNotFound("no/such".to_string()).message(),
        "Path does not exist: no/such"
    );
    assert_eq!(
        FileProcessingError::WalkDir("loop found".to_string()).message(),
        "Directory traversal error: loop found"
    );
    assert_eq!(FileProcessingError::Io(String::new()).message(), "IO error: ");
}
