use ufile_core::{
    describe_by_table, entry_matches, find_signature, get_magic_numbers, identify_from_bytes,
    identify_many_bytes, identify_with_fallback, FileInfo, MagicNumber,
};

fn bytes_info(description: &str, size: u64) -> FileInfo {
    FileInfo {
        path: String::new(),
        description: description.to_string(),
        is_directory: false,
        size: Some(size),
    }
}

fn tar_block() -> Vec<u8> {
    let mut block = vec![0u8; 512];
    block[257..262].copy_from_slice(&[0x75, 0x73, 0x74, 0x61, 0x72]);
    block
}

#[test]
fn png_magic_is_recognised() {
    let found = identify_from_bytes(&[0x89, 0x50, 0x4E, 0x47, 0xAA, 0xBB]);
    assert_eq!(found, Some(bytes_info("PNG image", 6)));
}

#[test]
fn two_zero_bytes_are_unrecognised() {
    assert_eq!(identify_from_bytes(&[0x00, 0x00]), None);
}

#[test]
fn empty_buffer_is_unrecognised() {
    assert_eq!(identify_from_bytes(&[]), None);
    assert_eq!(describe_by_table(&[]), None);
}

#[test]
fn buffer_shorter_than_signature_does_not_match() {
    assert_eq!(describe_by_table(&[0x89, 0x50, 0x4E]), None);
    assert_eq!(describe_by_table(&[0x89]), None);
}

#[test]
fn every_table_entry_matches_its_own_magic() {
    let table = get_magic_numbers();
    assert_eq!(table.len(), 12);
    for (i, entry) in table.iter().enumerate() {
        let mut buf = vec![0u8; entry.offset];
        buf.extend_from_slice(&entry.magic);
        buf.push(0x5A);
        assert!(entry_matches(&buf, entry));
        let first = find_signature(&buf, &table).unwrap();
        assert!(first <= i);
        if entry.offset == 0 {
            assert_eq!(first, i);
            assert_eq!(describe_by_table(&buf), Some(entry.description.to_string()));
        }
    }
}

#[test]
fn table_holds_the_expected_labels() {
    assert_eq!(describe_by_table(&[0xFF, 0xD8, 0xFF, 0xE0]), Some("JPEG image".to_string()));
    assert_eq!(describe_by_table(b"GIF89a"), Some("GIF image".to_string()));
    assert_eq!(describe_by_table(b"%PDF-1.7"), Some("PDF document".to_string()));
    assert_eq!(describe_by_table(&[0x50, 0x4B, 0x03, 0x04]), Some("ZIP archive".to_string()));
    assert_eq!(describe_by_table(&[0x1F, 0x8B, 0x08]), Some("Gzip archive".to_string()));
    assert_eq!(describe_by_table(b"BZh9"), Some("Bzip2 archive".to_string()));
    assert_eq!(
        describe_by_table(&[0x37, 0x7A, 0xBC, 0xAF, 0x27, 0x1C]),
        Some("7-Zip archive".to_string())
    );
    assert_eq!(describe_by_table(&[0x7F, 0x45, 0x4C, 0x46, 0x02]), Some("ELF executable".to_string()));
    assert_eq!(describe_by_table(&[0x00, 0x61, 0x73, 0x6D, 0x01]), Some("WebAssembly binary".to_string()));
    assert_eq!(describe_by_table(b"BM\x00\x00"), Some("BMP image".to_string()));
}

#[test]
fn signature_at_an_offset_matches_there_only() {
    let block = tar_block();
    assert_eq!(describe_by_table(&block), Some("TAR archive".to_string()));
    assert_eq!(describe_by_table(&block[..262]), Some("TAR archive".to_string()));
    assert_eq!(describe_by_table(&block[..261]), None);
    let mut shifted = vec![0u8];
    shifted.extend_from_slice(&block);
    assert_eq!(describe_by_table(&shifted), None);
}

#[test]
fn first_entry_in_table_order_wins() {
    let mut block = tar_block();
    block[..4].copy_from_slice(&[0x89, 0x50, 0x4E, 0x47]);
    assert_eq!(identify_from_bytes(&block), Some(bytes_info("PNG image", 512)));

    let table = vec![
        MagicNumber { offset: 2, magic: vec![0xCC], description: "late bytes" },
        MagicNumber { offset: 0, magic: vec![0xAA, 0xBB], description: "long prefix" },
        MagicNumber { offset: 0, magic: vec![0xAA], description: "short prefix" },
    ];
    assert_eq!(find_signature(&[0xAA, 0xBB, 0xCC], &table), Some(0));
    assert_eq!(find_signature(&[0xAA, 0xBB], &table), Some(1));
    assert_eq!(find_signature(&[0xAA, 0x00], &table), Some(2));
    assert_eq!(find_signature(&[0x00, 0xBB, 0xCD], &table), None);
    assert_eq!(find_signature(&[0xAA], &[]), None);
}

#[test]
fn entry_match_compares_every_byte() {
    let entry = MagicNumber { offset: 1, magic: vec![0x01, 0x02, 0x03], description: "x" };
    assert!(entry_matches(&[0x00, 0x01, 0x02, 0x03], &entry));
    assert!(entry_matches(&[0xFF, 0x01, 0x02, 0x03, 0x04], &entry));
    assert!(!entry_matches(&[0x00, 0x01, 0x02, 0x04], &entry));
    assert!(!entry_matches(&[0x00, 0x01, 0x02], &entry));
    assert!(!entry_matches(&[0x01, 0x02, 0x03], &entry));
    let empty = MagicNumber { offset: 2, magic: vec![], description: "anything" };
    assert!(entry_matches(&[0x00, 0x00], &empty));
    assert!(!entry_matches(&[0x00], &empty));
}

#[test]
fn sniffer_is_consulted_when_table_is_silent() {
    let flac = [0x66, 0x4C, 0x61, 0x43, 0x00, 0x00];
    assert_eq!(describe_by_table(&flac), None);
    assert_eq!(identify_from_bytes(&flac), Some(bytes_info("audio/x-flac", 6)));
}

#[test]
fn fallback_answer_is_used_only_without_table_match() {
    let png = [0x89, 0x50, 0x4E, 0x47];
    assert_eq!(
        identify_with_fallback(&png, Some("image/other".to_string())),
        Some(bytes_info("PNG image", 4))
    );
    assert_eq!(identify_with_fallback(&png, None), Some(bytes_info("PNG image", 4)));
    assert_eq!(
        identify_with_fallback(&[1, 2, 3], Some("text/plain".to_string())),
        Some(bytes_info("text/plain", 3))
    );
    assert_eq!(identify_with_fallback(&[1, 2, 3], None), None);
}

#[test]
fn many_buffers_give_one_record_each() {
    let png: &[u8] = &[0x89, 0x50, 0x4E, 0x47];
    let unknown: &[u8] = &[0x00, 0x00, 0x00];
    let flac: &[u8] = &[0x66, 0x4C, 0x61, 0x43];
    let infos = identify_many_bytes(&[png, unknown, flac, &[]]);
    assert_eq!(
        infos,
        vec![
            bytes_info("PNG image", 4),
            bytes_info("Unknown file type", 3),
            bytes_info("audio/x-flac", 4),
            bytes_info("Unknown file type", 0),
        ]
    );
    assert_eq!(identify_many_bytes(&[]), Vec::<FileInfo>::new());
}

#[test]
fn table_starts_with_the_png_signature() {
    let table = get_magic_numbers();
    assert_eq!(
        table[0],
        MagicNumber { offset: 0, magic: vec![0x89, 0x50, 0x4E, 0x47], description: "PNG image" }
    );
    assert_eq!(
        table[11],
        MagicNumber { offset: 257, magic: b"ustar".to_vec(), description: "TAR archive" }
    );
}
