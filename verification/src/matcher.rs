//! Classification of a byte buffer: the signature table first, then the
//! content sniffer, then nothing.

use vstd::prelude::*;
use crate::info::{FileInfo, FileInfoView};
use crate::magicnums::{
    find_signature, first_match, get_magic_numbers, lemma_first_match, matches_at,
    signature_table, signatures_of,
};

verus! {

/// The MIME type that the content sniffer reports for `bytes`, if it
/// recognises them.
pub uninterp spec fn sniffed_mime(bytes: Seq<u8>) -> Option<Seq<char>>;

/// The text of an optional string.
pub open spec fn text_of(s: Option<String>) -> Option<Seq<char>> {
    match s {
        Some(text) => Some(text@),
        None => None,
    }
}

/// The content of an optional record.
pub open spec fn record_of(info: Option<FileInfo>) -> Option<FileInfoView> {
    match info {
        Some(info) => Some(info@),
        None => None,
    }
}

/// The record of an in-memory buffer with a known description: no path, not
/// a directory, and the buffer's own length as size.
pub open spec fn bytes_record(bytes: Seq<u8>, description: Seq<char>) -> FileInfoView {
    FileInfoView {
        path: Seq::empty(),
        description,
        is_directory: false,
        size: Some(bytes.len() as u64),
    }
}

/// The description that the signature table gives to `bytes`: that of the
/// first entry that matches.
pub open spec fn table_description(bytes: Seq<u8>) -> Option<Seq<char>> {
    match first_match(bytes, signature_table()) {
        Some(i) => Some(signature_table()[i].description),
        None => None,
    }
}

/// The classification of `bytes`, given what the sniffer said of them: the
/// table decides where it matches; otherwise the sniffer's MIME type is the
/// description; otherwise there is no classification.
pub open spec fn classify(bytes: Seq<u8>, sniffed: Option<Seq<char>>) -> Option<FileInfoView> {
    match table_description(bytes) {
        Some(description) => Some(bytes_record(bytes, description)),
        None => match sniffed {
            Some(mime) => Some(bytes_record(bytes, mime)),
            None => None,
        },
    }
}

/// Calls `infer::get` on the buffer and returns the MIME type of the type it
/// found, as `Type::mime_type` gives it. The sniffer's matchers are a pure
/// function of the buffer; the contract only gives that result a name.
#[verifier::external_body]
fn sniff_mime(bytes: &[u8]) -> (mime: Option<String>)
    ensures
        text_of(mime) == sniffed_mime(bytes@),
{
    match infer::get(bytes) {
        Some(kind) => Some(kind.mime_type().to_string()),
        None => None,
    }
}

/// The record for a buffer of `len` bytes with the given description.
fn bytes_info(len: usize, description: String) -> (info: FileInfo)
    ensures
        info@ == (FileInfoView {
            path: Seq::empty(),
            description: description@,
            is_directory: false,
            size: Some(len as u64),
        }),
{
    FileInfo { path: String::new(), description, is_directory: false, size: Some(len as u64) }
}

/// The description of the first table entry that `bytes` matches.
pub fn describe_by_table(bytes: &[u8]) -> (description: Option<String>)
    ensures
        text_of(description) == table_description(bytes@),
{
    let table = get_magic_numbers();
    match find_signature(bytes, table.as_slice()) {
        Some(i) => {
            assert(signatures_of(table@)[i as int] == table@[i as int]@);
            Some(table[i].description.to_owned())
        },
        None => None,
    }
}

/// Classifies `bytes` given the sniffer's answer for them. The answer is
/// consulted only where no table entry matches.
pub fn identify_with_fallback(bytes: &[u8], sniffed: Option<String>) -> (info: Option<FileInfo>)
    ensures
        record_of(info) == classify(bytes@, text_of(sniffed)),
{
    match describe_by_table(bytes) {
        Some(description) => Some(bytes_info(bytes.len(), description)),
        None => match sniffed {
            Some(mime) => Some(bytes_info(bytes.len(), mime)),
            None => None,
        },
    }
}

/// Identifies the file type from a byte slice: `Some` record if the table or
/// the sniffer recognises the bytes, `None` otherwise. The description of a
/// sniffed type is its MIME type alone.
pub fn identify_from_bytes(bytes: &[u8]) -> (info: Option<FileInfo>)
    ensures
        record_of(info) == classify(bytes@, sniffed_mime(bytes@)),
{
    match describe_by_table(bytes) {
        Some(description) => Some(bytes_info(bytes.len(), description)),
        None => identify_with_fallback(bytes, sniff_mime(bytes)),
    }
}

/// The record of a buffer that is classified or, failing that, labelled as
/// unknown.
pub open spec fn known_or_unknown(bytes: Seq<u8>, sniffed: Option<Seq<char>>) -> FileInfoView {
    match classify(bytes, sniffed) {
        Some(record) => record,
        None => bytes_record(bytes, "Unknown file type"@),
    }
}

/// Identifies each of several buffers, in order. A buffer that nothing
/// recognises gets the fixed label for unknown content, so that there is one
/// record for each buffer.
pub fn identify_many_bytes(files: &[&[u8]]) -> (infos: Vec<FileInfo>)
    ensures
        infos.len() == files.len(),
        forall|i: int|
            0 <= i < files.len() ==> (#[trigger] infos[i])@ == known_or_unknown(
                files[i]@,
                sniffed_mime(files[i]@),
            ),
{
    let mut infos: Vec<FileInfo> = Vec::new();
    let mut k: usize = 0;
    while k < files.len()
        invariant
            k <= files.len(),
            infos.len() == k,
            forall|i: int|
                0 <= i < k ==> (#[trigger] infos[i])@ == known_or_unknown(
                    files[i]@,
                    sniffed_mime(files[i]@),
                ),
        decreases files.len() - k,
    {
        let bytes = files[k];
        let info = match identify_from_bytes(bytes) {
            Some(info) => info,
            None => bytes_info(bytes.len(), "Unknown file type".to_owned()),
        };
        infos.push(info);
        k += 1;
    }
    infos
}

/// A buffer that matches entry `i` of the table, and no earlier entry, is
/// classified with the description of entry `i`, whatever the sniffer says
/// and whatever later entries match.
pub proof fn lemma_first_entry_wins(bytes: Seq<u8>, sniffed: Option<Seq<char>>, i: int)
    requires
        0 <= i < signature_table().len(),
        matches_at(bytes, signature_table()[i]),
        forall|j: int| 0 <= j < i ==> !matches_at(bytes, #[trigger] signature_table()[j]),
    ensures
        classify(bytes, sniffed) == Some(bytes_record(bytes, signature_table()[i].description)),
{
    lemma_first_match(bytes, signature_table());
}

/// A buffer too short to hold any table entry at its offset, and unknown to
/// the sniffer, has no classification.
pub proof fn lemma_short_and_unknown_is_absent(bytes: Seq<u8>)
    requires
        forall|j: int|
            0 <= j < signature_table().len() ==> bytes.len() < (#[trigger] signature_table()[j]).offset
                + signature_table()[j].magic.len(),
    ensures
        classify(bytes, None) is None,
{
    lemma_first_match(bytes, signature_table());
}

/// Classification is absent exactly when neither the table nor the sniffer
/// knows the bytes.
pub proof fn lemma_absent_iff_unknown(bytes: Seq<u8>, sniffed: Option<Seq<char>>)
    ensures
        classify(bytes, sniffed) is None <==> {
            &&& sniffed is None
            &&& forall|j: int|
                0 <= j < signature_table().len() ==> !matches_at(bytes, #[trigger] signature_table()[j])
        },
{
    lemma_first_match(bytes, signature_table());
}

} // verus!
