//! The table of byte signatures and the scan over it.

use vstd::prelude::*;

verus! {

/// One byte signature: `magic` is expected at byte `offset` of a buffer.
#[derive(Debug, Clone, PartialEq, Eq)]
pub struct MagicNumber {
    /// Where in the buffer the signature starts.
    pub offset: usize,
    /// The bytes that must be found there.
    pub magic: Vec<u8>,
    /// The label of the type that the signature identifies.
    pub description: &'static str,
}

/// The mathematical content of a [`MagicNumber`].
pub ghost struct Signature {
    pub offset: nat,
    pub magic: Seq<u8>,
    pub description: Seq<char>,
}

impl View for MagicNumber {
    type V = Signature;

    open spec fn view(&self) -> Signature {
        Signature {
            offset: self.offset as nat,
            magic: self.magic@,
            description: self.description@,
        }
    }
}

/// The signatures of a table of entries, in table order.
pub open spec fn signatures_of(table: Seq<MagicNumber>) -> Seq<Signature> {
    table.map_values(|entry: MagicNumber| entry@)
}

/// Whether `bytes` is long enough to hold `sig` at its offset and holds
/// exactly its bytes there.
pub open spec fn matches_at(bytes: Seq<u8>, sig: Signature) -> bool {
    &&& bytes.len() >= sig.offset + sig.magic.len()
    &&& bytes.subrange(sig.offset as int, (sig.offset + sig.magic.len()) as int) == sig.magic
}

/// The index of the first signature of `table` that `bytes` matches.
pub open spec fn first_match(bytes: Seq<u8>, table: Seq<Signature>) -> Option<int>
    decreases table.len(),
{
    if table.len() == 0 {
        None
    } else {
        match first_match(bytes, table.drop_last()) {
            Some(i) => Some(i),
            None => if matches_at(bytes, table.last()) {
                Some(table.len() - 1)
            } else {
                None
            },
        }
    }
}

/// `first_match` is the least matching index, and is absent exactly when no
/// signature matches.
pub proof fn lemma_first_match(bytes: Seq<u8>, table: Seq<Signature>)
    ensures
        match first_match(bytes, table) {
            Some(i) => {
                &&& 0 <= i < table.len()
                &&& matches_at(bytes, table[i])
                &&& forall|j: int| 0 <= j < i ==> !matches_at(bytes, #[trigger] table[j])
            },
            None => forall|j: int| 0 <= j < table.len() ==> !matches_at(bytes, #[trigger] table[j]),
        },
    decreases table.len(),
{
    if table.len() > 0 {
        lemma_first_match(bytes, table.drop_last());
        assert forall|j: int| 0 <= j < table.len() - 1 implies table.drop_last()[j] == table[j] by {}
    }
}

/// Whether `bytes` holds the bytes of `entry` at its offset.
pub fn entry_matches(bytes: &[u8], entry: &MagicNumber) -> (hit: bool)
    ensures
        hit == matches_at(bytes@, entry@),
{
    let n = entry.magic.len();
    if n > bytes.len() || entry.offset > bytes.len() - n {
        return false;
    }
    let ghost window = bytes@.subrange(entry.offset as int, entry.offset + n);
    let mut k: usize = 0;
    while k < n
        invariant
            n == entry.magic.len(),
            entry.offset + n <= bytes.len(),
            k <= n,
            window == bytes@.subrange(entry.offset as int, entry.offset + n),
            forall|j: int| 0 <= j < k ==> window[j] == entry.magic@[j],
        decreases n - k,
    {
        if bytes[entry.offset + k] != entry.magic[k] {
            assert(window[k as int] != entry.magic@[k as int]);
            return false;
        }
        k += 1;
    }
    assert(window =~= entry.magic@);
    true
}

/// Scans `table` in order and returns the index of the first entry that
/// `bytes` matches; later entries are not considered.
pub fn find_signature(bytes: &[u8], table: &[MagicNumber]) -> (found: Option<usize>)
    ensures
        match found {
            Some(i) => i < table.len() && first_match(bytes@, signatures_of(table@)) == Some(
                i as int,
            ),
            None => first_match(bytes@, signatures_of(table@)) is None,
        },
{
    let ghost sigs = signatures_of(table@);
    let mut i: usize = 0;
    while i < table.len()
        invariant
            i <= table.len(),
            sigs == signatures_of(table@),
            first_match(bytes@, sigs.take(i as int)) is None,
        decreases table.len() - i,
    {
        let hit = entry_matches(bytes, &table[i]);
        proof {
            assert(sigs.take(i + 1).drop_last() =~= sigs.take(i as int));
            assert(sigs.take(i + 1).last() == table@[i as int]@);
            lemma_first_match_extends(bytes@, sigs, i + 1);
        }
        if hit {
            return Some(i);
        }
        i += 1;
    }
    proof {
        assert(sigs.take(table.len() as int) =~= sigs);
    }
    None
}

/// A match found in a prefix of the table is the match of the whole table.
pub proof fn lemma_first_match_extends(bytes: Seq<u8>, table: Seq<Signature>, n: int)
    requires
        0 <= n <= table.len(),
    ensures
        first_match(bytes, table.take(n)) is Some ==> first_match(bytes, table) == first_match(
            bytes,
            table.take(n),
        ),
    decreases table.len() - n,
{
    if n == table.len() {
        assert(table.take(n) =~= table);
    } else {
        lemma_first_match_extends(bytes, table, n + 1);
        assert(table.take(n + 1).drop_last() =~= table.take(n));
    }
}

/// A signature from its three parts.
pub open spec fn signature(offset: nat, magic: Seq<u8>, description: Seq<char>) -> Signature {
    Signature { offset, magic, description }
}

/// The built-in signatures, in order of precedence: the first entry that a
/// buffer matches decides, whatever the offsets and lengths of later ones.
pub open spec fn signature_table() -> Seq<Signature> {
    seq![
        signature(0, seq![0x89u8, 0x50u8, 0x4Eu8, 0x47u8], "PNG image"@),
        signature(0, seq![0xFFu8, 0xD8u8, 0xFFu8], "JPEG image"@),
        signature(0, seq![0x47u8, 0x49u8, 0x46u8, 0x38u8], "GIF image"@),
        signature(0, seq![0x25u8, 0x50u8, 0x44u8, 0x46u8], "PDF document"@),
        signature(0, seq![0x50u8, 0x4Bu8, 0x03u8, 0x04u8], "ZIP archive"@),
        signature(0, seq![0x1Fu8, 0x8Bu8], "Gzip archive"@),
        signature(0, seq![0x42u8, 0x5Au8, 0x68u8], "Bzip2 archive"@),
        signature(0, seq![0x37u8, 0x7Au8, 0xBCu8, 0xAFu8, 0x27u8, 0x1Cu8], "7-Zip archive"@),
        signature(0, seq![0x7Fu8, 0x45u8, 0x4Cu8, 0x46u8], "ELF executable"@),
        signature(0, seq![0x00u8, 0x61u8, 0x73u8, 0x6Du8], "WebAssembly binary"@),
        signature(0, seq![0x42u8, 0x4Du8], "BMP image"@),
        signature(257, seq![0x75u8, 0x73u8, 0x74u8, 0x61u8, 0x72u8], "TAR archive"@),
    ]
}

/// The built-in signature table.
pub fn get_magic_numbers() -> (table: Vec<MagicNumber>)
    ensures
        signatures_of(table@) == signature_table(),
{
    let mut table: Vec<MagicNumber> = Vec::new();
    table.push(
        MagicNumber {
            offset: 0,
            magic: vec![0x89u8, 0x50u8, 0x4Eu8, 0x47u8],
            description: "PNG image",
        },
    );
    table.push(
        MagicNumber {
            offset: 0,
            magic: vec![0xFFu8, 0xD8u8, 0xFFu8],
            description: "JPEG image",
        },
    );
    table.push(
        MagicNumber {
            offset: 0,
            magic: vec![0x47u8, 0x49u8, 0x46u8, 0x38u8],
            description: "GIF image",
        },
    );
    table.push(
        MagicNumber {
            offset: 0,
            magic: vec![0x25u8, 0x50u8, 0x44u8, 0x46u8],
            description: "PDF document",
        },
    );
    table.push(
        MagicNumber {
            offset: 0,
            magic: vec![0x50u8, 0x4Bu8, 0x03u8, 0x04u8],
            description: "ZIP archive",
        },
    );
    table.push(
        MagicNumber {
            offset: 0,
            magic: vec![0x1Fu8, 0x8Bu8],
            description: "Gzip archive",
        },
    );
    table.push(
        MagicNumber {
            offset: 0,
            magic: vec![0x42u8, 0x5Au8, 0x68u8],
            description: "Bzip2 archive",
        },
    );
    table.push(
        MagicNumber {
            offset: 0,
            magic: vec![0x37u8, 0x7Au8, 0xBCu8, 0xAFu8, 0x27u8, 0x1Cu8],
            description: "7-Zip archive",
        },
    );
    table.push(
        MagicNumber {
            offset: 0,
            magic: vec![0x7Fu8, 0x45u8, 0x4Cu8, 0x46u8],
            description: "ELF executable",
        },
    );
    table.push(
        MagicNumber {
            offset: 0,
            magic: vec![0x00u8, 0x61u8, 0x73u8, 0x6Du8],
            description: "WebAssembly binary",
        },
    );
    table.push(
        MagicNumber {
            offset: 0,
            magic: vec![0x42u8, 0x4Du8],
            description: "BMP image",
        },
    );
    table.push(
        MagicNumber {
            offset: 257,
            magic: vec![0x75u8, 0x73u8, 0x74u8, 0x61u8, 0x72u8],
            description: "TAR archive",
        },
    );
    proof {
        assert forall|i: int| 0 <= i < table.len() implies signatures_of(table@)[i].magic
            =~= signature_table()[i].magic by {}
        assert(signatures_of(table@) =~= signature_table());
    }
    table
}

} // verus!
