//! Four-byte words: their value in either byte order, and the character a
//! word stands for, if any.

use vstd::prelude::*;

verus! {

/// `char::from_u32` gives the character with scalar value `i`, and nothing
/// for a surrogate or a value past the last code point.
pub assume_specification[ char::from_u32 ](i: u32) -> (c: Option<char>)
    ensures
        c == scalar_char(i),
;

/// The character with scalar value `i`, if `i` is a Unicode scalar value.
pub open spec fn scalar_char(i: u32) -> Option<char> {
    if i <= 0xD7FF || (0xE000 <= i && i <= 0x10FFFF) {
        Some(i as char)
    } else {
        None
    }
}

/// Value of four bytes read with the most significant byte first.
pub open spec fn be_u32_spec(b0: u8, b1: u8, b2: u8, b3: u8) -> u32 {
    (b0 as int * 0x100_0000 + b1 as int * 0x1_0000 + b2 as int * 0x100 + b3 as int) as u32
}

/// Value of four bytes read with the least significant byte first.
pub open spec fn le_u32_spec(b0: u8, b1: u8, b2: u8, b3: u8) -> u32 {
    be_u32_spec(b3, b2, b1, b0)
}

/// Value of the four bytes of `bytes` that start at `at`, most significant
/// byte first.
pub open spec fn be_u32_at(bytes: Seq<u8>, at: int) -> u32
    recommends
        0 <= at,
        at + 4 <= bytes.len(),
{
    be_u32_spec(bytes[at], bytes[at + 1], bytes[at + 2], bytes[at + 3])
}

/// Value of the four bytes of `bytes` that start at `at`, least significant
/// byte first.
pub open spec fn le_u32_at(bytes: Seq<u8>, at: int) -> u32
    recommends
        0 <= at,
        at + 4 <= bytes.len(),
{
    le_u32_spec(bytes[at], bytes[at + 1], bytes[at + 2], bytes[at + 3])
}

/// Reads four bytes as a word, most significant byte first.
pub fn be_u32(b0: u8, b1: u8, b2: u8, b3: u8) -> (word: u32)
    ensures
        word == be_u32_spec(b0, b1, b2, b3),
{
    (b0 as u32) * 0x100_0000 + (b1 as u32) * 0x1_0000 + (b2 as u32) * 0x100 + (b3 as u32)
}

/// Reads four bytes as a word, least significant byte first.
pub fn le_u32(b0: u8, b1: u8, b2: u8, b3: u8) -> (word: u32)
    ensures
        word == le_u32_spec(b0, b1, b2, b3),
{
    be_u32(b3, b2, b1, b0)
}

/// Reads the word that starts at `at`, most significant byte first.
pub fn read_be_u32(bytes: &[u8], at: usize) -> (word: u32)
    requires
        at + 4 <= bytes@.len(),
    ensures
        word == be_u32_at(bytes@, at as int),
{
    be_u32(bytes[at], bytes[at + 1], bytes[at + 2], bytes[at + 3])
}

/// Reads the word that starts at `at`, least significant byte first.
pub fn read_le_u32(bytes: &[u8], at: usize) -> (word: u32)
    requires
        at + 4 <= bytes@.len(),
    ensures
        word == le_u32_at(bytes@, at as int),
{
    le_u32(bytes[at], bytes[at + 1], bytes[at + 2], bytes[at + 3])
}

/// The four bytes of a word, most significant first.
pub open spec fn be_bytes_spec(word: u32) -> Seq<u8> {
    seq![
        (word as int / 0x100_0000) as u8,
        (word as int / 0x1_0000 % 0x100) as u8,
        (word as int / 0x100 % 0x100) as u8,
        (word as int % 0x100) as u8,
    ]
}

/// Splits a word into its four bytes, most significant first.
pub fn be_bytes(word: u32) -> (bytes: Vec<u8>)
    ensures
        bytes@ == be_bytes_spec(word),
{
    let mut bytes: Vec<u8> = Vec::new();
    bytes.push((word / 0x100_0000) as u8);
    bytes.push((word / 0x1_0000 % 0x100) as u8);
    bytes.push((word / 0x100 % 0x100) as u8);
    bytes.push((word % 0x100) as u8);
    assert(bytes@ =~= be_bytes_spec(word));
    bytes
}

/// Reading the bytes of a word back gives the word.
pub proof fn lemma_be_bytes_round_trip(word: u32)
    ensures
        be_u32_at(be_bytes_spec(word), 0) == word,
{
    let w = word as int;
    assert(w == (w / 0x100_0000) * 0x100_0000 + (w / 0x1_0000 % 0x100) * 0x1_0000 + (w / 0x100
        % 0x100) * 0x100 + w % 0x100);
}

/// The bytes of a word that was read from four bytes are those bytes.
pub proof fn lemma_be_u32_round_trip(b0: u8, b1: u8, b2: u8, b3: u8)
    ensures
        be_bytes_spec(be_u32_spec(b0, b1, b2, b3)) == seq![b0, b1, b2, b3],
{
    let word = be_u32_spec(b0, b1, b2, b3);
    assert(word == b0 as u32 * 0x100_0000 + b1 as u32 * 0x1_0000 + b2 as u32 * 0x100 + b3 as u32);
    assert(word / 0x100_0000 == b0 && word / 0x1_0000 % 0x100 == b1 && word / 0x100 % 0x100 == b2
        && word % 0x100 == b3) by (bit_vector)
        requires
            word == b0 as u32 * 0x100_0000 + b1 as u32 * 0x1_0000 + b2 as u32 * 0x100 + b3 as u32,
    ;
    assert(be_bytes_spec(word) =~= seq![b0, b1, b2, b3]);
}

} // verus!
