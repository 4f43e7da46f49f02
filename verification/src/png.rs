//! The chunk table of a PNG container: signature, then chunks of length,
//! type tag, payload and checksum.

use vstd::prelude::*;
use vstd::slice::slice_subrange;
use vstd::utf8::{decode_utf8, valid_utf8};
use crate::crc::{crc32_range, crc32_spec};
use crate::hex::{encode_hex_spaced, encode_hex_spaced_spec};
use crate::text::utf8_text;
use crate::word::{be_bytes, be_bytes_spec, be_u32_at, read_be_u32};

verus! {

/// Number of bytes of the signature.
pub const SIGNATURE_LEN: usize = 8;

/// Number of bytes of a chunk besides its payload: length, type tag and
/// checksum, four bytes each.
pub const CHUNK_OVERHEAD: usize = 12;

/// The eight bytes that every PNG container starts with.
pub open spec fn signature_spec() -> Seq<u8> {
    seq![0x89u8, 0x50u8, 0x4Eu8, 0x47u8, 0x0Du8, 0x0Au8, 0x1Au8, 0x0Au8]
}

/// The bytes start with the signature.
pub open spec fn has_signature(bytes: Seq<u8>) -> bool {
    bytes.len() >= SIGNATURE_LEN && bytes.take(SIGNATURE_LEN as int) == signature_spec()
}

/// One row of the chunk table.
#[derive(Clone, Copy, Debug, PartialEq, Eq)]
pub struct PngChunk {
    /// Position in the table.
    pub index: usize,
    /// Declared length of the payload; zero in the closing record of a
    /// truncated container.
    pub size: usize,
    /// The type tag; none in the closing record of a truncated container.
    pub type_tag: Option<[u8; 4]>,
    /// Offset of the first byte of the chunk.
    pub start: usize,
    /// Offset of the last byte of the chunk; in the closing record of a
    /// truncated container, the length of the buffer.
    pub end: usize,
    /// The checksum that the chunk declares; none in the closing record of a
    /// truncated container.
    pub crc: Option<u32>,
    /// Whether the declared checksum is the one computed over type tag and
    /// payload.
    pub crc_valid: bool,
}

/// The record of the chunk that starts at `offset`, all of which lies in
/// `bytes`.
pub open spec fn chunk_at(bytes: Seq<u8>, offset: int, index: nat) -> PngChunk
    recommends
        0 <= offset,
        offset + CHUNK_OVERHEAD + be_u32_at(bytes, offset) <= bytes.len(),
{
    let length = be_u32_at(bytes, offset) as int;
    let declared = be_u32_at(bytes, offset + 8 + length);
    PngChunk {
        index: index as usize,
        size: length as usize,
        type_tag: Some(
            [bytes[offset + 4], bytes[offset + 5], bytes[offset + 6], bytes[offset + 7]],
        ),
        start: offset as usize,
        end: (offset + 8 + length + 3) as usize,
        crc: Some(declared),
        crc_valid: declared == crc32_spec(bytes.subrange(offset + 4, offset + 8 + length)),
    }
}

/// The record that closes the table of a truncated container: it spans from
/// `offset` to the end of the buffer.
pub open spec fn out_of_bounds_chunk(len: nat, offset: int, index: nat) -> PngChunk {
    PngChunk {
        index: index as usize,
        size: 0,
        type_tag: None,
        start: offset as usize,
        end: len as usize,
        crc: None,
        crc_valid: false,
    }
}

/// The records of the chunks from `offset` on.
///
/// The walk goes on while at least twelve bytes remain. A chunk whose
/// declared length reaches past the end gives the closing record and ends
/// the walk.
pub open spec fn chunks_from(bytes: Seq<u8>, offset: int, index: nat) -> Seq<PngChunk>
    decreases bytes.len() - offset,
{
    if offset < 0 || offset + CHUNK_OVERHEAD > bytes.len() {
        Seq::empty()
    } else if offset + CHUNK_OVERHEAD + be_u32_at(bytes, offset) > bytes.len() {
        seq![out_of_bounds_chunk(bytes.len(), offset, index)]
    } else {
        seq![chunk_at(bytes, offset, index)] + chunks_from(
            bytes,
            offset + CHUNK_OVERHEAD + be_u32_at(bytes, offset),
            index + 1,
        )
    }
}

/// The chunk table of `bytes`, or nothing if they do not start with the
/// signature.
pub open spec fn parse_spec(bytes: Seq<u8>) -> Option<Seq<PngChunk>> {
    if has_signature(bytes) {
        Some(chunks_from(bytes, SIGNATURE_LEN as int, 0))
    } else {
        None
    }
}

/// The records lie in the buffer one behind the other from `offset` on:
/// each within the buffer, each but the last a whole chunk that ends just
/// before the next one starts, the closing record of a truncated container
/// reaching to the end of the buffer.
pub open spec fn tiles(chunks: Seq<PngChunk>, len: nat, offset: int) -> bool {
    &&& chunks.len() > 0 ==> chunks[0].start == offset
    &&& forall|i: int|
        0 <= i < chunks.len() ==> {
            let chunk = #[trigger] chunks[i];
            &&& offset <= chunk.start < chunk.end <= len
            &&& if chunk.out_of_bounds() {
                chunk.end == len && chunk.size == 0 && !chunk.crc_valid && i == chunks.len() - 1
            } else {
                chunk.end - chunk.start + 1 == chunk.size + CHUNK_OVERHEAD && chunk.end < len
                    && chunk.crc is Some
            }
        }
    &&& forall|i: int|
        0 <= i < chunks.len() - 1 ==> (#[trigger] chunks[i + 1]).start == chunks[i].end + 1
}

/// The chunk table tiles the buffer behind the signature.
pub proof fn lemma_chunks_tile(bytes: Seq<u8>, offset: int)
    requires
        0 <= offset <= bytes.len() <= usize::MAX,
    ensures
        forall|index: nat| tiles(#[trigger] chunks_from(bytes, offset, index), bytes.len(), offset),
    decreases bytes.len() - offset,
{
    assert forall|index: nat|
        tiles(#[trigger] chunks_from(bytes, offset, index), bytes.len(), offset) by {
        let chunks = chunks_from(bytes, offset, index);
        if offset + CHUNK_OVERHEAD > bytes.len() {
        } else if offset + CHUNK_OVERHEAD + be_u32_at(bytes, offset) > bytes.len() {
        } else {
            let next = offset + CHUNK_OVERHEAD + be_u32_at(bytes, offset);
            lemma_chunks_tile(bytes, next);
            let rest = chunks_from(bytes, next, index + 1);
            assert(tiles(rest, bytes.len(), next));
            let first = chunk_at(bytes, offset, index);
            assert(chunks =~= seq![first] + rest);
            assert(first.end + 1 == next);
            assert forall|i: int| 0 <= i < chunks.len() implies {
                let chunk = #[trigger] chunks[i];
                &&& offset <= chunk.start < chunk.end <= bytes.len()
                &&& if chunk.out_of_bounds() {
                    chunk.end == bytes.len() && chunk.size == 0 && !chunk.crc_valid && i
                        == chunks.len() - 1
                } else {
                    chunk.end - chunk.start + 1 == chunk.size + CHUNK_OVERHEAD && chunk.end
                        < bytes.len() && chunk.crc is Some
                }
            } by {
                if i > 0 {
                    assert(chunks[i] == rest[i - 1]);
                }
            }
            assert forall|i: int| 0 <= i < chunks.len() - 1 implies (#[trigger] chunks[i
                + 1]).start == chunks[i].end + 1 by {
                assert(chunks[i + 1] == rest[i]);
                if i > 0 {
                    assert(chunks[i] == rest[i - 1]);
                    assert(rest[(i - 1) + 1].start == rest[i - 1].end + 1);
                }
            }
        }
    }
}

/// Each record of the table stands at the position that it names.
pub proof fn lemma_chunks_indexed(bytes: Seq<u8>, offset: int, index: nat)
    requires
        0 <= offset <= bytes.len(),
        index + (bytes.len() - offset) <= usize::MAX,
    ensures
        forall|i: int|
            0 <= i < chunks_from(bytes, offset, index).len() ==> (#[trigger] chunks_from(
                bytes,
                offset,
                index,
            )[i]).index == index + i,
        chunks_from(bytes, offset, index).len() * CHUNK_OVERHEAD <= bytes.len() - offset,
    decreases bytes.len() - offset,
{
    let chunks = chunks_from(bytes, offset, index);
    if offset + CHUNK_OVERHEAD > bytes.len() {
    } else if offset + CHUNK_OVERHEAD + be_u32_at(bytes, offset) > bytes.len() {
    } else {
        let next = offset + CHUNK_OVERHEAD + be_u32_at(bytes, offset);
        lemma_chunks_indexed(bytes, next, index + 1);
        let rest = chunks_from(bytes, next, index + 1);
        assert(chunks =~= seq![chunk_at(bytes, offset, index)] + rest);
        assert forall|i: int| 0 <= i < chunks.len() implies (#[trigger] chunks[i]).index == index
            + i by {
            if i > 0 {
                assert(chunks[i] == rest[i - 1]);
            }
        }
    }
}

/// Text of a type tag: the tag read as UTF-8, or four question marks.
pub open spec fn tag_label_spec(tag: Seq<u8>) -> Seq<char> {
    if valid_utf8(tag) {
        decode_utf8(tag)
    } else {
        seq!['?', '?', '?', '?']
    }
}

impl PngChunk {
    /// Whether this is the closing record of a truncated container.
    pub open spec fn out_of_bounds(self) -> bool {
        self.type_tag is None
    }

    /// Tells whether this is the closing record of a truncated container.
    pub fn is_out_of_bounds(&self) -> (r: bool)
        ensures
            r == self.out_of_bounds(),
    {
        self.type_tag.is_none()
    }

    /// The offsets that the record spans, as a selection range.
    pub fn range(&self) -> (range: (usize, usize))
        ensures
            range == (self.start, self.end),
    {
        (self.start, self.end)
    }

    /// The type tag as text; the word `Invalid` in the closing record of a
    /// truncated container.
    pub open spec fn type_label_spec(self) -> Seq<char> {
        match self.type_tag {
            Some(tag) => tag_label_spec(tag@),
            None => seq!['I', 'n', 'v', 'a', 'l', 'i', 'd'],
        }
    }

    /// Formats the type tag as text.
    pub fn type_label(&self) -> (label: String)
        ensures
            label@ == self.type_label_spec(),
    {
        match self.type_tag {
            Some(tag) => {
                match utf8_text(tag.as_slice()) {
                    Some(text) => text,
                    None => {
                        proof {
                            reveal_strlit("????");
                        }
                        assert("????"@ =~= seq!['?', '?', '?', '?']);
                        String::from_str("????")
                    },
                }
            },
            None => {
                proof {
                    reveal_strlit("Invalid");
                }
                assert("Invalid"@ =~= seq!['I', 'n', 'v', 'a', 'l', 'i', 'd']);
                String::from_str("Invalid")
            },
        }
    }

    /// The declared checksum as four hexadecimal pairs; the words `Out of
    /// bound` in the closing record of a truncated container.
    pub open spec fn crc_label_spec(self) -> Seq<char> {
        match self.crc {
            Some(crc) => encode_hex_spaced_spec(be_bytes_spec(crc)),
            None => seq!['O', 'u', 't', ' ', 'o', 'f', ' ', 'b', 'o', 'u', 'n', 'd'],
        }
    }

    /// Formats the declared checksum.
    pub fn crc_label(&self) -> (label: String)
        ensures
            label@ == self.crc_label_spec(),
    {
        match self.crc {
            Some(crc) => {
                let bytes = be_bytes(crc);
                encode_hex_spaced(bytes.as_slice())
            },
            None => {
                proof {
                    reveal_strlit("Out of bound");
                }
                assert("Out of bound"@ =~= seq![
                    'O',
                    'u',
                    't',
                    ' ',
                    'o',
                    'f',
                    ' ',
                    'b',
                    'o',
                    'u',
                    'n',
                    'd',
                ]);
                String::from_str("Out of bound")
            },
        }
    }
}

/// Whether `bytes` start with the signature.
pub fn starts_with_signature(bytes: &[u8]) -> (r: bool)
    ensures
        r == has_signature(bytes@),
{
    if bytes.len() < SIGNATURE_LEN {
        return false;
    }
    let r = bytes[0] == 0x89 && bytes[1] == 0x50 && bytes[2] == 0x4E && bytes[3] == 0x47
        && bytes[4] == 0x0D && bytes[5] == 0x0A && bytes[6] == 0x1A && bytes[7] == 0x0A;
    proof {
        let head = bytes@.take(SIGNATURE_LEN as int);
        if r {
            assert(head =~= signature_spec());
        } else {
            assert(head[0] == bytes@[0] && head[1] == bytes@[1] && head[2] == bytes@[2] && head[3]
                == bytes@[3] && head[4] == bytes@[4] && head[5] == bytes@[5] && head[6]
                == bytes@[6] && head[7] == bytes@[7]);
        }
    }
    r
}

/// The signature and the chunk table of a PNG container.
#[derive(Debug)]
pub struct PngData {
    /// The chunk table.
    pub chunks: Vec<PngChunk>,
    /// The signature as hexadecimal pairs.
    pub signature: String,
}

impl PngData {
    /// Walks the chunks of `binary_data`.
    ///
    /// Gives nothing if the data do not start with the signature. A wrong
    /// checksum is recorded in the chunk's record and the walk goes on; a
    /// chunk that reaches past the end of the data gives the closing record.
    pub fn parse(binary_data: &[u8]) -> (parsed: Option<Self>)
        ensures
            match parsed {
                Some(data) => parse_spec(binary_data@) == Some(data.chunks@) && data.signature@
                    == encode_hex_spaced_spec(signature_spec()) && tiles(
                    data.chunks@,
                    binary_data@.len(),
                    SIGNATURE_LEN as int,
                ),
                None => parse_spec(binary_data@) is None,
            },
    {
        if !starts_with_signature(binary_data) {
            return None;
        }
        let len = binary_data.len();
        let signature = encode_hex_spaced(slice_subrange(binary_data, 0, SIGNATURE_LEN));
        let mut chunks: Vec<PngChunk> = Vec::new();
        let mut offset: usize = SIGNATURE_LEN;
        let mut done = false;
        while !done && len - offset >= CHUNK_OVERHEAD
            invariant
                len == binary_data@.len(),
                SIGNATURE_LEN <= offset <= len,
                !done ==> chunks_from(binary_data@, SIGNATURE_LEN as int, 0) == chunks@
                    + chunks_from(binary_data@, offset as int, chunks@.len()),
                done ==> chunks_from(binary_data@, SIGNATURE_LEN as int, 0) == chunks@,
            decreases (if done { 0 } else { 1 + len - offset }),
        {
            let index = chunks.len();
            let length = read_be_u32(binary_data, offset) as usize;
            let ghost before = chunks@;
            if length > len - offset - CHUNK_OVERHEAD {
                chunks.push(
                    PngChunk {
                        index,
                        size: 0,
                        type_tag: None,
                        start: offset,
                        end: len,
                        crc: None,
                        crc_valid: false,
                    },
                );
                assert(chunks@ =~= before + chunks_from(binary_data@, offset as int, before.len()));
                done = true;
            } else {
                let data_end = offset + 8 + length;
                let declared = read_be_u32(binary_data, data_end);
                let computed = crc32_range(binary_data, offset + 4, data_end);
                chunks.push(
                    PngChunk {
                        index,
                        size: length,
                        type_tag: Some(
                            [
                                binary_data[offset + 4],
                                binary_data[offset + 5],
                                binary_data[offset + 6],
                                binary_data[offset + 7],
                            ],
                        ),
                        start: offset,
                        end: data_end + 3,
                        crc: Some(declared),
                        crc_valid: declared == computed,
                    },
                );
                assert(before + chunks_from(binary_data@, offset as int, before.len()) =~= chunks@
                    + chunks_from(binary_data@, offset + CHUNK_OVERHEAD + length, chunks@.len()));
                offset += CHUNK_OVERHEAD + length;
            }
        }
        assert(chunks_from(binary_data@, SIGNATURE_LEN as int, 0) =~= chunks@);
        proof {
            lemma_chunks_tile(binary_data@, SIGNATURE_LEN as int);
        }
        assert(binary_data@.subrange(0, SIGNATURE_LEN as int) =~= signature_spec());
        Some(PngData { chunks, signature })
    }

    /// The offsets of the signature, as a selection range.
    pub fn signature_range() -> (range: (usize, usize))
        ensures
            range == (0usize, (SIGNATURE_LEN - 1) as usize),
    {
        (0, SIGNATURE_LEN - 1)
    }
}

} // verus!
