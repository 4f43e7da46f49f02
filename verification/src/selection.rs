//! The selected range of byte offsets and how clicks, buffer changes and
//! deletions move it.

use vstd::prelude::*;
use crate::word::{be_u32_at, le_u32_at, read_be_u32, read_le_u32, scalar_char};

verus! {

/// An inclusive range of offsets, or none.
pub type SelectionRange = Option<(usize, usize)>;

/// The range, if any, does not end before it starts.
pub open spec fn range_ordered(range: SelectionRange) -> bool {
    match range {
        Some((start, end)) => start <= end,
        None => true,
    }
}

/// The range, if any, is ordered and lies inside a buffer of `len` bytes.
pub open spec fn range_within(range: SelectionRange, len: nat) -> bool {
    match range {
        Some((start, end)) => start <= end < len,
        None => true,
    }
}

/// The range after a click on `current`.
///
/// Without a selection the clicked byte becomes the selection. A plain click
/// on the start clears it; a plain click elsewhere selects that byte alone.
/// An extending click on the start collapses the range onto it, one before
/// the start moves the start, one past the end or strictly inside moves the
/// end, and one on the end of a longer range changes nothing.
pub open spec fn click_spec(range: SelectionRange, current: usize, extend: bool) -> SelectionRange {
    match range {
        None => Some((current, current)),
        Some((start, end)) => if !extend {
            if current == start {
                None
            } else {
                Some((current, current))
            }
        } else if current == start {
            Some((current, current))
        } else if current < start {
            Some((current, end))
        } else if current > end || (start < current && current < end) {
            Some((start, current))
        } else {
            Some((start, end))
        },
    }
}

/// The range after the buffer was replaced by one of `len` bytes: cleared
/// when the buffer is empty, else both ends limited to the last offset.
pub open spec fn clamp_spec(range: SelectionRange, len: nat) -> SelectionRange {
    match range {
        None => None,
        Some((start, end)) => if len == 0 {
            None
        } else {
            Some(
                (
                    if start >= len {
                        (len - 1) as usize
                    } else {
                        start
                    },
                    if end >= len {
                        (len - 1) as usize
                    } else {
                        end
                    },
                ),
            )
        },
    }
}

/// Offset on which the selection rests after the bytes from `start` on were
/// deleted: the byte before them, or the first byte.
pub open spec fn offset_after_delete(start: usize) -> usize {
    if start == 0 {
        0
    } else {
        (start - 1) as usize
    }
}

/// The range after its bytes were deleted, the buffer now holding `len`
/// bytes: cleared when nothing is left, else the single byte at
/// `offset_after_delete`.
pub open spec fn after_delete_spec(range: SelectionRange, len: nat) -> SelectionRange {
    match range {
        None => None,
        Some((start, _)) => if len == 0 {
            None
        } else {
            Some((offset_after_delete(start), offset_after_delete(start)))
        },
    }
}

/// Number of bytes in the range; none for an empty or inverted range.
pub open spec fn selected_count_spec(range: SelectionRange) -> nat {
    match range {
        Some((start, end)) => if start <= end {
            (end - start + 1) as nat
        } else {
            0
        },
        None => 0,
    }
}

/// The bytes of the range, if it is ordered and lies inside `bytes`.
pub open spec fn selected_bytes_spec(bytes: Seq<u8>, range: SelectionRange) -> Option<Seq<u8>> {
    match range {
        Some((start, end)) => if start <= end < bytes.len() {
            Some(bytes.subrange(start as int, end + 1))
        } else {
            None
        },
        None => None,
    }
}

/// `bytes` without the offsets `start..=end`.
pub open spec fn remove_range_spec(bytes: Seq<u8>, start: int, end: int) -> Seq<u8>
    recommends
        0 <= start <= end < bytes.len(),
{
    bytes.take(start) + bytes.skip(end + 1)
}

/// Computes the range after a click on `current`.
pub fn click_range(range: SelectionRange, current: usize, extend: bool) -> (next: SelectionRange)
    ensures
        next == click_spec(range, current, extend),
        range_ordered(range) ==> range_ordered(next),
        forall|len: nat| range_within(range, len) && current < len ==> range_within(next, len),
{
    match range {
        None => Some((current, current)),
        Some((start, end)) => {
            if !extend {
                if current == start {
                    None
                } else {
                    Some((current, current))
                }
            } else if current == start {
                Some((current, current))
            } else if current < start {
                Some((current, end))
            } else if current > end || (start < current && current < end) {
                Some((start, current))
            } else {
                Some((start, end))
            }
        },
    }
}

/// Computes the range after the buffer was replaced by one of `len` bytes.
pub fn clamp_range(range: SelectionRange, len: usize) -> (next: SelectionRange)
    ensures
        next == clamp_spec(range, len as nat),
        range_ordered(range) ==> range_within(next, len as nat),
        range_within(range, len as nat) ==> next == range,
{
    match range {
        None => None,
        Some((start, end)) => {
            if len == 0 {
                None
            } else {
                let last = len - 1;
                Some((if start >= len { last } else { start }, if end >= len { last } else { end }))
            }
        },
    }
}

/// Computes the range after its bytes were deleted from a buffer that now
/// holds `len` bytes.
pub fn range_after_delete(range: SelectionRange, len: usize) -> (next: SelectionRange)
    ensures
        next == after_delete_spec(range, len as nat),
        range_ordered(next),
{
    match range {
        None => None,
        Some((start, _)) => {
            if len == 0 {
                None
            } else {
                let rest = if start == 0 { 0 } else { start - 1 };
                Some((rest, rest))
            }
        },
    }
}

/// Where the selection rests after a deletion, it lies inside what is left.
pub proof fn lemma_after_delete_within(range: SelectionRange, len: nat)
    requires
        range_within(range, len),
        range is Some,
    ensures
        range_within(
            after_delete_spec(range, (len - selected_count_spec(range)) as nat),
            (len - selected_count_spec(range)) as nat,
        ),
{
}

/// Counts the bytes of the range.
pub fn selected_count(range: SelectionRange) -> (count: u128)
    ensures
        count == selected_count_spec(range),
{
    match range {
        Some((start, end)) => {
            if start <= end {
                (end - start) as u128 + 1
            } else {
                0
            }
        },
        None => 0,
    }
}

/// Copies the bytes of the range out of `bytes`.
pub fn selected_bytes(bytes: &[u8], range: SelectionRange) -> (chosen: Option<Vec<u8>>)
    ensures
        match chosen {
            Some(v) => selected_bytes_spec(bytes@, range) == Some(v@),
            None => selected_bytes_spec(bytes@, range) is None,
        },
{
    match range {
        Some((start, end)) => {
            if start <= end && end < bytes.len() {
                let mut chosen: Vec<u8> = Vec::new();
                let mut at: usize = start;
                while at <= end
                    invariant
                        start <= at <= end + 1,
                        end < bytes.len(),
                        chosen@ == bytes@.subrange(start as int, at as int),
                    decreases end + 1 - at,
                {
                    chosen.push(bytes[at]);
                    assert(chosen@ =~= bytes@.subrange(start as int, at + 1));
                    at += 1;
                }
                Some(chosen)
            } else {
                None
            }
        },
        None => None,
    }
}

/// Copies `bytes` without the offsets `start..=end`.
pub fn remove_range(bytes: &[u8], start: usize, end: usize) -> (rest: Vec<u8>)
    requires
        start <= end < bytes@.len(),
    ensures
        rest@ == remove_range_spec(bytes@, start as int, end as int),
        rest.len() == bytes@.len() - (end - start + 1),
{
    let mut rest: Vec<u8> = Vec::new();
    let mut at: usize = 0;
    while at < start
        invariant
            at <= start < bytes.len(),
            rest@ == bytes@.take(at as int),
        decreases start - at,
    {
        rest.push(bytes[at]);
        assert(rest@ =~= bytes@.take(at + 1));
        at += 1;
    }
    at = end + 1;
    while at < bytes.len()
        invariant
            end < at <= bytes.len(),
            rest@ == bytes@.take(start as int) + bytes@.subrange(end + 1, at as int),
        decreases bytes.len() - at,
    {
        rest.push(bytes[at]);
        assert(rest@ =~= bytes@.take(start as int) + bytes@.subrange(end + 1, at + 1));
        at += 1;
    }
    assert(bytes@.subrange(end + 1, bytes@.len() as int) =~= bytes@.skip(end + 1));
    rest
}

/// The characters that a selection of exactly four bytes stands for.
#[derive(Clone, Copy, Debug, PartialEq, Eq, Structural)]
pub struct WordChars {
    /// Read with the least significant byte first.
    pub little_endian: Option<char>,
    /// Read with the most significant byte first.
    pub big_endian: Option<char>,
}

/// The characters of the selected word, if the range holds exactly four
/// bytes of `bytes`.
pub open spec fn word_chars_spec(bytes: Seq<u8>, range: SelectionRange) -> Option<WordChars> {
    match range {
        Some((start, end)) => if start <= end && end - start + 1 == 4 && end < bytes.len() {
            Some(
                WordChars {
                    little_endian: scalar_char(le_u32_at(bytes, start as int)),
                    big_endian: scalar_char(be_u32_at(bytes, start as int)),
                },
            )
        } else {
            None
        },
        None => None,
    }
}

/// Reads a selection of exactly four bytes as a character in either byte
/// order.
pub fn word_chars(bytes: &[u8], range: SelectionRange) -> (chars: Option<WordChars>)
    ensures
        chars == word_chars_spec(bytes@, range),
{
    match range {
        Some((start, end)) => {
            if start <= end && end - start == 3 && end < bytes.len() {
                Some(
                    WordChars {
                        little_endian: char::from_u32(read_le_u32(bytes, start)),
                        big_endian: char::from_u32(read_be_u32(bytes, start)),
                    },
                )
            } else {
                None
            }
        },
        None => None,
    }
}

/// The selected range.
#[derive(Clone, Copy, Debug, PartialEq, Eq)]
pub struct Selection {
    /// The selected offsets, first and last.
    pub range: SelectionRange,
}

impl Selection {
    /// No selection.
    pub fn new() -> (selection: Self)
        ensures
            selection.range is None,
    {
        Selection { range: None }
    }

    /// Clears the selection.
    pub fn reset(&mut self)
        ensures
            final(self).range is None,
    {
        self.range = None;
    }

    /// Applies a click on `current` and returns the new range.
    pub fn click(&mut self, current: usize, extend: bool) -> (next: SelectionRange)
        ensures
            next == click_spec(old(self).range, current, extend),
            final(self).range == next,
            range_ordered(old(self).range) ==> range_ordered(next),
            forall|len: nat|
                range_within(old(self).range, len) && current < len ==> range_within(next, len),
    {
        let next = click_range(self.range, current, extend);
        self.range = next;
        next
    }

    /// Adapts the selection to a buffer of `len` bytes.
    pub fn clamp(&mut self, len: usize)
        ensures
            final(self).range == clamp_spec(old(self).range, len as nat),
            range_ordered(old(self).range) ==> range_within(final(self).range, len as nat),
    {
        self.range = clamp_range(self.range, len);
    }
}

impl Default for Selection {
    fn default() -> (selection: Self)
        ensures
            selection.range is None,
    {
        Selection::new()
    }
}

} // verus!
