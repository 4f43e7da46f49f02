//! How often each byte value occurs in a buffer.

use std::collections::HashMap;
use vstd::prelude::*;
use vstd::multiset::{
    axiom_count_le_len,
    lemma_insert_increases_count_by_1,
    lemma_insert_other_elements_unchanged,
};
use vstd::seq_lib::{to_multiset_build, to_multiset_len};

verus! {

/// Number of byte values, and so of buckets.
pub const BUCKETS: usize = 256;

/// How often `byte` occurs in `bytes`.
pub open spec fn occurrences(bytes: Seq<u8>, byte: u8) -> nat {
    bytes.to_multiset().count(byte)
}

/// The table of `bytes`: every byte value with the number of its
/// occurrences, be it zero.
pub open spec fn histogram_spec(bytes: Seq<u8>) -> Map<u8, nat> {
    Map::new(|byte: u8| true, |byte: u8| occurrences(bytes, byte))
}

/// One more byte adds one to its own count and leaves the others.
pub proof fn lemma_occurrences_push(bytes: Seq<u8>, last: u8, byte: u8)
    ensures
        occurrences(bytes.push(last), byte) == occurrences(bytes, byte) + if byte == last {
            1nat
        } else {
            0nat
        },
        occurrences(bytes, byte) <= bytes.len(),
{
    to_multiset_build(bytes, last);
    to_multiset_len(bytes);
    axiom_count_le_len(bytes.to_multiset(), byte);
    if byte == last {
        lemma_insert_increases_count_by_1(bytes.to_multiset(), last);
    } else {
        lemma_insert_other_elements_unchanged(bytes.to_multiset(), last, byte);
    }
}

/// Nothing occurs in an empty buffer.
pub proof fn lemma_occurrences_of_empty(byte: u8)
    ensures
        occurrences(Seq::<u8>::empty(), byte) == 0,
{
    to_multiset_len(Seq::<u8>::empty());
    axiom_count_le_len(Seq::<u8>::empty().to_multiset(), byte);
}

/// How often the byte values below `upto` occur in `bytes`, taken together.
pub open spec fn occurrences_below(bytes: Seq<u8>, upto: int) -> nat
    decreases upto,
{
    if upto <= 0 {
        0
    } else {
        occurrences_below(bytes, upto - 1) + occurrences(bytes, (upto - 1) as u8)
    }
}

/// One more byte adds one to the occurrences below a bound that lies above
/// it, and nothing below any other bound.
proof fn lemma_occurrences_below_push(bytes: Seq<u8>, last: u8, upto: int)
    requires
        0 <= upto <= BUCKETS,
    ensures
        occurrences_below(bytes.push(last), upto) == occurrences_below(bytes, upto) + if last
            < upto {
            1nat
        } else {
            0nat
        },
    decreases upto,
{
    if upto > 0 {
        lemma_occurrences_below_push(bytes, last, upto - 1);
        lemma_occurrences_push(bytes, last, (upto - 1) as u8);
    }
}

/// The counts of all byte values add up to the length of the buffer.
pub proof fn lemma_occurrences_add_up(bytes: Seq<u8>)
    ensures
        occurrences_below(bytes, BUCKETS as int) == bytes.len(),
    decreases bytes.len(),
{
    if bytes.len() == 0 {
        assert(bytes =~= Seq::<u8>::empty());
        lemma_nothing_below(BUCKETS as int);
    } else {
        lemma_occurrences_add_up(bytes.drop_last());
        lemma_occurrences_below_push(bytes.drop_last(), bytes.last(), BUCKETS as int);
        assert(bytes.drop_last().push(bytes.last()) =~= bytes);
    }
}

/// Nothing occurs in an empty buffer, whatever the bound.
proof fn lemma_nothing_below(upto: int)
    requires
        0 <= upto <= BUCKETS,
    ensures
        occurrences_below(Seq::<u8>::empty(), upto) == 0,
    decreases upto,
{
    if upto > 0 {
        lemma_nothing_below(upto - 1);
        lemma_occurrences_of_empty((upto - 1) as u8);
    }
}

/// The hasher of the table, `ahash::RandomState`.
#[verifier::external_type_specification]
#[verifier::external_body]
pub struct ExRandomState(ahash::RandomState);

/// No counts at all.
pub open spec fn no_counts() -> Map<u8, usize> {
    Map::empty()
}

/// What a table holds for `byte`.
pub open spec fn count_in(counts: Map<u8, usize>, byte: u8) -> Option<usize> {
    if counts.contains_key(byte) {
        Some(counts[byte])
    } else {
        None
    }
}

/// `HashMapExt::new` gives a map that holds nothing.
#[verifier::external_body]
fn new_counts() -> (counts: HashMap<u8, usize, ahash::RandomState>)
    ensures
        counts@ == no_counts(),
{
    ahash::HashMapExt::new()
}

/// `HashMap::get` gives the value that the map holds for the key, and
/// nothing for a key that it does not hold.
#[verifier::external_body]
fn get_count(counts: &HashMap<u8, usize, ahash::RandomState>, byte: u8) -> (count: Option<usize>)
    ensures
        count == count_in(counts@, byte),
{
    counts.get(&byte).copied()
}

/// `HashMap::insert` makes the map hold the value for the key and leaves
/// what it holds for other keys.
#[verifier::external_body]
fn set_count(counts: &mut HashMap<u8, usize, ahash::RandomState>, byte: u8, count: usize)
    ensures
        final(counts)@ == old(counts)@.insert(byte, count),
{
    counts.insert(byte, count);
}

/// A count for each of the 256 byte values.
#[derive(Debug)]
pub struct HistogramTable {
    counts: HashMap<u8, usize, ahash::RandomState>,
}

impl View for HistogramTable {
    type V = Map<u8, nat>;

    closed spec fn view(&self) -> Map<u8, nat> {
        Map::new(|byte: u8| true, |byte: u8| self.counts@[byte] as nat)
    }
}

impl HistogramTable {
    /// The table holds a count for every byte value, be it zero.
    #[verifier::type_invariant]
    spec fn has_all_buckets(self) -> bool {
        forall|byte: u8| self.counts@.contains_key(byte)
    }

    /// Every byte value has a count.
    pub proof fn lemma_total(self)
        ensures
            forall|byte: u8| self@.dom().contains(byte),
    {
    }

    /// How often `byte` occurs.
    pub fn count(&self, byte: u8) -> (count: usize)
        ensures
            count == self@[byte],
    {
        proof {
            use_type_invariant(self);
        }
        match get_count(&self.counts, byte) {
            Some(count) => count,
            None => 0,
        }
    }

    /// The counts in the order of the byte values.
    pub fn counts(&self) -> (counts: Vec<usize>)
        ensures
            counts.len() == BUCKETS,
            forall|byte: u8| #[trigger] counts[byte as int] == self@[byte],
    {
        let mut counts: Vec<usize> = Vec::new();
        let mut bucket: usize = 0;
        while bucket < BUCKETS
            invariant
                bucket <= BUCKETS,
                counts.len() == bucket,
                forall|byte: u8| byte < bucket ==> #[trigger] counts[byte as int] == self@[byte],
            decreases BUCKETS - bucket,
        {
            counts.push(self.count(bucket as u8));
            bucket += 1;
        }
        counts
    }

    /// The smallest count of any byte value.
    pub fn min_count(&self) -> (least: usize)
        ensures
            forall|byte: u8| least <= #[trigger] self@[byte],
            exists|byte: u8| least == #[trigger] self@[byte],
    {
        let counts = self.counts();
        let mut least = counts[0];
        let ghost mut witness: u8 = 0;
        let mut bucket: usize = 1;
        while bucket < BUCKETS
            invariant
                1 <= bucket <= BUCKETS,
                counts.len() == BUCKETS,
                forall|i: int| 0 <= i < bucket ==> least <= #[trigger] counts[i],
                least == counts[witness as int],
            decreases BUCKETS - bucket,
        {
            if counts[bucket] < least {
                least = counts[bucket];
                proof {
                    witness = bucket as u8;
                }
            }
            bucket += 1;
        }
        assert(least == self@[witness]);
        assert forall|byte: u8| least <= #[trigger] self@[byte] by {
            assert(counts[byte as int] == self@[byte]);
        }
        least
    }

    /// The largest count of any byte value.
    pub fn max_count(&self) -> (most: usize)
        ensures
            forall|byte: u8| most >= #[trigger] self@[byte],
            exists|byte: u8| most == #[trigger] self@[byte],
    {
        let counts = self.counts();
        let mut most = counts[0];
        let ghost mut witness: u8 = 0;
        let mut bucket: usize = 1;
        while bucket < BUCKETS
            invariant
                1 <= bucket <= BUCKETS,
                counts.len() == BUCKETS,
                forall|i: int| 0 <= i < bucket ==> most >= #[trigger] counts[i],
                most == counts[witness as int],
            decreases BUCKETS - bucket,
        {
            if counts[bucket] > most {
                most = counts[bucket];
                proof {
                    witness = bucket as u8;
                }
            }
            bucket += 1;
        }
        assert(most == self@[witness]);
        assert forall|byte: u8| most >= #[trigger] self@[byte] by {
            assert(counts[byte as int] == self@[byte]);
        }
        most
    }
}

/// The histogram window: whether it is shown, how its bars lie, and the
/// table once it was computed.
#[derive(Debug)]
pub struct Histogram {
    /// Whether the window is shown.
    pub is_open: bool,
    /// The table, until the buffer changes.
    pub data: Option<HistogramTable>,
    /// Whether the bars stand upright.
    pub vertical: bool,
}

impl Histogram {
    /// The table, if there is one, is the table of `bytes`.
    pub open spec fn fresh_for(self, bytes: Seq<u8>) -> bool {
        self.data is Some ==> self.data->Some_0@ == histogram_spec(bytes)
    }

    /// Create empty histogram
    pub fn new() -> (histogram: Self)
        ensures
            !histogram.is_open,
            histogram.data is None,
            !histogram.vertical,
    {
        Histogram { is_open: false, data: None, vertical: false }
    }

    /// Calculate the histogram
    ///
    /// Counts the occurrences of each byte value in `binary_data`.
    pub fn calculate_histogram(binary_data: &[u8]) -> (table: HistogramTable)
        ensures
            table@ == histogram_spec(binary_data@),
    {
        let mut counts = new_counts();
        let mut at: usize = 0;
        proof {
            assert forall|byte: u8| occurrences(binary_data@.take(0), byte) == 0 by {
                assert(binary_data@.take(0) =~= Seq::<u8>::empty());
                lemma_occurrences_of_empty(byte);
            }
        }
        while at < binary_data.len()
            invariant
                at <= binary_data.len(),
                forall|byte: u8|
                    occurrences(binary_data@.take(at as int), byte) == match #[trigger] count_in(
                        counts@,
                        byte,
                    ) {
                        Some(count) => count as nat,
                        None => 0,
                    },
            decreases binary_data.len() - at,
        {
            let byte = binary_data[at];
            let ghost before = counts@;
            proof {
                let seen = binary_data@.take(at as int);
                assert(binary_data@.take(at + 1) =~= seen.push(byte));
                assert forall|other: u8|
                    occurrences(seen.push(byte), other) == occurrences(seen, other) + if other
                        == byte {
                        1nat
                    } else {
                        0nat
                    } && occurrences(seen, other) <= seen.len() by {
                    lemma_occurrences_push(seen, byte, other);
                }
                lemma_occurrences_push(seen, byte, byte);
            }
            let count = match get_count(&counts, byte) {
                Some(count) => count,
                None => 0,
            };
            assert(count == occurrences(binary_data@.take(at as int), byte));
            set_count(&mut counts, byte, count + 1);
            proof {
                assert forall|other: u8|
                    occurrences(binary_data@.take(at + 1), other) == match #[trigger] count_in(
                        counts@,
                        other,
                    ) {
                        Some(count) => count as nat,
                        None => 0,
                    } by {
                    let earlier = count_in(before, other);
                }
            }
            at += 1;
        }
        assert(binary_data@.take(at as int) =~= binary_data@);
        let mut bucket: usize = 0;
        while bucket < BUCKETS
            invariant
                bucket <= BUCKETS,
                forall|byte: u8| byte < bucket ==> counts@.contains_key(byte),
                forall|byte: u8|
                    occurrences(binary_data@, byte) == match #[trigger] count_in(counts@, byte) {
                        Some(count) => count as nat,
                        None => 0,
                    },
            decreases BUCKETS - bucket,
        {
            let ghost before = counts@;
            if get_count(&counts, bucket as u8).is_none() {
                set_count(&mut counts, bucket as u8, 0);
            }
            proof {
                assert forall|byte: u8|
                    occurrences(binary_data@, byte) == match #[trigger] count_in(counts@, byte) {
                        Some(count) => count as nat,
                        None => 0,
                    } by {
                    let earlier = count_in(before, byte);
                }
                assert forall|byte: u8| byte < bucket + 1 implies counts@.contains_key(byte) by {
                    if byte < bucket {
                        assert(before.contains_key(byte));
                    }
                }
            }
            bucket += 1;
        }
        proof {
            assert forall|byte: u8| counts@[byte] as nat == occurrences(binary_data@, byte) by {
                assert(counts@.contains_key(byte));
                assert(count_in(counts@, byte) == Some(counts@[byte]));
            }
        }
        let table = HistogramTable { counts };
        assert(table@ =~= histogram_spec(binary_data@));
        table
    }

    /// Drops the table, so that it is computed anew for the next buffer.
    pub fn reset(&mut self)
        ensures
            final(self).data is None,
            final(self).is_open == old(self).is_open,
            final(self).vertical == old(self).vertical,
    {
        self.data = None;
    }

    /// Computes the table of `binary_data` if the window is shown and has
    /// none yet. Says whether there was a table to draw before the call.
    pub fn prepare(&mut self, binary_data: &[u8]) -> (ready: bool)
        requires
            old(self).fresh_for(binary_data@),
        ensures
            final(self).fresh_for(binary_data@),
            final(self).is_open == old(self).is_open,
            final(self).vertical == old(self).vertical,
            ready == (old(self).is_open && old(self).data is Some),
            final(self).data is Some <==> old(self).is_open || old(self).data is Some,
    {
        if self.is_open {
            if self.data.is_some() {
                return true;
            }
            self.data = Some(Histogram::calculate_histogram(binary_data));
        }
        false
    }
}

} // verus!
