//! Checks on the events of a history.

use vstd::prelude::*;

use crate::cache_format;
use crate::catalog::Catalog;
use crate::model;
use crate::model::Event;

verus! {

/// Whether a number is in the set that bit words hold.
pub open spec fn has_bit(words: Seq<u64>, n: int) -> bool {
    words[n / 64] & (1u64 << ((n % 64) as u64)) != 0
}

/// The set of source sequences of events, as bit words.
///
/// Fails unless the source sequences are exactly the numbers below the
/// number of events.
pub fn source_sequence_bitmap(events: &[Event]) -> (seen: Option<Vec<u64>>)
    ensures
        seen is Some <==> cache_format::sequences_are_permutation(events@),
        seen matches Some(words) ==> {
            &&& words@.len() == (events@.len() + 63) / 64
            &&& forall|n: int| 0 <= n < events@.len() ==> #[trigger] has_bit(words@, n)
        },
{
    let count: usize = events.len();
    let words: usize = count / 64 + if count % 64 == 0 {
        0
    } else {
        1usize
    };
    let mut seen: Vec<u64> = Vec::new();
    let mut index: usize = 0;
    while index < words
        invariant
            index <= words,
            seen@.len() == index,
            forall|w: int| 0 <= w < seen@.len() ==> seen@[w] == 0,
        decreases words - index,
    {
        seen.push(0);
        index = index + 1;
    }
    assert forall|n: int| 0 <= n < 64 * words implies !(#[trigger] has_bit(seen@, n)) by {
        let bit = 1u64 << ((n % 64) as u64);
        assert(0u64 & bit == 0) by (bit_vector);
    }
    let mut index: usize = 0;
    while index < count
        invariant
            index <= count == events@.len(),
            words == seen@.len(),
            words == (count + 63) / 64,
            forall|i: int|
                0 <= i < index ==> (#[trigger] events@[i]).key.source_sequence.value < count,
            forall|i: int, j: int|
                0 <= i < j < index ==> (#[trigger] events@[i]).key.source_sequence.value != (
                #[trigger] events@[j]).key.source_sequence.value,
            forall|n: int|
                0 <= n < count ==> (#[trigger] has_bit(seen@, n)) == exists|i: int|
                    0 <= i < index && (#[trigger] events@[i]).key.source_sequence.value == n,
        decreases count - index,
    {
        let sequence: u64 = events[index].source_sequence().get();
        if sequence >= count as u64 {
            assert(events@[index as int].key.source_sequence.value >= count);
            return None;
        }
        let word: usize = (sequence / 64) as usize;
        let shift: u64 = sequence % 64;
        let bit: u64 = 1u64 << shift;
        let old_word: u64 = seen[word];
        if old_word & bit != 0 {
            assert(has_bit(seen@, sequence as int));
            return None;
        }
        let ghost before = seen@;
        assert(!has_bit(before, sequence as int));
        seen.set(word, old_word | bit);
        proof {
            assert forall|n: int| 0 <= n < count implies (#[trigger] has_bit(seen@, n)) == (
            has_bit(before, n) || n == sequence) by {
                if n / 64 == word {
                    let other = (n % 64) as u64;
                    assert(((old_word | (1u64 << shift)) & (1u64 << other) != 0) == ((old_word & (
                    1u64 << other)) != 0 || other == shift)) by (bit_vector)
                        requires
                            shift < 64,
                            other < 64,
                    ;
                }
            }
            assert forall|n: int| 0 <= n < count implies (#[trigger] has_bit(seen@, n))
                == exists|i: int|
                0 <= i < index + 1 && (#[trigger] events@[i]).key.source_sequence.value == n by {
                if n == sequence {
                    assert(events@[index as int].key.source_sequence.value == n);
                }
            }
            assert forall|i: int| 0 <= i < index implies (#[trigger] events@[i]).key.source_sequence.value
                != sequence by {
                if events@[i].key.source_sequence.value == sequence {
                    assert(has_bit(before, sequence as int));
                }
            }
        }
        index = index + 1;
    }
    proof {
        every_number_is_taken(events@);
        assert forall|n: int| 0 <= n < events@.len() implies #[trigger] has_bit(seen@, n) by {
            assert(takes(events@, n));
        }
    }
    Some(seen)
}

/// Some event has a source sequence.
pub open spec fn takes(events: Seq<Event>, n: int) -> bool {
    exists|i: int| 0 <= i < events.len() && (#[trigger] events[i]).key.source_sequence.value == n
}

/// Distinct source sequences below the number of events leave no number out.
pub proof fn every_number_is_taken(events: Seq<Event>)
    requires
        cache_format::sequences_are_permutation(events),
    ensures
        forall|n: int| 0 <= n < events.len() ==> #[trigger] takes(events, n),
{
    let numbers = events.map_values(|e: Event| e.key.source_sequence.value as int);
    assert(numbers.no_duplicates()) by {
        assert forall|i: int, j: int|
            0 <= i < numbers.len() && 0 <= j < numbers.len() && i != j implies numbers[i]
            != numbers[j] by {
            if i < j {
                assert(events[i].key.source_sequence.value != events[j].key.source_sequence.value);
            } else {
                assert(events[j].key.source_sequence.value != events[i].key.source_sequence.value);
            }
        }
    }
    let taken = numbers.to_set();
    let all = vstd::set_lib::set_int_range(0, events.len() as int);
    numbers.unique_seq_to_set();
    vstd::set_lib::lemma_int_range(0, events.len() as int);
    assert(taken.subset_of(all)) by {
        assert forall|n: int| taken.contains(n) implies all.contains(n) by {
            let i = choose|i: int| 0 <= i < numbers.len() && numbers[i] == n;
            assert(events[i].key.source_sequence.value < events.len());
        }
    }
    vstd::set_lib::lemma_subset_equality(taken, all);
    assert forall|n: int| 0 <= n < events.len() implies #[trigger] takes(events, n) by {
        assert(all.contains(n));
        assert(taken.contains(n));
        let i = choose|i: int| 0 <= i < numbers.len() && numbers[i] == n;
        assert(events[i].key.source_sequence.value == n);
    }
}

/// Whether events are in canonical order.
pub fn events_are_ordered(events: &[Event]) -> (ordered: bool)
    ensures
        ordered == model::canonical_order(events@),
{
    let mut index: usize = 1;
    while index < events.len()
        invariant
            1 <= index,
            events@.len() >= 1 ==> index <= events@.len(),
            forall|i: int, j: int|
                0 <= i < j < index && j < events@.len() ==> !(#[trigger] events@[j].key.before(
                    #[trigger] events@[i].key,
                )),
        decreases events@.len() - index,
    {
        if events[index].key.precedes(&events[index - 1].key) {
            assert(events@[index as int].key.before(events@[index - 1].key));
            return false;
        }
        proof {
            assert forall|i: int, j: int|
                0 <= i < j < index + 1 && j < events@.len() implies !(
            #[trigger] events@[j].key.before(#[trigger] events@[i].key)) by {
                if j == index && i < index - 1 {
                    assert(!events@[index - 1].key.before(events@[i].key));
                }
            }
        }
        index = index + 1;
    }
    true
}

/// Whether every event names a contributor and a path of its kind.
pub fn events_fit_catalog(catalog: &Catalog, events: &[Event]) -> (fit: bool)
    requires
        catalog.wf(),
    ensures
        fit == cache_format::events_fit(catalog@, events@),
{
    let mut index: usize = 0;
    while index < events.len()
        invariant
            catalog.wf(),
            index <= events@.len(),
            forall|i: int|
                0 <= i < index ==> #[trigger] cache_format::event_fits(catalog@, events@[i]),
        decreases events@.len() - index,
    {
        let event = &events[index];
        if catalog.contributor(event.contributor).is_none() {
            assert(!cache_format::event_fits(catalog@, events@[index as int]));
            return false;
        }
        match catalog.path(event.target.path_id()) {
            None => {
                assert(!cache_format::event_fits(catalog@, events@[index as int]));
                return false;
            },
            Some(path) => {
                let at: Ghost<int> = Ghost(event.target.path().value - 1);
                assert(catalog.path_list@[at@].wf());
                if path.is_directory() != event.target.is_directory() {
                    assert(!cache_format::event_fits(catalog@, events@[index as int]));
                    return false;
                }
                assert(cache_format::event_fits(catalog@, events@[index as int]));
            },
        }
        index = index + 1;
    }
    true
}

} // verus!
