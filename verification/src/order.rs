//! Canonical order of records: by timestamp, then by source sequence.

use vstd::multiset::Multiset;
use vstd::prelude::*;

use crate::record::{NormalizedRecord, RecordView};

verus! {

/// `a` comes strictly before `b` in canonical order.
pub open spec fn before(a: RecordView, b: RecordView) -> bool {
    a.timestamp < b.timestamp || (a.timestamp == b.timestamp && a.source_sequence
        < b.source_sequence)
}

/// No record comes before one of its predecessors.
pub open spec fn ordered(s: Seq<RecordView>) -> bool {
    forall|i: int, j: int| 0 <= i < j < s.len() ==> !before(#[trigger] s[j], #[trigger] s[i])
}

/// No two records have the same source sequence.
pub open spec fn distinct_sequences(s: Seq<RecordView>) -> bool {
    forall|i: int, j: int|
        0 <= i < s.len() && 0 <= j < s.len() && i != j ==> (#[trigger] s[i]).source_sequence != (
        #[trigger] s[j]).source_sequence
}

/// `out` holds exactly the records of `s`, in canonical order.
pub open spec fn ordering_of(out: Seq<RecordView>, s: Seq<RecordView>) -> bool {
    ordered(out) && out.to_multiset() == s.to_multiset()
}

/// The records of `s` in canonical order.
pub open spec fn in_order(s: Seq<RecordView>) -> Seq<RecordView> {
    choose|out: Seq<RecordView>| ordering_of(out, s)
}

/// What the records of a sequence say.
pub open spec fn views(records: Seq<NormalizedRecord>) -> Seq<RecordView> {
    records.map_values(|r: NormalizedRecord| r@)
}

/// Records with distinct source sequences have one canonical order only.
pub proof fn canonical_order_is_unique(x: Seq<RecordView>, y: Seq<RecordView>)
    requires
        ordered(x),
        ordered(y),
        x.to_multiset() == y.to_multiset(),
        distinct_sequences(x),
    ensures
        x == y,
    decreases x.len(),
{
    broadcast use vstd::seq_lib::group_to_multiset_ensures;

    x.to_multiset_ensures();
    y.to_multiset_ensures();
    assert(x.len() == y.len());
    if x.len() == 0 {
        assert(x =~= y);
    } else {
        let last = x.len() - 1;
        let top = x[last];
        assert(x.to_multiset().count(top) > 0);
        assert(y.contains(top));
        let k = choose|k: int| 0 <= k < y.len() && y[k] == top;
        let other = y[last];
        assert(y.to_multiset().count(other) > 0);
        assert(x.contains(other));
        let m = choose|m: int| 0 <= m < x.len() && x[m] == other;
        if m != last {
            assert(!before(x[last], x[m]));
            if k != last {
                assert(!before(y[last], y[k]));
                assert(x[m].source_sequence != x[last].source_sequence);
            }
        }
        assert(other == top);
        assert(x =~= x.drop_last().push(top));
        assert(y =~= y.drop_last().push(top));
        assert(x.drop_last().to_multiset() =~= x.to_multiset().remove(top)) by {
            x.drop_last().to_multiset_ensures();
        }
        assert(y.drop_last().to_multiset() =~= y.to_multiset().remove(top)) by {
            y.drop_last().to_multiset_ensures();
        }
        canonical_order_is_unique(x.drop_last(), y.drop_last());
    }
}

/// A permutation keeps source sequences distinct.
pub proof fn permutation_keeps_distinct(x: Seq<RecordView>, y: Seq<RecordView>)
    requires
        x.to_multiset() == y.to_multiset(),
        distinct_sequences(x),
    ensures
        distinct_sequences(y),
{
    broadcast use vstd::seq_lib::group_to_multiset_ensures;

    x.to_multiset_ensures();
    y.to_multiset_ensures();
    assert(x.no_duplicates());
    vstd::seq_lib::seq_to_set_is_finite(y);
    assert(y.no_duplicates()) by {
        x.lemma_multiset_has_no_duplicates();
        y.lemma_multiset_has_no_duplicates_conv();
    }
    assert forall|i: int, j: int|
        0 <= i < y.len() && 0 <= j < y.len() && i != j implies (#[trigger] y[i]).source_sequence
        != (#[trigger] y[j]).source_sequence by {
        assert(y.to_multiset().count(y[i]) > 0);
        assert(y.to_multiset().count(y[j]) > 0);
        assert(x.contains(y[i]));
        assert(x.contains(y[j]));
        assert(y[i] != y[j]);
    }
}

/// The canonical order of records with distinct source sequences exists as
/// soon as one sequence shows it, and is that sequence.
pub proof fn in_order_is(out: Seq<RecordView>, s: Seq<RecordView>)
    requires
        ordering_of(out, s),
        distinct_sequences(s),
    ensures
        in_order(s) == out,
{
    let chosen = in_order(s);
    assert(ordering_of(chosen, s));
    permutation_keeps_distinct(s, chosen);
    canonical_order_is_unique(chosen, out);
}

/// Every sequence of records has a canonical order.
pub proof fn in_order_exists(s: Seq<RecordView>)
    ensures
        ordering_of(in_order(s), s),
{
    let out = some_ordering(s);
    assert(ordering_of(out, s));
}

proof fn some_ordering(s: Seq<RecordView>) -> (out: Seq<RecordView>)
    ensures
        ordering_of(out, s),
    decreases s.len(),
{
    broadcast use vstd::seq_lib::group_to_multiset_ensures;

    if s.len() == 0 {
        s
    } else {
        let rest = some_ordering(s.drop_last());
        let out = inserted(rest, s.last());
        assert(s =~= s.drop_last().push(s.last()));
        assert(out.to_multiset() =~= s.to_multiset());
        out
    }
}

proof fn inserted(s: Seq<RecordView>, r: RecordView) -> (out: Seq<RecordView>)
    requires
        ordered(s),
    ensures
        ordered(out),
        out.to_multiset() == s.to_multiset().insert(r),
    decreases s.len(),
{
    broadcast use vstd::seq_lib::group_to_multiset_ensures;

    if s.len() == 0 || !before(r, s.last()) {
        let out = s.push(r);
        assert forall|i: int, j: int| 0 <= i < j < out.len() implies !before(
            #[trigger] out[j],
            #[trigger] out[i],
        ) by {
            if j == s.len() && i < s.len() - 1 {
                assert(!before(s.last(), s[i]));
            }
        }
        assert(out.to_multiset() =~= s.to_multiset().insert(r));
        out
    } else {
        let head = s.drop_last();
        let last = s.last();
        let front = inserted(head, r);
        let out = front.push(last);
        assert forall|i: int, j: int| 0 <= i < j < out.len() implies !before(
            #[trigger] out[j],
            #[trigger] out[i],
        ) by {
            if j == front.len() {
                assert(front.contains(front[i]));
                assert(front.to_multiset().count(front[i]) > 0);
                if front[i] != r {
                    assert(head.to_multiset().count(front[i]) > 0);
                    assert(head.contains(front[i]));
                    let k = choose|k: int| 0 <= k < head.len() && head[k] == front[i];
                    assert(!before(s[s.len() - 1], s[k]));
                }
            }
        }
        assert(s =~= head.push(last));
        assert(out.to_multiset() =~= s.to_multiset().insert(r));
        out
    }
}

pub fn precedes(a: &NormalizedRecord, b: &NormalizedRecord) -> (result: bool)
    ensures
        result == before(a@, b@),
{
    a.timestamp < b.timestamp || (a.timestamp == b.timestamp && a.source_sequence
        < b.source_sequence)
}

proof fn views_drop_last(records: Seq<NormalizedRecord>)
    requires
        records.len() > 0,
    ensures
        views(records.drop_last()) == views(records).drop_last(),
        views(records).last() == records.last()@,
        views(records) == views(records.drop_last()).push(records.last()@),
{
    assert(views(records.drop_last()) =~= views(records).drop_last());
    assert(views(records) =~= views(records.drop_last()).push(records.last()@));
}

proof fn views_push(records: Seq<NormalizedRecord>, record: NormalizedRecord)
    ensures
        views(records.push(record)) == views(records).push(record@),
{
    assert(views(records.push(record)) =~= views(records).push(record@));
}

/// `out` is in reverse order and holds nothing that comes before `rest`.
spec fn above(out: Seq<RecordView>, rest: Seq<RecordView>) -> bool {
    forall|i: int, j: int|
        0 <= i < out.len() && 0 <= j < rest.len() ==> !before(#[trigger] out[i], #[trigger] rest[j])
}

spec fn reverse_ordered(s: Seq<RecordView>) -> bool {
    forall|i: int, j: int| 0 <= i < j < s.len() ==> !before(#[trigger] s[i], #[trigger] s[j])
}

proof fn without_last(s: Seq<RecordView>, out: Seq<RecordView>)
    requires
        s.len() > 0,
    ensures
        s == s.drop_last().push(s.last()),
        s.last() == s[s.len() - 1],
        ordered(s) ==> ordered(s.drop_last()),
        reverse_ordered(s) ==> reverse_ordered(s.drop_last()),
        above(out, s) ==> above(out, s.drop_last()),
        above(s, out) ==> above(s.drop_last(), out),
{
    assert(s =~= s.drop_last().push(s.last()));
    let shorter = s.drop_last();
    assert forall|i: int| 0 <= i < shorter.len() implies #[trigger] shorter[i] == s[i] by {}
}

/// Moves the last record of `from` to the end of `out`.
fn move_last(from: &mut Vec<NormalizedRecord>, out: &mut Vec<NormalizedRecord>)
    requires
        old(from)@.len() > 0,
    ensures
        views(final(from)@) == views(old(from)@).drop_last(),
        views(final(out)@) == views(old(out)@).push(views(old(from)@).last()),
        final(from)@.len() == old(from)@.len() - 1,
{
    proof {
        views_drop_last(from@);
    }
    match from.pop() {
        Some(record) => {
            proof {
                views_push(out@, record);
            }
            out.push(record);
        },
        None => {},
    }
}

/// Merges two ordered lists.
fn merge(left: Vec<NormalizedRecord>, right: Vec<NormalizedRecord>) -> (merged: Vec<
    NormalizedRecord,
>)
    requires
        ordered(views(left@)),
        ordered(views(right@)),
    ensures
        ordered(views(merged@)),
        views(merged@).to_multiset() == views(left@).to_multiset().add(views(right@).to_multiset()),
{
    broadcast use vstd::seq_lib::group_to_multiset_ensures;

    let mut left = left;
    let mut right = right;
    let ghost total = views(left@).to_multiset().add(views(right@).to_multiset());
    let mut out: Vec<NormalizedRecord> = Vec::new();
    assert(views(out@) =~= Seq::<RecordView>::empty());
    assert(views(out@).to_multiset() =~= Multiset::empty());
    assert(total =~= views(out@).to_multiset().add(views(left@).to_multiset()).add(
        views(right@).to_multiset(),
    ));
    while left.len() > 0 || right.len() > 0
        invariant
            ordered(views(left@)),
            ordered(views(right@)),
            reverse_ordered(views(out@)),
            above(views(out@), views(left@)),
            above(views(out@), views(right@)),
            total == views(out@).to_multiset().add(views(left@).to_multiset()).add(
                views(right@).to_multiset(),
            ),
        decreases left.len() + right.len(),
    {
        broadcast use vstd::seq_lib::group_to_multiset_ensures;

        let from_left = if left.len() == 0 {
            false
        } else if right.len() == 0 {
            true
        } else {
            precedes(&right[right.len() - 1], &left[left.len() - 1])
        };
        let ghost left_before = views(left@);
        let ghost right_before = views(right@);
        let ghost out_before = views(out@);
        if from_left {
            move_last(&mut left, &mut out);
            proof {
                without_last(left_before, out_before);
                assert forall|i: int, j: int|
                    0 <= i < views(out@).len() && 0 <= j < right_before.len() implies !before(
                    #[trigger] views(out@)[i],
                    #[trigger] right_before[j],
                ) by {
                    if i == out_before.len() && j < right_before.len() - 1 {
                        assert(!before(right_before[right_before.len() - 1], right_before[j]));
                    }
                }
                assert(total =~= views(out@).to_multiset().add(views(left@).to_multiset()).add(
                    views(right@).to_multiset(),
                ));
            }
        } else {
            move_last(&mut right, &mut out);
            proof {
                without_last(right_before, out_before);
                assert forall|i: int, j: int|
                    0 <= i < views(out@).len() && 0 <= j < left_before.len() implies !before(
                    #[trigger] views(out@)[i],
                    #[trigger] left_before[j],
                ) by {
                    if i == out_before.len() && j < left_before.len() - 1 {
                        assert(!before(left_before[left_before.len() - 1], left_before[j]));
                    }
                }
                assert(total =~= views(out@).to_multiset().add(views(left@).to_multiset()).add(
                    views(right@).to_multiset(),
                ));
            }
        }
    }
    proof {
        assert(views(left@) =~= Seq::<RecordView>::empty());
        assert(views(right@) =~= Seq::<RecordView>::empty());
        assert(total =~= views(out@).to_multiset());
    }
    let mut merged: Vec<NormalizedRecord> = Vec::new();
    assert(views(merged@) =~= Seq::<RecordView>::empty());
    assert(total =~= views(merged@).to_multiset().add(views(out@).to_multiset()));
    while out.len() > 0
        invariant
            reverse_ordered(views(out@)),
            ordered(views(merged@)),
            above(views(out@), views(merged@)),
            total == views(merged@).to_multiset().add(views(out@).to_multiset()),
        decreases out.len(),
    {
        broadcast use vstd::seq_lib::group_to_multiset_ensures;

        let ghost out_before = views(out@);
        let ghost merged_before = views(merged@);
        move_last(&mut out, &mut merged);
        proof {
            without_last(out_before, merged_before);
            assert(total =~= views(merged@).to_multiset().add(views(out@).to_multiset()));
        }
    }
    proof {
        assert(views(out@) =~= Seq::<RecordView>::empty());
        assert(total =~= views(merged@).to_multiset());
    }
    merged
}

/// Sorts records into canonical order.
pub fn sort_records(records: Vec<NormalizedRecord>) -> (sorted: Vec<NormalizedRecord>)
    ensures
        ordering_of(views(sorted@), views(records@)),
        sorted@.len() == records@.len(),
    decreases records@.len(),
{
    broadcast use vstd::seq_lib::group_to_multiset_ensures;

    let mut records = records;
    if records.len() < 2 {
        return records;
    }
    let ghost all = records@;
    let middle: usize = records.len() / 2;
    let tail = records.split_off(middle);
    proof {
        assert(all =~= records@ + tail@);
        assert(views(all) =~= views(records@) + views(tail@));
        vstd::seq_lib::lemma_multiset_commutative(views(records@), views(tail@));
    }
    let left = sort_records(records);
    let right = sort_records(tail);
    let sorted = merge(left, right);
    proof {
        views(sorted@).to_multiset_ensures();
        views(all).to_multiset_ensures();
    }
    sorted
}

} // verus!
