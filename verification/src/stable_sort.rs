//! Stable orders of keyed items.

use vstd::prelude::*;

verus! {

/// Something that items are ordered by.
pub trait Rank: Sized {
    /// Comes before another.
    spec fn before(&self, other: &Self) -> bool;

    /// Nothing comes before what comes before it.
    proof fn before_is_strict(a: &Self, b: &Self)
        ensures
            a.before(b) ==> !b.before(a),
    ;

    /// Not coming before passes on.
    proof fn before_is_weak(a: &Self, b: &Self, c: &Self)
        ensures
            !a.before(b) && !b.before(c) ==> !a.before(c),
    ;

    fn comes_before(&self, other: &Self) -> (before: bool)
        ensures
            before == self.before(other),
    ;
}

/// Three numbers of which the first counts most.
pub type SortKey = (u64, u64, u64);

impl Rank for SortKey {
    open spec fn before(&self, other: &Self) -> bool {
        self.0 < other.0 || (self.0 == other.0 && (self.1 < other.1 || (self.1 == other.1 && self.2
            < other.2)))
    }

    proof fn before_is_strict(a: &Self, b: &Self) {
    }

    proof fn before_is_weak(a: &Self, b: &Self, c: &Self) {
    }

    fn comes_before(&self, other: &Self) -> (before: bool) {
        self.0 < other.0 || (self.0 == other.0 && (self.1 < other.1 || (self.1 == other.1 && self.2
            < other.2)))
    }
}

/// An item comes before another: by key, and by place where no key comes
/// before the other.
pub open spec fn place_before<K: Rank>(keys: Seq<K>, a: usize, b: usize) -> bool {
    keys[a as int].before(&keys[b as int]) || (!keys[b as int].before(&keys[a as int]) && a < b)
}

/// Coming before passes on.
pub proof fn places_pass_on<K: Rank>(keys: Seq<K>, a: usize, b: usize, c: usize)
    requires
        place_before(keys, a, b),
        place_before(keys, b, c),
    ensures
        place_before(keys, a, c),
{
    let (x, y, z) = (keys[a as int], keys[b as int], keys[c as int]);
    K::before_is_strict(&x, &y);
    K::before_is_strict(&y, &z);
    K::before_is_weak(&z, &y, &x);
    K::before_is_weak(&x, &z, &y);
    K::before_is_weak(&y, &x, &z);
}

/// Nothing comes before what comes before it.
pub proof fn places_are_strict<K: Rank>(keys: Seq<K>, a: usize, b: usize)
    requires
        place_before(keys, a, b),
    ensures
        !place_before(keys, b, a),
{
    K::before_is_strict(&keys[a as int], &keys[b as int]);
}

/// Places are listed in order.
pub open spec fn in_place_order<K: Rank>(keys: Seq<K>, places: Seq<usize>) -> bool {
    forall|i: int, j: int|
        0 <= i < j < places.len() ==> place_before(
            keys,
            #[trigger] places[i],
            #[trigger] places[j],
        )
}

/// Exactly the places from one to before another are listed.
pub open spec fn lists_places(places: Seq<usize>, from: int, to: int) -> bool {
    forall|p: usize| #[trigger] places.contains(p) <==> from <= p < to
}

/// A list of places is the stable order of keys.
pub open spec fn is_order<K: Rank>(keys: Seq<K>, places: Seq<usize>) -> bool {
    &&& places.len() == keys.len()
    &&& in_place_order(keys, places)
    &&& lists_places(places, 0, keys.len() as int)
}

/// The stable order of keys.
pub open spec fn order_of<K: Rank>(keys: Seq<K>) -> Seq<usize> {
    choose|places: Seq<usize>| is_order(keys, places)
}

/// Items in the order of places.
pub open spec fn arranged<T>(items: Seq<T>, places: Seq<usize>) -> Seq<T> {
    Seq::new(places.len(), |i: int| items[places[i] as int])
}

/// Keys have at most one stable order.
pub proof fn orders_are_unique<K: Rank>(keys: Seq<K>, a: Seq<usize>, b: Seq<usize>)
    requires
        is_order(keys, a),
        is_order(keys, b),
    ensures
        a == b,
{
    same_up_to(keys, a, b, keys.len() as int);
    assert(a =~= b);
}

proof fn same_up_to<K: Rank>(keys: Seq<K>, a: Seq<usize>, b: Seq<usize>, n: int)
    requires
        is_order(keys, a),
        is_order(keys, b),
        0 <= n <= keys.len(),
    ensures
        forall|i: int| 0 <= i < n ==> a[i] == b[i],
    decreases n,
{
    if n > 0 {
        same_up_to(keys, a, b, n - 1);
        let i = n - 1;
        assert(a.contains(a[i]));
        assert(b.contains(a[i]));
        let j = choose|j: int| 0 <= j < b.len() && b[j] == a[i];
        assert(b.contains(b[i]));
        assert(a.contains(b[i]));
        let k = choose|k: int| 0 <= k < a.len() && a[k] == b[i];
        if j < i {
            assert(a[j] == b[j]);
            assert(place_before(keys, a[j], a[i]));
            places_are_strict(keys, a[j], a[i]);
        }
        if k < i {
            assert(b[k] == a[k]);
            assert(place_before(keys, b[k], b[i]));
            places_are_strict(keys, b[k], b[i]);
        }
        if j > i {
            assert(place_before(keys, b[i], b[j]));
            places_are_strict(keys, b[i], b[j]);
            if k > i {
                assert(place_before(keys, a[i], a[k]));
            }
        }
    }
}

/// Keys have a stable order.
pub proof fn orders_exist<K: Rank>(keys: Seq<K>)
    requires
        keys.len() <= usize::MAX,
    ensures
        is_order(keys, order_of(keys)),
{
    let places = some_order(keys, keys.len());
    assert(is_order(keys, places));
}

proof fn some_order<K: Rank>(keys: Seq<K>, count: nat) -> (places: Seq<usize>)
    requires
        count <= keys.len() <= usize::MAX,
    ensures
        places.len() == count,
        in_place_order(keys, places),
        lists_places(places, 0, count as int),
    decreases count,
{
    if count == 0 {
        Seq::empty()
    } else {
        let last = (count - 1) as usize;
        let front = some_order(keys, (count - 1) as nat);
        assert(!front.contains(last));
        let places = with_place(keys, front, last);
        assert forall|p: usize| #[trigger] places.contains(p) <==> 0 <= p < count by {
            assert(front.contains(p) <==> 0 <= p < count - 1);
        }
        places
    }
}

proof fn with_place<K: Rank>(keys: Seq<K>, places: Seq<usize>, x: usize) -> (out: Seq<usize>)
    requires
        in_place_order(keys, places),
        !places.contains(x),
    ensures
        out.len() == places.len() + 1,
        in_place_order(keys, out),
        forall|p: usize| #[trigger] out.contains(p) <==> places.contains(p) || p == x,
    decreases places.len(),
{
    if places.len() == 0 {
        let out = seq![x];
        assert(out[0] == x);
        out
    } else {
        let front = places.drop_last();
        let last = places.last();
        assert(places[places.len() - 1] == last);
        assert forall|i: int, j: int| 0 <= i < j < front.len() implies place_before(
            keys,
            #[trigger] front[i],
            #[trigger] front[j],
        ) by {
            assert(place_before(keys, places[i], places[j]));
        }
        if place_before(keys, last, x) {
            let out = places.push(x);
            assert forall|i: int, j: int| 0 <= i < j < out.len() implies place_before(
                keys,
                #[trigger] out[i],
                #[trigger] out[j],
            ) by {
                if j < places.len() {
                    assert(place_before(keys, places[i], places[j]));
                } else if i < places.len() - 1 {
                    assert(place_before(keys, places[i], places[places.len() - 1]));
                    places_pass_on(keys, places[i], last, x);
                }
            }
            assert forall|p: usize| #[trigger] out.contains(p) <==> places.contains(p) || p == x by {
                if places.contains(p) {
                    let i = choose|i: int| 0 <= i < places.len() && places[i] == p;
                    assert(out[i] == p);
                }
                assert(out[places.len() as int] == x);
            }
            out
        } else {
            assert(place_before(keys, x, last));
            assert(!front.contains(x)) by {
                if front.contains(x) {
                    let i = choose|i: int| 0 <= i < front.len() && front[i] == x;
                    assert(places[i] == x);
                }
            }
            let inner = with_place(keys, front, x);
            let out = inner.push(last);
            assert forall|i: int, j: int| 0 <= i < j < out.len() implies place_before(
                keys,
                #[trigger] out[i],
                #[trigger] out[j],
            ) by {
                if j < inner.len() {
                    assert(place_before(keys, inner[i], inner[j]));
                } else {
                    assert(inner.contains(inner[i]));
                    if inner[i] != x {
                        let k = choose|k: int| 0 <= k < front.len() && front[k] == inner[i];
                        assert(place_before(keys, places[k], places[places.len() - 1]));
                    }
                }
            }
            assert forall|p: usize| #[trigger] out.contains(p) <==> places.contains(p) || p == x by {
                if out.contains(p) {
                    let i = choose|i: int| 0 <= i < out.len() && out[i] == p;
                    if i < inner.len() {
                        assert(inner.contains(inner[i]));
                        if p != x {
                            let k = choose|k: int| 0 <= k < front.len() && front[k] == p;
                            assert(places[k] == p);
                        }
                    } else {
                        assert(places[places.len() - 1] == p);
                    }
                }
                if places.contains(p) || p == x {
                    if p == last {
                        assert(out[inner.len() as int] == p);
                    } else {
                        if p != x {
                            let k = choose|k: int| 0 <= k < places.len() && places[k] == p;
                            assert(front[k] == p);
                        }
                        assert(inner.contains(p));
                        let i = choose|i: int| 0 <= i < inner.len() && inner[i] == p;
                        assert(out[i] == p);
                    }
                }
            }
            out
        }
    }
}

/// Joins two adjacent ordered ranges.
fn join<K: Rank>(keys: &Vec<K>, left: &Vec<usize>, right: &Vec<usize>, from: usize, middle: usize, to:
    usize) -> (places: Vec<usize>)
    requires
        from <= middle <= to <= keys@.len(),
        in_place_order(keys@, left@),
        in_place_order(keys@, right@),
        lists_places(left@, from as int, middle as int),
        lists_places(right@, middle as int, to as int),
        left@.len() == middle - from,
        right@.len() == to - middle,
    ensures
        in_place_order(keys@, places@),
        lists_places(places@, from as int, to as int),
        places@.len() == to - from,
{
    let mut places: Vec<usize> = Vec::new();
    let mut i: usize = 0;
    let mut j: usize = 0;
    while i < left.len() || j < right.len()
        invariant
            from <= middle <= to <= keys@.len(),
            in_place_order(keys@, left@),
            in_place_order(keys@, right@),
            lists_places(left@, from as int, middle as int),
            lists_places(right@, middle as int, to as int),
            i <= left@.len(),
            j <= right@.len(),
            places@.len() == i + j,
            in_place_order(keys@, places@),
            forall|n: int|
                0 <= n < places@.len() ==> (exists|m: int| 0 <= m < i && left@[m] == places@[n])
                    || (exists|m: int| 0 <= m < j && right@[m] == #[trigger] places@[n]),
            forall|m: int| 0 <= m < i ==> places@.contains(#[trigger] left@[m]),
            forall|m: int| 0 <= m < j ==> places@.contains(#[trigger] right@[m]),
            forall|n: int|
                0 <= n < places@.len() && i < left@.len() ==> place_before(
                    keys@,
                    #[trigger] places@[n],
                    left@[i as int],
                ),
            forall|n: int|
                0 <= n < places@.len() && j < right@.len() ==> place_before(
                    keys@,
                    #[trigger] places@[n],
                    right@[j as int],
                ),
        decreases left@.len() - i + right@.len() - j,
    {
        let ghost before = places@;
        let ghost (i0, j0) = (i, j);
        proof {
            if i < left@.len() {
                assert(left@.contains(left@[i as int]));
            }
            if j < right@.len() {
                assert(right@.contains(right@[j as int]));
            }
        }
        let take_left = if i == left.len() {
            false
        } else if j == right.len() {
            true
        } else {
            !keys[right[j]].comes_before(&keys[left[i]])
        };
        if take_left {
            places.push(left[i]);
            i = i + 1;
            proof {
                let taken = left@[i0 as int];
                if j < right@.len() {
                    // Among equal keys the left place is the smaller one.
                    assert(taken < middle <= right@[j as int]);
                    assert(place_before(keys@, taken, right@[j as int]));
                }
                if i < left@.len() {
                    assert(place_before(keys@, taken, left@[i as int]));
                    assert forall|n: int| 0 <= n < before.len() implies place_before(
                        keys@,
                        #[trigger] before[n],
                        left@[i as int],
                    ) by {
                        assert(place_before(keys@, before[n], taken));
                        places_pass_on(keys@, before[n], taken, left@[i as int]);
                    }
                }
            }
        } else {
            places.push(right[j]);
            j = j + 1;
            proof {
                let taken = right@[j0 as int];
                if i < left@.len() {
                    K::before_is_strict(&keys@[taken as int], &keys@[left@[i as int] as int]);
                    assert(place_before(keys@, taken, left@[i as int]));
                }
                if j < right@.len() {
                    assert(place_before(keys@, taken, right@[j as int]));
                    assert forall|n: int| 0 <= n < before.len() implies place_before(
                        keys@,
                        #[trigger] before[n],
                        right@[j as int],
                    ) by {
                        assert(place_before(keys@, before[n], taken));
                        places_pass_on(keys@, before[n], taken, right@[j as int]);
                    }
                }
            }
        }
        proof {
            let taken = places@[before.len() as int];
            assert(places@ == before.push(taken));
            assert forall|n: int| 0 <= n < places@.len() implies (exists|m: int|
                0 <= m < i && left@[m] == places@[n]) || (exists|m: int|
                0 <= m < j && right@[m] == #[trigger] places@[n]) by {
                if n < before.len() {
                    assert(before[n] == places@[n]);
                    if exists|m: int| 0 <= m < i0 && left@[m] == before[n] {
                        let m = choose|m: int| 0 <= m < i0 && left@[m] == before[n];
                        assert(0 <= m < i && left@[m] == places@[n]);
                    } else {
                        let m = choose|m: int| 0 <= m < j0 && right@[m] == before[n];
                        assert(0 <= m < j && right@[m] == places@[n]);
                    }
                } else if take_left {
                    assert(left@[i0 as int] == places@[n]);
                } else {
                    assert(right@[j0 as int] == places@[n]);
                }
            }
            assert forall|m: int| 0 <= m < i implies places@.contains(#[trigger] left@[m]) by {
                if m < i0 {
                    let n = choose|n: int| 0 <= n < before.len() && before[n] == left@[m];
                    assert(places@[n] == left@[m]);
                } else {
                    assert(places@[before.len() as int] == left@[m]);
                }
            }
            assert forall|m: int| 0 <= m < j implies places@.contains(#[trigger] right@[m]) by {
                if m < j0 {
                    let n = choose|n: int| 0 <= n < before.len() && before[n] == right@[m];
                    assert(places@[n] == right@[m]);
                } else {
                    assert(places@[before.len() as int] == right@[m]);
                }
            }
        }
    }
    proof {
        assert forall|p: usize| #[trigger] places@.contains(p) <==> from <= p < to by {
            if places@.contains(p) {
                let n = choose|n: int| 0 <= n < places@.len() && places@[n] == p;
                if exists|m: int| 0 <= m < i && left@[m] == places@[n] {
                    assert(left@.contains(p));
                } else {
                    assert(right@.contains(p));
                }
            }
            if from <= p < middle {
                assert(left@.contains(p));
            }
            if middle <= p < to {
                assert(right@.contains(p));
            }
        }
    }
    places
}

fn order_range<K: Rank>(keys: &Vec<K>, from: usize, to: usize) -> (places: Vec<usize>)
    requires
        from <= to <= keys@.len(),
    ensures
        in_place_order(keys@, places@),
        lists_places(places@, from as int, to as int),
        places@.len() == to - from,
    decreases to - from,
{
    let mut places: Vec<usize> = Vec::new();
    if to - from == 0 {
        return places;
    }
    if to - from == 1 {
        places.push(from);
        assert(places@[0] == from);
        return places;
    }
    let middle: usize = from + (to - from) / 2;
    let left = order_range(keys, from, middle);
    let right = order_range(keys, middle, to);
    join(keys, &left, &right, from, middle, to)
}

/// The stable order of keys.
pub fn stable_order<K: Rank>(keys: &Vec<K>) -> (places: Vec<usize>)
    ensures
        is_order(keys@, places@),
        places@ == order_of(keys@),
{
    let places = order_range(keys, 0, keys.len());
    proof {
        assert(is_order(keys@, places@));
        orders_are_unique(keys@, places@, order_of(keys@));
    }
    places
}

/// Puts items in the order of places.
pub fn arrange<T: Copy>(items: &Vec<T>, places: &Vec<usize>) -> (out: Vec<T>)
    requires
        lists_places(places@, 0, items@.len() as int),
    ensures
        out@ == arranged(items@, places@),
{
    let mut out: Vec<T> = Vec::new();
    let mut index: usize = 0;
    while index < places.len()
        invariant
            index <= places@.len(),
            lists_places(places@, 0, items@.len() as int),
            out@ == arranged(items@, places@).take(index as int),
        decreases places@.len() - index,
    {
        assert(places@.contains(places@[index as int]));
        out.push(items[places[index]]);
        assert(out@ =~= arranged(items@, places@).take(index + 1));
        index = index + 1;
    }
    assert(arranged(items@, places@).take(index as int) =~= arranged(items@, places@));
    out
}

} // verus!
