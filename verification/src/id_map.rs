//! A map from identities to small values, kept in the order of the
//! identities.

use vstd::prelude::*;

verus! {

/// The map that a list of entries stands for.
pub open spec fn entries_map<T>(entries: Seq<(u64, T)>) -> Map<u64, T>
    decreases entries.len(),
{
    if entries.len() == 0 {
        Map::empty()
    } else {
        entries_map(entries.drop_last()).insert(entries.last().0, entries.last().1)
    }
}

/// The identities rise strictly.
pub open spec fn ascending<T>(entries: Seq<(u64, T)>) -> bool {
    forall|i: int, j: int|
        0 <= i < j < entries.len() ==> (#[trigger] entries[i]).0 < (#[trigger] entries[j]).0
}

/// The entries of a map are exactly the listed ones.
pub proof fn map_has_entries<T>(entries: Seq<(u64, T)>)
    requires
        ascending(entries),
    ensures
        forall|i: int|
            0 <= i < entries.len() ==> #[trigger] entries_map(entries).dom().contains(entries[i].0)
                && entries_map(entries)[entries[i].0] == entries[i].1,
        forall|k: u64| #[trigger]
            entries_map(entries).dom().contains(k) ==> exists|i: int|
                0 <= i < entries.len() && (#[trigger] entries[i]).0 == k,
    decreases entries.len(),
{
    if entries.len() > 0 {
        let front = entries.drop_last();
        assert forall|i: int, j: int| 0 <= i < j < front.len() implies (#[trigger] front[i]).0 < (
        #[trigger] front[j]).0 by {
            assert(front[i] == entries[i] && front[j] == entries[j]);
        }
        map_has_entries(front);
        assert forall|i: int| 0 <= i < entries.len() implies #[trigger] entries_map(
            entries,
        ).dom().contains(entries[i].0) && entries_map(entries)[entries[i].0] == entries[i].1 by {
            if i < front.len() {
                assert(front[i] == entries[i]);
                assert(entries_map(front).dom().contains(front[i].0));
                assert(entries[i].0 < entries[entries.len() - 1].0);
            }
        }
        assert forall|k: u64| #[trigger] entries_map(entries).dom().contains(k) implies exists|
            i: int,
        |
            0 <= i < entries.len() && (#[trigger] entries[i]).0 == k by {
            if k == entries.last().0 {
                assert(entries[entries.len() - 1].0 == k);
            } else {
                assert(entries_map(front).dom().contains(k));
                let i = choose|i: int| 0 <= i < front.len() && (#[trigger] front[i]).0 == k;
                assert(entries[i].0 == k);
            }
        }
    }
}

/// A map has one ordered list of entries.
pub proof fn lists_are_unique<T>(a: Seq<(u64, T)>, b: Seq<(u64, T)>)
    requires
        ascending(a),
        ascending(b),
        entries_map(a) == entries_map(b),
    ensures
        a == b,
    decreases a.len(),
{
    map_has_entries(a);
    map_has_entries(b);
    if a.len() == 0 {
        if b.len() > 0 {
            assert(entries_map(b).dom().contains(b[0].0));
        }
        assert(a =~= b);
    } else {
        assert(entries_map(a).dom().contains(a[a.len() - 1].0));
        let i = choose|i: int| 0 <= i < b.len() && (#[trigger] b[i]).0 == a.last().0;
        assert(entries_map(b).dom().contains(b[b.len() - 1].0));
        let j = choose|j: int| 0 <= j < a.len() && (#[trigger] a[j]).0 == b.last().0;
        assert(a.last().0 == b.last().0) by {
            if i < b.len() - 1 {
                assert(b[i].0 < b[b.len() - 1].0);
                if j < a.len() - 1 {
                    assert(a[j].0 < a[a.len() - 1].0);
                }
            }
        }
        assert(entries_map(b).dom().contains(b[i].0));
        assert(i == b.len() - 1) by {
            if i < b.len() - 1 {
                assert(b[i].0 < b[b.len() - 1].0);
            }
        }
        assert(entries_map(a)[a[a.len() - 1].0] == a[a.len() - 1].1);
        assert(entries_map(b)[b[b.len() - 1].0] == b[b.len() - 1].1);
        assert(a.last() == b.last());
        let (x, y) = (a.drop_last(), b.drop_last());
        assert forall|m: int, n: int| 0 <= m < n < x.len() implies (#[trigger] x[m]).0 < (
        #[trigger] x[n]).0 by {
            assert(a[m].0 < a[n].0);
        }
        assert forall|m: int, n: int| 0 <= m < n < y.len() implies (#[trigger] y[m]).0 < (
        #[trigger] y[n]).0 by {
            assert(b[m].0 < b[n].0);
        }
        front_is_rest(a);
        front_is_rest(b);
        lists_are_unique(x, y);
        assert(a =~= x.push(a.last()));
        assert(b =~= y.push(b.last()));
    }
}

/// The entries before the last stand for the map without the last.
proof fn front_is_rest<T>(entries: Seq<(u64, T)>)
    requires
        ascending(entries),
        entries.len() > 0,
    ensures
        entries_map(entries.drop_last()) == entries_map(entries).remove(entries.last().0),
{
    let front = entries.drop_last();
    assert(ascending(front)) by {
        assert forall|m: int, n: int| 0 <= m < n < front.len() implies (#[trigger] front[m]).0 < (
        #[trigger] front[n]).0 by {
            assert(entries[m].0 < entries[n].0);
        }
    }
    map_has_entries(front);
    assert(!entries_map(front).dom().contains(entries.last().0)) by {
        if entries_map(front).dom().contains(entries.last().0) {
            let i = choose|i: int|
                0 <= i < front.len() && (#[trigger] front[i]).0 == entries.last().0;
            assert(entries[i].0 < entries[entries.len() - 1].0);
        }
    }
    assert(entries_map(front) =~= entries_map(entries).remove(entries.last().0));
}

/// A map from identities.
pub struct IdMap<T> {
    entries: Vec<(u64, T)>,
}

impl<T> View for IdMap<T> {
    type V = Map<u64, T>;

    closed spec fn view(&self) -> Map<u64, T> {
        entries_map(self.entries@)
    }
}

impl<T: Copy> IdMap<T> {
    /// The entries in the order of their identities.
    pub closed spec fn listed(&self) -> Seq<(u64, T)> {
        self.entries@
    }

    pub closed spec fn wf(&self) -> bool {
        ascending(self.entries@)
    }

    /// The list is ordered and is what the map holds.
    pub proof fn list_is_map(&self)
        requires
            self.wf(),
        ensures
            ascending(self.listed()),
            self@ == entries_map(self.listed()),
    {
    }

    /// The list is not longer than memory can hold.
    pub proof fn list_fits(&self)
        ensures
            self.listed().len() <= usize::MAX,
    {
        assert(self.entries.len() == self.entries@.len());
    }

    pub fn new() -> (map: Self)
        ensures
            map.wf(),
            map@ == Map::<u64, T>::empty(),
            map.listed() == Seq::<(u64, T)>::empty(),
    {
        IdMap { entries: Vec::new() }
    }

    pub fn len(&self) -> (count: usize)
        ensures
            count == self.listed().len(),
    {
        self.entries.len()
    }

    /// The entry at a place in the order.
    pub fn entry(&self, index: usize) -> (entry: (u64, T))
        requires
            index < self.listed().len(),
        ensures
            entry == self.listed()[index as int],
    {
        self.entries[index]
    }

    /// The first place whose identity is not below the given one.
    fn place(&self, id: u64) -> (index: usize)
        requires
            self.wf(),
        ensures
            index <= self.entries@.len(),
            forall|i: int| 0 <= i < index ==> (#[trigger] self.entries@[i]).0 < id,
            forall|i: int| index <= i < self.entries@.len() ==> (#[trigger] self.entries@[i]).0 >= id,
    {
        let mut low: usize = 0;
        let mut high: usize = self.entries.len();
        while low < high
            invariant
                self.wf(),
                low <= high <= self.entries@.len(),
                forall|i: int| 0 <= i < low ==> (#[trigger] self.entries@[i]).0 < id,
                forall|i: int|
                    high <= i < self.entries@.len() ==> (#[trigger] self.entries@[i]).0 >= id,
            decreases high - low,
        {
            let middle: usize = low + (high - low) / 2;
            if self.entries[middle].0 < id {
                low = middle + 1;
            } else {
                high = middle;
            }
        }
        low
    }

    pub fn get(&self, id: u64) -> (value: Option<T>)
        requires
            self.wf(),
        ensures
            value == if self@.dom().contains(id) {
                Some(self@[id])
            } else {
                None
            },
    {
        let index: usize = self.place(id);
        proof {
            map_has_entries(self.entries@);
        }
        if index < self.entries.len() && self.entries[index].0 == id {
            assert(self@.dom().contains(self.entries@[index as int].0));
            Some(self.entries[index].1)
        } else {
            None
        }
    }

    pub fn set(&mut self, id: u64, value: T)
        requires
            old(self).wf(),
        ensures
            final(self).wf(),
            final(self)@ == old(self)@.insert(id, value),
    {
        let index: usize = self.place(id);
        let ghost before = self.entries@;
        if index < self.entries.len() && self.entries[index].0 == id {
            self.entries.set(index, (id, value));
        } else {
            self.entries.insert(index, (id, value));
        }
        proof {
            map_has_entries(before);
            map_has_entries(self.entries@);
            let now = entries_map(self.entries@);
            let goal = entries_map(before).insert(id, value);
            assert(self.entries@[index as int] == (id, value));
            let shift: int = if self.entries@.len() == before.len() {
                0
            } else {
                1
            };
            assert forall|k: u64| now.dom().contains(k) == goal.dom().contains(k) by {
                if now.dom().contains(k) {
                    let i = choose|i: int|
                        0 <= i < self.entries@.len() && (#[trigger] self.entries@[i]).0 == k;
                    if i < index {
                        assert(before[i] == self.entries@[i]);
                        assert(entries_map(before).dom().contains(before[i].0));
                    } else if i > index {
                        assert(before[i - shift] == self.entries@[i]);
                        assert(entries_map(before).dom().contains(before[i - shift].0));
                    }
                }
                if goal.dom().contains(k) {
                    if k == id {
                        assert(now.dom().contains(self.entries@[index as int].0));
                    } else {
                        let i = choose|i: int|
                            0 <= i < before.len() && (#[trigger] before[i]).0 == k;
                        if i < index {
                            assert(self.entries@[i] == before[i]);
                            assert(now.dom().contains(self.entries@[i].0));
                        } else {
                            assert(self.entries@[i + shift] == before[i]);
                            assert(now.dom().contains(self.entries@[i + shift].0));
                        }
                    }
                }
            }
            assert forall|k: u64| now.dom().contains(k) implies now[k] == goal[k] by {
                let i = choose|i: int|
                    0 <= i < self.entries@.len() && (#[trigger] self.entries@[i]).0 == k;
                assert(now.dom().contains(self.entries@[i].0));
                if i < index {
                    assert(before[i] == self.entries@[i]);
                    assert(entries_map(before).dom().contains(before[i].0));
                } else if i > index {
                    assert(before[i - shift] == self.entries@[i]);
                    assert(entries_map(before).dom().contains(before[i - shift].0));
                }
            }
            assert(now =~= goal);
        }
    }

    /// Adds an entry behind all others.
    pub fn push(&mut self, id: u64, value: T)
        requires
            old(self).wf(),
            forall|i: int|
                0 <= i < old(self).listed().len() ==> (#[trigger] old(self).listed()[i]).0 < id,
        ensures
            final(self).wf(),
            final(self).listed() == old(self).listed().push((id, value)),
            final(self)@ == old(self)@.insert(id, value),
    {
        self.entries.push((id, value));
        proof {
            let before = old(self).entries@;
            assert(self.entries@.drop_last() =~= before);
            assert forall|i: int, j: int| 0 <= i < j < self.entries@.len() implies (
            #[trigger] self.entries@[i]).0 < (#[trigger] self.entries@[j]).0 by {
                assert(self.entries@[i] == old(self).listed()[i]);
                if j < before.len() {
                    assert(before[i].0 < before[j].0);
                }
            }
        }
    }

    /// A copy of the map.
    pub fn copy(&self) -> (copy: Self)
        requires
            self.wf(),
        ensures
            copy.wf(),
            copy.listed() == self.listed(),
            copy@ == self@,
    {
        let mut entries: Vec<(u64, T)> = Vec::new();
        let mut index: usize = 0;
        while index < self.entries.len()
            invariant
                index <= self.entries@.len(),
                entries@ == self.entries@.take(index as int),
            decreases self.entries@.len() - index,
        {
            entries.push(self.entries[index]);
            assert(self.entries@.take(index + 1) =~= self.entries@.take(index as int).push(
                self.entries@[index as int],
            ));
            index = index + 1;
        }
        assert(self.entries@.take(index as int) =~= self.entries@);
        IdMap { entries }
    }
}

} // verus!
