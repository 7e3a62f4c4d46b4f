//! Merging sorted runs within a memory budget.

use vstd::multiset::Multiset;
use vstd::prelude::*;

use crate::error::{ErrorView, IngestError};
use crate::limits::IngestLimits;
use crate::order;
use crate::record::{NormalizedRecord, RecordView};
use crate::runs;
use crate::runs::{MergeMemory, RunReader};

verus! {

pub open spec fn head_view(head: Option<NormalizedRecord>) -> Option<RecordView> {
    match head {
        Some(record) => Some(record@),
        None => None,
    }
}

pub open spec fn head_size(head: Option<RecordView>) -> int {
    match head {
        Some(record) => runs::text_size(record),
        None => 0,
    }
}

/// The bytes of the texts of all loaded heads.
pub open spec fn held(heads: Seq<Option<RecordView>>) -> int
    decreases heads.len(),
{
    if heads.len() == 0 {
        0
    } else {
        held(heads.drop_last()) + head_size(heads.last())
    }
}

pub proof fn held_update(heads: Seq<Option<RecordView>>, at: int, head: Option<RecordView>)
    requires
        0 <= at < heads.len(),
    ensures
        held(heads.update(at, head)) == held(heads) - head_size(heads[at]) + head_size(head),
    decreases heads.len(),
{
    let updated = heads.update(at, head);
    if at == heads.len() - 1 {
        assert(updated.drop_last() =~= heads.drop_last());
    } else {
        assert(updated.drop_last() =~= heads.drop_last().update(at, head));
        held_update(heads.drop_last(), at, head);
    }
}

pub proof fn held_is_nonnegative(heads: Seq<Option<RecordView>>)
    ensures
        held(heads) >= 0,
    decreases heads.len(),
{
    if heads.len() > 0 {
        held_is_nonnegative(heads.drop_last());
    }
}

pub proof fn held_covers_each(heads: Seq<Option<RecordView>>, at: int)
    requires
        0 <= at < heads.len(),
    ensures
        head_size(heads[at]) <= held(heads),
    decreases heads.len(),
{
    held_is_nonnegative(heads.drop_last());
    if at < heads.len() - 1 {
        held_covers_each(heads.drop_last(), at);
    }
}

/// A loaded head in front of what is still unread.
pub open spec fn queue_of(head: Option<RecordView>, unread: Seq<RecordView>) -> Seq<RecordView> {
    match head {
        Some(record) => seq![record] + unread,
        None => unread,
    }
}

/// Everything that several queues hold.
pub open spec fn pooled(queues: Seq<Seq<RecordView>>) -> Multiset<RecordView>
    decreases queues.len(),
{
    if queues.len() == 0 {
        Multiset::empty()
    } else {
        pooled(queues.drop_last()).add(queues.last().to_multiset())
    }
}

/// The number of records that several queues hold.
pub open spec fn pooled_len(queues: Seq<Seq<RecordView>>) -> nat
    decreases queues.len(),
{
    if queues.len() == 0 {
        0
    } else {
        pooled_len(queues.drop_last()) + queues.last().len()
    }
}

pub proof fn pooled_update(queues: Seq<Seq<RecordView>>, at: int, queue: Seq<RecordView>)
    requires
        0 <= at < queues.len(),
    ensures
        pooled(queues.update(at, queue)).add(queues[at].to_multiset()) == pooled(queues).add(
            queue.to_multiset(),
        ),
        pooled_len(queues.update(at, queue)) + queues[at].len() == pooled_len(queues) + queue.len(),
    decreases queues.len(),
{
    let updated = queues.update(at, queue);
    if at == queues.len() - 1 {
        assert(updated.drop_last() =~= queues.drop_last());
    } else {
        assert(updated.drop_last() =~= queues.drop_last().update(at, queue));
        pooled_update(queues.drop_last(), at, queue);
    }
    let left = pooled(updated).add(queues[at].to_multiset());
    let right = pooled(queues).add(queue.to_multiset());
    assert forall|r: RecordView| #[trigger] left.count(r) == right.count(r) by {
        if at < queues.len() - 1 {
            let head = queues.drop_last();
            assert(pooled(head.update(at, queue)).add(head[at].to_multiset()).count(r) == pooled(
                head,
            ).add(queue.to_multiset()).count(r));
        }
    }
    assert(left =~= right);
}

pub proof fn pooled_empty(queues: Seq<Seq<RecordView>>)
    requires
        forall|i: int| 0 <= i < queues.len() ==> (#[trigger] queues[i]).len() == 0,
    ensures
        pooled(queues) == Multiset::<RecordView>::empty(),
        pooled_len(queues) == 0,
    decreases queues.len(),
{
    broadcast use vstd::seq_lib::group_to_multiset_ensures;

    if queues.len() > 0 {
        pooled_empty(queues.drop_last());
        let last = queues[queues.len() - 1];
        assert(last =~= Seq::<RecordView>::empty());
        assert(pooled(queues) =~= Multiset::<RecordView>::empty());
    }
}

/// The queue whose first record comes first; the lowest of equals.
pub open spec fn is_front(queues: Seq<Seq<RecordView>>, at: int) -> bool {
    &&& 0 <= at < queues.len()
    &&& queues[at].len() > 0
    &&& forall|j: int|
        0 <= j < at && (#[trigger] queues[j]).len() > 0 ==> order::before(
            queues[at][0],
            queues[j][0],
        )
    &&& forall|j: int|
        at < j < queues.len() && (#[trigger] queues[j]).len() > 0 ==> !order::before(
            queues[j][0],
            queues[at][0],
        )
}

/// Hands out the records of several runs in canonical order.
pub struct RunMerger<'a> {
    pub readers: Vec<RunReader<'a>>,
    /// The next record of each run, once loaded.
    pub heads: Vec<Option<NormalizedRecord>>,
    /// The run whose head was handed out last and is not yet reloaded.
    pub pending: Option<usize>,
    pub memory: MergeMemory,
    pub unread: Ghost<Seq<Seq<RecordView>>>,
    pub base: Ghost<int>,
}

impl<'a> RunMerger<'a> {
    pub open spec fn head_views(self) -> Seq<Option<RecordView>> {
        self.heads@.map_values(|h: Option<NormalizedRecord>| head_view(h))
    }

    /// What each run still has to hand out.
    pub open spec fn queues(self) -> Seq<Seq<RecordView>> {
        Seq::new(
            self.unread@.len(),
            |i: int| queue_of(self.head_views()[i], self.unread@[i]),
        )
    }

    /// Heads, readers and the memory budget agree.
    pub open spec fn wf(self, limits: IngestLimits) -> bool {
        &&& self.readers@.len() == self.unread@.len()
        &&& self.heads@.len() == self.unread@.len()
        &&& forall|i: int|
            0 <= i < self.unread@.len() ==> (#[trigger] self.readers@[i]).reads(
                self.unread@[i],
                limits,
            )
        &&& forall|i: int|
            0 <= i < self.unread@.len() && (#[trigger] self.heads@[i]) is None
                ==> self.unread@[i].len() == 0 || self.pending == Some(i as usize)
        &&& self.pending matches Some(p) ==> p < self.heads@.len() && self.heads@[p as int] is None
        &&& self.base@ >= 0
        &&& self.memory.used == self.base@ + held(self.head_views())
    }

    /// Reloading the pending run would exceed the memory budget.
    pub open spec fn starved(self) -> bool {
        self.pending matches Some(p) && self.queues()[p as int].len() > 0 && self.memory.used
            + runs::text_size(self.queues()[p as int][0]) > self.memory.limit
    }

    /// The error of a starved merge.
    pub open spec fn starvation(self) -> ErrorView {
        let first = self.queues()[self.pending->0 as int][0];
        runs::reserve_error(self.memory, runs::text_size(first), first.line, first.byte_offset)
    }

    /// Loads the head of a run that has none.
    fn refill(&mut self, at: usize, limits: &IngestLimits) -> (result: Result<(), IngestError>)
        requires
            old(self).wf(*limits),
            old(self).pending == Some(at),
        ensures
            result is Ok <==> !old(self).starved(),
            result is Ok ==> final(self).wf(*limits) && final(self).pending is None && final(self).queues() == old(self).queues() && final(self).memory.limit == old(self).memory.limit
                && final(self).base == old(self).base,
            result matches Err(e) ==> e@ == old(self).starvation(),
    {
        let ghost start = *self;
        let ghost rest = self.unread@[at as int];
        assert(self.head_views()[at as int] is None);
        assert(self.queues()[at as int] == rest);
        let mut memory = self.memory;
        let mut reader = RunReader {
            data: self.readers[at].data,
            position: self.readers[at].position,
            remaining: self.readers[at].remaining,
        };
        let loaded = match reader.next_of(limits, &mut memory, Ghost(rest)) {
            Ok(loaded) => loaded,
            Err(e) => return Err(e),
        };
        self.readers.set(at, reader);
        self.heads.set(at, loaded);
        self.memory = memory;
        self.pending = None;
        proof {
            if loaded is Some {
                self.unread@ = self.unread@.update(at as int, rest.drop_first());
            }
            assert(self.head_views() =~= start.head_views().update(
                at as int,
                head_view(loaded),
            ));
            held_update(start.head_views(), at as int, head_view(loaded));
            if loaded is Some {
                assert(queue_of(head_view(loaded), rest.drop_first()) =~= rest);
            }
            assert(self.queues() =~= start.queues());
            assert forall|i: int|
                0 <= i < self.unread@.len() && (#[trigger] self.heads@[i])
                    is None implies self.unread@[i].len() == 0 by {
                assert(self.heads.len() == self.heads@.len());
                if i != at as int {
                    assert(start.heads@[i] is None);
                }
            }
        }
        Ok(())
    }

    /// Hands out the next record in canonical order.
    pub fn next(&mut self, limits: &IngestLimits) -> (result: Result<
        Option<NormalizedRecord>,
        IngestError,
    >)
        requires
            old(self).wf(*limits),
        ensures
            match result {
                Err(e) => old(self).starved() && e@ == old(self).starvation(),
                Ok(None) => !old(self).starved() && pooled_len(old(self).queues()) == 0 && final(self).queues() == old(self).queues(),
                Ok(Some(record)) => {
                    &&& !old(self).starved()
                    &&& final(self).wf(*limits)
                    &&& final(self).pending matches Some(p)
                    &&& is_front(old(self).queues(), p as int)
                    &&& record@ == old(self).queues()[p as int][0]
                    &&& final(self).queues() == old(self).queues().update(
                        p as int,
                        old(self).queues()[p as int].drop_first(),
                    )
                },
            },
            final(self).memory.limit == old(self).memory.limit || result is Err,
            final(self).base == old(self).base || result is Err,
    {
        match self.pending {
            Some(at) => match self.refill(at, limits) {
                Ok(()) => {},
                Err(e) => return Err(e),
            },
            None => {},
        }
        let ghost qs = self.queues();
        let mut best: Option<usize> = None;
        let mut index: usize = 0;
        while index < self.heads.len()
            invariant
                self.wf(*limits),
                self.pending is None,
                index <= self.heads@.len(),
                qs == self.queues(),
                best is None ==> forall|j: int| 0 <= j < index ==> (#[trigger] qs[j]).len() == 0,
                best matches Some(b) ==> {
                    &&& b < index
                    &&& qs[b as int].len() > 0
                    &&& self.heads@[b as int] is Some
                    &&& self.heads@[b as int]->0@ == qs[b as int][0]
                    &&& forall|j: int|
                        0 <= j < b && (#[trigger] qs[j]).len() > 0 ==> order::before(
                            qs[b as int][0],
                            qs[j][0],
                        )
                    &&& forall|j: int|
                        b < j < index && (#[trigger] qs[j]).len() > 0 ==> !order::before(
                            qs[j][0],
                            qs[b as int][0],
                        )
                },
            decreases self.heads@.len() - index,
        {
            assert(qs[index as int] == queue_of(
                head_view(self.heads@[index as int]),
                self.unread@[index as int],
            ));
            if let Some(record) = &self.heads[index] {
                assert(qs[index as int][0] == record@);
                let better = match best {
                    Some(b) => match &self.heads[b] {
                        Some(other) => order::precedes(record, other),
                        None => true,
                    },
                    None => true,
                };
                if better {
                    best = Some(index);
                }
            }
            index = index + 1;
        }
        let at: usize = match best {
            Some(at) => at,
            None => {
                proof {
                    pooled_empty(qs);
                }
                return Ok(None);
            },
        };
        let ghost start = *self;
        proof {
            held_covers_each(self.head_views(), at as int);
        }
        let mut taken: Option<NormalizedRecord> = None;
        core::mem::swap(&mut self.heads[at], &mut taken);
        let record = match taken {
            Some(record) => record,
            None => {
                assert(false);
                return Ok(None);
            },
        };
        let bytes: u64 = text_bytes(&record);
        self.memory.release(bytes);
        self.pending = Some(at);
        proof {
            assert(self.head_views() =~= start.head_views().update(at as int, None));
            held_update(start.head_views(), at as int, None);
            assert(queue_of(Some(record@), start.unread@[at as int]).drop_first()
                =~= start.unread@[at as int]);
            assert(self.queues() =~= qs.update(at as int, qs[at as int].drop_first()));
            assert(is_front(qs, at as int));
        }
        Ok(Some(record))
    }
}

/// The bytes of memory that a record's texts take, saturating.
pub fn text_bytes(record: &NormalizedRecord) -> (bytes: u64)
    ensures
        bytes == if runs::text_size(record@) <= u64::MAX {
            runs::text_size(record@)
        } else {
            u64::MAX as int
        },
{
    let username: u64 = record.username.as_str().as_bytes().len() as u64;
    let path: u64 = record.path.as_str().as_bytes().len() as u64;
    username.saturating_add(path)
}

} // verus!
