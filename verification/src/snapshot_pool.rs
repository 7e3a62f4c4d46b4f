//! A bounded exchange of snapshots in which the latest wins.

use std::collections::VecDeque;
use vstd::prelude::*;

verus! {

/// How many snapshots an exchange holds at most.
pub const MAX_SNAPSHOT_BUFFERS: usize = 3;

/// What an exchange holds and has done.
#[verifier::ext_equal]
pub struct PoolView<T> {
    pub buffers: Seq<T>,
    pub capacity: usize,
    pub published: u64,
    pub discarded: u64,
}

/// A count that stops at the largest number.
pub open spec fn counted(count: u64, more: int) -> u64 {
    if count + more > u64::MAX {
        u64::MAX
    } else {
        (count + more) as u64
    }
}

/// An exchange without snapshots.
pub open spec fn empty_pool<T>(capacity: usize) -> PoolView<T> {
    PoolView { buffers: Seq::empty(), capacity, published: 0, discarded: 0 }
}

/// The exchange after a snapshot was published: the oldest gives way.
pub open spec fn published_pool<T>(pool: PoolView<T>, snapshot: T) -> PoolView<T> {
    let all = pool.buffers.push(snapshot);
    if all.len() > pool.capacity {
        PoolView {
            buffers: all.skip(1),
            published: counted(pool.published, 1),
            discarded: counted(pool.discarded, 1),
            ..pool
        }
    } else {
        PoolView { buffers: all, published: counted(pool.published, 1), ..pool }
    }
}

/// The exchange after the latest snapshot was taken: the others are gone too.
pub open spec fn drained_pool<T>(pool: PoolView<T>) -> PoolView<T> {
    PoolView {
        buffers: Seq::empty(),
        discarded: counted(
            pool.discarded,
            if pool.buffers.len() > 0 {
                pool.buffers.len() - 1
            } else {
                0
            },
        ),
        ..pool
    }
}

/// A bounded exchange of snapshots.
pub struct SnapshotBufferPool<T> {
    buffers: VecDeque<T>,
    capacity: usize,
    published: u64,
    discarded: u64,
}

impl<T> View for SnapshotBufferPool<T> {
    type V = PoolView<T>;

    closed spec fn view(&self) -> PoolView<T> {
        PoolView {
            buffers: self.buffers@,
            capacity: self.capacity,
            published: self.published,
            discarded: self.discarded,
        }
    }
}

impl<T> SnapshotBufferPool<T> {
    /// The exchange holds no more than it may.
    pub open spec fn wf(&self) -> bool {
        &&& 1 <= self@.capacity <= MAX_SNAPSHOT_BUFFERS
        &&& self@.buffers.len() <= self@.capacity
    }

    pub fn new() -> (pool: Self)
        ensures
            pool.wf(),
            pool@ == empty_pool::<T>(MAX_SNAPSHOT_BUFFERS),
    {
        Self::with_capacity(MAX_SNAPSHOT_BUFFERS)
    }

    /// An exchange with a capacity of its own, within bounds.
    pub fn with_capacity(capacity: usize) -> (pool: Self)
        ensures
            pool.wf(),
            pool@ == empty_pool::<T>(
                if capacity < 1 {
                    1
                } else if capacity > MAX_SNAPSHOT_BUFFERS {
                    MAX_SNAPSHOT_BUFFERS
                } else {
                    capacity
                },
            ),
    {
        let capacity: usize = if capacity < 1 {
            1
        } else if capacity > MAX_SNAPSHOT_BUFFERS {
            MAX_SNAPSHOT_BUFFERS
        } else {
            capacity
        };
        SnapshotBufferPool {
            buffers: VecDeque::with_capacity(capacity),
            capacity,
            published: 0,
            discarded: 0,
        }
    }

    /// Publishes a snapshot.
    pub fn publish(&mut self, snapshot: T)
        requires
            old(self).wf(),
        ensures
            final(self).wf(),
            final(self)@ == published_pool(old(self)@, snapshot),
    {
        self.published = self.published.saturating_add(1);
        self.buffers.push_back(snapshot);
        if self.buffers.len() > self.capacity {
            let _ = self.buffers.pop_front();
            self.discarded = self.discarded.saturating_add(1);
        }
        assert(self@ =~= published_pool(old(self)@, snapshot));
    }

    /// Takes the newest snapshot and discards the older ones.
    pub fn acquire_latest(&mut self) -> (latest: Option<T>)
        requires
            old(self).wf(),
        ensures
            final(self).wf(),
            final(self)@ == drained_pool(old(self)@),
            match latest {
                Some(snapshot) => old(self)@.buffers.len() > 0 && snapshot
                    == old(self)@.buffers.last(),
                None => old(self)@.buffers.len() == 0,
            },
    {
        let latest = self.buffers.pop_back();
        self.discarded = self.discarded.saturating_add(self.buffers.len() as u64);
        self.buffers.clear();
        assert(self@ =~= drained_pool(old(self)@));
        latest
    }

    pub fn len(&self) -> (count: usize)
        ensures
            count == self@.buffers.len(),
    {
        self.buffers.len()
    }

    pub fn is_empty(&self) -> (empty: bool)
        ensures
            empty == (self@.buffers.len() == 0),
    {
        self.buffers.len() == 0
    }

    pub fn capacity(&self) -> (capacity: usize)
        ensures
            capacity == self@.capacity,
    {
        self.capacity
    }

    pub fn published(&self) -> (count: u64)
        ensures
            count == self@.published,
    {
        self.published
    }

    pub fn discarded(&self) -> (count: u64)
        ensures
            count == self@.discarded,
    {
        self.discarded
    }
}

/// After a snapshot was published it is the latest.
pub proof fn the_latest_snapshot_wins<T>(pool: PoolView<T>, snapshot: T)
    requires
        pool.capacity >= 1,
        pool.buffers.len() <= pool.capacity,
    ensures
        published_pool(pool, snapshot).buffers.len() > 0,
        published_pool(pool, snapshot).buffers.last() == snapshot,
{
}

/// No snapshot is lost without being counted: of those published, the ones
/// that are held, were discarded or were taken make up all.
pub proof fn every_snapshot_is_accounted_for<T>(pool: PoolView<T>, snapshot: T, taken: int)
    requires
        pool.buffers.len() <= pool.capacity,
        pool.published < u64::MAX,
        pool.discarded <= u64::MAX - pool.capacity - 1,
        pool.published == pool.buffers.len() + pool.discarded + taken,
    ensures
        ({
            let after = published_pool(pool, snapshot);
            after.published == after.buffers.len() + after.discarded + taken
        }),
        ({
            let after = drained_pool(pool);
            after.published == after.buffers.len() + after.discarded + taken + if pool.buffers.len()
                > 0 {
                1int
            } else {
                0int
            }
        }),
{
}

impl<T> Default for SnapshotBufferPool<T> {
    fn default() -> (pool: Self)
        ensures
            pool.wf(),
            pool@ == empty_pool::<T>(MAX_SNAPSHOT_BUFFERS),
    {
        Self::new()
    }
}

/// Another name for the exchange of snapshots.
pub type SnapshotPool<T> = SnapshotBufferPool<T>;

} // verus!
