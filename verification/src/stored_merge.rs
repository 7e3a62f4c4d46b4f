//! Merging sort runs that are kept outside.

use vstd::prelude::*;

use crate::error::{ErrorView, IngestError};
use crate::limits;
use crate::limits::{parser_working_memory_bytes, IngestLimits};
use crate::merge;
use crate::order;
use crate::passes;
use crate::record::{NormalizedRecord, RecordView};
use crate::runs;
use crate::runs::{MergeMemory, RUN_HEADER_BYTES};
use crate::sorting;
use crate::sorting::OPEN_RUN_BYTES;
use crate::stored_reader;
use crate::stored_reader::{ReadRequest, ReadStage, StoredReader};

verus! {

/// A run that is kept outside.
pub struct StoredRun {
    pub id: u64,
    /// The bytes of its encoded form.
    pub size: u64,
    pub records: u64,
    /// What was written as the run.
    pub content: Ghost<Seq<RecordView>>,
}

impl StoredRun {
    /// The counts are those of what was written.
    pub open spec fn wf(&self) -> bool {
        &&& self.size == runs::run_bytes(self.content@).len()
        &&& self.records == self.content@.len()
    }

    /// What was written is ordered and can be read back.
    pub open spec fn sound(&self, limits: IngestLimits) -> bool {
        &&& order::ordered(self.content@)
        &&& forall|i: int|
            0 <= i < self.content@.len() ==> stored_reader::readable(
                #[trigger] self.content@[i],
                limits,
            )
    }
}

/// Runs have rising numbers below the next one.
pub open spec fn numbered(list: Seq<StoredRun>, next_id: int) -> bool {
    &&& forall|i: int| 0 <= i < list.len() ==> (#[trigger] list[i]).id < next_id
    &&& forall|i: int, j: int|
        0 <= i < j < list.len() ==> (#[trigger] list[i]).id < (#[trigger] list[j]).id
}

/// What runs `from..to` were written as.
pub open spec fn written_runs(list: Seq<StoredRun>, from: int, to: int) -> Seq<Seq<RecordView>> {
    Seq::new((to - from) as nat, |i: int| list[from + i].content@)
}

/// What runs `from..to` were written as is ordered and can be read back.
pub open spec fn all_sound(list: Seq<StoredRun>, from: int, to: int, limits: IngestLimits) -> bool {
    forall|i: int| from <= i < to ==> (#[trigger] list[i]).sound(limits)
}

/// Hands out the records of several runs in canonical order, asking for the
/// pieces of the runs as it needs them.
pub struct StoredMerge {
    readers: Vec<StoredReader>,
    /// The next record of each run, once read.
    heads: Vec<Option<NormalizedRecord>>,
    /// The run of which a piece is asked for.
    waiting: Option<usize>,
    /// Runs that were opened.
    opened: usize,
    /// Runs whose first record was asked for.
    loading: usize,
    memory: MergeMemory,
    out: Ghost<Seq<RecordView>>,
    base: Ghost<int>,
}

impl StoredMerge {
    pub closed spec fn head_views(&self) -> Seq<Option<RecordView>> {
        self.heads@.map_values(|h: Option<NormalizedRecord>| merge::head_view(h))
    }

    /// The runs that are merged.
    pub closed spec fn run_ids(&self) -> Seq<u64> {
        Seq::new(self.readers@.len(), |i: int| self.readers@[i].run)
    }

    /// What the runs were written as.
    pub closed spec fn contents(&self) -> Seq<Seq<RecordView>> {
        Seq::new(self.readers@.len(), |i: int| self.readers@[i].content@)
    }

    /// What was written and has not been handed out.
    pub closed spec fn queues(&self) -> Seq<Seq<RecordView>> {
        Seq::new(
            self.readers@.len(),
            |i: int| merge::queue_of(self.head_views()[i], self.readers@[i].unread@),
        )
    }

    /// All records that were handed out.
    pub closed spec fn handed_out(&self) -> Seq<RecordView> {
        self.out@
    }

    /// Every piece that was given back is what was written there.
    pub closed spec fn faithful(&self) -> bool {
        forall|i: int| 0 <= i < self.readers@.len() ==> (#[trigger] self.readers@[i]).faithful@
    }

    /// A piece is asked for.
    pub closed spec fn waits(&self) -> bool {
        self.waiting is Some
    }

    /// Pieces to take and records to hand out until the runs are merged.
    pub closed spec fn work_left(&self) -> int {
        total(self.works())
    }

    /// The work that is left with each run.
    spec fn works(&self) -> Seq<int> {
        Seq::new(
            self.readers@.len(),
            |i: int| self.readers@[i].work() + shown_count(self.head_views()[i]),
        )
    }

    /// The records that are left with each run.
    spec fn counts(&self) -> Seq<int> {
        Seq::new(
            self.readers@.len(),
            |i: int| self.readers@[i].remaining + shown_count(self.head_views()[i]),
        )
    }

    /// The run, among those that are merged, of which a piece is asked for.
    pub closed spec fn asked(&self) -> int {
        self.waiting->0 as int
    }

    /// Where the piece that is asked for starts and how long it is.
    pub closed spec fn piece(&self, limits: IngestLimits) -> (int, int) {
        self.readers@[self.asked()].piece(limits)
    }

    /// What was written where the piece is that is asked for.
    pub closed spec fn written(&self, limits: IngestLimits) -> Seq<u8> {
        self.readers@[self.waiting->0 as int].written(limits)
    }

    /// Memory that the merge has taken.
    pub closed spec fn budget(&self) -> MergeMemory {
        self.memory
    }

    /// Why a piece ends the merge.
    pub closed spec fn piece_fault(&self, bytes: Seq<u8>, limits: IngestLimits) -> Option<
        ErrorView,
    > {
        let reader = self.readers@[self.waiting->0 as int];
        let piece = reader.taken(bytes, limits);
        if reader.stage is Magic {
            runs::open_error(piece)
        } else if reader.stage is Fixed && piece.len() == runs::RECORD_FIXED_BYTES {
            None
        } else {
            let data = if reader.stage is Fixed {
                piece
            } else {
                reader.header@ + piece
            };
            match runs::record_at(data, 0, limits, self.memory) {
                Ok(_) => None,
                Err(e) => Some(e),
            }
        }
    }

    spec fn shape(&self, limits: IngestLimits) -> bool {
        let n = self.readers@.len();
        &&& self.heads@.len() == n
        &&& forall|i: int| 0 <= i < n ==> (#[trigger] self.readers@[i]).wf(limits)
        &&& self.opened <= n
        &&& self.loading <= n
        &&& self.waiting matches Some(w) ==> w < n && self.heads@[w as int] is None
            && !(self.readers@[w as int].stage is Idle)
        &&& self.memory.used == self.base@ + merge::held(self.head_views())
        &&& self.base@ >= 0
    }

    spec fn opening(&self) -> bool {
        let n = self.readers@.len();
        &&& self.waiting == Some(self.opened)
        &&& self.opened < n
        &&& self.loading == 0
        &&& forall|i: int| 0 <= i < n ==> (#[trigger] self.heads@[i]) is None
        &&& forall|i: int| 0 <= i < self.opened ==> (#[trigger] self.readers@[i]).stage is Idle
        &&& forall|i: int| self.opened <= i < n ==> (#[trigger] self.readers@[i]).stage is Magic
    }

    spec fn merging(&self) -> bool {
        let n = self.readers@.len();
        &&& self.opened == n
        &&& forall|i: int|
            0 <= i < n && self.waiting != Some(i as usize) ==> (#[trigger] self.readers@[i]).stage
                is Idle
        &&& forall|i: int|
            0 <= i < self.loading && (#[trigger] self.heads@[i]) is None ==> self.waiting == Some(
                i as usize,
            ) || self.readers@[i].remaining == 0
        &&& forall|i: int| self.loading <= i < n ==> (#[trigger] self.heads@[i]) is None
        &&& match self.waiting {
            Some(w) => w < self.loading && !(self.readers@[w as int].stage is Magic),
            None => self.loading == n,
        }
    }

    pub closed spec fn wf(&self, limits: IngestLimits) -> bool {
        &&& self.shape(limits)
        &&& self.opening() || self.merging()
        &&& self.out@.len() + total(self.counts()) == merge::pooled_len(self.contents())
        &&& self.faithful() ==> passes::merge_output(self.contents()) == self.out@
            + passes::merge_output(self.queues())
    }

    /// Opens runs `from..to`.
    pub fn open(list: &Vec<StoredRun>, from: usize, to: usize, resident: u64, limits: &IngestLimits) -> (
    merge: Result<Self, IngestError>)
        requires
            from <= to <= list@.len(),
            forall|i: int| 0 <= i < list@.len() ==> (#[trigger] list@[i]).wf(),
        ensures
            ({
                let limit = limits::parser_share(limits.working_memory_bytes);
                let needed = resident + (to - from) * OPEN_RUN_BYTES;
                match merge {
                    Ok(merge) => {
                        &&& sorting::memory_fault(needed, limit, 0, 0) is None
                        &&& merge.wf(*limits)
                        &&& merge.faithful() == all_sound(list@, from as int, to as int, *limits)
                        &&& merge.contents() == written_runs(list@, from as int, to as int)
                        &&& merge.run_ids() == Seq::new(
                            (to - from) as nat,
                            |i: int| list@[from + i].id,
                        )
                        &&& merge.handed_out() == Seq::<RecordView>::empty()
                        &&& merge.work_left() == (to - from) + 3 * merge::pooled_len(
                            merge.contents(),
                        )
                        &&& merge.budget() == (MergeMemory { limit, used: needed as u64 })
                        &&& merge.waits() == (from < to)
                    },
                    Err(e) => sorting::memory_fault(needed, limit, 0, 0) == Some(e@),
                }
            }),
    {
        let limit: u64 = parser_working_memory_bytes(limits.working_memory_bytes);
        let requested: u64 = resident.saturating_add(sorting::slots(to - from, OPEN_RUN_BYTES));
        match sorting::parser_memory_check(requested, limit, 0, 0) {
            Ok(()) => {},
            Err(e) => return Err(e),
        }
        let mut readers: Vec<StoredReader> = Vec::new();
        let mut heads: Vec<Option<NormalizedRecord>> = Vec::new();
        let mut index: usize = from;
        while index < to
            invariant
                from <= index <= to <= list@.len(),
                forall|i: int| 0 <= i < list@.len() ==> (#[trigger] list@[i]).wf(),
                readers@.len() == index - from,
                heads@.len() == index - from,
                forall|i: int| 0 <= i < heads@.len() ==> (#[trigger] heads@[i]) is None,
                forall|i: int|
                    0 <= i < readers@.len() ==> {
                        let reader = #[trigger] readers@[i];
                        &&& reader.wf(*limits)
                        &&& reader.faithful@ == list@[from + i].sound(*limits)
                        &&& reader.stage is Magic
                        &&& reader.content@ == list@[from + i].content@
                        &&& reader.unread@ == list@[from + i].content@
                        &&& reader.run == list@[from + i].id
                        &&& reader.remaining == list@[from + i].content@.len()
                    },
            decreases to - index,
        {
            let run = &list[index];
            assert(list@[index as int].wf());
            readers.push(
                StoredReader {
                    run: run.id,
                    size: run.size,
                    offset: 0,
                    remaining: run.records,
                    stage: ReadStage::Magic,
                    header: Vec::new(),
                    content: Ghost(run.content@),
                    unread: Ghost(run.content@),
                    faithful: Ghost(run.sound(*limits)),
                },
            );
            heads.push(None);
            index = index + 1;
        }
        let waiting: Option<usize> = if from < to {
            Some(0)
        } else {
            None
        };
        let merge = StoredMerge {
            readers,
            heads,
            waiting,
            opened: 0,
            loading: 0,
            memory: MergeMemory { limit, used: requested },
            out: Ghost(Seq::empty()),
            base: Ghost(resident + (to - from) * OPEN_RUN_BYTES),
        };
        proof {
            none_held(merge.head_views());
            if merge.faithful() {
                assert forall|i: int| from <= i < to implies (#[trigger] list@[i]).sound(
                    *limits,
                ) by {
                    assert(merge.readers@[i - from].faithful@);
                }
            }
            assert(merge.contents() =~= written_runs(list@, from as int, to as int));
            assert(merge.run_ids() =~= Seq::new((to - from) as nat, |i: int| list@[from + i].id));
            lengths_add_up(merge.contents(), merge.counts());
            works_add_up(merge.contents(), merge.works());
            assert(merge.queues() =~= merge.contents());
            let all = passes::merge_output(merge.contents());
            assert(all =~= Seq::<RecordView>::empty() + all);
        }
        Ok(merge)
    }

    /// Where every piece was what was written, what was handed out is the
    /// first part of all records in canonical order.
    pub proof fn hands_out_in_order(&self, limits: IngestLimits)
        requires
            self.wf(limits),
            self.faithful(),
        ensures
            passes::merge_output(self.contents()) == self.handed_out() + passes::merge_output(
                self.queues(),
            ),
    {
    }

    /// The work that is left is a count.
    pub proof fn work_is_a_count(&self, limits: IngestLimits)
        requires
            self.wf(limits),
        ensures
            self.work_left() >= 0,
    {
        assert forall|i: int| 0 <= i < self.works().len() implies (#[trigger] self.works()[i]) >= 0 by {
            assert(self.readers@[i].wf(limits));
        }
        total_is_nonnegative(self.works());
    }

    /// How many runs are merged.
    pub fn run_count(&self) -> (count: usize)
        ensures
            count == self.contents().len(),
    {
        self.readers.len()
    }

    /// The piece that the merge waits for.
    pub fn request(&self, limits: &IngestLimits) -> (request: Option<ReadRequest>)
        requires
            self.wf(*limits),
        ensures
            request is Some <==> self.waits(),
            request matches Some(r) ==> self.asks_for(r, *limits),
    {
        match self.waiting {
            Some(at) => {
                assert(self.readers@[at as int].wf(*limits));
                self.readers[at].request(limits)
            },
            None => None,
        }
    }

    /// A piece is the one that the merge waits for.
    pub open spec fn asks_for(&self, request: ReadRequest, limits: IngestLimits) -> bool {
        let from = request.offset as int;
        let to = from + request.length;
        &&& 0 <= self.asked() < self.contents().len()
        &&& request.run == self.run_ids()[self.asked()]
        &&& (request.offset as int, request.length as int) == self.piece(limits)
        &&& self.written(limits) == runs::run_bytes(self.contents()[self.asked()]).subrange(from, to)
    }

    /// What a piece does: the first bytes of a run open it, a fixed part is
    /// kept until the rest comes, and with the rest the record is shown.
    pub closed spec fn has_taken(
        &self,
        before: &StoredMerge,
        bytes: Seq<u8>,
        limits: IngestLimits,
    ) -> bool {
        let at = before.waiting->0 as int;
        let reader = before.readers@[at];
        let now = self.readers@[at];
        let piece = reader.taken(bytes, limits);
        &&& forall|i: int|
            0 <= i < before.readers@.len() && i != at ==> (#[trigger] self.readers@[i]).offset
                == before.readers@[i].offset && self.readers@[i].remaining
                == before.readers@[i].remaining
        &&& match reader.stage {
            ReadStage::Magic => {
                &&& self.opened == before.opened + 1
                &&& now.offset == RUN_HEADER_BYTES
                &&& now.remaining == reader.remaining
                &&& self.head_views() == before.head_views()
            },
            ReadStage::Fixed => {
                &&& self.waiting == before.waiting
                &&& now.stage is Rest
                &&& now.header@ == piece
                &&& now.offset == reader.offset
                &&& now.remaining == reader.remaining
                &&& self.head_views() == before.head_views()
            },
            ReadStage::Rest => {
                &&& runs::record_at(reader.header@ + piece, 0, limits, before.memory) matches Ok(
                    (record, next),
                )
                &&& now.offset == reader.offset + next
                &&& now.remaining == reader.remaining - 1
                &&& self.head_views() == before.head_views().update(at, Some(record))
            },
            ReadStage::Idle => false,
        }
    }

    /// Asks for the first record of the runs from a place on.
    fn load_from(&mut self, from: usize, Ghost(limits): Ghost<IngestLimits>)
        requires
            old(self).shape(limits),
            old(self).opened == old(self).readers@.len(),
            from <= old(self).readers@.len(),
            forall|i: int|
                0 <= i < old(self).readers@.len() ==> (#[trigger] old(self).readers@[i]).stage
                    is Idle,
            forall|i: int|
                0 <= i < from && (#[trigger] old(self).heads@[i]) is None
                    ==> old(self).readers@[i].remaining == 0,
            forall|i: int|
                from <= i < old(self).heads@.len() ==> (#[trigger] old(self).heads@[i]) is None,
            old(self).waiting is None,
        ensures
            final(self).shape(limits),
            final(self).merging(),
            final(self).contents() == old(self).contents(),
            final(self).queues() == old(self).queues(),
            final(self).head_views() == old(self).head_views(),
            final(self).run_ids() == old(self).run_ids(),
            final(self).works() == old(self).works(),
            final(self).counts() == old(self).counts(),
            final(self).opened == old(self).opened,
            final(self).readers@.len() == old(self).readers@.len(),
            forall|i: int|
                0 <= i < old(self).readers@.len() ==> (#[trigger] final(self).readers@[i]).offset
                    == old(self).readers@[i].offset && final(self).readers@[i].remaining
                    == old(self).readers@[i].remaining,
            final(self).faithful() == old(self).faithful(),
            final(self).out == old(self).out,
            final(self).memory == old(self).memory,
            final(self).base == old(self).base,
    {
        let ghost start = *self;
        let mut index: usize = from;
        while index < self.readers.len()
            invariant
                from <= index <= self.readers@.len(),
                *self == start,
                start.shape(limits),
                start.opened == start.readers@.len(),
                start.waiting is None,
                forall|i: int|
                    0 <= i < start.readers@.len() ==> (#[trigger] start.readers@[i]).stage is Idle,
                forall|i: int|
                    0 <= i < index && (#[trigger] start.heads@[i]) is None
                        ==> start.readers@[i].remaining == 0,
                forall|i: int|
                    from <= i < start.heads@.len() ==> (#[trigger] start.heads@[i]) is None,
                *old(self) == start,
            ensures
                *self == start,
                index == start.readers@.len(),
                forall|i: int|
                    0 <= i < index && (#[trigger] start.heads@[i]) is None
                        ==> start.readers@[i].remaining == 0,
            decreases self.readers@.len() - index,
        {
            assert(self.readers@[index as int].wf(limits));
            if self.readers[index].remaining > 0 {
                let wanted = self.readers[index].want(Ghost(limits));
                self.waiting = Some(index);
                self.loading = index + 1;
                proof {
                    same_queues(start, *self);
                    assert forall|i: int| 0 <= i < self.readers@.len() implies (
                    #[trigger] self.readers@[i]).wf(limits) by {
                        assert(start.readers@[i].wf(limits));
                    }
                }
                return;
            }
            index = index + 1;
        }
        self.loading = index;
        proof {
            same_queues(start, *self);
        }
    }

    /// Takes a piece.
    pub fn supply(&mut self, bytes: &[u8], limits: &IngestLimits) -> (result: Result<
        (),
        IngestError,
    >)
        requires
            old(self).wf(*limits),
            old(self).waits(),
        ensures
            match result {
                Ok(()) => {
                    &&& old(self).piece_fault(bytes@, *limits) is None
                    &&& final(self).wf(*limits)
                    &&& final(self).faithful() == (old(self).faithful() && bytes@ == old(self).written(*limits))
                    &&& final(self).contents() == old(self).contents()
                    &&& final(self).handed_out() == old(self).handed_out()
                    &&& final(self).run_ids() == old(self).run_ids()
                    &&& final(self).has_taken(old(self), bytes@, *limits)
                    &&& final(self).work_left() == old(self).work_left() - 1
                    &&& final(self).budget().limit == old(self).budget().limit
                    &&& final(self).faithful() ==> final(self).queues() == old(self).queues()
                },
                Err(e) => old(self).piece_fault(bytes@, *limits) == Some(e@),
            },
    {
        let ghost start = *self;
        let at: usize = match self.waiting {
            Some(at) => at,
            None => {
                assert(false);
                return Ok(());
            },
        };
        assert(self.readers@[at as int].wf(*limits));
        let stage = self.readers[at].stage;
        match stage {
            ReadStage::Magic => {
                assert(self.opening());
                assert(self.opened < self.readers.len());
                match self.readers[at].take_magic(bytes, limits) {
                    Ok(()) => {},
                    Err(e) => return Err(e),
                }
                self.opened = self.opened + 1;
                let ghost opened = *self;
                proof {
                    one_reader_changed(start, *self, at as int);
                    piece_taken(start, *self, at as int);
                    assert(start.opening());
                    assert forall|i: int| 0 <= i < self.readers@.len() implies (
                    #[trigger] self.readers@[i]).wf(*limits) by {
                        if i != at as int {
                            assert(start.readers@[i].wf(*limits));
                        }
                    }
                }
                if self.opened < self.readers.len() {
                    self.waiting = Some(self.opened);
                    proof {
                        same_queues(opened, *self);
                        assert forall|i: int|
                            self.opened <= i < self.readers@.len() implies (
                        #[trigger] self.readers@[i]).stage is Magic by {
                            assert(start.readers@[i].stage is Magic);
                        }
                        assert(self.opening());
                    }
                } else {
                    self.waiting = None;
                    proof {
                        same_queues(opened, *self);
                    }
                    self.load_from(0, Ghost(*limits));
                }
            },
            ReadStage::Fixed => {
                let memory = self.memory;
                match self.readers[at].take_fixed(bytes, limits, &memory) {
                    Ok(()) => {},
                    Err(e) => return Err(e),
                }
                proof {
                    one_reader_changed(start, *self, at as int);
                    piece_taken(start, *self, at as int);
                    assert forall|i: int| 0 <= i < self.readers@.len() implies (
                    #[trigger] self.readers@[i]).wf(*limits) by {
                        if i != at as int {
                            assert(start.readers@[i].wf(*limits));
                        }
                    }
                    assert(start.merging());
                    assert(self.merging()) by {
                        assert forall|i: int|
                            0 <= i < self.loading && (#[trigger] self.heads@[i])
                                is None implies self.waiting == Some(i as usize)
                            || self.readers@[i].remaining == 0 by {
                            assert(start.heads@[i] is None);
                        }
                    }
                }
            },
            ReadStage::Rest => {
                let mut memory = self.memory;
                let record = match self.readers[at].take_rest(bytes, limits, &mut memory) {
                    Ok(record) => record,
                    Err(e) => return Err(e),
                };
                self.memory = memory;
                let ghost view = record@;
                self.heads.set(at, Some(record));
                self.waiting = None;
                proof {
                    assert(self.head_views() =~= start.head_views().update(
                        at as int,
                        Some(view),
                    ));
                    merge::held_update(start.head_views(), at as int, Some(view));
                    loaded_head(start, *self, at as int, bytes@, *limits);
                    piece_taken(start, *self, at as int);
                    assert forall|i: int| 0 <= i < self.readers@.len() implies (
                    #[trigger] self.readers@[i]).wf(*limits) by {
                        if i != at as int {
                            assert(start.readers@[i].wf(*limits));
                        }
                    }
                    assert(start.merging());
                    assert forall|i: int| 0 <= i < self.readers@.len() implies (
                    #[trigger] self.readers@[i]).stage is Idle by {
                        if i != at as int {
                            assert(start.readers@[i].stage is Idle);
                        }
                    }
                    assert forall|i: int|
                        0 <= i < self.loading && (#[trigger] self.heads@[i])
                            is None implies self.readers@[i].remaining == 0 by {
                        assert(start.heads@[i] is None);
                    }
                    assert forall|i: int|
                        self.loading <= i < self.heads@.len() implies (#[trigger] self.heads@[i])
                        is None by {
                        assert(start.heads@[i] is None);
                    }
                }
                let from: usize = self.loading;
                self.load_from(from, Ghost(*limits));
            },
            ReadStage::Idle => {
                assert(false);
            },
        }
        Ok(())
    }

    /// Hands out the next record in canonical order, once every run that has
    /// one shows it.
    pub fn next(&mut self, limits: &IngestLimits) -> (record: Option<NormalizedRecord>)
        requires
            old(self).wf(*limits),
            !old(self).waits(),
        ensures
            final(self).wf(*limits),
            final(self).contents() == old(self).contents(),
            final(self).run_ids() == old(self).run_ids(),
            final(self).faithful() == old(self).faithful(),
            final(self).budget().limit == old(self).budget().limit,
            match record {
                Some(record) => {
                    &&& final(self).work_left() == old(self).work_left() - 1
                    &&& exists|at: int|
                        #[trigger] merge::is_front(old(self).shown(), at) && old(self).head_views()[at]
                            == Some(record@)
                    &&& final(self).handed_out() == old(self).handed_out().push(record@)
                    &&& merge::pooled_len(old(self).shown()) > 0
                    &&& old(self).faithful() ==> exists|at: int|
                        #[trigger] merge::is_front(old(self).queues(), at) && record@ == old(self).queues()[at][0] && final(self).queues() == passes::popped(
                            old(self).queues(),
                            at,
                        )
                },
                None => {
                    &&& merge::pooled_len(old(self).shown()) == 0
                    &&& final(self).handed_out() == old(self).handed_out()
                    &&& final(self).queues() == old(self).queues()
                    &&& *final(self) == *old(self)
                    &&& old(self).work_left() == 0
                    &&& final(self).handed_out().len() == merge::pooled_len(
                        old(self).contents(),
                    )
                    &&& old(self).faithful() ==> final(self).handed_out() == passes::merge_output(
                        old(self).contents(),
                    )
                },
            },
    {
        let ghost start = *self;
        let ghost shown = self.shown();
        let ghost qs = self.queues();
        assert(self.merging());
        let mut best: Option<usize> = None;
        let mut index: usize = 0;
        while index < self.heads.len()
            invariant
                *self == start,
                index <= self.heads@.len(),
                shown == self.shown(),
                self.shape(*limits),
                best is None ==> forall|j: int| 0 <= j < index ==> (#[trigger] shown[j]).len() == 0,
                best matches Some(b) ==> {
                    &&& b < index
                    &&& shown[b as int].len() > 0
                    &&& self.heads@[b as int] is Some
                    &&& self.heads@[b as int]->0@ == shown[b as int][0]
                    &&& forall|j: int|
                        0 <= j < b && (#[trigger] shown[j]).len() > 0 ==> order::before(
                            shown[b as int][0],
                            shown[j][0],
                        )
                    &&& forall|j: int|
                        b < j < index && (#[trigger] shown[j]).len() > 0 ==> !order::before(
                            shown[j][0],
                            shown[b as int][0],
                        )
                },
            decreases self.heads@.len() - index,
        {
            assert(shown[index as int] == merge::queue_of(
                merge::head_view(self.heads@[index as int]),
                Seq::empty(),
            ));
            if let Some(record) = &self.heads[index] {
                assert(shown[index as int][0] == record@);
                let better = match best {
                    Some(b) => match &self.heads[b] {
                        Some(other) => order::precedes(record, other),
                        None => true,
                    },
                    None => true,
                };
                if better {
                    best = Some(index);
                }
            }
            index = index + 1;
        }
        let at: usize = match best {
            Some(at) => at,
            None => {
                proof {
                    merge::pooled_empty(shown);
                    assert forall|i: int| 0 <= i < self.readers@.len() implies (
                    #[trigger] self.readers@[i]).work() == 0 && self.readers@[i].remaining == 0
                        && self.head_views()[i] is None by {
                        assert(shown[i].len() == 0);
                        assert(self.heads@[i] is None);
                    }
                    total_of_zeros(self.works());
                    total_of_zeros(self.counts());
                    if self.faithful() {
                        shown_decides(start, *limits);
                        assert forall|i: int| 0 <= i < qs.len() implies (#[trigger] qs[i]).len()
                            == 0 by {
                            assert(shown[i].len() == 0);
                        }
                        merge::pooled_empty(qs);
                        assert(self.out@ + Seq::<RecordView>::empty() =~= self.out@);
                    }
                }
                return None;
            },
        };
        proof {
            merge::held_covers_each(self.head_views(), at as int);
            assert(merge::is_front(shown, at as int));
            merge::pooled_update(shown, at as int, Seq::empty());
            if self.faithful() {
                shown_decides(start, *limits);
                assert(merge::is_front(qs, at as int)) by {
                    assert forall|j: int|
                        0 <= j < at && (#[trigger] qs[j]).len() > 0 implies order::before(
                        qs[at as int][0],
                        qs[j][0],
                    ) by {
                        assert(shown[j].len() > 0);
                    }
                    assert forall|j: int|
                        at < j < qs.len() && (#[trigger] qs[j]).len() > 0 implies !order::before(
                        qs[j][0],
                        qs[at as int][0],
                    ) by {
                        assert(shown[j].len() > 0);
                    }
                }
            }
        }
        let mut taken: Option<NormalizedRecord> = None;
        core::mem::swap(&mut self.heads[at], &mut taken);
        let record = match taken {
            Some(record) => record,
            None => {
                assert(false);
                return None;
            },
        };
        let bytes: u64 = merge::text_bytes(&record);
        self.memory.release(bytes);
        self.out = Ghost(start.out@.push(record@));
        assert(self.readers@[at as int].wf(*limits));
        if self.readers[at].want(Ghost(*limits)) {
            self.waiting = Some(at);
        }
        proof {
            assert(self.head_views() =~= start.head_views().update(at as int, None));
            merge::held_update(start.head_views(), at as int, None);
            assert(self.contents() =~= start.contents());
            assert(self.run_ids() =~= start.run_ids());
            total_update(start.works(), at as int, self.works()[at as int]);
            assert(self.works() =~= start.works().update(at as int, self.works()[at as int]));
            total_update(start.counts(), at as int, self.counts()[at as int]);
            assert(self.counts() =~= start.counts().update(at as int, self.counts()[at as int]));
            assert(merge::queue_of(Some(record@), start.readers@[at as int].unread@).drop_first()
                =~= start.readers@[at as int].unread@);
            assert(self.queues() =~= passes::popped(qs, at as int));
            if start.faithful() {
                assert forall|i: int| 0 <= i < self.readers@.len() implies (
                #[trigger] self.readers@[i]).faithful@ by {
                    assert(start.readers@[i].faithful@);
                }
            }
            if self.faithful() {
                assert forall|i: int| 0 <= i < start.readers@.len() implies (
                #[trigger] start.readers@[i]).faithful@ by {
                    assert(self.readers@[i].faithful@);
                }
            }
            assert forall|i: int| 0 <= i < self.readers@.len() implies (
            #[trigger] self.readers@[i]).wf(*limits) by {
                assert(start.readers@[i].wf(*limits));
            }
            assert(self.merging()) by {
                assert forall|i: int|
                    0 <= i < self.loading && (#[trigger] self.heads@[i])
                        is None implies self.waiting == Some(i as usize)
                    || self.readers@[i].remaining == 0 by {
                    if i != at as int {
                        assert(start.heads@[i] is None);
                    }
                }
            }
            if start.faithful() {
                merge::pooled_update(qs, at as int, qs[at as int].drop_first());
                passes::popping_shrinks(qs);
                passes::front_is_unique(qs, at as int, passes::front(qs));
                let rest = passes::merge_output(self.queues());
                assert(passes::merge_output(qs) == seq![record@] + rest);
                assert(start.out@ + (seq![record@] + rest) =~= self.out@ + rest);
            }
        }
        Some(record)
    }

    /// The records that the runs show.
    pub open spec fn shown(&self) -> Seq<Seq<RecordView>> {
        Seq::new(
            self.head_views().len(),
            |i: int| merge::queue_of(self.head_views()[i], Seq::empty()),
        )
    }
}

/// 1 where a record is shown.
pub open spec fn shown_count(head: Option<RecordView>) -> int {
    if head is Some {
        1
    } else {
        0
    }
}

/// The sum of numbers.
pub open spec fn total(numbers: Seq<int>) -> int
    decreases numbers.len(),
{
    if numbers.len() == 0 {
        0
    } else {
        total(numbers.drop_last()) + numbers.last()
    }
}

proof fn total_update(numbers: Seq<int>, at: int, number: int)
    requires
        0 <= at < numbers.len(),
    ensures
        total(numbers.update(at, number)) == total(numbers) - numbers[at] + number,
    decreases numbers.len(),
{
    let updated = numbers.update(at, number);
    if at == numbers.len() - 1 {
        assert(updated.drop_last() =~= numbers.drop_last());
    } else {
        assert(updated.drop_last() =~= numbers.drop_last().update(at, number));
        total_update(numbers.drop_last(), at, number);
    }
}

proof fn total_is_nonnegative(numbers: Seq<int>)
    requires
        forall|i: int| 0 <= i < numbers.len() ==> (#[trigger] numbers[i]) >= 0,
    ensures
        total(numbers) >= 0,
    decreases numbers.len(),
{
    if numbers.len() > 0 {
        total_is_nonnegative(numbers.drop_last());
    }
}

proof fn total_of_zeros(numbers: Seq<int>)
    requires
        forall|i: int| 0 <= i < numbers.len() ==> (#[trigger] numbers[i]) == 0,
    ensures
        total(numbers) == 0,
    decreases numbers.len(),
{
    if numbers.len() > 0 {
        total_of_zeros(numbers.drop_last());
    }
}

proof fn lengths_add_up(contents: Seq<Seq<RecordView>>, counts: Seq<int>)
    requires
        contents.len() == counts.len(),
        forall|i: int| 0 <= i < counts.len() ==> #[trigger] counts[i] == contents[i].len(),
    ensures
        total(counts) == merge::pooled_len(contents),
    decreases contents.len(),
{
    if contents.len() > 0 {
        lengths_add_up(contents.drop_last(), counts.drop_last());
    }
}

/// Opening a run takes one piece, each of its records two and a hand-out.
proof fn works_add_up(contents: Seq<Seq<RecordView>>, works: Seq<int>)
    requires
        contents.len() == works.len(),
        forall|i: int| 0 <= i < works.len() ==> #[trigger] works[i] == 3 * contents[i].len() + 1,
    ensures
        total(works) == contents.len() + 3 * merge::pooled_len(contents),
    decreases contents.len(),
{
    if contents.len() > 0 {
        works_add_up(contents.drop_last(), works.drop_last());
    }
}

proof fn none_held(heads: Seq<Option<RecordView>>)
    requires
        forall|i: int| 0 <= i < heads.len() ==> (#[trigger] heads[i]) is None,
    ensures
        merge::held(heads) == 0,
    decreases heads.len(),
{
    if heads.len() > 0 {
        none_held(heads.drop_last());
    }
}

/// Changing only what is asked for changes nothing of what is merged.
proof fn same_queues(before: StoredMerge, after: StoredMerge)
    requires
        before.heads == after.heads,
        before.readers@.len() == after.readers@.len(),
        forall|i: int|
            0 <= i < before.readers@.len() ==> {
                &&& (#[trigger] before.readers@[i]).content == after.readers@[i].content
                &&& before.readers@[i].unread == after.readers@[i].unread
                &&& before.readers@[i].faithful == after.readers@[i].faithful
            },
    ensures
        before.contents() == after.contents(),
        before.queues() == after.queues(),
        before.head_views() == after.head_views(),
        before.faithful() == after.faithful(),
{
    assert(before.contents() =~= after.contents());
    assert(before.queues() =~= after.queues());
    if before.faithful() {
        assert forall|i: int| 0 <= i < after.readers@.len() implies (
        #[trigger] after.readers@[i]).faithful@ by {
            assert(before.readers@[i].faithful@);
        }
    }
    if after.faithful() {
        assert forall|i: int| 0 <= i < before.readers@.len() implies (
        #[trigger] before.readers@[i]).faithful@ by {
            assert(after.readers@[i].faithful@);
        }
    }
}

/// A piece that leaves what is unread changes nothing of what is merged, and
/// the merge stays faithful where the reader does.
proof fn one_reader_changed(before: StoredMerge, after: StoredMerge, at: int)
    requires
        before.heads == after.heads,
        0 <= at < before.readers@.len(),
        after.readers@ == before.readers@.update(at, after.readers@[at]),
        before.readers@[at].content == after.readers@[at].content,
        before.readers@[at].unread == after.readers@[at].unread,
        after.readers@[at].faithful@ ==> before.readers@[at].faithful@,
    ensures
        before.contents() == after.contents(),
        before.queues() == after.queues(),
        before.head_views() == after.head_views(),
        after.faithful() == (before.faithful() && after.readers@[at].faithful@),
{
    assert(before.contents() =~= after.contents());
    assert(before.queues() =~= after.queues());
    if before.faithful() && after.readers@[at].faithful@ {
        assert forall|i: int| 0 <= i < after.readers@.len() implies (
        #[trigger] after.readers@[i]).faithful@ by {
            if i != at {
                assert(before.readers@[i].faithful@);
            }
        }
    }
    if after.faithful() {
        assert(after.readers@[at].faithful@);
        assert forall|i: int| 0 <= i < before.readers@.len() implies (
        #[trigger] before.readers@[i]).faithful@ by {
            assert(after.readers@[i].faithful@);
        }
    }
}

/// A piece is one step of the work and leaves as many records.
proof fn piece_taken(before: StoredMerge, after: StoredMerge, at: int)
    requires
        0 <= at < before.readers@.len(),
        before.heads@.len() == before.readers@.len(),
        after.heads@.len() == before.heads@.len(),
        after.readers@ == before.readers@.update(at, after.readers@[at]),
        after.readers@[at].same_run(&before.readers@[at]),
        after.head_views() =~= before.head_views().update(at, after.head_views()[at]),
        after.readers@[at].remaining + shown_count(after.head_views()[at])
            == before.readers@[at].remaining + shown_count(before.head_views()[at]),
        after.readers@[at].work() + shown_count(after.head_views()[at])
            == before.readers@[at].work() + shown_count(before.head_views()[at]) - 1,
    ensures
        after.work_left() == before.work_left() - 1,
        total(after.counts()) == total(before.counts()),
        after.run_ids() == before.run_ids(),
{
    total_update(before.works(), at, after.works()[at]);
    assert(after.works() =~= before.works().update(at, after.works()[at]));
    assert(after.counts() =~= before.counts());
    assert(after.run_ids() =~= before.run_ids());
}

/// A record that was read faithfully is the first of what was unread.
proof fn loaded_head(
    before: StoredMerge,
    after: StoredMerge,
    at: int,
    bytes: Seq<u8>,
    limits: IngestLimits,
)
    requires
        before.shape(limits),
        0 <= at < before.readers@.len(),
        before.heads@[at] is None,
        after.heads@.len() == before.heads@.len(),
        after.head_views() == before.head_views().update(at, after.head_views()[at]),
        after.head_views()[at] is Some,
        after.readers@ == before.readers@.update(at, after.readers@[at]),
        after.readers@[at].content == before.readers@[at].content,
        after.readers@[at].faithful@ == (before.readers@[at].faithful@ && bytes
            == before.readers@[at].written(limits)),
        after.readers@[at].faithful@ ==> {
            &&& before.readers@[at].unread@.len() > 0
            &&& after.head_views()[at] == Some(before.readers@[at].unread@[0])
            &&& after.readers@[at].unread@ == before.readers@[at].unread@.drop_first()
        },
    ensures
        before.contents() == after.contents(),
        after.faithful() == (before.faithful() && bytes == before.readers@[at].written(limits)),
        after.faithful() ==> after.queues() == before.queues(),
{
    assert(before.contents() =~= after.contents());
    if before.faithful() && after.readers@[at].faithful@ {
        assert forall|i: int| 0 <= i < after.readers@.len() implies (
        #[trigger] after.readers@[i]).faithful@ by {
            if i != at {
                assert(before.readers@[i].faithful@);
            }
        }
    }
    if after.faithful() {
        assert(after.readers@[at].faithful@);
        assert forall|i: int| 0 <= i < before.readers@.len() implies (
        #[trigger] before.readers@[i]).faithful@ by {
            assert(after.readers@[i].faithful@);
        }
        let rest = before.readers@[at].unread@;
        assert(before.head_views()[at] is None);
        assert(merge::queue_of(Some(rest[0]), rest.drop_first()) =~= rest);
        assert(after.queues() =~= before.queues());
    }
}

/// Where nothing is asked for, the heads show the first record of every queue.
proof fn shown_decides(merge: StoredMerge, limits: IngestLimits)
    requires
        merge.wf(limits),
        merge.faithful(),
        merge.waiting is None,
    ensures
        merge.shown().len() == merge.queues().len(),
        forall|i: int|
            0 <= i < merge.queues().len() ==> {
                &&& (#[trigger] merge.queues()[i]).len() > 0 <==> merge.shown()[i].len() > 0
                &&& merge.queues()[i].len() > 0 ==> merge.queues()[i][0] == merge.shown()[i][0]
            },
{
    assert forall|i: int| 0 <= i < merge.queues().len() implies {
        &&& (#[trigger] merge.queues()[i]).len() > 0 <==> merge.shown()[i].len() > 0
        &&& merge.queues()[i].len() > 0 ==> merge.queues()[i][0] == merge.shown()[i][0]
    } by {
        assert(merge.readers@[i].wf(limits));
        assert(merge.readers@[i].faithful@);
        let head = merge.heads@[i];
        assert(merge.head_views()[i] == merge::head_view(head));
    }
}

} // verus!
