//! Indexing a log whose sort runs are kept outside.
//!
//! The log says what is to be read, written or removed next, takes what was
//! read, and publishes the history once all runs are merged.

use vstd::prelude::*;

use crate::charges;
use crate::charges::check_index_memory;
use crate::error;
use crate::error::{ErrorCode, ErrorView, IngestError};
use crate::history::{IndexedHistory, InputIdentity};
use crate::index;
use crate::index::{IndexBuilder, IndexView};
use crate::ingest;
use crate::limits;
use crate::limits::{index_working_memory_bytes, IngestLimits};
use crate::lines;
use crate::merge;
use crate::options;
use crate::options::{IngestOptions, ProgressPhase, ProgressUpdate};
use crate::order;
use crate::parser::ParsedInput;
use crate::passes;
use crate::record::RecordView;
use crate::runs;
use crate::sorting;
use crate::sorting::{ParsedRuns, OPEN_RUN_BYTES};
use crate::stored_merge;
use crate::stored_merge::{StoredMerge, StoredRun};
use crate::stored_reader::ReadRequest;
use crate::stored_sort;
use crate::stored_sort::{SortPlan, SortView, StoredGroup, StoredSort};

verus! {

/// Bytes of a run that are collected before they are handed out.
pub const OUTPUT_BYTES: usize = 4096;

/// What is to be done outside.
pub enum StoreAction {
    /// Nothing.
    Nothing,
    /// Read a piece of a run and give it back.
    Read(ReadRequest),
    /// Add bytes to a run; `fresh` where they are its first.
    Write { run: u64, fresh: bool, bytes: Vec<u8> },
    /// Remove runs.
    Remove(Vec<u64>),
    /// Nothing more: the history can be published.
    Done,
}

/// A log that was read to its end and whose runs are kept outside.
pub struct StoredIndex {
    sort: StoredSort,
    /// The merge of a pass that is under way.
    group: Option<StoredGroup>,
    /// The last merge.
    last: Option<StoredMerge>,
    done: bool,
    builder: IndexBuilder,
    input: InputIdentity,
    names: Ghost<IndexView>,
    accepted: Ghost<Seq<RecordView>>,
}

/// A record that a run gives back in the wrong place.
pub open spec fn misplaced(r: RecordView) -> ErrorView {
    error::plain_error(
        ErrorCode::Io,
        r.line,
        r.byte_offset,
        "temporary sort run is out of order"@,
    )
}

/// The runs that were handed out, as runs that are kept outside.
fn stored_runs(runs: Vec<sorting::SortRun>, Ghost(limits): Ghost<IngestLimits>) -> (list: Vec<
    StoredRun,
>)
    requires
        forall|i: int| 0 <= i < runs@.len() ==> (#[trigger] runs@[i]).wf(limits),
    ensures
        list@.len() == runs@.len(),
        stored_sort::written(list@) == runs@.map_values(|run: sorting::SortRun| run.content@),
        forall|i: int|
            0 <= i < list@.len() ==> {
                &&& (#[trigger] list@[i]).wf()
                &&& list@[i].sound(limits)
                &&& list@[i].id == runs@[i].id
            },
{
    let mut list: Vec<StoredRun> = Vec::new();
    let mut index: usize = 0;
    while index < runs.len()
        invariant
            index <= runs@.len(),
            list@.len() == index,
            forall|i: int| 0 <= i < runs@.len() ==> (#[trigger] runs@[i]).wf(limits),
            forall|i: int|
                0 <= i < list@.len() ==> {
                    &&& (#[trigger] list@[i]).wf()
                    &&& list@[i].sound(limits)
                    &&& list@[i].id == runs@[i].id
                    &&& list@[i].content@ == runs@[i].content@
                },
        decreases runs@.len() - index,
    {
        let run = &runs[index];
        proof {
            assert(runs@[index as int].wf(limits));
            records_fit_their_run(run.content@);
        }
        list.push(
            StoredRun { id: run.id, size: run.size, records: run.records, content: run.content },
        );
        index = index + 1;
    }
    proof {
        assert(stored_sort::written(list@) =~= runs@.map_values(
            |run: sorting::SortRun| run.content@,
        ));
    }
    list
}

/// No record is longer than its run.
proof fn records_fit_their_run(records: Seq<RecordView>)
    ensures
        forall|i: int|
            0 <= i < records.len() ==> runs::record_size(#[trigger] records[i])
                <= runs::run_bytes(records).len(),
    decreases records.len(),
{
    if records.len() > 0 {
        let front = records.drop_last();
        records_fit_their_run(front);
        runs::charged_size_is_encoded_size(records.last());
        assert(runs::run_bytes(records) =~= runs::run_bytes(front) + runs::record_bytes(
            records.last(),
        ));
        assert forall|i: int| 0 <= i < records.len() implies runs::record_size(
            #[trigger] records[i],
        ) <= runs::run_bytes(records).len() by {
            if i < front.len() {
                assert(front[i] == records[i]);
            }
        }
    }
}

impl StoredIndex {
    /// The names that the records use, as they were interned.
    pub closed spec fn names(&self) -> IndexView {
        self.names@
    }

    /// The records of the log, in input order.
    pub closed spec fn accepted(&self) -> Seq<RecordView> {
        self.accepted@
    }

    pub closed spec fn identity(&self) -> InputIdentity {
        self.input
    }

    pub closed spec fn sorting(&self) -> StoredSort {
        self.sort
    }

    pub closed spec fn group(&self) -> Option<StoredGroup> {
        self.group
    }

    pub closed spec fn last(&self) -> Option<StoredMerge> {
        self.last
    }

    /// The index of the records that were merged so far.
    pub closed spec fn index(&self) -> IndexView {
        self.builder@
    }

    pub closed spec fn is_done(&self) -> bool {
        self.done
    }

    /// The runs hold all records, ordered, and every piece that was given back
    /// is what was handed out.
    pub open spec fn faithful(&self, limits: IngestLimits) -> bool {
        &&& self.sorting().sound(limits)
        &&& self.sorting().records() == self.accepted().to_multiset()
        &&& self.group() matches Some(group) ==> group.merging().faithful()
        &&& self.last() matches Some(last) ==> last.faithful()
    }

    pub closed spec fn wf(&self, limits: IngestLimits) -> bool {
        &&& self.sort.wf()
        &&& self.builder.wf(limits)
        &&& self.names@.events.len() == 0
        &&& lines::in_sequence(self.accepted@)
        &&& self.group matches Some(group) ==> {
            &&& self.last is None
            &&& self.sort@.passing
            &&& group.wf()
            &&& group.limits() == limits
            &&& group.run_id() == self.sort@.next_id
            &&& group.others() == self.sort@.disk
            &&& self.sort.is_next(group.merging().contents())
            &&& group.merging().contents() == stored_merge::written_runs(
                self.sort.present(),
                0,
                group.merging().contents().len() as int,
            )
            &&& 1 <= group.merging().contents().len() <= self.sort.present().len()
            &&& group.merging().run_ids() == Seq::new(
                group.merging().contents().len(),
                |i: int| self.sort.present()[i].id,
            )
        }
        &&& match self.last {
            Some(last) => {
                &&& last.wf(limits)
                &&& last.contents() == stored_sort::written(self.sort.present())
                &&& last.run_ids() == Seq::new(
                    self.sort.present().len(),
                    |i: int| self.sort.present()[i].id,
                )
                &&& ingest::index_list(self.names@, last.handed_out(), limits) == Ok::<
                    IndexView,
                    ErrorView,
                >(self.builder@)
                &&& order::ordered(last.handed_out())
            },
            None => self.builder@ == self.names@,
        }
        &&& self.done ==> match self.last {
            Some(last) => last.faithful() ==> last.handed_out() == passes::merge_output(
                last.contents(),
            ),
            None => false,
        }
    }

    /// Begins to sort and index a parsed log whose runs were all handed out.
    pub fn begin(parsed: ParsedInput, names: IndexBuilder, options: &IngestOptions) -> (result:
        Result<StoredIndex, IngestError>)
        requires
            parsed.wf(options.limits),
            parsed@.runs matches Some(runs) && parsed.handed() == runs.contents.len(),
            names.wf(options.limits),
            names@.events.len() == 0,
        ensures
            ({
                let fault = sorting::memory_fault(
                    charges::index_memory(names@.bytes, 0, 0),
                    limits::index_share(options.limits.working_memory_bytes),
                    0,
                    parsed.input_bytes,
                );
                match result {
                    Ok(stored) => {
                        let runs = parsed@.runs->0;
                        &&& fault is None
                        &&& stored.wf(options.limits)
                        &&& stored.faithful(options.limits)
                        &&& stored.names() == names@
                        &&& stored.accepted() == parsed.accepted@
                        &&& stored.identity().digest_view() == parsed.input_hash@
                        &&& stored.identity().length() == parsed.input_bytes
                        &&& stored.group() is None
                        &&& stored.last() is None
                        &&& !stored.is_done()
                        &&& stored_sort::written(stored.sorting().present()) == runs.contents
                        &&& stored.sorting()@ == (SortView {
                            runs: runs.contents.len() as int,
                            next: 0,
                            from: 0,
                            passing: false,
                            passed: false,
                            directory: runs.directory,
                            disk: runs.disk,
                            next_id: runs.next_id,
                        })
                    },
                    Err(e) => options::may_cancel(*options, e@) || fault == Some(e@),
                }
            }),
    {
        let input_bytes: u64 = parsed.input_bytes;
        let records_read: u64 = parsed.record_count;
        let input = InputIdentity::from_parts(parsed.input_hash, input_bytes);
        options.report(
            ProgressUpdate {
                phase: ProgressPhase::Normalizing,
                bytes_read: input_bytes,
                input_bytes: Some(input_bytes),
                records_read,
            },
        );
        match options.check_cancelled(0, input_bytes) {
            Ok(()) => {},
            Err(e) => return Err(e),
        }
        options.report(
            ProgressUpdate {
                phase: ProgressPhase::Sorting,
                bytes_read: input_bytes,
                input_bytes: Some(input_bytes),
                records_read,
            },
        );
        match check_index_memory(
            names.catalog_bytes,
            0,
            0,
            index_working_memory_bytes(options.limits.working_memory_bytes),
            0,
            input_bytes,
        ) {
            Ok(()) => {},
            Err(e) => return Err(e),
        }
        let ghost all = parsed.accepted@;
        let ghost listed = parsed@.runs->0;
        let state = match parsed.runs {
            Some(state) => state,
            None => {
                assert(false);
                ParsedRuns {
                    directory: 0,
                    runs: Vec::new(),
                    handed: 0,
                    disk_bytes: 0,
                    next_run_id: 0,
                }
            },
        };
        let list = stored_runs(state.runs, Ghost(options.limits));
        assert(stored_sort::written(list@) == listed.contents);
        let sort = StoredSort::new(list, state.directory, state.disk_bytes, state.next_run_id);
        Ok(
            StoredIndex {
                sort,
                group: None,
                last: None,
                done: false,
                names: Ghost(names@),
                builder: names,
                input,
                accepted: Ghost(all),
            },
        )
    }

    /// A piece is asked for.
    pub open spec fn waits(&self) -> bool {
        match (self.group(), self.last()) {
            (Some(group), _) => group.merging().waits(),
            (None, Some(last)) => last.waits(),
            (None, None) => false,
        }
    }

    /// A piece is the one that is asked for.
    pub open spec fn asks_for(&self, request: ReadRequest, limits: IngestLimits) -> bool {
        match (self.group(), self.last()) {
            (Some(group), _) => group.merging().asks_for(request, limits),
            (None, Some(last)) => last.asks_for(request, limits),
            (None, None) => false,
        }
    }

    /// What was handed out where the piece is that is asked for.
    pub open spec fn written(&self, limits: IngestLimits) -> Seq<u8> {
        match (self.group(), self.last()) {
            (Some(group), _) => group.merging().written(limits),
            (None, Some(last)) => last.written(limits),
            (None, None) => Seq::empty(),
        }
    }

    /// Why a piece ends the indexing.
    pub open spec fn piece_fault(&self, bytes: Seq<u8>, limits: IngestLimits) -> Option<ErrorView> {
        match (self.group(), self.last()) {
            (Some(group), _) => group.merging().piece_fault(bytes, limits),
            (None, Some(last)) => last.piece_fault(bytes, limits),
            (None, None) => None,
        }
    }

    /// Every piece that is asked for is of a run that is there, and what was
    /// handed out at its place is that piece of what the run was written as.
    pub proof fn asks_for_runs_that_are_there(&self, request: ReadRequest, limits: IngestLimits)
        requires
            self.wf(limits),
            self.asks_for(request, limits),
        ensures
            exists|i: int|
                0 <= i < self.sorting().present().len() && {
                    let run = #[trigger] self.sorting().present()[i];
                    &&& run.id == request.run
                    &&& self.written(limits) == runs::run_bytes(run.content@).subrange(
                        request.offset as int,
                        request.offset + request.length,
                    )
                },
    {
        let merging = match self.group {
            Some(group) => group.merging(),
            None => self.last->0,
        };
        let at = merging.asked();
        let run = self.sorting().present()[at];
        assert(0 <= at < self.sorting().present().len());
        assert(merging.contents()[at] == run.content@);
        assert(run.id == request.run);
        assert(self.written(limits) == runs::run_bytes(run.content@).subrange(
            request.offset as int,
            request.offset + request.length,
        ));
    }

    /// The most that one merge can take, with the records and runs that are
    /// there.
    pub open spec fn merge_work(&self) -> int {
        let present = self.sorting().present();
        (2 * (present.len() + 3 * merge::pooled_len(stored_sort::written(present))) + 2) as int
    }

    /// Pieces to take, bytes to hand out, records to merge and merges to open
    /// until the history can be published, at most.
    pub open spec fn work_left(&self) -> int {
        let merges = stored_sort::merges_left(self.sorting()@) * (self.merge_work() + 1);
        match (self.group(), self.last()) {
            (Some(group), _) => merges + 2 * group.merging().work_left() + if group.pending().len()
                > 0 {
                1int
            } else {
                0int
            },
            (None, Some(last)) => last.work_left(),
            (None, None) => merges + self.merge_work(),
        }
    }

    /// The work that is left is a count.
    pub proof fn work_is_a_count(&self, limits: IngestLimits)
        requires
            self.wf(limits),
        ensures
            self.work_left() >= 0,
    {
        self.sort.passes_write_fewer_runs();
        stored_sort::turning_leaves_no_more_merges(self.sort@);
        let merges = stored_sort::merges_left(self.sort@);
        let most = self.merge_work();
        assert(0 <= merges * (most + 1)) by (nonlinear_arith)
            requires
                0 <= merges,
                0 <= most,
        ;
        if let Some(group) = self.group {
            group.output_is_the_run();
            group.merging().work_is_a_count(limits);
        }
        if let Some(last) = self.last {
            last.work_is_a_count(limits);
        }
    }

    /// What was handed out of the run that is being written.
    pub open spec fn output(&self) -> Seq<u8> {
        match self.group() {
            Some(group) => group.flushed(),
            None => Seq::empty(),
        }
    }

    /// The log is the same.
    pub open spec fn same_log(&self, other: &StoredIndex) -> bool {
        &&& self.names() == other.names()
        &&& self.accepted() == other.accepted()
        &&& self.identity() == other.identity()
    }

    /// The merge that is under way has taken a piece.
    pub open spec fn has_taken(
        &self,
        before: &StoredIndex,
        bytes: Seq<u8>,
        limits: IngestLimits,
    ) -> bool {
        match (before.group(), before.last()) {
            (Some(group), _) => {
                &&& self.last() is None
                &&& self.group() matches Some(now)
                &&& now.pending() == group.pending()
                &&& now.merging().handed_out() == group.merging().handed_out()
                &&& now.merging().has_taken(&group.merging(), bytes, limits)
            },
            (None, Some(last)) => {
                &&& self.group() is None
                &&& self.last() matches Some(now)
                &&& now.handed_out() == last.handed_out()
                &&& now.has_taken(&last, bytes, limits)
            },
            (None, None) => false,
        }
    }

    /// Takes a piece.
    pub fn supply(&mut self, bytes: &[u8], options: &IngestOptions) -> (result: Result<
        (),
        IngestError,
    >)
        requires
            old(self).wf(options.limits),
            old(self).waits(),
        ensures
            match result {
                Ok(()) => {
                    &&& old(self).piece_fault(bytes@, options.limits) is None
                    &&& final(self).wf(options.limits)
                    &&& final(self).same_log(old(self))
                    &&& final(self).sorting() == old(self).sorting()
                    &&& final(self).index() == old(self).index()
                    &&& final(self).output() == old(self).output()
                    &&& final(self).has_taken(old(self), bytes@, options.limits)
                    &&& 0 <= final(self).work_left() < old(self).work_left()
                    &&& final(self).faithful(options.limits) == (old(self).faithful(options.limits)
                        && bytes@ == old(self).written(options.limits))
                },
                Err(e) => old(self).piece_fault(bytes@, options.limits) == Some(e@),
            },
    {
        // Whoever gives a piece has more to merge.
        self.done = false;
        match self.group.take() {
            Some(group) => {
                let mut group = group;
                match group.supply(bytes) {
                    Ok(()) => {},
                    Err(e) => return Err(e),
                }
                self.group = Some(group);
            },
            None => match self.last.take() {
                Some(last) => {
                    let mut last = last;
                    match last.supply(bytes, &options.limits) {
                        Ok(()) => {},
                        Err(e) => return Err(e),
                    }
                    self.last = Some(last);
                },
                None => {
                    assert(false);
                },
            },
        }
        proof {
            self.work_is_a_count(options.limits);
        }
        Ok(())
    }

    /// Why the sort cannot go on, where no merge is under way.
    pub open spec fn sort_fault(&self, limits: IngestLimits) -> Option<ErrorView> {
        let before = self.sorting()@;
        match stored_sort::sort_plan(before, limits) {
            Err(e) => Some(e),
            Ok(SortPlan::Merge) => {
                let s = stored_sort::turned(before);
                let fan_in = passes::fan_in_of(limits);
                if fan_in < 2 {
                    Some(
                        error::bound_error(
                            ErrorCode::RunFanInLimit,
                            "run_fan_in"@,
                            limits.run_fan_in,
                        ),
                    )
                } else {
                    stored_sort::group_fault(
                        passes::group_end(s.from, fan_in, s.runs) - s.from,
                        sorting::sat(
                            passes::pass_memory(
                                s.runs,
                                passes::groups_of(s.runs, fan_in),
                                s.next,
                                s.directory,
                            ),
                        ) as int,
                        s.disk,
                        s.next_id,
                        s.directory,
                        limits,
                    )
                }
            },
            Ok(SortPlan::Last) => {
                let s = stored_sort::turned(before);
                sorting::memory_fault(
                    sorting::sat(sorting::runs_memory(s.runs, s.directory)) + s.runs * OPEN_RUN_BYTES,
                    limits::parser_share(limits.working_memory_bytes),
                    0,
                    0,
                )
            },
        }
    }

    /// The merge that the plan asks for was opened, with nothing handed out.
    pub open spec fn opens(&self, before: &StoredIndex, limits: IngestLimits) -> bool {
        let plan = stored_sort::sort_plan(before.sorting()@, limits)->Ok_0;
        let present = before.sorting().present();
        &&& self.sorting().present() == present
        &&& self.sorting()@ == (SortView {
            passing: plan is Merge,
            ..stored_sort::turned(before.sorting()@)
        })
        &&& match plan {
            SortPlan::Merge => {
                &&& self.last() is None
                &&& self.group() matches Some(group)
                &&& group.flushed() == Seq::<u8>::empty()
                &&& group.merging().handed_out() == Seq::<RecordView>::empty()
                &&& group.merging().contents() == stored_merge::written_runs(
                    present,
                    0,
                    self.sorting().group_end(limits) - self.sorting()@.from,
                )
            },
            SortPlan::Last => {
                &&& self.group() is None
                &&& self.last() matches Some(last)
                &&& last.handed_out() == Seq::<RecordView>::empty()
                &&& last.contents() == stored_sort::written(present)
            },
        }
    }

    /// Opens the next merge.
    fn open_merge(&mut self, options: &IngestOptions) -> (result: Result<(), IngestError>)
        requires
            old(self).wf(options.limits),
            old(self).group() is None,
            old(self).last() is None,
        ensures
            match result {
                Ok(()) => {
                    &&& old(self).sort_fault(options.limits) is None
                    &&& final(self).wf(options.limits)
                    &&& final(self).same_log(old(self))
                    &&& final(self).index() == old(self).index()
                    &&& final(self).is_done() == old(self).is_done()
                    &&& final(self).opens(old(self), options.limits)
                    &&& 0 <= final(self).work_left() < old(self).work_left()
                    &&& old(self).faithful(options.limits) ==> final(self).faithful(options.limits)
                },
                Err(e) => options::may_cancel(*options, e@) || old(self).sort_fault(options.limits)
                    == Some(e@),
            },
    {
        let plan = match self.sort.plan(&options.limits) {
            Ok(plan) => plan,
            Err(e) => return Err(e),
        };
        match plan {
            SortPlan::Merge => {
                match self.sort.open_group(options) {
                    Ok(group) => {
                        self.group = Some(group);
                        proof {
                            let present = self.sort.present();
                            let count = group.merging().contents().len() as int;
                            if old(self).faithful(options.limits) {
                                assert(stored_merge::all_sound(present, 0, count, options.limits));
                            }
                            assert(self.wf(options.limits));
                            old(self).sort.passes_write_fewer_runs();
                            group_is_part(present, count);
                            opening_is_work(*old(self), *self);
                            self.work_is_a_count(options.limits);
                        }
                        Ok(())
                    },
                    Err(e) => Err(e),
                }
            },
            SortPlan::Last => {
                match self.sort.open_last(&options.limits) {
                    Ok(last) => {
                        self.last = Some(last);
                        assert(ingest::index_list(
                            self.names@,
                            Seq::empty(),
                            options.limits,
                        ) == Ok::<IndexView, ErrorView>(self.names@));
                        assert(self.wf(options.limits));
                        proof {
                            old(self).sort.passes_write_fewer_runs();
                            opening_is_work(*old(self), *self);
                            self.work_is_a_count(options.limits);
                        }
                        Ok(())
                    },
                    Err(e) => Err(e),
                }
            },
        }
    }

    /// Goes on with a merge of a pass.
    fn step_group(&mut self, options: &IngestOptions) -> (result: Result<StoreAction, IngestError>)
        requires
            old(self).wf(options.limits),
            old(self).group() is Some,
            !old(self).waits(),
        ensures
            match result {
                Ok(action) => {
                    &&& final(self).wf(options.limits)
                    &&& final(self).same_log(old(self))
                    &&& final(self).index() == old(self).index()
                    &&& final(self).is_done() == old(self).is_done()
                    &&& final(self).last() is None
                    &&& old(self).faithful(options.limits) ==> final(self).faithful(options.limits)
                    &&& final(self).follows(old(self), action)
                    &&& 0 <= final(self).work_left() < old(self).work_left()
                },
                Err(e) => options::may_cancel(*options, e@) || old(self).group_fault(
                    e@,
                    options.limits,
                ),
            },
    {
        let mut group = match self.group.take() {
            Some(group) => group,
            None => {
                assert(false);
                return Ok(StoreAction::Nothing);
            },
        };
        let mut flushing: bool = group.pending_bytes() >= OUTPUT_BYTES;
        if !flushing {
            let more: bool = match group.advance(options) {
                Ok(more) => more,
                Err(e) => return Err(e),
            };
            if more {
                self.group = Some(group);
                proof {
                    self.work_is_a_count(options.limits);
                }
                return Ok(StoreAction::Nothing);
            }
            flushing = group.pending_bytes() > 0;
        }
        if flushing {
            let fresh: bool = group.is_fresh();
            let run: u64 = group.id();
            let bytes = group.take_output();
            self.group = Some(group);
            proof {
                self.work_is_a_count(options.limits);
            }
            return Ok(StoreAction::Write { run, fresh, bytes });
        }
        proof {
            group.output_is_the_run();
            assert(group.flushed() + group.pending() =~= group.flushed());
        }
        let unneeded = self.sort.complete(group);
        proof {
            let merged = old(self).group->0;
            merged.output_is_the_run();
            merged.merging().work_is_a_count(options.limits);
            completing_is_work(*old(self), *self, group);
            self.work_is_a_count(options.limits);
        }
        Ok(StoreAction::Remove(unneeded))
    }

    /// Why a record ends a merge of a pass.
    pub open spec fn group_fault(&self, e: ErrorView, limits: IngestLimits) -> bool {
        let merging = (self.group()->0).merging();
        exists|at: int|
            #[trigger] merge::is_front(merging.shown(), at) && sorting::record_disk_fault(
                merging.head_views()[at]->0,
                (self.group()->0).disk() as int,
                limits.working_disk_bytes,
            ) == Some(e)
    }

    /// What an action of a merge of a pass leaves.
    pub open spec fn follows(&self, before: &StoredIndex, action: StoreAction) -> bool {
        match action {
            StoreAction::Nothing => {
                &&& self.group() matches Some(group)
                &&& self.sorting() == before.sorting()
                &&& self.output() == before.output()
                &&& exists|at: int|
                    #[trigger] merge::is_front((before.group()->0).merging().shown(), at)
                        && group.merging().handed_out() == (
                    before.group()->0).merging().handed_out().push(
                        (before.group()->0).merging().head_views()[at]->0,
                    )
            },
            StoreAction::Write { run, fresh, bytes } => {
                &&& self.group() matches Some(group)
                &&& group.merging() == (before.group()->0).merging()
                &&& self.sorting() == before.sorting()
                &&& run == before.sorting()@.next_id
                &&& fresh == (before.output().len() == 0)
                &&& bytes@.len() > 0
                &&& self.output() == before.output() + bytes@
            },
            StoreAction::Remove(unneeded) => {
                let merging = (before.group()->0).merging();
                let count = merging.contents().len() as int;
                let present = before.sorting().present();
                let now = self.sorting().present();
                &&& self.group() is None
                &&& unneeded@ == Seq::new(count as nat, |i: int| present[i].id)
                &&& now.drop_last() == present.skip(count)
                &&& now.last().id == before.sorting()@.next_id
                &&& now.last().content@ == merging.handed_out()
                &&& merge::pooled_len(merging.shown()) == 0
                &&& before.output() == runs::run_bytes(now.last().content@)
            },
            _ => false,
        }
    }

    /// Why a record ends the last merge.
    pub open spec fn last_fault(&self, e: ErrorView, limits: IngestLimits) -> bool {
        let merging = self.last()->0;
        exists|at: int|
            #[trigger] merge::is_front(merging.shown(), at) && {
                let r = merging.head_views()[at]->0;
                let done = merging.handed_out();
                if done.len() > 0 && order::before(r, done.last()) {
                    !self.faithful(limits) && e == misplaced(r)
                } else {
                    index::indexed(self.index(), r, limits) == Err::<IndexView, ErrorView>(e)
                }
            }
    }

    /// Goes on with the last merge.
    fn step_last(&mut self, options: &IngestOptions) -> (result: Result<StoreAction, IngestError>)
        requires
            old(self).wf(options.limits),
            old(self).group() is None,
            old(self).last() is Some,
            !old(self).waits(),
        ensures
            match result {
                Ok(action) => {
                    &&& final(self).wf(options.limits)
                    &&& final(self).same_log(old(self))
                    &&& final(self).sorting() == old(self).sorting()
                    &&& final(self).group() is None
                    &&& final(self).last() is Some
                    &&& final(self).faithful(options.limits) == old(self).faithful(options.limits)
                    &&& final(self).last_follows(old(self), action, options.limits)
                    &&& action is Done || 0 <= final(self).work_left() < old(self).work_left()
                },
                Err(e) => options::may_cancel(*options, e@) || old(self).last_fault(
                    e@,
                    options.limits,
                ),
            },
    {
        let mut last = match self.last.take() {
            Some(last) => last,
            None => {
                assert(false);
                return Ok(StoreAction::Nothing);
            },
        };
        let ghost before = last.handed_out();
        let record = match last.next(&options.limits) {
            Some(record) => record,
            None => {
                self.last = Some(last);
                self.done = true;
                return Ok(StoreAction::Done);
            },
        };
        match options.check_cancelled(record.line, record.byte_offset) {
            Ok(()) => {},
            Err(e) => return Err(e),
        }
        let ghost now = before.push(record@);
        proof {
            ingest::events_keep_keys(self.names@, before, options.limits);
            assert(now.drop_last() =~= before);
            if old(self).faithful(options.limits) {
                last.hands_out_in_order(options.limits);
                sound_runs_are_ordered(self.sort.present(), options.limits);
                let all = passes::merge_output(last.contents());
                passes::merging_sorts(last.contents());
                assert(all =~= now + passes::merge_output(last.queues()));
                if before.len() > 0 {
                    assert(all[before.len() as int] == record@);
                    assert(all[before.len() - 1] == before.last());
                    assert(!order::before(record@, before.last()));
                }
            }
        }
        let count: usize = self.builder.events.len();
        if count > 0 {
            let key = self.builder.events[count - 1].key;
            if record.timestamp < key.timestamp || (record.timestamp == key.timestamp
                && record.source_sequence < key.source_sequence.value) {
                return Err(
                    IngestError::plain(
                        ErrorCode::Io,
                        record.line,
                        record.byte_offset,
                        "temporary sort run is out of order",
                    ),
                );
            }
        }
        match self.builder.add_record(&record, options) {
            Ok(()) => {},
            Err(e) => return Err(e),
        }
        self.last = Some(last);
        self.done = false;
        proof {
            self.work_is_a_count(options.limits);
        }
        Ok(StoreAction::Nothing)
    }

    /// What an action of the last merge leaves.
    pub open spec fn last_follows(
        &self,
        before: &StoredIndex,
        action: StoreAction,
        limits: IngestLimits,
    ) -> bool {
        match action {
            StoreAction::Nothing => exists|at: int|
                #[trigger] merge::is_front((before.last()->0).shown(), at) && index::indexed(
                    before.index(),
                    (before.last()->0).head_views()[at]->0,
                    limits,
                ) == Ok::<IndexView, ErrorView>(self.index()),
            StoreAction::Done => {
                &&& self.is_done()
                &&& self.index() == before.index()
                &&& self.work_left() == 0
            },
            _ => false,
        }
    }

    /// Says what is to be done next and does what needs nothing from outside.
    pub fn step(&mut self, options: &IngestOptions) -> (result: Result<StoreAction, IngestError>)
        requires
            old(self).wf(options.limits),
        ensures
            match result {
                Ok(action) => {
                    &&& final(self).wf(options.limits)
                    &&& final(self).same_log(old(self))
                    &&& old(self).faithful(options.limits) ==> final(self).faithful(options.limits)
                    &&& action is Read <==> old(self).waits()
                    &&& action is Done ==> final(self).is_done() && final(self).work_left() == 0
                    &&& action is Read || action is Done || 0 <= final(self).work_left()
                        < old(self).work_left()
                    &&& match action {
                        StoreAction::Read(request) => {
                            &&& old(self).asks_for(request, options.limits)
                            &&& *final(self) == *old(self)
                        },
                        _ => if old(self).group() is Some {
                            final(self).follows(old(self), action)
                        } else if old(self).last() is Some {
                            &&& final(self).sorting() == old(self).sorting()
                            &&& final(self).last_follows(old(self), action, options.limits)
                        } else {
                            &&& action is Nothing
                            &&& old(self).sort_fault(options.limits) is None
                            &&& final(self).opens(old(self), options.limits)
                        },
                    }
                },
                Err(e) => {
                    &&& !old(self).waits()
                    &&& options::may_cancel(*options, e@) || if old(self).group() is Some {
                        old(self).group_fault(e@, options.limits)
                    } else if old(self).last() is Some {
                        old(self).last_fault(e@, options.limits)
                    } else {
                        old(self).sort_fault(options.limits) == Some(e@)
                    }
                },
            },
    {
        match &self.group {
            Some(group) => {
                match group.request() {
                    Some(request) => return Ok(StoreAction::Read(request)),
                    None => {},
                }
                return self.step_group(options);
            },
            None => {},
        }
        match &self.last {
            Some(last) => {
                match last.request(&options.limits) {
                    Some(request) => return Ok(StoreAction::Read(request)),
                    None => {},
                }
                return self.step_last(options);
            },
            None => {},
        }
        match self.open_merge(options) {
            Ok(()) => Ok(StoreAction::Nothing),
            Err(e) => Err(e),
        }
    }

    /// Whether the history can be published.
    pub fn finished(&self) -> (done: bool)
        ensures
            done == self.is_done(),
    {
        self.done
    }

    /// Publishes the history.  It holds exactly the records of the log where
    /// every piece that was given back is what was handed out.
    pub fn publish(self, options: &IngestOptions) -> (history: IndexedHistory)
        requires
            self.wf(options.limits),
            self.is_done(),
        ensures
            history.wf(),
            history.input() == self.identity(),
            history.catalog_view() == self.index().catalog,
            history.events_view() == self.index().events,
            self.faithful(options.limits) ==> ingest::index_list(
                self.names(),
                order::in_order(self.accepted()),
                options.limits,
            ) == Ok::<IndexView, ErrorView>(self.index()),
            self.faithful(options.limits) && ingest::names_of(
                index::empty_index(options.limits),
                self.accepted(),
                options.limits,
            ) == Ok::<IndexView, ErrorView>(self.names()) ==> ingest::history_of_records(
                history,
                self.accepted(),
                options.limits,
            ),
    {
        proof {
            let merged = (self.last->0).handed_out();
            ingest::ordered_records_give_canonical_events(self.names@, merged, options.limits);
            if self.faithful(options.limits) {
                sound_runs_are_ordered(self.sort.present(), options.limits);
                passes::merging_sorts((self.last->0).contents());
                ingest::sequenced_are_distinct(self.accepted@);
                order::in_order_is(merged, self.accepted@);
            }
        }
        let input = self.input;
        let input_bytes: u64 = input.bytes();
        let events_read: u64 = self.builder.events.len() as u64;
        let history = IndexedHistory::publish(self.builder.catalog, self.builder.events, input);
        options.report(
            ProgressUpdate {
                phase: ProgressPhase::Publishing,
                bytes_read: input_bytes,
                input_bytes: Some(input_bytes),
                records_read: events_read,
            },
        );
        history
    }
}

/// A group of the first runs that are there has no more records than all.
proof fn group_is_part(present: Seq<StoredRun>, count: int)
    requires
        0 <= count <= present.len(),
    ensures
        merge::pooled_len(stored_merge::written_runs(present, 0, count)) <= merge::pooled_len(
            stored_sort::written(present),
        ),
{
    let all = stored_sort::written(present);
    let part = stored_merge::written_runs(present, 0, count);
    let rest = all.skip(count);
    passes::pooled_concat(part, rest);
    assert(part + rest =~= all);
}

/// Opening a merge leaves less work.
proof fn opening_is_work(before: StoredIndex, after: StoredIndex)
    requires
        before.sort.wf(),
        before.group is None,
        before.last is None,
        after.sort.present() == before.sort.present(),
        stored_sort::merges_left(after.sort@) == stored_sort::merges_left(
            stored_sort::turned(before.sort@),
        ),
        match (after.group, after.last) {
            (Some(group), _) => 2 * group.merging().work_left() + 1 < before.merge_work(),
            (None, Some(last)) => last.work_left() < before.merge_work(),
            (None, None) => false,
        },
    ensures
        after.work_left() < before.work_left(),
{
    before.sort.passes_write_fewer_runs();
    stored_sort::turning_leaves_no_more_merges(before.sort@);
    let now = stored_sort::merges_left(after.sort@);
    let older = stored_sort::merges_left(before.sort@);
    let most = before.merge_work();
    assert(0 <= now * (most + 1) <= older * (most + 1)) by (nonlinear_arith)
        requires
            0 <= now <= older,
            0 <= most,
    ;
}

/// The end of a merge of a pass leaves less work.
proof fn completing_is_work(before: StoredIndex, after: StoredIndex, group: StoredGroup)
    requires
        before.sort.wf(),
        after.sort.wf(),
        before.group is Some,
        after.group is None,
        after.last is None,
        before.group matches Some(merged) && merged.merging().work_left() >= 0,
        group.merging().contents() == stored_merge::written_runs(
            before.sort.present(),
            0,
            group.merging().contents().len() as int,
        ),
        1 <= group.merging().contents().len() <= before.sort.present().len(),
        group.merging().handed_out().len() == merge::pooled_len(group.merging().contents()),
        after.sort@.runs == before.sort@.runs,
        after.sort@.from == before.sort@.from + group.merging().contents().len(),
        after.sort.present().len() == before.sort.present().len()
            - group.merging().contents().len() + 1,
        after.sort.present().drop_last() == before.sort.present().skip(
            group.merging().contents().len() as int,
        ),
        after.sort.present().last().content@ == group.merging().handed_out(),
    ensures
        after.work_left() < before.work_left(),
{
    let count = group.merging().contents().len() as int;
    let present = before.sort.present();
    let now = after.sort.present();
    let part = group.merging().contents();
    let rest = stored_sort::written(present).skip(count);
    passes::pooled_concat(part, rest);
    assert(part + rest =~= stored_sort::written(present));
    assert(stored_sort::written(now.drop_last()) =~= stored_sort::written(present.skip(count)));
    assert(stored_sort::written(present.skip(count)) =~= rest);
    assert(stored_sort::written(now).drop_last() =~= stored_sort::written(now.drop_last()));
    before.sort.passes_write_fewer_runs();
    after.sort.passes_write_fewer_runs();
    stored_sort::turning_leaves_no_more_merges(before.sort@);
    stored_sort::turning_leaves_no_more_merges(after.sort@);
    let fewer = stored_sort::merges_left(after.sort@);
    let merges = stored_sort::merges_left(before.sort@);
    let less = after.merge_work();
    let most = before.merge_work();
    assert(fewer * (less + 1) + less < merges * (most + 1)) by (nonlinear_arith)
        requires
            0 <= fewer < merges,
            0 <= less <= most,
    ;
}

/// Runs that can be read back are ordered.
proof fn sound_runs_are_ordered(list: Seq<StoredRun>, limits: IngestLimits)
    requires
        stored_merge::all_sound(list, 0, list.len() as int, limits),
    ensures
        passes::all_ordered(stored_sort::written(list)),
{
    assert forall|i: int| 0 <= i < list.len() implies order::ordered(
        #[trigger] stored_sort::written(list)[i],
    ) by {
        assert(list[i].sound(limits));
    }
}

} // verus!
