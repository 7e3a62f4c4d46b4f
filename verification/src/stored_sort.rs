//! The external sort over runs that are kept outside.
//!
//! The sort decides which runs are merged next, asks for the pieces of their
//! runs, and hands out the bytes of the runs that it writes and the names of
//! those that are no longer needed.

use vstd::multiset::Multiset;
use vstd::prelude::*;

use crate::error;
use crate::error::{limit_error, working_disk_error, ErrorCode, ErrorView, IngestError};
use crate::limits;
use crate::limits::{parser_working_memory_bytes, IngestLimits};
use crate::merge;
use crate::options;
use crate::options::IngestOptions;
use crate::order;
use crate::passes;
use crate::passes::group_count;
use crate::record::RecordView;
use crate::runs;
use crate::sorting;
use crate::sorting::{
    append_record, check_run_header, magic_bytes, run_path_bytes, runs_bytes, OPEN_RUN_BYTES,
    RUN_SLOT_BYTES,
};
use crate::stored_merge;
use crate::stored_merge::{StoredMerge, StoredRun};
use crate::stored_reader;
use crate::stored_reader::ReadRequest;

verus! {

/// A merge of several runs into one.
pub struct StoredGroup {
    merge: StoredMerge,
    id: u64,
    /// Encoded bytes that were not handed out yet.
    buffer: Vec<u8>,
    /// Encoded bytes that were handed out.
    flushed: Ghost<Seq<u8>>,
    /// Bytes of all runs, this one included.
    total: u64,
    start: u64,
    records: u64,
    limits: IngestLimits,
}

/// Why a merge of runs into a new one cannot start.
pub open spec fn group_fault(
    count: int,
    resident: int,
    disk: int,
    id: int,
    directory: u32,
    limits: IngestLimits,
) -> Option<ErrorView> {
    let limit = limits::parser_share(limits.working_memory_bytes);
    let named = resident + sorting::run_path_memory(directory);
    if id >= u64::MAX {
        Some(error::disk_error(u64::MAX, limits.working_disk_bytes, 0, 0))
    } else if sorting::memory_fault(named, limit, 0, 0) is Some {
        sorting::memory_fault(named, limit, 0, 0)
    } else if sorting::run_header_fault(disk, limits.working_disk_bytes) is Some {
        sorting::run_header_fault(disk, limits.working_disk_bytes)
    } else {
        sorting::memory_fault(named + count * OPEN_RUN_BYTES, limit, 0, 0)
    }
}

impl StoredGroup {
    pub closed spec fn merging(&self) -> StoredMerge {
        self.merge
    }

    pub closed spec fn limits(&self) -> IngestLimits {
        self.limits
    }

    pub closed spec fn run_id(&self) -> u64 {
        self.id
    }

    /// Bytes of all runs, this one included.
    pub closed spec fn disk(&self) -> u64 {
        self.total
    }

    /// Bytes of all other runs.
    pub closed spec fn others(&self) -> u64 {
        self.start
    }

    /// Bytes of this run that were handed out.
    pub closed spec fn flushed(&self) -> Seq<u8> {
        self.flushed@
    }

    /// Bytes of this run that wait to be handed out.
    pub closed spec fn pending(&self) -> Seq<u8> {
        self.buffer@
    }

    /// What was handed out and what waits is the encoded form of the records
    /// that were merged, within the disk budget.
    pub closed spec fn wf(&self) -> bool {
        &&& self.merge.wf(self.limits)
        &&& self.flushed@ + self.buffer@ == runs::run_bytes(self.merge.handed_out())
        &&& self.total == self.start + runs::run_bytes(self.merge.handed_out()).len()
        &&& self.total <= self.limits.working_disk_bytes
        &&& self.records == self.merge.handed_out().len()
        &&& self.id < u64::MAX
    }

    /// What was handed out and what waits is the encoded form of the merged
    /// records.
    pub proof fn output_is_the_run(&self)
        requires
            self.wf(),
        ensures
            self.flushed() + self.pending() == runs::run_bytes(self.merging().handed_out()),
            self.merging().wf(self.limits()),
    {
    }

    /// Starts merging runs `from..to`.
    pub fn open(
        list: &Vec<StoredRun>,
        from: usize,
        to: usize,
        resident: u64,
        disk: u64,
        id: u64,
        directory: u32,
        limits: &IngestLimits,
    ) -> (group: Result<Self, IngestError>)
        requires
            from <= to <= list@.len(),
            forall|i: int| 0 <= i < list@.len() ==> (#[trigger] list@[i]).wf(),
        ensures
            match group {
                Ok(group) => {
                    &&& group_fault(
                        to - from,
                        resident as int,
                        disk as int,
                        id as int,
                        directory,
                        *limits,
                    ) is None
                    &&& group.wf()
                    &&& group.limits() == *limits
                    &&& group.run_id() == id
                    &&& group.others() == disk
                    &&& group.flushed() == Seq::<u8>::empty()
                    &&& group.merging().contents() == stored_merge::written_runs(
                        list@,
                        from as int,
                        to as int,
                    )
                    &&& group.merging().faithful() == stored_merge::all_sound(
                        list@,
                        from as int,
                        to as int,
                        *limits,
                    )
                    &&& group.merging().run_ids() == Seq::new(
                        (to - from) as nat,
                        |i: int| list@[from + i].id,
                    )
                    &&& group.merging().handed_out() == Seq::<RecordView>::empty()
                    &&& group.merging().work_left() == (to - from) + 3 * merge::pooled_len(
                        group.merging().contents(),
                    )
                },
                Err(e) => group_fault(
                    to - from,
                    resident as int,
                    disk as int,
                    id as int,
                    directory,
                    *limits,
                ) == Some(e@),
            },
    {
        let disk_limit: u64 = limits.working_disk_bytes;
        let memory_limit: u64 = parser_working_memory_bytes(limits.working_memory_bytes);
        if id == u64::MAX {
            return Err(working_disk_error(u64::MAX, disk_limit, 0, 0));
        }
        let named: u64 = resident.saturating_add(run_path_bytes(directory));
        match sorting::parser_memory_check(named, memory_limit, 0, 0) {
            Ok(()) => {},
            Err(e) => return Err(e),
        }
        let total: u64 = match check_run_header(disk, disk_limit) {
            Ok(total) => total,
            Err(e) => return Err(e),
        };
        let merge = match StoredMerge::open(list, from, to, named, limits) {
            Ok(merge) => merge,
            Err(e) => return Err(e),
        };
        let buffer = magic_bytes();
        proof {
            let nothing = Seq::<RecordView>::empty();
            assert(runs::records_bytes(nothing) =~= Seq::<u8>::empty());
            assert(Seq::<u8>::empty() + buffer@ =~= runs::run_bytes(nothing));
        }
        Ok(
            StoredGroup {
                merge,
                id,
                buffer,
                flushed: Ghost(Seq::empty()),
                total,
                start: disk,
                records: 0,
                limits: *limits,
            },
        )
    }

    /// The piece that the merge waits for.
    pub fn request(&self) -> (request: Option<ReadRequest>)
        requires
            self.wf(),
        ensures
            request is Some <==> self.merging().waits(),
            request matches Some(r) ==> self.merging().asks_for(r, self.limits()),
    {
        self.merge.request(&self.limits)
    }

    /// Takes a piece.
    pub fn supply(&mut self, bytes: &[u8]) -> (result: Result<(), IngestError>)
        requires
            old(self).wf(),
            old(self).merging().waits(),
        ensures
            final(self).limits() == old(self).limits(),
            match result {
                Ok(()) => {
                    &&& old(self).merging().piece_fault(bytes@, old(self).limits()) is None
                    &&& final(self).wf()
                    &&& final(self).run_id() == old(self).run_id()
                    &&& final(self).others() == old(self).others()
                    &&& final(self).disk() == old(self).disk()
                    &&& final(self).flushed() == old(self).flushed()
                    &&& final(self).pending() == old(self).pending()
                    &&& final(self).merging().contents() == old(self).merging().contents()
                    &&& final(self).merging().run_ids() == old(self).merging().run_ids()
                    &&& final(self).merging().handed_out() == old(self).merging().handed_out()
                    &&& final(self).merging().has_taken(
                        &old(self).merging(),
                        bytes@,
                        old(self).limits(),
                    )
                    &&& final(self).merging().work_left() == old(self).merging().work_left() - 1
                    &&& final(self).merging().faithful() == (old(self).merging().faithful()
                        && bytes@ == old(self).merging().written(old(self).limits()))
                },
                Err(e) => old(self).merging().piece_fault(bytes@, old(self).limits()) == Some(e@),
            },
    {
        let limits = self.limits;
        self.merge.supply(bytes, &limits)
    }

    /// Merges the next record; gives false after the last.
    pub fn advance(&mut self, options: &IngestOptions) -> (result: Result<bool, IngestError>)
        requires
            old(self).wf(),
            !old(self).merging().waits(),
        ensures
            final(self).limits() == old(self).limits(),
            match result {
                Ok(more) => {
                    &&& final(self).wf()
                    &&& final(self).run_id() == old(self).run_id()
                    &&& final(self).others() == old(self).others()
                    &&& final(self).flushed() == old(self).flushed()
                    &&& final(self).merging().contents() == old(self).merging().contents()
                    &&& final(self).merging().run_ids() == old(self).merging().run_ids()
                    &&& final(self).merging().faithful() == old(self).merging().faithful()
                    &&& more == (merge::pooled_len(old(self).merging().shown()) > 0)
                    &&& !more ==> {
                        &&& *final(self) == *old(self)
                        &&& final(self).merging().work_left() == 0
                        &&& final(self).merging().handed_out().len() == merge::pooled_len(
                            final(self).merging().contents(),
                        )
                        &&& final(self).merging().faithful() ==> final(self).merging().handed_out() == passes::merge_output(
                            final(self).merging().contents(),
                        )
                    }
                    &&& more ==> final(self).merging().work_left()
                        == old(self).merging().work_left() - 1
                    &&& more ==> exists|at: int| #[trigger]
                        merge::is_front(old(self).merging().shown(), at) && final(self).merging().handed_out() == old(self).merging().handed_out().push(
                            old(self).merging().head_views()[at]->0,
                        )
                },
                Err(e) => {
                    &&& merge::pooled_len(old(self).merging().shown()) > 0
                    &&& options::may_cancel(*options, e@) || exists|at: int|
                        #[trigger] merge::is_front(old(self).merging().shown(), at)
                            && sorting::record_disk_fault(
                            old(self).merging().head_views()[at]->0,
                            old(self).disk() as int,
                            old(self).limits().working_disk_bytes,
                        ) == Some(e@)
                },
            },
    {
        let limits = self.limits;
        let ghost before = self.merge.handed_out();
        let record = match self.merge.next(&limits) {
            Some(record) => record,
            None => return Ok(false),
        };
        match options.check_cancelled(record.line, record.byte_offset) {
            Ok(()) => {},
            Err(e) => return Err(e),
        }
        let ghost waiting = self.buffer@;
        match append_record(&mut self.buffer, &record, self.total, limits.working_disk_bytes) {
            Ok(total) => {
                proof {
                    let now = before.push(record@);
                    assert(now.drop_last() =~= before);
                    runs::charged_size_is_encoded_size(record@);
                    assert(runs::run_bytes(now) =~= runs::run_bytes(before) + runs::record_bytes(
                        record@,
                    ));
                    assert(self.flushed@ + self.buffer@ =~= (self.flushed@ + waiting)
                        + runs::record_bytes(record@));
                    passes::records_are_fewer_than_bytes(now);
                }
                self.total = total;
                self.records = self.records + 1;
                Ok(true)
            },
            Err(e) => Err(e),
        }
    }

    /// Bytes that wait to be handed out.
    pub fn pending_bytes(&self) -> (count: usize)
        ensures
            count == self.pending().len(),
    {
        self.buffer.len()
    }

    /// Whether nothing of the run was handed out.
    pub fn is_fresh(&self) -> (fresh: bool)
        requires
            self.wf(),
        ensures
            fresh == (self.flushed().len() == 0),
    {
        assert(self.buffer.len() == self.buffer@.len());
        assert((self.flushed@ + self.buffer@).len() == self.flushed@.len() + self.buffer@.len());
        self.total - self.start == self.buffer.len() as u64
    }

    /// The number of the run that is written.
    pub fn id(&self) -> (id: u64)
        ensures
            id == self.run_id(),
    {
        self.id
    }

    /// Hands out the bytes that wait.
    pub fn take_output(&mut self) -> (bytes: Vec<u8>)
        requires
            old(self).wf(),
        ensures
            final(self).wf(),
            bytes@ == old(self).pending(),
            final(self).pending() == Seq::<u8>::empty(),
            final(self).flushed() == old(self).flushed() + bytes@,
            final(self).limits() == old(self).limits(),
            final(self).run_id() == old(self).run_id(),
            final(self).others() == old(self).others(),
            final(self).disk() == old(self).disk(),
            final(self).merging() == old(self).merging(),
    {
        let mut bytes: Vec<u8> = Vec::new();
        core::mem::swap(&mut bytes, &mut self.buffer);
        proof {
            let flushed = self.flushed@ + bytes@;
            assert(flushed + self.buffer@ =~= flushed);
            self.flushed@ = flushed;
        }
        bytes
    }
}

/// What the sort does next.
#[derive(Clone, Copy, Debug, PartialEq, Eq, Structural)]
pub enum SortPlan {
    /// Merges some of the runs into a new one.
    Merge,
    /// Merges all runs for the last time.
    Last,
}

/// The runs of an external sort that are kept outside.
pub struct StoredSort {
    runs: Vec<StoredRun>,
    /// Runs that the pass has written.
    next: Vec<StoredRun>,
    /// Runs that the pass has merged.
    from: usize,
    passing: bool,
    passed: bool,
    /// The length of the path of the directory that the runs are kept in.
    directory: u32,
    disk_bytes: u64,
    next_run_id: u64,
}

/// What runs were written as.
pub open spec fn written(list: Seq<StoredRun>) -> Seq<Seq<RecordView>> {
    list.map_values(|run: StoredRun| run.content@)
}

/// The sort as numbers.
pub struct SortView {
    pub runs: int,
    pub next: int,
    pub from: int,
    pub passing: bool,
    pub passed: bool,
    pub directory: u32,
    pub disk: int,
    pub next_id: int,
}

/// The end of a pass makes what was written the runs of the sort.
pub open spec fn turned(s: SortView) -> SortView {
    if s.passing && s.from >= s.runs {
        SortView { runs: s.next, next: 0, from: 0, passing: false, passed: true, ..s }
    } else {
        s
    }
}

/// How many merges are left at most: a pass writes fewer runs than it merges,
/// and each of its merges takes at least one run.
pub open spec fn merges_left(s: SortView) -> int {
    s.runs * (s.runs + 1) + (s.runs - s.from)
}

/// The end of a pass leaves no more merges.
pub proof fn turning_leaves_no_more_merges(s: SortView)
    requires
        0 <= s.from <= s.runs,
        0 <= s.next,
        s.from > 0 ==> s.next < s.from,
        s.passing ==> s.runs >= 2,
    ensures
        0 <= merges_left(turned(s)) <= merges_left(s),
{
    assert(0 <= s.runs * (s.runs + 1)) by (nonlinear_arith)
        requires
            0 <= s.runs,
    ;
    if s.passing && s.from >= s.runs {
        assert(0 <= s.next * (s.next + 1) && s.next * (s.next + 1) + s.next <= s.runs * (s.runs + 1))
            by (nonlinear_arith)
            requires
                0 <= s.next < s.runs,
        ;
    }
}

/// What a sort does next, or why it cannot go on.
pub open spec fn sort_plan(s: SortView, limits: IngestLimits) -> Result<SortPlan, ErrorView> {
    let t = turned(s);
    let fan_in = passes::fan_in_of(limits);
    let limit = limits::parser_share(limits.working_memory_bytes);
    if t.passing {
        Ok(SortPlan::Merge)
    } else if t.runs <= fan_in {
        let needed = sorting::runs_memory(t.runs, t.directory);
        if t.passed && sorting::memory_fault(needed, limit, 0, 0) is Some {
            Err(sorting::memory_fault(needed, limit, 0, 0)->0)
        } else {
            Ok(SortPlan::Last)
        }
    } else if fan_in < 2 {
        Err(error::bound_error(ErrorCode::RunFanInLimit, "run_fan_in"@, limits.run_fan_in))
    } else {
        let needed = passes::pass_memory(
            t.runs,
            passes::groups_of(t.runs, fan_in),
            0,
            t.directory,
        );
        match sorting::memory_fault(needed, limit, 0, 0) {
            Some(e) => Err(e),
            None => Ok(SortPlan::Merge),
        }
    }
}

impl View for StoredSort {
    type V = SortView;

    closed spec fn view(&self) -> SortView {
        SortView {
            runs: self.runs@.len() as int,
            next: self.next@.len() as int,
            from: self.from as int,
            passing: self.passing,
            passed: self.passed,
            directory: self.directory,
            disk: self.disk_bytes as int,
            next_id: self.next_run_id as int,
        }
    }
}

impl StoredSort {
    /// The runs that are there, those not merged yet before those written.
    pub closed spec fn present(&self) -> Seq<StoredRun> {
        self.runs@.skip(self.from as int) + self.next@
    }

    /// All records of the runs that are there.
    pub open spec fn records(&self) -> Multiset<RecordView> {
        merge::pooled(written(self.present()))
    }

    /// Every run that is there is ordered and can be read back.
    pub open spec fn sound(&self, limits: IngestLimits) -> bool {
        stored_merge::all_sound(self.present(), 0, self.present().len() as int, limits)
    }

    /// The disk count is that of the runs that are there.
    pub closed spec fn wf(&self) -> bool {
        &&& forall|i: int| 0 <= i < self.runs@.len() ==> (#[trigger] self.runs@[i]).wf()
        &&& forall|i: int| 0 <= i < self.next@.len() ==> (#[trigger] self.next@[i]).wf()
        &&& self.from <= self.runs@.len()
        &&& !self.passing ==> self.from == 0 && self.next@.len() == 0
        &&& self.passing ==> self.runs@.len() >= 2 && if self.from == 0 {
            self.next@.len() == 0
        } else {
            self.next@.len() < self.from
        }
        &&& self.disk_bytes == sorting::runs_size(written(self.present()))
        &&& stored_merge::numbered(self.present(), self.next_run_id as int)
    }

    /// A pass writes fewer runs than it merges.
    pub proof fn passes_write_fewer_runs(&self)
        requires
            self.wf(),
        ensures
            0 <= self@.from <= self@.runs,
            self@.next >= 0,
            self@.passing ==> self@.runs >= 2,
            self@.from == 0 ==> self@.next == 0,
            self@.from > 0 ==> self@.next < self@.from,
            self.present().len() == self@.runs - self@.from + self@.next,
    {
    }

    /// No two runs that are there have the same number, and none has the
    /// number of the run that is written next.
    pub proof fn run_numbers_differ(&self)
        requires
            self.wf(),
        ensures
            forall|i: int, j: int|
                0 <= i < j < self.present().len() ==> (#[trigger] self.present()[i]).id != (
                #[trigger] self.present()[j]).id,
            forall|i: int|
                0 <= i < self.present().len() ==> (#[trigger] self.present()[i]).id
                    != self@.next_id,
    {
    }

    /// Starts a sort over runs.
    pub fn new(
        runs: Vec<StoredRun>,
        directory: u32,
        disk_bytes: u64,
        next_run_id: u64,
    ) -> (sort: Self)
        requires
            forall|i: int| 0 <= i < runs@.len() ==> (#[trigger] runs@[i]).wf(),
            disk_bytes == sorting::runs_size(written(runs@)),
            stored_merge::numbered(runs@, next_run_id as int),
        ensures
            sort.wf(),
            sort.present() == runs@,
            sort@ == (SortView {
                runs: runs@.len() as int,
                next: 0,
                from: 0,
                passing: false,
                passed: false,
                directory,
                disk: disk_bytes as int,
                next_id: next_run_id as int,
            }),
    {
        let sort = StoredSort {
            runs,
            next: Vec::new(),
            from: 0,
            passing: false,
            passed: false,
            directory,
            disk_bytes,
            next_run_id,
        };
        assert(sort.present() =~= runs@);
        sort
    }

    /// Decides what comes next.
    pub fn plan(&mut self, limits: &IngestLimits) -> (result: Result<SortPlan, IngestError>)
        requires
            old(self).wf(),
        ensures
            final(self).wf(),
            final(self).present() == old(self).present(),
            match result {
                Ok(plan) => {
                    &&& sort_plan(old(self)@, *limits) == Ok::<SortPlan, ErrorView>(plan)
                    &&& final(self)@ == (SortView {
                        passing: plan is Merge,
                        ..turned(old(self)@)
                    })
                    &&& plan is Merge ==> final(self)@.from < final(self)@.runs
                },
                Err(e) => sort_plan(old(self)@, *limits) == Err::<SortPlan, ErrorView>(e@),
            },
    {
        if self.passing && self.from >= self.runs.len() {
            let ghost present = self.present();
            let mut next: Vec<StoredRun> = Vec::new();
            core::mem::swap(&mut next, &mut self.next);
            self.runs = next;
            self.from = 0;
            self.passing = false;
            self.passed = true;
            assert(self.present() =~= present);
        }
        if self.passing {
            return Ok(SortPlan::Merge);
        }
        let limit: u64 = parser_working_memory_bytes(limits.working_memory_bytes);
        let fan_in: usize = if limits.run_fan_in > usize::MAX as u64 {
            usize::MAX
        } else {
            limits.run_fan_in as usize
        };
        let count: usize = self.runs.len();
        let listed: u64 = runs_bytes(count, self.directory);
        proof {
            sorting::another_run(count as int, self.directory);
            assert(0 * sorting::run_path_memory(self.directory) == 0);
        }
        if count <= fan_in {
            if self.passed {
                match sorting::parser_memory_check(listed, limit, 0, 0) {
                    Ok(()) => {},
                    Err(e) => return Err(e),
                }
            }
            return Ok(SortPlan::Last);
        }
        if fan_in < 2 {
            return Err(limit_error(ErrorCode::RunFanInLimit, "run_fan_in", limits.run_fan_in));
        }
        let groups: usize = group_count(count, fan_in);
        let requested: u64 = listed.saturating_add(sorting::slots(groups, RUN_SLOT_BYTES));
        match sorting::parser_memory_check(requested, limit, 0, 0) {
            Ok(()) => {},
            Err(e) => return Err(e),
        }
        self.passing = true;
        Ok(SortPlan::Merge)
    }

    /// Where the next group of a pass ends.
    pub open spec fn group_end(&self, limits: IngestLimits) -> int {
        passes::group_end(self@.from, passes::fan_in_of(limits), self@.runs)
    }

    /// Memory that the lists of runs take during a pass.
    pub open spec fn resident(&self, limits: IngestLimits) -> int {
        passes::pass_memory(
            self@.runs,
            passes::groups_of(self@.runs, passes::fan_in_of(limits)),
            self@.next,
            self@.directory,
        )
    }

    /// Starts merging the next group of runs.
    pub fn open_group(&self, options: &IngestOptions) -> (group: Result<StoredGroup, IngestError>)
        requires
            self.wf(),
            self@.passing,
            self@.from < self@.runs,
        ensures
            group matches Ok(group) ==> self.is_next(group.merging().contents())
                && 1 <= group.merging().contents().len() <= self.present().len(),
            match group {
                Ok(group) => {
                    &&& passes::fan_in_of(options.limits) >= 2
                    &&& group_fault(
                        self.group_end(options.limits) - self@.from,
                        sorting::sat(self.resident(options.limits)) as int,
                        self@.disk,
                        self@.next_id,
                        self@.directory,
                        options.limits,
                    ) is None
                    &&& group.wf()
                    &&& group.limits() == options.limits
                    &&& group.run_id() == self@.next_id
                    &&& group.others() == self@.disk
                    &&& group.flushed() == Seq::<u8>::empty()
                    &&& group.merging().contents() == stored_merge::written_runs(
                        self.present(),
                        0,
                        self.group_end(options.limits) - self@.from,
                    )
                    &&& group.merging().faithful() == stored_merge::all_sound(
                        self.present(),
                        0,
                        self.group_end(options.limits) - self@.from,
                        options.limits,
                    )
                    &&& group.merging().run_ids() == Seq::new(
                        group.merging().contents().len(),
                        |i: int| self.present()[i].id,
                    )
                    &&& group.merging().handed_out() == Seq::<RecordView>::empty()
                    &&& group.merging().work_left() == group.merging().contents().len() + 3
                        * merge::pooled_len(group.merging().contents())
                },
                Err(e) => options::may_cancel(*options, e@) || if passes::fan_in_of(options.limits)
                    < 2 {
                    e@ == error::bound_error(
                        ErrorCode::RunFanInLimit,
                        "run_fan_in"@,
                        options.limits.run_fan_in,
                    )
                } else {
                    group_fault(
                    self.group_end(options.limits) - self@.from,
                    sorting::sat(self.resident(options.limits)) as int,
                    self@.disk,
                    self@.next_id,
                    self@.directory,
                    options.limits,
                ) == Some(e@)
                },
            },
    {
        match options.check_cancelled(0, 0) {
            Ok(()) => {},
            Err(e) => return Err(e),
        }
        let fan_in: usize = if options.limits.run_fan_in > usize::MAX as u64 {
            usize::MAX
        } else {
            options.limits.run_fan_in as usize
        };
        if fan_in < 2 {
            return Err(
                limit_error(ErrorCode::RunFanInLimit, "run_fan_in", options.limits.run_fan_in),
            );
        }
        let count: usize = self.runs.len();
        let to: usize = if fan_in < count - self.from {
            self.from + fan_in
        } else {
            count
        };
        let groups: usize = group_count(count, fan_in);
        let resident: u64 = runs_bytes(count, self.directory).saturating_add(
            sorting::slots(groups, RUN_SLOT_BYTES),
        ).saturating_add(sorting::slots(self.next.len(), run_path_bytes(self.directory)));
        proof {
            sorting::another_run(count as int, self.directory);
            let path = sorting::run_path_memory(self.directory);
            assert(self.next@.len() * path >= 0) by (nonlinear_arith)
                requires
                    path >= 0,
            ;
            let present = self.present();
            let length = to - self.from;
            assert forall|i: int| 0 <= i < length implies #[trigger] present[i] == self.runs@[
                self.from + i
            ] by {}
            assert(stored_merge::written_runs(present, 0, length) =~= stored_merge::written_runs(
                self.runs@,
                self.from as int,
                to as int,
            ));
            if stored_merge::all_sound(present, 0, length, options.limits) {
                assert forall|i: int| self.from <= i < to implies (
                #[trigger] self.runs@[i]).sound(options.limits) by {
                    assert(present[i - self.from].sound(options.limits));
                }
            }
            if stored_merge::all_sound(self.runs@, self.from as int, to as int, options.limits) {
                assert forall|i: int| 0 <= i < length implies (#[trigger] present[i]).sound(
                    options.limits,
                ) by {
                    assert(self.runs@[self.from + i].sound(options.limits));
                }
            }
        }
        match StoredGroup::open(
            &self.runs,
            self.from,
            to,
            resident,
            self.disk_bytes,
            self.next_run_id,
            self.directory,
            &options.limits,
        ) {
            Ok(group) => {
                assert(group.merging().run_ids() =~= Seq::new(
                    group.merging().contents().len(),
                    |i: int| self.present()[i].id,
                ));
                Ok(group)
            },
            Err(e) => Err(e),
        }
    }

    /// Takes the run that a merge has written in place of those that it merged,
    /// and gives the names of the runs that are no longer needed.
    pub fn complete(&mut self, group: StoredGroup) -> (unneeded: Vec<u64>)
        requires
            old(self).wf(),
            old(self)@.passing,
            group.wf(),
            group.run_id() == old(self)@.next_id,
            group.others() == old(self)@.disk,
            old(self).is_next(group.merging().contents()),
        ensures
            final(self).wf(),
            ({
                let count = group.merging().contents().len() as int;
                let merged = group.merging().handed_out();
                let before = old(self).present();
                &&& final(self)@ == (SortView {
                    next: old(self)@.next + 1,
                    from: old(self)@.from + count,
                    disk: group.disk() - sorting::runs_size(group.merging().contents()),
                    next_id: old(self)@.next_id + 1,
                    ..old(self)@
                })
                &&& unneeded@ == Seq::new(count as nat, |i: int| before[i].id)
                &&& final(self).present().len() == before.len() - count + 1
                &&& final(self).present().drop_last() == before.skip(count)
                &&& final(self).present().last().content@ == merged
                &&& final(self).present().last().id == group.run_id()
                &&& old(self).sound(group.limits()) && merged == passes::merge_output(
                    group.merging().contents(),
                ) ==> final(self).sound(group.limits()) && final(self).records() == old(self).records()
            }),
    {
        let ghost before = self.present();
        let ghost contents = group.merge.contents();
        let ghost count = contents.len() as int;
        let ghost start = *self;
        let ghost all = written(before);
        proof {
            assert(contents =~= all.subrange(0, count));
            assert(all.subrange(0, all.len() as int) =~= all);
            passes::runs_size_update(all, 0, count);
            passes::runs_size_nonnegative(all.subrange(count, all.len() as int));
            assert(count <= self.runs.len() - self.from);
        }
        let to: usize = self.from + group.merge.run_count();
        let mut old_bytes: u64 = 0;
        let mut unneeded: Vec<u64> = Vec::new();
        let mut index: usize = self.from;
        assert(all.subrange(0, 0) =~= Seq::<Seq<RecordView>>::empty());
        while index < to
            invariant
                *self == start,
                start.wf(),
                start.from <= index <= to <= start.runs@.len(),
                to == start.from + count,
                before == start.present(),
                all == written(before),
                all.len() == before.len(),
                count <= all.len(),
                unneeded@.len() == index - start.from,
                forall|i: int|
                    0 <= i < unneeded@.len() ==> #[trigger] unneeded@[i] == before[i].id,
                old_bytes == sorting::runs_size(all.subrange(0, index - start.from)),
                sorting::runs_size(all.subrange(0, count)) <= start.disk_bytes,
            decreases to - index,
        {
            proof {
                let k = index - start.from;
                let longer = all.subrange(0, k + 1);
                assert(longer.drop_last() =~= all.subrange(0, k));
                assert(before[k] == start.runs@[index as int]);
                assert(longer.last() == start.runs@[index as int].content@);
                assert(start.runs@[index as int].wf());
                let group = all.subrange(0, count);
                passes::runs_size_update(group, 0, k + 1);
                assert(group.subrange(0, k + 1) =~= longer);
                assert(group.subrange(0, count) =~= group);
                passes::runs_size_nonnegative(group.subrange(k + 1, count));
            }
            old_bytes = old_bytes + self.runs[index].size;
            unneeded.push(self.runs[index].id);
            index = index + 1;
        }
        let run = StoredRun {
            id: group.id,
            size: group.total - group.start,
            records: group.records,
            content: Ghost(group.merge.handed_out()),
        };
        let ghost merged = group.merge.handed_out();
        let ghost ran = run;
        self.next.push(run);
        self.from = to;
        self.disk_bytes = group.total - old_bytes;
        self.next_run_id = group.id + 1;
        proof {
            let now = self.present();
            assert(now =~= before.skip(count).push(ran));
            assert(now.drop_last() =~= before.skip(count));
            assert(written(now) =~= written(before.skip(count)).push(merged));
            assert(written(before.skip(count)) =~= all.subrange(count, all.len() as int));
            assert(written(now).drop_last() =~= all.subrange(count, all.len() as int));
            assert(unneeded@ =~= Seq::new(count as nat, |i: int| before[i].id));
            assert forall|i: int| 0 <= i < self.next@.len() implies (#[trigger] self.next@[i]).wf() by {
                if i < start.next@.len() {
                    assert(self.next@[i] == start.next@[i]);
                }
            }
            if start.sound(group.limits) && merged == passes::merge_output(contents) {
                merged_run_is_sound(before, count, merged, group.limits);
                assert forall|i: int| 0 <= i < now.len() implies (#[trigger] now[i]).sound(
                    group.limits,
                ) by {
                    if i < now.len() - 1 {
                        assert(now[i] == before[i + count]);
                    }
                }
                let rest = all.subrange(count, all.len() as int);
                passes::pooled_concat(contents, rest);
                assert(contents + rest =~= all);
                assert(merge::pooled(written(now)) =~= merge::pooled(all));
            }
        }
        unneeded
    }

    /// Some runs are the next ones that are there.
    pub closed spec fn is_next(&self, contents: Seq<Seq<RecordView>>) -> bool {
        &&& 1 <= contents.len() <= self.runs@.len() - self.from
        &&& self.from == 0 ==> contents.len() >= 2
        &&& contents == stored_merge::written_runs(self.present(), 0, contents.len() as int)
    }

    /// Opens all runs for the last merge.
    pub fn open_last(&self, limits: &IngestLimits) -> (merge: Result<StoredMerge, IngestError>)
        requires
            self.wf(),
            !self@.passing,
        ensures
            ({
                let limit = limits::parser_share(limits.working_memory_bytes);
                let needed = sorting::sat(sorting::runs_memory(self@.runs, self@.directory))
                    + self@.runs
                    * OPEN_RUN_BYTES;
                match merge {
                    Ok(merge) => {
                        &&& sorting::memory_fault(needed, limit, 0, 0) is None
                        &&& merge.wf(*limits)
                        &&& merge.faithful() == self.sound(*limits)
                        &&& merge.contents() == written(self.present())
                        &&& merge.run_ids() == Seq::new(
                            self.present().len(),
                            |i: int| self.present()[i].id,
                        )
                        &&& merge.handed_out() == Seq::<RecordView>::empty()
                        &&& merge.work_left() == self.present().len() + 3 * merge::pooled_len(
                            merge.contents(),
                        )
                    },
                    Err(e) => sorting::memory_fault(needed, limit, 0, 0) == Some(e@),
                }
            }),
    {
        let count: usize = self.runs.len();
        let resident: u64 = runs_bytes(count, self.directory);
        proof {
            assert(self.present() =~= self.runs@);
            assert(stored_merge::written_runs(self.runs@, 0, count as int) =~= written(
                self.present(),
            ));
        }
        StoredMerge::open(&self.runs, 0, count, resident, limits)
    }
}

/// Merging ordered runs that can be read back gives such a run.
proof fn merged_run_is_sound(
    before: Seq<StoredRun>,
    count: int,
    merged: Seq<RecordView>,
    limits: IngestLimits,
)
    requires
        0 <= count <= before.len(),
        stored_merge::all_sound(before, 0, before.len() as int, limits),
        merged == passes::merge_output(written(before).subrange(0, count)),
    ensures
        order::ordered(merged),
        forall|i: int|
            0 <= i < merged.len() ==> stored_reader::readable(#[trigger] merged[i], limits),
        merged.to_multiset() == merge::pooled(written(before).subrange(0, count)),
{
    broadcast use vstd::seq_lib::group_to_multiset_ensures;

    let contents = written(before).subrange(0, count);
    assert forall|i: int| 0 <= i < contents.len() implies order::ordered(#[trigger] contents[i]) by {
        assert(before[i].sound(limits));
    }
    passes::merging_sorts(contents);
    assert forall|i: int| 0 <= i < merged.len() implies stored_reader::readable(
        #[trigger] merged[i],
        limits,
    ) by {
        assert(merged.contains(merged[i]));
        assert(merged.to_multiset().count(merged[i]) > 0);
        let place = passes::pool_member(contents, merged[i]);
        assert(before[place.0].sound(limits));
        assert(before[place.0].content@[place.1] == merged[i]);
    }
}

} // verus!
