//! The bounded external sort: spilling records into encoded runs and merging
//! runs until one pass can hand out every record in canonical order.

use vstd::prelude::*;

use crate::error;
use crate::error::{working_disk_error, working_memory_error, ErrorView, IngestError};
use crate::limits;
use crate::limits::{parser_working_memory_bytes, IngestLimits};
use crate::merge;
use crate::options;
use crate::options::IngestOptions;
use crate::order;
use crate::record::{NormalizedRecord, RecordView};
use crate::runs;
use crate::runs::{record_disk_bytes, write_normalized_record};

verus! {

/// Memory charged for the fixed part of one record.
pub const RECORD_SLOT_BYTES: u64 = 88;

/// Memory charged for the fixed part of one run.
pub const RUN_SLOT_BYTES: u64 = 40;

/// The length of the file name of a run.
pub const RUN_NAME_BYTES: u64 = 27;

/// Memory charged for the run state itself.
pub const RUN_STATE_BYTES: u64 = 72;

/// Memory charged for an open run in a merge.
pub const OPEN_RUN_BYTES: u64 = 128;

/// A quantity as a 64-bit count that stops at the largest value.
pub open spec fn sat(x: int) -> u64 {
    if x > u64::MAX {
        u64::MAX
    } else {
        x as u64
    }
}

/// The texts of several records.
pub open spec fn texts_size(records: Seq<RecordView>) -> int
    decreases records.len(),
{
    if records.len() == 0 {
        0
    } else {
        texts_size(records.drop_last()) + runs::text_size(records.last())
    }
}

/// Memory charged for records.
pub open spec fn records_memory(records: Seq<RecordView>) -> int {
    records.len() * RECORD_SLOT_BYTES + texts_size(records)
}

/// Memory charged for the path of one run: its name and, where runs are files,
/// the path of their directory, which is `directory` bytes long.
pub open spec fn run_path_memory(directory: u32) -> int {
    if directory == 0 {
        RUN_NAME_BYTES as int
    } else {
        directory + 1 + RUN_NAME_BYTES
    }
}

/// Memory charged for a number of runs and their paths.
pub open spec fn run_list_memory(count: int, directory: u32) -> int {
    count * (RUN_SLOT_BYTES + run_path_memory(directory))
}

/// Memory charged for the run state with a number of runs.
pub open spec fn runs_memory(count: int, directory: u32) -> int {
    RUN_STATE_BYTES + directory + run_list_memory(count, directory)
}

/// One more run is charged for its slot and its path.
pub proof fn another_run(count: int, directory: u32)
    ensures
        runs_memory(count + 1, directory) == runs_memory(count, directory) + RUN_SLOT_BYTES
            + run_path_memory(directory),
        count >= 0 ==> runs_memory(count, directory) >= 0,
{
    let each = RUN_SLOT_BYTES + run_path_memory(directory);
    assert((count + 1) * each == count * each + each) by (nonlinear_arith);
    assert(count >= 0 ==> count * each >= 0) by (nonlinear_arith)
        requires
            each >= 0,
    ;
}

/// A memory check: the error when more than the limit is requested.
pub open spec fn memory_fault(requested: int, limit: u64, line: u64, byte_offset: u64) -> Option<
    ErrorView,
> {
    if requested > limit {
        Some(error::memory_error(sat(requested), limit, line, byte_offset))
    } else {
        None
    }
}

/// `count * size`, saturating.
pub(crate) fn slots(count: usize, size: u64) -> (bytes: u64)
    ensures
        bytes == sat(count * size),
{
    match (count as u64).checked_mul(size) {
        Some(bytes) => bytes,
        None => u64::MAX,
    }
}

pub fn parser_memory_check(requested: u64, limit: u64, line: u64, byte_offset: u64) -> (result:
    Result<(), IngestError>)
    ensures
        result is Ok <==> requested <= limit,
        result matches Err(e) ==> e@ == error::memory_error(requested, limit, line, byte_offset),
{
    if requested > limit {
        Err(working_memory_error(requested, limit, line, byte_offset))
    } else {
        Ok(())
    }
}

/// Memory charged for records, saturating.
pub fn records_memory_bytes(records: &Vec<NormalizedRecord>) -> (bytes: u64)
    ensures
        bytes == sat(records_memory(order::views(records@))),
{
    let mut total: u64 = slots(records.len(), RECORD_SLOT_BYTES);
    let mut index: usize = 0;
    let ghost all = order::views(records@);
    assert(all.take(0) =~= Seq::<RecordView>::empty());
    while index < records.len()
        invariant
            index <= records@.len(),
            all == order::views(records@),
            total == sat(records@.len() * RECORD_SLOT_BYTES + texts_size(all.take(index as int))),
            texts_size(all.take(index as int)) >= 0,
        decreases records@.len() - index,
    {
        proof {
            let next = all.take(index as int + 1);
            assert(next.drop_last() =~= all.take(index as int));
            assert(next.last() == records@[index as int]@);
        }
        total = total.saturating_add(merge::text_bytes(&records[index]));
        index = index + 1;
    }
    assert(all.take(index as int) =~= all);
    total
}

pub proof fn texts_size_is_nonnegative(records: Seq<RecordView>)
    ensures
        texts_size(records) >= 0,
    decreases records.len(),
{
    if records.len() > 0 {
        texts_size_is_nonnegative(records.drop_last());
    }
}

/// One encoded run.
pub struct SortRun {
    pub id: u64,
    /// Its bytes, as long as they are in memory.
    pub data: Vec<u8>,
    pub size: u64,
    /// Whether its bytes were handed out.
    pub stored: bool,
    pub records: u64,
    pub content: Ghost<Seq<RecordView>>,
}

impl SortRun {
    /// The data is the encoded form of ordered records that can be read back.
    pub open spec fn wf(self, limits: IngestLimits) -> bool {
        &&& !self.stored ==> self.data@ == runs::run_bytes(self.content@)
        &&& self.size == runs::run_bytes(self.content@).len()
        &&& self.size <= usize::MAX
        &&& self.records == self.content@.len()
        &&& order::ordered(self.content@)
        &&& forall|i: int|
            0 <= i < self.content@.len() ==> runs::storable(#[trigger] self.content@[i], limits)
    }
}

/// The length of the path of one run.
pub(crate) fn run_path_bytes(directory: u32) -> (bytes: u64)
    ensures
        bytes == run_path_memory(directory),
{
    if directory == 0 {
        RUN_NAME_BYTES
    } else {
        directory as u64 + 1 + RUN_NAME_BYTES
    }
}

/// Memory charged for the run state with a number of runs, saturating.
pub(crate) fn runs_bytes(count: usize, directory: u32) -> (bytes: u64)
    ensures
        bytes == sat(runs_memory(count as int, directory)),
{
    proof {
        another_run(count as int, directory);
    }
    let state: u64 = RUN_STATE_BYTES + directory as u64;
    state.saturating_add(slots(count, RUN_SLOT_BYTES + run_path_bytes(directory)))
}

/// The encoded runs of an external sort.
pub struct ParsedRuns {
    /// The length of the path of the directory that the runs are kept in; 0
    /// where they are kept in memory.
    pub directory: u32,
    pub runs: Vec<SortRun>,
    /// Runs whose bytes were handed out, the first ones.
    pub handed: usize,
    pub disk_bytes: u64,
    pub next_run_id: u64,
}

/// What the runs of an external sort hold.
#[verifier::ext_equal]
pub struct RunsView {
    pub directory: u32,
    pub contents: Seq<Seq<RecordView>>,
    pub disk: int,
    pub next_id: int,
}

impl View for ParsedRuns {
    type V = RunsView;

    open spec fn view(&self) -> RunsView {
        RunsView {
            directory: self.directory,
            contents: self.runs@.map_values(|run: SortRun| run.content@),
            disk: self.disk_bytes as int,
            next_id: self.next_run_id as int,
        }
    }
}

/// The encoded size of several runs.
pub open spec fn runs_size(contents: Seq<Seq<RecordView>>) -> int
    decreases contents.len(),
{
    if contents.len() == 0 {
        0
    } else {
        runs_size(contents.drop_last()) + runs::run_bytes(contents.last()).len()
    }
}

impl ParsedRuns {
    /// Every run is well formed and the disk count is that of all runs.
    pub open spec fn wf(&self, limits: IngestLimits) -> bool {
        &&& forall|i: int| 0 <= i < self.runs@.len() ==> (#[trigger] self.runs@[i]).wf(limits)
        &&& self@.disk == runs_size(self@.contents)
        &&& self.handed <= self.runs@.len()
        &&& forall|i: int|
            0 <= i < self.runs@.len() ==> (#[trigger] self.runs@[i]).stored == (i < self.handed)
        &&& numbered(self.runs@, self.next_run_id as int)
    }

    /// The bytes of all runs are in memory.
    pub open spec fn held(&self) -> bool {
        all_held(self.runs@)
    }

    /// Hands out the bytes of the first run that has not been handed out.
    pub(crate) fn take_run(&mut self, Ghost(limits): Ghost<IngestLimits>) -> (run: Option<
        (u64, Vec<u8>),
    >)
        requires
            old(self).wf(limits),
        ensures
            final(self).wf(limits),
            final(self)@ == old(self)@,
            final(self).runs@.len() == old(self).runs@.len(),
            forall|i: int|
                0 <= i < old(self).runs@.len() ==> (#[trigger] final(self).runs@[i]).id
                    == old(self).runs@[i].id,
            match run {
                Some((id, bytes)) => {
                    let at = old(self).handed as int;
                    &&& at < old(self).runs@.len()
                    &&& id == old(self).runs@[at].id
                    &&& bytes@ == runs::run_bytes(old(self)@.contents[at])
                    &&& final(self).handed == at + 1
                },
                None => old(self).handed == old(self).runs@.len() && *final(self) == *old(self),
            },
    {
        let at: usize = self.handed;
        if at >= self.runs.len() {
            return None;
        }
        let ghost start = *self;
        assert(self.runs@[at as int].wf(limits));
        let id: u64 = self.runs[at].id;
        let mut bytes: Vec<u8> = Vec::new();
        core::mem::swap(&mut bytes, &mut self.runs[at].data);
        self.runs[at].stored = true;
        self.handed = at + 1;
        proof {
            assert(self@.contents =~= start@.contents);
            assert forall|i: int| 0 <= i < self.runs@.len() implies (#[trigger] self.runs@[i]).wf(
                limits,
            ) by {
                assert(start.runs@[i].wf(limits));
            }
        }
        Some((id, bytes))
    }
}

/// Runs have rising numbers below the next one.
pub open spec fn numbered(list: Seq<SortRun>, next_id: int) -> bool {
    &&& forall|i: int| 0 <= i < list.len() ==> (#[trigger] list[i]).id < next_id
    &&& forall|i: int, j: int|
        0 <= i < j < list.len() ==> (#[trigger] list[i]).id < (#[trigger] list[j]).id
}

/// The bytes of all runs of a list are in memory.
pub open spec fn all_held(list: Seq<SortRun>) -> bool {
    forall|i: int| 0 <= i < list.len() ==> !(#[trigger] list[i]).stored
}

/// Why a record does not fit the disk budget after `total` bytes.
pub open spec fn record_disk_fault(r: RecordView, total: int, limit: u64) -> Option<ErrorView> {
    let size = runs::record_size(r);
    if size > u64::MAX {
        Some(error::disk_error(u64::MAX, (u64::MAX - 1) as u64, r.line, r.byte_offset))
    } else if total + size > limit || !runs::encodable(r) {
        Some(error::disk_error(sat(total + size), limit, r.line, r.byte_offset))
    } else {
        None
    }
}

/// The encoded size of several records.
pub open spec fn records_size(records: Seq<RecordView>) -> int
    decreases records.len(),
{
    if records.len() == 0 {
        0
    } else {
        records_size(records.drop_last()) + runs::record_size(records.last())
    }
}

pub proof fn records_size_is_length(records: Seq<RecordView>)
    ensures
        runs::records_bytes(records).len() == records_size(records),
        records_size(records) >= 0,
    decreases records.len(),
{
    if records.len() > 0 {
        records_size_is_length(records.drop_last());
        runs::charged_size_is_encoded_size(records.last());
    }
}

/// The first record that does not fit the disk budget.
pub open spec fn records_disk_fault(records: Seq<RecordView>, start: int, limit: u64) -> Option<
    ErrorView,
>
    decreases records.len(),
{
    if records.len() == 0 {
        None
    } else {
        match records_disk_fault(records.drop_last(), start, limit) {
            Some(e) => Some(e),
            None => record_disk_fault(
                records.last(),
                start + records_size(records.drop_last()),
                limit,
            ),
        }
    }
}

/// Why starting a run is refused.
pub open spec fn run_header_fault(disk: int, limit: u64) -> Option<ErrorView> {
    if disk + runs::RUN_HEADER_BYTES > limit {
        Some(error::disk_error(sat(disk + runs::RUN_HEADER_BYTES), limit, 0, 0))
    } else {
        None
    }
}

pub(crate) fn check_run_header(disk: u64, limit: u64) -> (total: Result<u64, IngestError>)
    ensures
        match total {
            Ok(total) => run_header_fault(disk as int, limit) is None && total == disk
                + runs::RUN_HEADER_BYTES,
            Err(e) => run_header_fault(disk as int, limit) == Some(e@),
        },
{
    match disk.checked_add(runs::RUN_HEADER_BYTES) {
        None => Err(working_disk_error(u64::MAX, limit, 0, 0)),
        Some(total) => if total > limit {
            Err(working_disk_error(total, limit, 0, 0))
        } else {
            Ok(total)
        },
    }
}

/// Checks one record against the disk budget and appends its encoded form.
pub(crate) fn append_record(out: &mut Vec<u8>, record: &NormalizedRecord, total: u64, limit: u64) -> (next:
    Result<u64, IngestError>)
    requires
        total <= limit,
    ensures
        match next {
            Ok(next) => record_disk_fault(record@, total as int, limit) is None && next == total
                + runs::record_size(record@) && next <= limit && final(out)@ == old(out)@
                + runs::record_bytes(record@) && runs::encodable(record@),
            Err(e) => record_disk_fault(record@, total as int, limit) == Some(e@),
        },
{
    let size: u64 = match record_disk_bytes(record) {
        Some(size) => size,
        None => {
            return Err(
                working_disk_error(u64::MAX, u64::MAX - 1, record.line, record.byte_offset),
            );
        },
    };
    let next: u64 = match total.checked_add(size) {
        Some(next) => next,
        None => return Err(working_disk_error(u64::MAX, limit, record.line, record.byte_offset)),
    };
    if next > limit {
        return Err(working_disk_error(next, limit, record.line, record.byte_offset));
    }
    if record.username.as_str().as_bytes().len() as u64 > 0xffff_ffff
        || record.path.as_str().as_bytes().len() as u64 > 0xffff_ffff {
        return Err(working_disk_error(next, limit, record.line, record.byte_offset));
    }
    write_normalized_record(out, record);
    Ok(next)
}

pub(crate) fn magic_bytes() -> (magic: Vec<u8>)
    ensures
        magic@ == runs::run_magic(),
{
    let mut magic: Vec<u8> = Vec::new();
    magic.push(0x47);
    magic.push(0x49);
    magic.push(0x52);
    magic.push(0x55);
    magic.push(0x4e);
    magic.push(0);
    magic.push(0);
    magic.push(1);
    assert(magic@ =~= runs::run_magic());
    magic
}

/// Why writing ordered records as a new run is refused.
pub open spec fn write_fault(records: Seq<RecordView>, state: RunsView, limits: IngestLimits) -> Option<
    ErrorView,
> {
    let memory = limits::parser_share(limits.working_memory_bytes);
    let requested = runs_memory(state.contents.len() as int + 1, state.directory) + records_memory(
        records,
    );
    if state.next_id >= u64::MAX {
        Some(error::disk_error(u64::MAX, limits.working_disk_bytes, 0, 0))
    } else if memory_fault(requested, memory, 0, 0) is Some {
        memory_fault(requested, memory, 0, 0)
    } else if run_header_fault(state.disk, limits.working_disk_bytes) is Some {
        run_header_fault(state.disk, limits.working_disk_bytes)
    } else {
        records_disk_fault(
            records,
            state.disk + runs::RUN_HEADER_BYTES,
            limits.working_disk_bytes,
        )
    }
}

/// The runs after a new run was written.
pub open spec fn with_run(state: RunsView, records: Seq<RecordView>) -> RunsView {
    RunsView {
        directory: state.directory,
        contents: state.contents.push(records),
        disk: state.disk + runs::run_bytes(records).len(),
        next_id: state.next_id + 1,
    }
}

/// An error names the line of a record.
pub open spec fn names_a_line(records: Seq<NormalizedRecord>, e: ErrorView) -> bool {
    exists|i: int| 0 <= i < records.len() && e.line == (#[trigger] records[i])@.line
}

/// Writes ordered records as a new run.
pub fn write_run(
    records: Vec<NormalizedRecord>,
    state: &mut ParsedRuns,
    options: &IngestOptions,
) -> (result: Result<(), IngestError>)
    requires
        old(state).wf(options.limits),
        order::ordered(order::views(records@)),
        forall|i: int|
            0 <= i < records@.len() && runs::encodable((#[trigger] records@[i])@) ==> runs::storable(
                records@[i]@,
                options.limits,
            ),
    ensures
        match result {
            Ok(()) => {
                &&& write_fault(order::views(records@), old(state)@, options.limits) is None
                &&& final(state).wf(options.limits)
                &&& final(state)@ == with_run(old(state)@, order::views(records@))
                &&& final(state).runs@.last().id == old(state).next_run_id
                &&& old(state).held() ==> final(state).held()
            },
            Err(e) => options::may_cancel(*options, e@) && names_a_line(records@, e@) || write_fault(
                order::views(records@),
                old(state)@,
                options.limits,
            ) == Some(e@),
        },
{
    let ghost all = order::views(records@);
    let ghost start = state@;
    let disk_limit: u64 = options.limits.working_disk_bytes;
    let memory_limit: u64 = parser_working_memory_bytes(options.limits.working_memory_bytes);
    let id: u64 = state.next_run_id;
    if id == u64::MAX {
        return Err(working_disk_error(u64::MAX, disk_limit, 0, 0));
    }
    let metadata: u64 = runs_bytes(state.runs.len(), state.directory).saturating_add(
        RUN_SLOT_BYTES + run_path_bytes(state.directory),
    );
    let requested: u64 = metadata.saturating_add(records_memory_bytes(&records));
    proof {
        texts_size_is_nonnegative(all);
        another_run(start.contents.len() as int, start.directory);
        assert(requested == sat(
            runs_memory(start.contents.len() as int + 1, start.directory) + records_memory(all),
        ));
    }
    match parser_memory_check(requested, memory_limit, 0, 0) {
        Ok(()) => {},
        Err(e) => return Err(e),
    }
    let mut total: u64 = match check_run_header(state.disk_bytes, disk_limit) {
        Ok(total) => total,
        Err(e) => return Err(e),
    };
    let mut data = magic_bytes();
    let mut index: usize = 0;
    assert(all.take(0) =~= Seq::<RecordView>::empty());
    while index < records.len()
        invariant
            index <= records@.len(),
            all == order::views(records@),
            disk_limit == options.limits.working_disk_bytes,
            state@ == start,
            start.disk + runs::RUN_HEADER_BYTES + records_size(all.take(index as int)) == total,
            total <= disk_limit,
            data@ == runs::run_bytes(all.take(index as int)),
            records_disk_fault(
                all.take(index as int),
                start.disk + runs::RUN_HEADER_BYTES,
                disk_limit,
            ) is None,
            write_fault(all, start, options.limits) == records_disk_fault(
                all,
                start.disk + runs::RUN_HEADER_BYTES,
                disk_limit,
            ),
            forall|i: int| 0 <= i < index ==> runs::encodable((#[trigger] records@[i])@),
        decreases records@.len() - index,
    {
        let record = &records[index];
        match options.check_cancelled(record.line, record.byte_offset) {
            Ok(()) => {},
            Err(e) => {
                assert(e@.line == records@[index as int]@.line);
                return Err(e);
            },
        }
        let ghost next = all.take(index as int + 1);
        proof {
            assert(next.drop_last() =~= all.take(index as int));
            assert(next.last() == record@);
        }
        match append_record(&mut data, record, total, disk_limit) {
            Ok(after) => {
                total = after;
            },
            Err(e) => {
                proof {
                    disk_fault_of_prefix(
                        all,
                        index as int + 1,
                        start.disk + runs::RUN_HEADER_BYTES,
                        disk_limit,
                    );
                }
                return Err(e);
            },
        }
        proof {
            assert(data@ =~= runs::run_bytes(next));
        }
        index = index + 1;
    }
    proof {
        assert(all.take(index as int) =~= all);
        records_size_is_length(all);
        assert forall|i: int| 0 <= i < all.len() implies runs::storable(
            #[trigger] all[i],
            options.limits,
        ) by {
            assert(all[i] == records@[i]@);
        }
    }
    let run = SortRun {
        id,
        size: data.len() as u64,
        data,
        stored: false,
        records: records.len() as u64,
        content: Ghost(all),
    };
    state.disk_bytes = total;
    state.next_run_id = id + 1;
    let ghost runs_before = state.runs@;
    state.runs.push(run);
    proof {
        assert(state@.contents =~= start.contents.push(all));
        assert(state@.contents.drop_last() =~= start.contents);
        assert forall|i: int| 0 <= i < state.runs@.len() implies (#[trigger] state.runs@[i]).wf(
            options.limits,
        ) by {
            if i < runs_before.len() {
                assert(state.runs@[i] == runs_before[i]);
            }
        }
    }
    Ok(())
}

/// A fault among the first records is the fault of all.
proof fn disk_fault_of_prefix(records: Seq<RecordView>, count: int, start: int, limit: u64)
    requires
        0 <= count <= records.len(),
        records_disk_fault(records.take(count), start, limit) is Some,
    ensures
        records_disk_fault(records, start, limit) == records_disk_fault(
            records.take(count),
            start,
            limit,
        ),
    decreases records.len() - count,
{
    if count == records.len() {
        assert(records.take(count) =~= records);
    } else {
        let next = records.take(count + 1);
        assert(next.drop_last() =~= records.take(count));
        disk_fault_of_prefix(records, count + 1, start, limit);
    }
}

/// No runs in a directory.
pub open spec fn no_runs(directory: u32) -> RunsView {
    RunsView { directory, contents: Seq::empty(), disk: 0, next_id: 0 }
}

/// Why spilling records is refused.
pub open spec fn spill_fault(
    sorted: Seq<RecordView>,
    state: Option<RunsView>,
    directory: u32,
    limits: IngestLimits,
) -> Option<ErrorView> {
    let memory = limits::parser_share(limits.working_memory_bytes);
    let started = match state {
        Some(s) => s,
        None => no_runs(directory),
    };
    let requested = runs_memory(started.contents.len() as int, started.directory) + records_memory(
        sorted,
    );
    if state is None && memory_fault(RUN_STATE_BYTES as int, memory, 0, 0) is Some {
        memory_fault(RUN_STATE_BYTES as int, memory, 0, 0)
    } else if memory_fault(requested, memory, 0, 0) is Some {
        memory_fault(requested, memory, 0, 0)
    } else {
        write_fault(sorted, started, limits)
    }
}

/// The runs after records were spilled.
pub open spec fn after_spill(
    sorted: Seq<RecordView>,
    state: Option<RunsView>,
    directory: u32,
) -> RunsView {
    match state {
        Some(s) => with_run(s, sorted),
        None => with_run(no_runs(directory), sorted),
    }
}

pub open spec fn runs_view(runs: Option<ParsedRuns>) -> Option<RunsView> {
    match runs {
        Some(r) => Some(r@),
        None => None,
    }
}

pub open spec fn runs_wf(runs: Option<ParsedRuns>, limits: IngestLimits) -> bool {
    runs matches Some(r) ==> r.wf(limits)
}

/// How many runs were handed out.
pub open spec fn runs_handed(runs: Option<ParsedRuns>) -> int {
    match runs {
        Some(r) => r.handed as int,
        None => 0,
    }
}

/// The bytes of all runs, if there are any, are in memory.
pub open spec fn runs_held(runs: Option<ParsedRuns>) -> bool {
    runs matches Some(r) ==> r.held()
}

/// Sorts records and writes them as a new run.
pub fn spill_records(
    records: Vec<NormalizedRecord>,
    runs: &mut Option<ParsedRuns>,
    directory: u32,
    options: &IngestOptions,
) -> (result: Result<(), IngestError>)
    requires
        runs_wf(*old(runs), options.limits),
        order::distinct_sequences(order::views(records@)),
        forall|i: int|
            0 <= i < records@.len() && runs::encodable((#[trigger] records@[i])@) ==> runs::storable(
                records@[i]@,
                options.limits,
            ),
    ensures
        match result {
            Ok(()) => {
                let sorted = order::in_order(order::views(records@));
                &&& order::ordering_of(sorted, order::views(records@))
                &&& spill_fault(sorted, runs_view(*old(runs)), directory, options.limits) is None
                &&& runs_wf(*final(runs), options.limits)
                &&& runs_view(*final(runs)) == Some(
                    after_spill(sorted, runs_view(*old(runs)), directory),
                )
                &&& runs_held(*old(runs)) ==> runs_held(*final(runs))
            },
            Err(e) => options::may_cancel(*options, e@) && names_a_line(records@, e@) || spill_fault(
                order::in_order(order::views(records@)),
                runs_view(*old(runs)),
                directory,
                options.limits,
            ) == Some(e@),
        },
{
    let ghost given = records@;
    let sorted = order::sort_records(records);
    let ghost all = order::views(sorted@);
    proof {
        order::in_order_is(all, order::views(given));
        sorted_keeps_members(order::views(given), all);
        assert forall|i: int|
            0 <= i < sorted@.len() && runs::encodable((#[trigger] sorted@[i])@) implies runs::storable(
            sorted@[i]@,
            options.limits,
        ) by {
            assert(all[i] == sorted@[i]@);
            assert(order::views(given).contains(all[i]));
            let k = choose|k: int| 0 <= k < given.len() && order::views(given)[k] == all[i];
            assert(given[k]@ == sorted@[i]@);
        }
    }
    let memory_limit: u64 = parser_working_memory_bytes(options.limits.working_memory_bytes);
    let mut state = match runs.take() {
        Some(state) => state,
        None => {
            match parser_memory_check(RUN_STATE_BYTES, memory_limit, 0, 0) {
                Ok(()) => {},
                Err(e) => return Err(e),
            }
            let fresh = ParsedRuns {
                directory,
                runs: Vec::new(),
                handed: 0,
                disk_bytes: 0,
                next_run_id: 0,
            };
            assert(fresh@.contents =~= Seq::<Seq<RecordView>>::empty());
            fresh
        },
    };
    let requested: u64 = runs_bytes(state.runs.len(), state.directory).saturating_add(
        records_memory_bytes(&sorted),
    );
    proof {
        texts_size_is_nonnegative(all);
        another_run(state@.contents.len() as int, state@.directory);
        assert(requested == sat(
            runs_memory(state@.contents.len() as int, state@.directory) + records_memory(all),
        ));
    }
    match parser_memory_check(requested, memory_limit, 0, 0) {
        Ok(()) => {},
        Err(e) => return Err(e),
    }
    match write_run(sorted, &mut state, options) {
        Ok(()) => {},
        Err(e) => {
            proof {
                if names_a_line(sorted@, e@) {
                    let i = choose|i: int|
                        0 <= i < sorted@.len() && e@.line == (#[trigger] sorted@[i])@.line;
                    assert(order::views(given).contains(all[i]));
                    let k = choose|k: int|
                        0 <= k < given.len() && order::views(given)[k] == all[i];
                    assert(given[k]@ == sorted@[i]@);
                }
            }
            return Err(e);
        },
    }
    *runs = Some(state);
    Ok(())
}

proof fn sorted_keeps_members(s: Seq<RecordView>, out: Seq<RecordView>)
    requires
        out.to_multiset() == s.to_multiset(),
    ensures
        forall|i: int| 0 <= i < out.len() ==> s.contains(#[trigger] out[i]),
{
    broadcast use vstd::seq_lib::group_to_multiset_ensures;

    assert forall|i: int| 0 <= i < out.len() implies s.contains(#[trigger] out[i]) by {
        assert(out.contains(out[i]));
        assert(out.to_multiset().count(out[i]) > 0);
    }
}

} // verus!
