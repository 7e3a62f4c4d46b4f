//! From a finite log to a published history.

use vstd::prelude::*;

use crate::charges;
use crate::charges::{check_index_memory, CATALOG_MEMORY_BASE};
use crate::digest;
use crate::error::{ErrorView, IngestError};
use crate::history;
use crate::history::{IndexedHistory, InputIdentity};
use crate::index;
use crate::index::{IndexBuilder, IndexView};
use crate::limits;
use crate::limits::{index_working_memory_bytes, IngestLimits};
use crate::lines;
use crate::lines::{LogView, NextView};
use crate::merge;
use crate::model;
use crate::options;
use crate::options::{IngestOptions, ProgressPhase, ProgressUpdate};
use crate::order;
use crate::parser::{LogParser, ParsedInput};
use crate::passes;
use crate::passes::{merge_all_runs, open_merge_readers};
use crate::record;
use crate::record::{NormalizedRecord, RecordView};
use crate::sorting;
use crate::sorting::{ParsedRuns, RunsView, OPEN_RUN_BYTES};

verus! {

/// The index after records became events, one after the other.
pub open spec fn index_list(start: IndexView, records: Seq<RecordView>, limits: IngestLimits) -> Result<
    IndexView,
    ErrorView,
>
    decreases records.len(),
{
    if records.len() == 0 {
        Ok(start)
    } else {
        match index_list(start, records.drop_last(), limits) {
            Err(e) => Err(e),
            Ok(index) => index::indexed(index, records.last(), limits),
        }
    }
}

/// The index after the records of open runs became events in merge order.
pub open spec fn index_queues(
    start: IndexView,
    queues: Seq<Seq<RecordView>>,
    pending: Option<int>,
    base: int,
    limits: IngestLimits,
) -> Result<IndexView, ErrorView>
    decreases merge::pooled_len(queues),
{
    let limit = limits::parser_share(limits.working_memory_bytes);
    if passes::starved(queues, pending, base, limit) {
        Err(passes::starvation(queues, pending, base, limit))
    } else if merge::pooled_len(queues) == 0 {
        Ok(start)
    } else {
        proof {
            passes::popping_shrinks(queues);
        }
        let at = passes::front(queues);
        match index::indexed(start, queues[at][0], limits) {
            Err(e) => Err(e),
            Ok(next) => index_queues(next, passes::popped(queues, at), Some(at), base, limits),
        }
    }
}

/// The index after all records of a parsed log became events in canonical
/// order.
pub open spec fn index_sorted(
    start: IndexView,
    chunk: Seq<RecordView>,
    runs: Option<RunsView>,
    limits: IngestLimits,
) -> Result<IndexView, ErrorView> {
    match runs {
        None => index_list(start, order::in_order(chunk), limits),
        Some(state) => match passes::merge_all_outcome(state, limits) {
            Err(e) => Err(e),
            Ok(merged) => {
                let count = merged.contents.len() as int;
                let resident = sorting::runs_memory(count, merged.directory);
                match passes::readers_fault(
                    merged.contents,
                    resident,
                    limits::parser_share(limits.working_memory_bytes),
                ) {
                    Some(e) => Err(e),
                    None => index_queues(
                        start,
                        merged.contents,
                        None,
                        resident + count * OPEN_RUN_BYTES,
                        limits,
                    ),
                }
            },
        },
    }
}

/// What building the index of a parsed log gives.
pub open spec fn build_outcome(log: LogView, names: IndexView, limits: IngestLimits) -> Result<
    IndexView,
    ErrorView,
> {
    match sorting::memory_fault(
        charges::index_memory(names.bytes, 0, 0),
        limits::index_share(limits.working_memory_bytes),
        0,
        log.input_bytes,
    ) {
        Some(e) => Err(e),
        None => index_sorted(names, log.chunk, log.runs, limits),
    }
}

proof fn prefix_fails(start: IndexView, records: Seq<RecordView>, count: int, limits: IngestLimits)
    requires
        0 <= count <= records.len(),
        index_list(start, records.take(count), limits) is Err,
    ensures
        index_list(start, records, limits) == index_list(start, records.take(count), limits),
    decreases records.len() - count,
{
    if count < records.len() {
        assert(records.take(count + 1).drop_last() =~= records.take(count));
        prefix_fails(start, records, count + 1, limits);
    } else {
        assert(records.take(count) =~= records);
    }
}

/// Indexed events carry the keys of their records, in the same order.
pub proof fn events_keep_keys(start: IndexView, records: Seq<RecordView>, limits: IngestLimits)
    requires
        start.events.len() == 0,
        index_list(start, records, limits) is Ok,
    ensures
        ({
            let events = (index_list(start, records, limits)->Ok_0).events;
            &&& events.len() == records.len()
            &&& forall|i: int|
                0 <= i < records.len() ==> {
                    &&& (#[trigger] events[i]).key.timestamp == records[i].timestamp
                    &&& events[i].key.source_sequence.value == records[i].source_sequence
                }
        }),
    decreases records.len(),
{
    if records.len() > 0 {
        events_keep_keys(start, records.drop_last(), limits);
        let before = (index_list(start, records.drop_last(), limits)->Ok_0).events;
        let events = (index_list(start, records, limits)->Ok_0).events;
        assert(events.drop_last() =~= before);
        assert forall|i: int| 0 <= i < records.len() implies {
            &&& (#[trigger] events[i]).key.timestamp == records[i].timestamp
            &&& events[i].key.source_sequence.value == records[i].source_sequence
        } by {
            if i < before.len() {
                assert(events[i] == before[i]);
                assert(records.drop_last()[i] == records[i]);
            }
        }
    }
}

/// Indexed records in canonical order give events in canonical order.
pub proof fn ordered_records_give_canonical_events(
    start: IndexView,
    records: Seq<RecordView>,
    limits: IngestLimits,
)
    requires
        start.events.len() == 0,
        order::ordered(records),
        index_list(start, records, limits) is Ok,
    ensures
        model::canonical_order((index_list(start, records, limits)->Ok_0).events),
{
    events_keep_keys(start, records, limits);
    let events = (index_list(start, records, limits)->Ok_0).events;
    assert forall|i: int, j: int| 0 <= i < j < events.len() implies !(#[trigger] events[j].key.before(
        #[trigger] events[i].key,
    )) by {
        assert(!order::before(records[j], records[i]));
    }
}

/// Merging runs while indexing gives what indexing their merged records
/// gives.
pub proof fn indexing_queues_is_indexing_their_merge(
    start: IndexView,
    done: Seq<RecordView>,
    queues: Seq<Seq<RecordView>>,
    pending: Option<int>,
    base: int,
    limits: IngestLimits,
)
    requires
        index_list(start, done, limits) is Ok,
        index_queues(index_list(start, done, limits)->Ok_0, queues, pending, base, limits) is Ok,
    ensures
        index_list(start, done + passes::merge_output(queues), limits) == index_queues(
            index_list(start, done, limits)->Ok_0,
            queues,
            pending,
            base,
            limits,
        ),
    decreases merge::pooled_len(queues),
{
    if merge::pooled_len(queues) == 0 {
        assert(done + passes::merge_output(queues) =~= done);
    } else {
        passes::popping_shrinks(queues);
        let at = passes::front(queues);
        let first = queues[at][0];
        let more = done.push(first);
        assert(more.drop_last() =~= done);
        let rest = passes::popped(queues, at);
        indexing_queues_is_indexing_their_merge(start, more, rest, Some(at), base, limits);
        assert(done + passes::merge_output(queues) =~= more + passes::merge_output(rest));
    }
}

/// Indexes the records of runs in merge order.
fn index_runs(builder: &mut IndexBuilder, state: &mut ParsedRuns, options: &IngestOptions) -> (result:
    Result<(), IngestError>)
    requires
        old(builder).wf(options.limits),
        old(state).wf(options.limits),
        old(state).held(),
    ensures
        match result {
            Ok(()) => {
                &&& final(builder).wf(options.limits)
                &&& index_sorted(
                    old(builder)@,
                    Seq::empty(),
                    Some(old(state)@),
                    options.limits,
                ) == Ok::<IndexView, ErrorView>(final(builder)@)
            },
            Err(e) => options::may_cancel(*options, e@) || index_sorted(
                old(builder)@,
                Seq::empty(),
                Some(old(state)@),
                options.limits,
            ) == Err::<IndexView, ErrorView>(e@),
        },
{
    let ghost start = builder@;
    let ghost given = state@;
    match merge_all_runs(state, options) {
        Ok(()) => {},
        Err(e) => return Err(e),
    }
    let count: usize = state.runs.len();
    let resident: u64 = sorting::runs_bytes(count, state.directory);
    let ghost directory = state.directory;
    let ghost contents = state@.contents;
    let ghost limit = limits::parser_share(options.limits.working_memory_bytes);
    assert(passes::group_contents(state.runs@, 0, count as int) =~= contents);
    proof {
        sorting::another_run(count as int, directory);
        resident_fault(
            contents,
            sorting::runs_memory(count as int, directory),
            resident as int,
            limit,
        );
    }
    let mut merger = match open_merge_readers(&state.runs, 0, count, resident, options) {
        Ok(merger) => merger,
        Err(e) => return Err(e),
    };
    let ghost base = merger.base@;
    assert(base == sorting::runs_memory(count as int, directory) + count * OPEN_RUN_BYTES);
    let ghost outcome = index_queues(start, contents, None, base, options.limits);
    loop
        invariant_except_break
            merger.wf(options.limits),
            merger.base@ == base,
            merger.memory.limit == limit,
            outcome == index_queues(
                builder@,
                merger.queues(),
                passes::pending_of(merger),
                base,
                options.limits,
            ),
        invariant
            builder.wf(options.limits),
            limit == limits::parser_share(options.limits.working_memory_bytes),
            start == old(builder)@,
            given == old(state)@,
            index_sorted(start, Seq::empty(), Some(given), options.limits) == outcome,
        ensures
            outcome == Ok::<IndexView, ErrorView>(builder@),
        decreases merge::pooled_len(merger.queues()),
    {
        let ghost qs = merger.queues();
        proof {
            passes::heads_are_loaded(merger, options.limits);
        }
        let record = match merger.next(&options.limits) {
            Err(e) => return Err(e),
            Ok(None) => {
                break;
            },
            Ok(Some(record)) => record,
        };
        let ghost at = merger.pending->0 as int;
        proof {
            merge::pooled_update(qs, at, qs[at].drop_first());
            passes::popping_shrinks(qs);
            passes::front_is_unique(qs, at, passes::front(qs));
        }
        match options.check_cancelled(record.line, record.byte_offset) {
            Ok(()) => {},
            Err(e) => return Err(e),
        }
        match builder.add_record(&record, options) {
            Ok(()) => {},
            Err(e) => return Err(e),
        }
    }
    Ok(())
}

/// A resident size that saturates fails like the exact one.
proof fn resident_fault(
    queues: Seq<Seq<RecordView>>,
    exact: int,
    saturated: int,
    limit: u64,
)
    requires
        0 <= exact,
        saturated == sorting::sat(exact),
    ensures
        passes::readers_fault(queues, exact, limit) == passes::readers_fault(
            queues,
            saturated,
            limit,
        ) || queues.len() == 0,
        passes::readers_fault(queues, saturated, limit) is None && queues.len() > 0 ==> exact
            == saturated,
{
}

/// Sorts records and indexes them.
fn index_records(
    builder: &mut IndexBuilder,
    records: Vec<NormalizedRecord>,
    options: &IngestOptions,
) -> (result: Result<(), IngestError>)
    requires
        old(builder).wf(options.limits),
        order::distinct_sequences(order::views(records@)),
    ensures
        match result {
            Ok(()) => {
                &&& final(builder).wf(options.limits)
                &&& index_sorted(old(builder)@, order::views(records@), None, options.limits)
                    == Ok::<IndexView, ErrorView>(final(builder)@)
            },
            Err(e) => options::may_cancel(*options, e@) || index_sorted(
                old(builder)@,
                order::views(records@),
                None,
                options.limits,
            ) == Err::<IndexView, ErrorView>(e@),
        },
{
    let ghost start = builder@;
    let ghost given = order::views(records@);
    let sorted = order::sort_records(records);
    let ghost all = order::views(sorted@);
    proof {
        order::in_order_is(all, given);
    }
    let mut index: usize = 0;
    assert(all.take(0) =~= Seq::<RecordView>::empty());
    while index < sorted.len()
        invariant
            index <= sorted@.len(),
            all == order::views(sorted@),
            start == old(builder)@,
            all == order::in_order(given),
            given == order::views(records@),
            builder.wf(options.limits),
            index_list(start, all.take(index as int), options.limits) == Ok::<IndexView, ErrorView>(
                builder@,
            ),
        decreases sorted@.len() - index,
    {
        let record = &sorted[index];
        proof {
            let next = all.take(index + 1);
            assert(next.drop_last() =~= all.take(index as int));
            assert(next.last() == record@);
            if index_list(start, next, options.limits) is Err {
                prefix_fails(start, all, index + 1, options.limits);
            }
        }
        match options.check_cancelled(record.line, record.byte_offset) {
            Ok(()) => {},
            Err(e) => return Err(e),
        }
        match builder.add_record(record, options) {
            Ok(()) => {},
            Err(e) => return Err(e),
        }
        index = index + 1;
    }
    assert(all.take(index as int) =~= all);
    Ok(())
}

/// Records in sequence have distinct source sequences.
pub proof fn sequenced_are_distinct(records: Seq<RecordView>)
    requires
        lines::in_sequence(records),
    ensures
        order::distinct_sequences(records),
{
}

/// However the records were held, indexing them gives what indexing all of
/// them in canonical order gives.
pub proof fn spilling_does_not_change_the_index(
    start: IndexView,
    chunk: Seq<RecordView>,
    runs: Option<RunsView>,
    all: Seq<RecordView>,
    limits: IngestLimits,
)
    requires
        order::distinct_sequences(all),
        match runs {
            None => chunk == all,
            Some(state) => passes::all_ordered(state.contents) && merge::pooled(state.contents)
                == all.to_multiset(),
        },
        index_sorted(start, chunk, runs, limits) is Ok,
    ensures
        index_sorted(start, chunk, runs, limits) == index_list(
            start,
            order::in_order(all),
            limits,
        ),
{
    if let Some(state) = runs {
        let merged = passes::merge_all_outcome(state, limits)->Ok_0;
        passes::merge_passes_keep_records(state, limits);
        passes::merging_sorts(merged.contents);
        order::in_order_is(passes::merge_output(merged.contents), all);
        let count = merged.contents.len() as int;
        assert(index_list(start, Seq::empty(), limits) == Ok::<IndexView, ErrorView>(start));
        indexing_queues_is_indexing_their_merge(
            start,
            Seq::empty(),
            merged.contents,
            None,
            sorting::runs_memory(count, merged.directory) + count * OPEN_RUN_BYTES,
            limits,
        );
        assert(Seq::<RecordView>::empty() + passes::merge_output(merged.contents)
            =~= passes::merge_output(merged.contents));
    }
}

proof fn runs_are_ordered(state: ParsedRuns, limits: IngestLimits)
    requires
        state.wf(limits),
    ensures
        passes::all_ordered(state@.contents),
{
    assert forall|i: int| 0 <= i < state@.contents.len() implies order::ordered(
        #[trigger] state@.contents[i],
    ) by {
        assert(state.runs@[i].wf(limits));
    }
}

/// Builds the index of a parsed log and publishes it.
pub fn build_index(parsed: ParsedInput, names: IndexBuilder, options: &IngestOptions) -> (result:
    Result<IndexedHistory, IngestError>)
    requires
        parsed.wf(options.limits),
        parsed.held(),
        names.wf(options.limits),
        names@.events.len() == 0,
    ensures
        ({
            let outcome = build_outcome(parsed@, names@, options.limits);
            match result {
                Ok(history) => {
                    &&& outcome is Ok
                    &&& history.wf()
                    &&& history.catalog_view() == (outcome->Ok_0).catalog
                    &&& history.events_view() == (outcome->Ok_0).events
                    &&& history.input().digest_view() == parsed.input_hash@
                    &&& history.input().length() == parsed.input_bytes
                    &&& outcome == index_list(
                        names@,
                        order::in_order(parsed.accepted@),
                        options.limits,
                    )
                },
                Err(e) => options::may_cancel(*options, e@) || outcome == Err::<
                    IndexView,
                    ErrorView,
                >(e@),
            }
        }),
{
    let input_bytes: u64 = parsed.input_bytes;
    let records_read: u64 = parsed.record_count;
    let input = InputIdentity::from_parts(parsed.input_hash, input_bytes);
    options.report(
        ProgressUpdate {
            phase: ProgressPhase::Normalizing,
            bytes_read: input_bytes,
            input_bytes: Some(input_bytes),
            records_read,
        },
    );
    match options.check_cancelled(0, input_bytes) {
        Ok(()) => {},
        Err(e) => return Err(e),
    }
    options.report(
        ProgressUpdate {
            phase: ProgressPhase::Sorting,
            bytes_read: input_bytes,
            input_bytes: Some(input_bytes),
            records_read,
        },
    );
    let mut builder = names;
    match check_index_memory(
        builder.catalog_bytes,
        0,
        0,
        index_working_memory_bytes(options.limits.working_memory_bytes),
        0,
        input_bytes,
    ) {
        Ok(()) => {},
        Err(e) => return Err(e),
    }
    let ghost start = builder@;
    let ghost log = parsed@;
    let ghost all = parsed.accepted@;
    proof {
        sequenced_are_distinct(all);
    }
    match parsed.runs {
        Some(runs) => {
            let mut state = runs;
            assert(log.chunk =~= Seq::<RecordView>::empty());
            proof {
                runs_are_ordered(state, options.limits);
            }
            match index_runs(&mut builder, &mut state, options) {
                Ok(()) => {},
                Err(e) => return Err(e),
            }
        },
        None => {
            match index_records(&mut builder, parsed.records, options) {
                Ok(()) => {},
                Err(e) => return Err(e),
            }
        },
    }
    proof {
        spilling_does_not_change_the_index(start, log.chunk, log.runs, all, options.limits);
        order::in_order_exists(all);
        ordered_records_give_canonical_events(start, order::in_order(all), options.limits);
    }
    let events_read: u64 = builder.events.len() as u64;
    let history = IndexedHistory::publish(builder.catalog, builder.events, input);
    options.report(
        ProgressUpdate {
            phase: ProgressPhase::Publishing,
            bytes_read: input_bytes,
            input_bytes: Some(input_bytes),
            records_read: events_read,
        },
    );
    Ok(history)
}

/// What reading an input and interning its names gives, from a position on.
pub open spec fn reading(
    log: LogView,
    names: IndexView,
    input: Seq<u8>,
    position: int,
    limits: IngestLimits,
) -> Result<(LogView, IndexView), ErrorView>
    decreases input.len() - position,
{
    match lines::next_outcome(log, input, position, limits) {
        Err(e) => Err(e),
        Ok(NextView::End(end)) => Ok((end, names)),
        Ok(NextView::Record(after, next)) => match index::interned(
            names,
            after.chunk.last(),
            limits,
        ) {
            Err(e) => Err(e),
            Ok(more) => if position < next <= input.len() {
                reading(after, more, input, next, limits)
            } else {
                Ok((after, more))
            },
        },
    }
}

/// Why an ingest cannot start under its limits.
pub open spec fn ingest_fault(limits: IngestLimits) -> Option<ErrorView> {
    if !limits.usable() {
        Some(limits.zero_bound())
    } else {
        match sorting::memory_fault(
            charges::index_memory(CATALOG_MEMORY_BASE as int, 0, 0),
            limits::index_share(limits.working_memory_bytes),
            0,
            0,
        ) {
            Some(e) => Some(e),
            None => lines::start_fault(limits),
        }
    }
}

/// What ingesting a whole input gives.
pub open spec fn ingest_outcome(input: Seq<u8>, limits: IngestLimits) -> Result<
    IndexView,
    ErrorView,
> {
    match ingest_fault(limits) {
        Some(e) => Err(e),
        None => match reading(lines::initial_log(), index::empty_index(limits), input, 0, limits) {
            Err(e) => Err(e),
            Ok((end, names)) => match lines::finished(end, limits) {
                Err(e) => Err(e),
                Ok(log) => build_outcome(log, names, limits),
            },
        },
    }
}

/// The names of records, interned one after the other.
pub open spec fn names_of(start: IndexView, records: Seq<RecordView>, limits: IngestLimits) -> Result<
    IndexView,
    ErrorView,
>
    decreases records.len(),
{
    if records.len() == 0 {
        Ok(start)
    } else {
        match names_of(start, records.drop_last(), limits) {
            Err(e) => Err(e),
            Ok(names) => index::interned(names, records.last(), limits),
        }
    }
}

/// A history holds exactly the records of an input: names have identities in
/// the order in which the input first uses them, and the events are those of
/// the records in canonical order.
pub open spec fn history_of_records(
    history: IndexedHistory,
    records: Seq<RecordView>,
    limits: IngestLimits,
) -> bool {
    &&& lines::in_sequence(records)
    &&& names_of(index::empty_index(limits), records, limits) matches Ok(names)
    &&& index_list(names, order::in_order(records), limits) matches Ok(index)
    &&& history.catalog_view() == index.catalog
    &&& history.events_view() == index.events
}

/// Parses a byte slice as a finite custom log.
pub fn parse_bytes(input: &[u8], options: &IngestOptions) -> (result: Result<
    IndexedHistory,
    IngestError,
>)
    ensures
        ({
            let outcome = ingest_outcome(input@, options.limits);
            match result {
                Ok(history) => {
                    &&& outcome is Ok
                    &&& history.wf()
                    &&& history.catalog_view() == (outcome->Ok_0).catalog
                    &&& history.events_view() == (outcome->Ok_0).events
                    &&& history.input().digest_view() == digest::blake3_digest(input@)
                    &&& history.input().length() == input@.len()
                    &&& history_of_records(
                        history,
                        lines::records_of(input@, options.limits),
                        options.limits,
                    )
                    &&& lines::all_normalized(lines::records_of(input@, options.limits))
                },
                Err(e) => options::may_cancel(*options, e@) || outcome == Err::<
                    IndexView,
                    ErrorView,
                >(e@),
            }
        }),
{
    let mut ingest = match LogIngest::new(options) {
        Ok(ingest) => ingest,
        Err(e) => return Err(e),
    };
    let mut position: usize = 0;
    let ghost all = lines::records_of(input@, options.limits);
    let ghost start = index::empty_index(options.limits);
    assert(input@.take(0) =~= Seq::<u8>::empty());
    assert(ingest.parser.accepted() + all =~= all);
    loop
        invariant_except_break
            ingest.wf(options.limits),
            ingest.parser.held(),
            ingest.parser@.partial.len() == 0,
            position <= input@.len(),
            ingest.parser.consumed() == input@.take(position as int),
            ingest.parser.accepted() + lines::records_from(
                input@,
                position as int,
                ingest.parser@.count as int,
                options.limits,
            ) == all,
            reading(lines::initial_log(), start, input@, 0, options.limits) == reading(
                ingest.parser@,
                ingest.names@,
                input@,
                position as int,
                options.limits,
            ),
        invariant
            start == index::empty_index(options.limits),
            all == lines::records_of(input@, options.limits),
            ingest_fault(options.limits) is None,
        ensures
            ingest.wf(options.limits),
            ingest.parser.held(),
            ingest.parser.consumed() == input@,
            ingest.parser.accepted() == all,
            reading(lines::initial_log(), start, input@, 0, options.limits) == Ok::<
                (LogView, IndexView),
                ErrorView,
            >((ingest.parser@, ingest.names@)),
        decreases input@.len() - position,
    {
        let ghost before = ingest.parser.accepted();
        match ingest.parser.next(input, &mut position, options) {
            Ok(true) => {
                assert(ingest.parser.accepted().drop_last() =~= before);
                match ingest.intern_last(options) {
                    Ok(()) => {},
                    Err(e) => return Err(e),
                }
            },
            Ok(false) => {
                assert(ingest.parser.accepted() + Seq::<RecordView>::empty()
                    =~= ingest.parser.accepted());
                break;
            },
            Err(e) => return Err(e),
        }
    }
    proof {
        ingest.parser.stays_consistent(options.limits);
    }
    ingest.finish(options)
}

/// A log that is being parsed while its names are interned.
pub struct LogIngest {
    pub parser: LogParser,
    pub names: IndexBuilder,
}

impl LogIngest {
    /// The names are those of the accepted records.
    pub open spec fn wf(&self, limits: IngestLimits) -> bool {
        &&& self.parser.wf(limits)
        &&& self.names.wf(limits)
        &&& self.names@.events.len() == 0
        &&& names_of(index::empty_index(limits), self.parser.accepted(), limits) == Ok::<
            IndexView,
            ErrorView,
        >(self.names@)
    }

    /// Starts an ingest.
    pub fn new(options: &IngestOptions) -> (result: Result<LogIngest, IngestError>)
        ensures
            match result {
                Ok(ingest) => {
                    &&& ingest_fault(options.limits) is None
                    &&& ingest.wf(options.limits)
                    &&& ingest.parser.held()
                    &&& ingest.parser@ == lines::initial_log()
                    &&& ingest.parser.consumed() == Seq::<u8>::empty()
                    &&& ingest.parser.accepted() == Seq::<RecordView>::empty()
                    &&& ingest.names@ == index::empty_index(options.limits)
                },
                Err(e) => ingest_fault(options.limits) == Some(e@),
            },
    {
        match options.limits.validate() {
            Ok(()) => {},
            Err(e) => return Err(e),
        }
        match check_index_memory(
            CATALOG_MEMORY_BASE,
            0,
            0,
            index_working_memory_bytes(options.limits.working_memory_bytes),
            0,
            0,
        ) {
            Ok(()) => {},
            Err(e) => return Err(e),
        }
        let names = IndexBuilder::new(&options.limits);
        match LogParser::new(options) {
            Ok(parser) => Ok(LogIngest { parser, names }),
            Err(e) => Err(e),
        }
    }

    /// Interns the names of the record that was accepted last.
    pub fn intern_last(&mut self, options: &IngestOptions) -> (result: Result<(), IngestError>)
        requires
            old(self).parser.wf(options.limits),
            old(self).parser@.chunk.len() > 0,
            old(self).parser.accepted().len() > 0,
            old(self).parser.accepted().last() == old(self).parser@.chunk.last(),
            old(self).names.wf(options.limits),
            old(self).names@.events.len() == 0,
            names_of(
                index::empty_index(options.limits),
                old(self).parser.accepted().drop_last(),
                options.limits,
            ) == Ok::<IndexView, ErrorView>(old(self).names@),
        ensures
            final(self).parser == old(self).parser,
            ({
                let outcome = index::interned(
                    old(self).names@,
                    old(self).parser@.chunk.last(),
                    options.limits,
                );
                match result {
                    Ok(()) => final(self).wf(options.limits) && outcome == Ok::<
                        IndexView,
                        ErrorView,
                    >(final(self).names@),
                    Err(e) => options::may_cancel(*options, e@) || outcome == Err::<
                        IndexView,
                        ErrorView,
                    >(e@),
                }
            }),
    {
        match self.names.intern_record(self.parser.last_record(), options) {
            Ok(()) => {},
            Err(e) => return Err(e),
        }
        self.parser.report_reading(options);
        Ok(())
    }

    /// Ends the input, builds the index and publishes it.
    pub fn finish(self, options: &IngestOptions) -> (result: Result<IndexedHistory, IngestError>)
        requires
            self.wf(options.limits),
            self.parser.held(),
        ensures
            ({
                let outcome = match lines::finished(self.parser@, options.limits) {
                    Err(e) => Err(e),
                    Ok(log) => build_outcome(log, self.names@, options.limits),
                };
                match result {
                    Ok(history) => {
                        &&& outcome is Ok
                        &&& history.wf()
                        &&& history.catalog_view() == (outcome->Ok_0).catalog
                        &&& history.events_view() == (outcome->Ok_0).events
                        &&& history.input().digest_view() == digest::blake3_digest(
                            self.parser.consumed(),
                        )
                        &&& history.input().length() == self.parser.consumed().len()
                        &&& history_of_records(history, self.parser.accepted(), options.limits)
                    },
                    Err(e) => options::may_cancel(*options, e@) || outcome == Err::<
                        IndexView,
                        ErrorView,
                    >(e@),
                }
            }),
    {
        proof {
            self.parser.stays_consistent(options.limits);
        }
        let LogIngest { parser, names } = self;
        match parser.finish(options) {
            Ok(parsed) => build_index(parsed, names, options),
            Err(e) => Err(e),
        }
    }
}

/// Two sets of limits bound names, records and events alike; they may differ
/// in what they leave to memory, disk, merge passes and input size.
pub open spec fn same_bounds(a: IngestLimits, b: IngestLimits) -> bool {
    &&& a.max_path_bytes == b.max_path_bytes
    &&& a.max_contributor_bytes == b.max_contributor_bytes
    &&& a.max_path_components == b.max_path_components
    &&& a.max_events == b.max_events
}

proof fn same_records(input: Seq<u8>, position: int, index: int, a: IngestLimits, b: IngestLimits)
    requires
        same_bounds(a, b),
    ensures
        lines::records_from(input, position, index, a) == lines::records_from(
            input,
            position,
            index,
            b,
        ),
    decreases input.len() - position,
{
    let raw = lines::raw_line(input, position);
    if !(position < 0 || position >= input.len() || lines::is_empty_stream_mark(raw, index == 0)) {
        lines::piece_length_bounds(input.skip(position));
        same_records(input, position + raw.len(), index + 1, a, b);
        let body = lines::unmarked_body(raw, index == 0);
        same_record(body, (index + 1) as u64, position as u64, a, b);
    }
}

proof fn same_record(
    body: Seq<u8>,
    line: u64,
    byte_offset: u64,
    a: IngestLimits,
    b: IngestLimits,
)
    requires
        same_bounds(a, b),
    ensures
        record::record_of(body, line, byte_offset, a) == record::record_of(
            body,
            line,
            byte_offset,
            b,
        ),
{
    let path = record::split(body, 0x7c)[3];
    assert(record::path_fault(path, a) == record::path_fault(path, b));
}

proof fn same_names(start: IndexView, records: Seq<RecordView>, a: IngestLimits, b: IngestLimits)
    requires
        same_bounds(a, b),
        names_of(start, records, a) is Ok,
        names_of(start, records, b) is Ok,
    ensures
        names_of(start, records, a) == names_of(start, records, b),
    decreases records.len(),
{
    if records.len() > 0 {
        same_names(start, records.drop_last(), a, b);
    }
}

proof fn same_index(start: IndexView, records: Seq<RecordView>, a: IngestLimits, b: IngestLimits)
    requires
        same_bounds(a, b),
        index_list(start, records, a) is Ok,
        index_list(start, records, b) is Ok,
    ensures
        index_list(start, records, a) == index_list(start, records, b),
    decreases records.len(),
{
    if records.len() > 0 {
        same_index(start, records.drop_last(), a, b);
    }
}

/// Memory, disk and merge budgets decide only whether an input is ingested:
/// wherever they allow it, the history is the same.
pub proof fn budgets_do_not_change_the_history(
    input: Seq<u8>,
    a: IngestLimits,
    b: IngestLimits,
    x: IndexedHistory,
    y: IndexedHistory,
)
    requires
        same_bounds(a, b),
        history_of_records(x, lines::records_of(input, a), a),
        history_of_records(y, lines::records_of(input, b), b),
    ensures
        x.catalog_view() == y.catalog_view(),
        x.events_view() == y.events_view(),
{
    same_records(input, 0, 0, a, b);
    let records = lines::records_of(input, a);
    let start = index::empty_index(a);
    assert(start == index::empty_index(b));
    same_names(start, records, a, b);
    let names = names_of(start, records, a)->Ok_0;
    same_index(names, order::in_order(records), a, b);
}

} // verus!
