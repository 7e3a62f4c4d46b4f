//! Byte-oriented finite log reader and normalizer.
//!
//! Input arrives in pieces.  Physical records are assembled, checked,
//! normalized and kept in memory until the parser's share of the working
//! memory is used up; then they are spilled into encoded runs.

use vstd::prelude::*;
use vstd::slice::slice_subrange;

use crate::digest;
use crate::error::{working_memory_error, ErrorCode, ErrorView, IngestError};
use crate::limits::{parser_buffer_bytes, parser_payload_bytes, parser_working_memory_bytes, IngestLimits};
use crate::lines;
use crate::lines::LogView;
use crate::merge;
use crate::options;
use crate::options::{IngestOptions, ProgressPhase, ProgressUpdate};
use crate::order;
use crate::record;
use crate::record::{parse_record, NormalizedRecord, RecordView};
use crate::runs;
use crate::sorting;
use crate::sorting::{spill_records, ParsedRuns, RECORD_SLOT_BYTES};
use crate::text;

verus! {

/// A parser of one finite custom log.
pub struct LogParser {
    partial: Vec<u8>,
    line: u64,
    byte_offset: u64,
    input_bytes: u64,
    record_count: u64,
    records: Vec<NormalizedRecord>,
    chunk_bytes: u64,
    directory: u32,
    runs: Option<ParsedRuns>,
    hasher: blake3::Hasher,
    consumed: Ghost<Seq<u8>>,
    accepted: Ghost<Seq<RecordView>>,
}

impl View for LogParser {
    type V = LogView;

    closed spec fn view(&self) -> LogView {
        LogView {
            partial: self.partial@,
            line: self.line,
            byte_offset: self.byte_offset,
            input_bytes: self.input_bytes,
            count: self.record_count,
            chunk: order::views(self.records@),
            directory: self.directory,
            runs: sorting::runs_view(self.runs),
        }
    }
}

impl LogParser {
    /// All bytes that were taken in.
    pub closed spec fn consumed(&self) -> Seq<u8> {
        self.consumed@
    }

    /// All records that were accepted, in input order.
    pub closed spec fn accepted(&self) -> Seq<RecordView> {
        self.accepted@
    }

    /// The bytes of all runs are in memory.
    pub closed spec fn held(&self) -> bool {
        sorting::runs_held(self.runs)
    }

    /// The invariant of a parser under its limits.
    pub closed spec fn wf(&self, limits: IngestLimits) -> bool {
        &&& lines::start_fault(limits) is None
        &&& self.line == self.record_count + 1
        &&& 2 * self.record_count <= self.byte_offset
        &&& self.byte_offset + self.partial@.len() == self.input_bytes
        &&& self.consumed@.len() == self.input_bytes
        &&& self.partial@ == self.consumed@.skip(self.byte_offset as int)
        &&& digest::hashed_bytes(self.hasher) == self.consumed@
        &&& self.chunk_bytes == sorting::sat(sorting::records_memory(order::views(self.records@)))
        &&& sorting::runs_wf(self.runs, limits)
        &&& lines::well_sequenced(self.accepted@, limits)
        &&& lines::holds_all(self@, self.accepted@)
    }

    /// What the invariant says of the public state.
    pub proof fn stays_consistent(&self, limits: IngestLimits)
        requires
            self.wf(limits),
        ensures
            lines::start_fault(limits) is None,
            self@.line == self@.count + 1,
            self@.byte_offset + self@.partial.len() == self@.input_bytes,
            self.consumed().len() == self@.input_bytes,
            self@.partial == self.consumed().skip(self@.byte_offset as int),
            lines::in_sequence(self.accepted()),
            lines::all_normalized(self.accepted()),
            lines::holds_all(self@, self.accepted()),
    {
        lines::well_sequenced_is(self.accepted(), limits);
    }

    /// Starts a parser.
    pub fn new(options: &IngestOptions) -> (result: Result<LogParser, IngestError>)
        ensures
            match result {
                Ok(parser) => {
                    &&& lines::start_fault(options.limits) is None
                    &&& parser.wf(options.limits)
                    &&& parser.held()
                    &&& parser@ == lines::initial_log()
                    &&& parser.consumed() == Seq::<u8>::empty()
                    &&& parser.accepted() == Seq::<RecordView>::empty()
                },
                Err(e) => lines::start_fault(options.limits) == Some(e@),
            },
    {
        match options.limits.validate() {
            Ok(()) => {},
            Err(e) => return Err(e),
        }
        let limit: u64 = parser_working_memory_bytes(options.limits.working_memory_bytes);
        if parser_payload_bytes(limit) == 0 {
            return Err(working_memory_error(1, limit, 0, 0));
        }
        let parser = LogParser {
            partial: Vec::new(),
            line: 1,
            byte_offset: 0,
            input_bytes: 0,
            record_count: 0,
            records: Vec::new(),
            chunk_bytes: 0,
            directory: 0,
            runs: None,
            hasher: digest::hasher_new(),
            consumed: Ghost(Seq::empty()),
            accepted: Ghost(Seq::empty()),
        };
        proof {
            assert(order::views(parser.records@) =~= Seq::<RecordView>::empty());
            assert(parser.partial@ =~= parser.consumed@.skip(0));
            assert(parser@.chunk =~= parser.accepted@.skip(0));
        }
        Ok(parser)
    }

    /// Says how long the path of the directory is that runs will be kept in.
    pub fn set_run_directory(&mut self, directory: u32, options: &IngestOptions)
        requires
            old(self).wf(options.limits),
            old(self)@.runs is None,
        ensures
            final(self).wf(options.limits),
            final(self)@ == (LogView { directory, ..old(self)@ }),
            final(self).consumed() == old(self).consumed(),
            final(self).accepted() == old(self).accepted(),
            final(self).held(),
    {
        self.directory = directory;
    }

    /// One-based line of the record that is being assembled.
    pub fn line(&self) -> (line: u64)
        ensures
            line == self@.line,
    {
        self.line
    }

    /// Byte offset of the record that is being assembled.
    pub fn byte_offset(&self) -> (byte_offset: u64)
        ensures
            byte_offset == self@.byte_offset,
    {
        self.byte_offset
    }

    /// Bytes taken in so far.
    pub fn input_bytes(&self) -> (bytes: u64)
        ensures
            bytes == self@.input_bytes,
    {
        self.input_bytes
    }

    /// Records accepted so far.
    pub fn record_count(&self) -> (count: u64)
        ensures
            count == self@.count,
    {
        self.record_count
    }

    /// Whether bytes of a physical record wait to be accepted.
    pub fn has_partial_record(&self) -> (partial: bool)
        ensures
            partial == (self@.partial.len() > 0),
    {
        self.partial.len() > 0
    }

    /// Memory in use, saturating.
    fn memory_in_use(&self, limits: &IngestLimits) -> (bytes: u64)
        requires
            self.wf(*limits),
        ensures
            bytes == sorting::sat(lines::memory_in_use(self@, *limits)),
    {
        let limit: u64 = parser_working_memory_bytes(limits.working_memory_bytes);
        let runs_bytes: u64 = match &self.runs {
            Some(runs) => sorting::runs_bytes(runs.runs.len(), runs.directory),
            None => 0,
        };
        proof {
            sorting::texts_size_is_nonnegative(order::views(self.records@));
        }
        parser_buffer_bytes(limit).saturating_add(runs_bytes).saturating_add(self.chunk_bytes)
    }

    /// Spills the records in memory.
    fn spill(&mut self, options: &IngestOptions) -> (result: Result<(), IngestError>)
        requires
            old(self).wf(options.limits),
        ensures
            final(self).consumed() == old(self).consumed(),
            final(self).accepted() == old(self).accepted(),
            match result {
                Ok(()) => {
                    &&& final(self).wf(options.limits)
                    &&& old(self).held() ==> final(self).held()
                    &&& lines::spilled(old(self)@, options.limits) == Ok::<LogView, ErrorView>(final(self)@)
                },
                Err(e) => options::may_cancel_reading(*options, e@) || lines::spilled(old(self)@, options.limits)
                    == Err::<LogView, ErrorView>(e@),
            },
    {
        let ghost before = self@;
        let ghost all = self.accepted@;
        let ghost kept = all.len() - before.chunk.len();
        let mut records: Vec<NormalizedRecord> = Vec::new();
        core::mem::swap(&mut records, &mut self.records);
        proof {
            assert(order::views(records@) == before.chunk);
            assert forall|i: int| 0 <= i < records@.len() implies (#[trigger] records@[i])@.line
                >= 1 by {
                assert(before.chunk[i] == records@[i]@);
                assert(lines::well_placed(all[kept + i], kept + i, options.limits));
            }
            assert forall|i: int|
                0 <= i < records@.len() && runs::encodable(
                    (#[trigger] records@[i])@,
                ) implies runs::storable(records@[i]@, options.limits) by {
                assert(before.chunk[i] == records@[i]@);
                assert(lines::well_placed(all[kept + i], kept + i, options.limits));
            }
            assert forall|i: int, j: int|
                0 <= i < j < before.chunk.len() implies before.chunk[i].source_sequence
                != before.chunk[j].source_sequence by {
                assert(lines::well_placed(all[kept + i], kept + i, options.limits));
                assert(lines::well_placed(all[kept + j], kept + j, options.limits));
            }
        }
        match spill_records(records, &mut self.runs, self.directory, options) {
            Ok(()) => {},
            Err(e) => return Err(e),
        }
        self.chunk_bytes = 0;
        proof {
            let sorted = order::in_order(before.chunk);
            assert(self@.chunk =~= Seq::<RecordView>::empty());
            assert(self@.chunk =~= all.skip(all.len() as int));
            assert(all.take(all.len() as int) =~= all);
            assert(all.take(kept) + all.skip(kept) =~= all);
            vstd::seq_lib::lemma_multiset_commutative(all.take(kept), all.skip(kept));
            let started = match before.runs {
                Some(runs) => runs.contents,
                None => Seq::empty(),
            };
            assert(started.push(sorted).drop_last() =~= started);
            if before.runs is None {
                assert(all.take(0) =~= Seq::<RecordView>::empty());
                assert(all.take(0).to_multiset() =~= merge::pooled(started)) by {
                    broadcast use vstd::seq_lib::group_to_multiset_ensures;

                }
            }
        }
        Ok(())
    }

    /// Spills when `additional` bytes do not fit and there is something to
    /// spill.
    fn make_room(&mut self, additional: u64, options: &IngestOptions) -> (result: Result<
        (),
        IngestError,
    >)
        requires
            old(self).wf(options.limits),
        ensures
            final(self).consumed() == old(self).consumed(),
            final(self).accepted() == old(self).accepted(),
            match result {
                Ok(()) => {
                    &&& final(self).wf(options.limits)
                    &&& old(self).held() ==> final(self).held()
                    &&& forall|x: int|
                        sorting::sat(x) == additional && x >= 0 ==> #[trigger] lines::making_room(
                            old(self)@,
                            x,
                            options.limits,
                        ) == Ok::<LogView, ErrorView>(final(self)@)
                },
                Err(e) => options::may_cancel_reading(*options, e@) || forall|x: int|
                    sorting::sat(x) == additional && x >= 0 ==> #[trigger] lines::making_room(
                        old(self)@,
                        x,
                        options.limits,
                    ) == Err::<LogView, ErrorView>(e@),
            },
    {
        let limit: u64 = parser_working_memory_bytes(options.limits.working_memory_bytes);
        proof {
            sorting::texts_size_is_nonnegative(order::views(self.records@));
        }
        if self.records.len() > 0 && self.memory_in_use(&options.limits).saturating_add(additional)
            > limit {
            self.spill(options)
        } else {
            Ok(())
        }
    }

    /// Begins the next physical record: makes room for the worst one.
    pub fn begin_line(&mut self, options: &IngestOptions) -> (result: Result<(), IngestError>)
        requires
            old(self).wf(options.limits),
        ensures
            final(self).consumed() == old(self).consumed(),
            final(self).accepted() == old(self).accepted(),
            match result {
                Ok(()) => {
                    &&& final(self).wf(options.limits)
                    &&& old(self).held() ==> final(self).held()
                    &&& lines::line_begun(old(self)@, options.limits) == Ok::<LogView, ErrorView>(
                        final(self)@,
                    )
                },
                Err(e) => options::may_cancel_reading(*options, e@) || lines::line_begun(
                    old(self)@,
                    options.limits,
                ) == Err::<LogView, ErrorView>(e@),
            },
    {
        let payload: u64 = parser_payload_bytes(
            parser_working_memory_bytes(options.limits.working_memory_bytes),
        );
        let body: u64 = if options.limits.max_record_bytes < payload {
            options.limits.max_record_bytes
        } else {
            payload
        };
        let room: u64 = match body.checked_mul(2) {
            Some(texts) => texts.saturating_add(RECORD_SLOT_BYTES),
            None => u64::MAX,
        };
        assert(sorting::sat(lines::anticipated(options.limits)) == room);
        self.make_room(room, options)
    }

    /// Takes in what belongs to the current physical record from a buffer.
    /// Gives the number of bytes and whether the record ends with them.
    pub fn take_piece(&mut self, available: &[u8], options: &IngestOptions) -> (result: Result<
        (usize, bool),
        IngestError,
    >)
        requires
            old(self).wf(options.limits),
        ensures
            final(self).accepted() == old(self).accepted(),
            match result {
                Ok((length, ends)) => {
                    &&& length == lines::piece_length(available@) <= available@.len()
                    &&& ends == lines::piece_ends_record(available@)
                    &&& lines::piece_fault(old(self)@, length as int, options.limits) is None
                    &&& final(self).wf(options.limits)
                    &&& old(self).held() ==> final(self).held()
                    &&& final(self)@ == lines::with_piece(old(self)@, available@.take(length as int))
                    &&& final(self).consumed() == old(self).consumed() + available@.take(
                        length as int,
                    )
                },
                Err(e) => lines::piece_fault(old(self)@, lines::piece_length(available@), options.limits) == Some(
                    e@,
                ),
            },
    {
        let mut length: usize = 0;
        let mut ends = false;
        assert(available@.skip(0) =~= available@);
        while length < available.len() && !ends
            invariant
                length <= available@.len(),
                ends ==> length > 0 && available@[length - 1] == 0x0a && length == lines::piece_length(
                    available@,
                ),
                !ends ==> length + lines::piece_length(available@.skip(length as int)) == lines::piece_length(
                    available@,
                ) && forall|i: int| 0 <= i < length ==> available@[i] != 0x0a,
            decreases available@.len() - length,
        {
            let ghost rest = available@.skip(length as int);
            assert(rest[0] == available@[length as int]);
            assert(rest.drop_first() =~= available@.skip(length + 1));
            ends = available[length] == 0x0a;
            length = length + 1;
        }
        proof {
            if ends {
                assert(available@.contains(available@[length - 1]));
            } else {
                assert(available@.skip(length as int) =~= Seq::<u8>::empty());
            }
        }
        let max_memory: u64 = parser_payload_bytes(
            parser_working_memory_bytes(options.limits.working_memory_bytes),
        );
        let record_length: usize = match self.partial.len().checked_add(length) {
            Some(total) => total,
            None => {
                return Err(
                    self.record_fault(
                        ErrorCode::RecordTooLarge,
                        "physical record length overflows usize",
                    ),
                );
            },
        };
        if record_length as u64 > options.limits.max_record_bytes {
            return Err(
                self.record_fault(
                    ErrorCode::RecordTooLarge,
                    "physical record including delimiter exceeds configured byte limit",
                ),
            );
        }
        if record_length as u64 > max_memory {
            return Err(
                working_memory_error(
                    record_length as u64,
                    max_memory,
                    self.line,
                    self.byte_offset,
                ),
            );
        }
        let input_length: u64 = match self.input_bytes.checked_add(length as u64) {
            Some(total) => total,
            None => {
                return Err(
                    self.record_fault(
                        ErrorCode::InputTooLarge,
                        "finite source byte count overflows u64",
                    ),
                );
            },
        };
        if input_length > options.limits.max_input_bytes {
            return Err(
                self.record_fault(
                    ErrorCode::InputTooLarge,
                    "finite source exceeds configured byte limit",
                ),
            );
        }
        let piece = slice_subrange(available, 0, length);
        let ghost before = self.consumed@;
        runs::put_bytes(&mut self.partial, piece);
        digest::hasher_update(&mut self.hasher, piece);
        self.input_bytes = input_length;
        self.consumed = Ghost(before + piece@);
        proof {
            assert(piece@ =~= available@.take(length as int));
            assert(self.partial@ =~= self.consumed@.skip(self.byte_offset as int));
        }
        Ok((length, ends))
    }

    fn record_fault(&self, code: ErrorCode, message: &str) -> (error: IngestError)
        ensures
            error@ == record::record_error(
                code,
                self@.partial,
                self@.line,
                self@.byte_offset,
                message@,
            ),
    {
        IngestError::new(
            code,
            self.line,
            self.byte_offset,
            text::bounded_context(self.partial.as_slice()),
            message.to_owned(),
        )
    }

    /// Whether the assembled bytes only mark an empty stream.
    pub fn marks_empty_stream(&self) -> (marks: bool)
        ensures
            marks == lines::is_empty_stream_mark(self@.partial, self@.count == 0),
    {
        let marks = self.record_count == 0 && self.partial.len() == 3 && self.partial[0] == 0xef
            && self.partial[1] == 0xbb && self.partial[2] == 0xbf;
        proof {
            if marks {
                assert(self.partial@ =~= lines::byte_order_mark());
            }
        }
        marks
    }

    /// Checks and normalizes the assembled physical record.
    fn parse_line(&mut self, options: &IngestOptions) -> (result: Result<
        NormalizedRecord,
        IngestError,
    >)
        requires
            old(self).wf(options.limits),
        ensures
            final(self).consumed() == old(self).consumed(),
            final(self).accepted() == old(self).accepted(),
            match result {
                Ok(record) => {
                    &&& final(self).wf(options.limits)
                    &&& old(self).held() ==> final(self).held()
                    &&& lines::line_parsed(old(self)@, options.limits) == Ok::<
                        (LogView, RecordView),
                        ErrorView,
                    >((final(self)@, record@))
                    &&& final(self)@.partial.len() >= 2
                    &&& record@.line == old(self)@.line
                    &&& record@.byte_offset == old(self)@.byte_offset
                    &&& final(self)@.count < u64::MAX
                    &&& lines::well_placed(record@, final(self)@.count as int, options.limits)
                },
                Err(e) => options::may_cancel_reading(*options, e@) || lines::line_parsed(
                    old(self)@,
                    options.limits,
                ) == Err::<(LogView, RecordView), ErrorView>(e@),
            },
    {
        let ghost start = self@;
        let limit: u64 = parser_working_memory_bytes(options.limits.working_memory_bytes);
        let (from, to): (usize, usize) = body_range(self.partial.as_slice(), self.record_count == 0);
        let ghost body = lines::unmarked_body(start.partial, start.count == 0);
        let ghost wanted = start.partial.len() + body.len() + RECORD_SLOT_BYTES;
        let line: u64 = self.line;
        let byte_offset: u64 = self.byte_offset;
        match check_body(slice_subrange(self.partial.as_slice(), from, to), line, byte_offset) {
            Ok(()) => {},
            Err(e) => return Err(e),
        }
        let parse_bytes: u64 = (self.partial.len() as u64).saturating_add(
            (to - from) as u64,
        ).saturating_add(RECORD_SLOT_BYTES);
        match self.make_room(parse_bytes, options) {
            Ok(()) => {},
            Err(e) => {
                assert(lines::making_room(start, wanted, options.limits) == Err::<LogView, ErrorView>(e@)
                    || options::may_cancel_reading(*options, e@));
                return Err(e);
            },
        }
        let ghost roomy = self@;
        assert(lines::making_room(start, wanted, options.limits) == Ok::<LogView, ErrorView>(roomy));
        proof {
            sorting::texts_size_is_nonnegative(roomy.chunk);
        }
        match sorting::parser_memory_check(
            self.memory_in_use(&options.limits).saturating_add(parse_bytes),
            limit,
            line,
            byte_offset,
        ) {
            Ok(()) => {},
            Err(e) => return Err(e),
        }
        assert(self.partial@ == start.partial);
        let bytes = slice_subrange(self.partial.as_slice(), from, to);
        assert(bytes@ == body);
        let mut parsed = match parse_record(bytes, line, byte_offset, &options.limits) {
            Ok(parsed) => parsed,
            Err(e) => return Err(e),
        };
        proof {
            lines::accepted_record_is_storable(body, line, byte_offset, options.limits);
        }
        if self.record_count >= options.limits.max_events {
            return Err(
                body_error(
                    ErrorCode::EventCountLimit,
                    bytes,
                    line,
                    byte_offset,
                    "configured event-count limit exceeded",
                ),
            );
        }
        let ghost plain = parsed@;
        parsed.source_sequence = self.record_count;
        assert(parsed@ =~= lines::sequenced(plain, start.count));
        Ok(parsed)
    }

    /// Keeps a record and starts the next line.
    fn keep(&mut self, record: NormalizedRecord, options: &IngestOptions) -> (result: Result<
        (),
        IngestError,
    >)
        requires
            old(self).wf(options.limits),
            old(self)@.partial.len() >= 2,
            old(self)@.count < u64::MAX,
            record@.line == old(self)@.line,
            record@.byte_offset == old(self)@.byte_offset,
            lines::well_placed(record@, old(self)@.count as int, options.limits),
        ensures
            final(self).consumed() == old(self).consumed(),
            match result {
                Ok(()) => {
                    &&& final(self).wf(options.limits)
                    &&& old(self).held() ==> final(self).held()
                    &&& lines::record_kept(old(self)@, record@, options.limits) == Ok::<
                        LogView,
                        ErrorView,
                    >(final(self)@)
                    &&& final(self).accepted() == old(self).accepted().push(record@)
                },
                Err(e) => options::may_cancel_reading(*options, e@) || lines::record_kept(
                    old(self)@,
                    record@,
                    options.limits,
                ) == Err::<LogView, ErrorView>(e@),
            },
    {
        let ghost start = self@;
        let ghost taken = record@;
        let limit: u64 = parser_working_memory_bytes(options.limits.working_memory_bytes);
        let needed: u64 = merge::text_bytes(&record).saturating_add(
            RECORD_SLOT_BYTES,
        ).saturating_add(RECORD_SLOT_BYTES);
        let ghost wanted = runs::text_size(taken) + 2 * RECORD_SLOT_BYTES;
        match self.make_room(needed, options) {
            Ok(()) => {},
            Err(e) => {
                assert(lines::making_room(start, wanted, options.limits) == Err::<LogView, ErrorView>(e@)
                    || options::may_cancel_reading(*options, e@));
                return Err(e);
            },
        }
        let ghost ready = self@;
        assert(lines::making_room(start, wanted, options.limits) == Ok::<LogView, ErrorView>(ready));
        proof {
            sorting::texts_size_is_nonnegative(ready.chunk);
        }
        match sorting::parser_memory_check(
            self.memory_in_use(&options.limits).saturating_add(needed),
            limit,
            record.line,
            record.byte_offset,
        ) {
            Ok(()) => {},
            Err(e) => return Err(e),
        }
        let ghost all = self.accepted@;
        let ghost chunk = order::views(self.records@);
        self.chunk_bytes = self.chunk_bytes + merge::text_bytes(&record) + RECORD_SLOT_BYTES;
        self.records.push(record);
        self.record_count = self.record_count + 1;
        self.line = self.line + 1;
        self.byte_offset = self.input_bytes;
        self.partial = Vec::new();
        self.accepted = Ghost(all.push(taken));
        proof {
            let now = order::views(self.records@);
            assert(now =~= chunk.push(taken));
            assert(now.drop_last() =~= chunk);
            assert(self.partial@ =~= self.consumed@.skip(self.byte_offset as int));
            let kept = all.len() - chunk.len();
            assert(all.push(taken).skip(kept) =~= chunk.push(taken));
            assert(all.push(taken).take(kept) =~= all.take(kept));
            assert forall|i: int| 0 <= i < all.push(taken).len() implies #[trigger] lines::well_placed(
                all.push(taken)[i],
                i,
                options.limits,
            ) by {
                if i < all.len() {
                    assert(lines::well_placed(all[i], i, options.limits));
                }
            }
        }
        Ok(())
    }

    /// Checks, normalizes and keeps the assembled physical record.
    pub fn accept(&mut self, options: &IngestOptions) -> (result: Result<(), IngestError>)
        requires
            old(self).wf(options.limits),
        ensures
            final(self).consumed() == old(self).consumed(),
            match result {
                Ok(()) => {
                    &&& final(self).wf(options.limits)
                    &&& old(self).held() ==> final(self).held()
                    &&& lines::accepted(old(self)@, options.limits) == Ok::<LogView, ErrorView>(
                        final(self)@,
                    )
                    &&& final(self).accepted() == old(self).accepted().push(
                        final(self)@.chunk.last(),
                    )
                    &&& final(self)@.chunk.len() > 0
                },
                Err(e) => options::may_cancel_reading(*options, e@) || lines::accepted(old(self)@, options.limits)
                    == Err::<LogView, ErrorView>(e@),
            },
    {
        let record = match self.parse_line(options) {
            Ok(record) => record,
            Err(e) => return Err(e),
        };
        self.keep(record, options)
    }

    /// How many runs were handed out, from the first on.
    pub closed spec fn handed(&self) -> int {
        sorting::runs_handed(self.runs)
    }

    /// The identity of a run.
    pub closed spec fn run_id(&self, index: int) -> u64 {
        self.runs->0.runs@[index].id
    }

    /// Hands out the bytes of the first run that is still in memory, with its
    /// identity.
    pub fn take_run(&mut self, options: &IngestOptions) -> (run: Option<(u64, Vec<u8>)>)
        requires
            old(self).wf(options.limits),
        ensures
            final(self).wf(options.limits),
            final(self)@ == old(self)@,
            final(self).consumed() == old(self).consumed(),
            final(self).accepted() == old(self).accepted(),
            match run {
                Some((id, bytes)) => {
                    let at = old(self).handed();
                    &&& old(self)@.runs matches Some(runs)
                    &&& at < runs.contents.len()
                    &&& bytes@ == runs::run_bytes(runs.contents[at])
                    &&& id == old(self).run_id(at)
                    &&& final(self).handed() == at + 1
                },
                None => {
                    &&& old(self)@.runs matches Some(runs) ==> old(self).handed()
                        == runs.contents.len()
                    &&& *final(self) == *old(self)
                },
            },
    {
        let mut state = match self.runs.take() {
            Some(state) => state,
            None => return None,
        };
        let run = state.take_run(Ghost(options.limits));
        self.runs = Some(state);
        run
    }

    /// Tells the progress sink how far reading has come.
    pub fn report_reading(&self, options: &IngestOptions) {
        options.report(
            ProgressUpdate {
                phase: ProgressPhase::Reading,
                bytes_read: self.input_bytes,
                input_bytes: Some(self.input_bytes),
                records_read: self.record_count,
            },
        );
    }

    /// The record that was accepted last and is still in memory.
    pub fn last_record(&self) -> (record: &NormalizedRecord)
        requires
            self@.chunk.len() > 0,
        ensures
            record@ == self@.chunk.last(),
    {
        assert(order::views(self.records@).last() == self.records@.last()@);
        &self.records[self.records.len() - 1]
    }

    /// Ends the input: records that wait in memory join the runs, if any.
    pub fn finish(self, options: &IngestOptions) -> (result: Result<ParsedInput, IngestError>)
        requires
            self.wf(options.limits),
        ensures
            match result {
                Ok(parsed) => {
                    &&& parsed.wf(options.limits)
                    &&& self.held() ==> parsed.held()
                    &&& lines::finished(self@, options.limits) is Ok
                    &&& parsed.matches(lines::finished(self@, options.limits)->Ok_0)
                    &&& parsed.accepted@ == self.accepted()
                    &&& parsed.input_hash@ == digest::blake3_digest(self.consumed())
                },
                Err(e) => options::may_cancel_reading(*options, e@) || lines::finished(self@, options.limits)
                    == Err::<LogView, ErrorView>(e@),
            },
    {
        let mut parser = self;
        if parser.records.len() > 0 && parser.runs.is_some() {
            match parser.spill(options) {
                Ok(()) => {},
                Err(e) => return Err(e),
            }
        }
        let input_hash = digest::hasher_finalize(&parser.hasher);
        let ghost all = parser.accepted@;
        proof {
            assert(all.skip(0) =~= all);
            assert(all.take(all.len() as int) =~= all);
            lines::well_sequenced_is(all, options.limits);
        }
        Ok(
            ParsedInput {
                records: parser.records,
                input_bytes: parser.input_bytes,
                input_hash,
                record_count: parser.record_count,
                runs: parser.runs,
                accepted: parser.accepted,
            },
        )
    }
}

/// A parsed log: its records, in memory or in encoded runs.
pub struct ParsedInput {
    pub records: Vec<NormalizedRecord>,
    pub input_bytes: u64,
    pub input_hash: [u8; 32],
    pub record_count: u64,
    pub runs: Option<ParsedRuns>,
    pub accepted: Ghost<Seq<RecordView>>,
}

impl View for ParsedInput {
    type V = LogView;

    /// The parser state that the result is of.
    open spec fn view(&self) -> LogView {
        LogView {
            partial: Seq::empty(),
            line: 0,
            byte_offset: 0,
            input_bytes: self.input_bytes,
            count: self.record_count,
            chunk: order::views(self.records@),
            directory: 0,
            runs: sorting::runs_view(self.runs),
        }
    }
}

impl ParsedInput {
    /// The records are exactly the accepted ones.
    pub open spec fn wf(&self, limits: IngestLimits) -> bool {
        &&& sorting::runs_wf(self.runs, limits)
        &&& lines::in_sequence(self.accepted@)
        &&& self.record_count == self.accepted@.len()
        &&& match self.runs {
            Some(runs) => {
                &&& self.records@.len() == 0
                &&& merge::pooled(runs@.contents) == self.accepted@.to_multiset()
            },
            None => order::views(self.records@) == self.accepted@,
        }
    }

    /// The bytes of all runs are in memory.
    pub open spec fn held(&self) -> bool {
        sorting::runs_held(self.runs)
    }

    /// How many runs were handed out, from the first on.
    pub open spec fn handed(&self) -> int {
        sorting::runs_handed(self.runs)
    }

    /// Hands out the bytes of the first run that is still in memory, with its
    /// identity.
    pub fn take_run(&mut self, options: &IngestOptions) -> (run: Option<(u64, Vec<u8>)>)
        requires
            old(self).wf(options.limits),
        ensures
            final(self).wf(options.limits),
            final(self)@ == old(self)@,
            final(self).input_hash == old(self).input_hash,
            final(self).accepted == old(self).accepted,
            match run {
                Some((id, bytes)) => {
                    let at = old(self).handed();
                    &&& old(self)@.runs matches Some(runs)
                    &&& at < runs.contents.len()
                    &&& bytes@ == runs::run_bytes(runs.contents[at])
                    &&& id == (old(self).runs->0).runs@[at].id
                    &&& final(self).handed() == at + 1
                },
                None => {
                    &&& old(self)@.runs matches Some(runs) ==> old(self).handed()
                        == runs.contents.len()
                    &&& *final(self) == *old(self)
                },
            },
    {
        let mut state = match self.runs.take() {
            Some(state) => state,
            None => return None,
        };
        let run = state.take_run(Ghost(options.limits));
        self.runs = Some(state);
        run
    }

    /// The result is that of a parser state.
    pub open spec fn matches(&self, log: LogView) -> bool {
        &&& order::views(self.records@) == log.chunk
        &&& sorting::runs_view(self.runs) == log.runs
        &&& self.input_bytes == log.input_bytes
        &&& self.record_count == log.count
    }
}

/// Where the body of a physical record lies in its raw bytes.
fn body_range(raw: &[u8], first: bool) -> (range: (usize, usize))
    ensures
        range.0 <= range.1 <= raw@.len(),
        raw@.subrange(range.0 as int, range.1 as int) == lines::unmarked_body(raw@, first),
{
    let mut to: usize = raw.len();
    if to > 0 && raw[to - 1] == 0x0a {
        to = to - 1;
        if to > 0 && raw[to - 1] == 0x0d {
            to = to - 1;
        }
    }
    assert(raw@.subrange(0, to as int) =~= lines::line_body(raw@));
    if first && to >= 3 && raw[0] == 0xef && raw[1] == 0xbb && raw[2] == 0xbf {
        assert(raw@.subrange(3, to as int) =~= lines::line_body(raw@).skip(3));
        (3, to)
    } else {
        (0, to)
    }
}

/// Refuses bodies that no record can have.
fn check_body(body: &[u8], line: u64, byte_offset: u64) -> (result: Result<(), IngestError>)
    ensures
        match result {
            Ok(()) => lines::body_fault(body@, line, byte_offset) is None,
            Err(e) => lines::body_fault(body@, line, byte_offset) == Some(e@),
        },
{
    let mut marked = false;
    let mut nul = false;
    let mut carriage_return = false;
    let mut index: usize = 0;
    while index < body.len()
        invariant
            index <= body@.len(),
            marked == exists|i: int| 0 <= i < index && #[trigger] lines::mark_at(body@, i),
            nul == body@.take(index as int).contains(0),
            carriage_return == body@.take(index as int).contains(0x0d),
        decreases body@.len() - index,
    {
        let byte: u8 = body[index];
        let ghost seen = body@.take(index as int);
        assert(body@.take(index + 1) =~= seen.push(byte));
        proof {
            assert(seen.push(byte).contains(0) == (seen.contains(0) || byte == 0)) by {
                contains_push(seen, byte, 0);
            }
            assert(seen.push(byte).contains(0x0d) == (seen.contains(0x0d) || byte == 0x0d)) by {
                contains_push(seen, byte, 0x0d);
            }
        }
        let here = body.len() - index >= 3 && byte == 0xef && body[index + 1] == 0xbb && body[index
            + 2] == 0xbf;
        assert(here == lines::mark_at(body@, index as int));
        marked = marked || here;
        nul = nul || byte == 0;
        carriage_return = carriage_return || byte == 0x0d;
        index = index + 1;
    }
    assert(body@.take(index as int) =~= body@);
    assert(marked == lines::contains_mark(body@)) by {
        if lines::contains_mark(body@) {
            let i = choose|i: int| 0 <= i && #[trigger] lines::mark_at(body@, i);
            assert(i < index);
        }
    }
    if marked {
        return Err(
            body_error(
                ErrorCode::BomNotAtStart,
                body,
                line,
                byte_offset,
                "UTF-8 BOM is permitted only at stream start",
            ),
        );
    }
    if nul {
        return Err(
            body_error(
                ErrorCode::NulByte,
                body,
                line,
                byte_offset,
                "NUL is not valid in a custom-log record",
            ),
        );
    }
    if carriage_return {
        return Err(
            body_error(
                ErrorCode::LoneCarriageReturn,
                body,
                line,
                byte_offset,
                "carriage return is valid only as part of CRLF",
            ),
        );
    }
    if body.len() == 0 {
        return Err(
            IngestError::plain(
                ErrorCode::WrongFieldCount,
                line,
                byte_offset,
                "blank records are not valid custom-log input",
            ),
        );
    }
    Ok(())
}

proof fn contains_push(s: Seq<u8>, byte: u8, wanted: u8)
    ensures
        s.push(byte).contains(wanted) == (s.contains(wanted) || byte == wanted),
{
    let t = s.push(byte);
    if s.contains(wanted) {
        let i = s.index_of(wanted);
        assert(t[i] == wanted);
    }
    if byte == wanted {
        assert(t[s.len() as int] == wanted);
    }
    if t.contains(wanted) && byte != wanted {
        let i = t.index_of(wanted);
        assert(s[i] == wanted);
    }
}

fn body_error(code: ErrorCode, body: &[u8], line: u64, byte_offset: u64, message: &str) -> (error:
    IngestError)
    ensures
        error@ == record::record_error(code, body@, line, byte_offset, message@),
{
    IngestError::new(code, line, byte_offset, text::bounded_context(body), message.to_owned())
}

} // verus!
