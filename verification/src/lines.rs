//! What a custom log means: physical records, their bodies and records, and
//! the state of a parser that assembles and keeps them.

use vstd::prelude::*;
use vstd::utf8::*;

use crate::error;
use crate::error::{ErrorCode, ErrorView};
use crate::limits;
use crate::limits::IngestLimits;
use crate::merge;
use crate::order;
use crate::record;
use crate::record::RecordView;
use crate::runs;
use crate::sorting;
use crate::sorting::{RunsView, RECORD_SLOT_BYTES};

verus! {

/// The state of a log parser.
#[verifier::ext_equal]
pub struct LogView {
    /// Raw bytes of the physical record that is being assembled.
    pub partial: Seq<u8>,
    /// One-based line of that record.
    pub line: u64,
    /// Byte offset of that record.
    pub byte_offset: u64,
    /// Bytes taken in so far.
    pub input_bytes: u64,
    /// Records accepted so far.
    pub count: u64,
    /// Accepted records that are still in memory.
    pub chunk: Seq<RecordView>,
    /// The length of the path of the directory that runs are kept in.
    pub directory: u32,
    /// Accepted records that were spilled.
    pub runs: Option<RunsView>,
}

/// The state before any input.
pub open spec fn initial_log() -> LogView {
    LogView {
        partial: Seq::empty(),
        line: 1,
        byte_offset: 0,
        input_bytes: 0,
        count: 0,
        chunk: Seq::empty(),
        directory: 0,
        runs: None,
    }
}

/// How many bytes of a piece belong to the current physical record.
pub open spec fn piece_length(available: Seq<u8>) -> int
    decreases available.len(),
{
    if available.len() == 0 {
        0
    } else if available[0] == 0x0a {
        1
    } else {
        1 + piece_length(available.drop_first())
    }
}

/// Whether a piece holds the end of the current physical record.
pub open spec fn piece_ends_record(available: Seq<u8>) -> bool {
    available.contains(0x0a)
}

/// The most bytes of one physical record that the memory share allows.
pub open spec fn record_memory_limit(limits: IngestLimits) -> u64 {
    limits::payload_share(limits::parser_share(limits.working_memory_bytes))
}

/// Why taking in `length` more bytes of the current physical record fails.
pub open spec fn piece_fault(log: LogView, length: int, limits: IngestLimits) -> Option<ErrorView> {
    let record_length = log.partial.len() + length;
    let input_length = log.input_bytes + length;
    let fail = |code: ErrorCode, message: Seq<char>|
        Some(record::record_error(code, log.partial, log.line, log.byte_offset, message));
    if record_length > usize::MAX {
        fail(ErrorCode::RecordTooLarge, "physical record length overflows usize"@)
    } else if record_length > limits.max_record_bytes {
        fail(
            ErrorCode::RecordTooLarge,
            "physical record including delimiter exceeds configured byte limit"@,
        )
    } else if record_length > record_memory_limit(limits) {
        Some(
            error::memory_error(
                record_length as u64,
                record_memory_limit(limits),
                log.line,
                log.byte_offset,
            ),
        )
    } else if input_length > u64::MAX {
        fail(ErrorCode::InputTooLarge, "finite source byte count overflows u64"@)
    } else if input_length > limits.max_input_bytes {
        fail(ErrorCode::InputTooLarge, "finite source exceeds configured byte limit"@)
    } else {
        None
    }
}

/// The state after taking in bytes of the current physical record.
pub open spec fn with_piece(log: LogView, bytes: Seq<u8>) -> LogView {
    LogView {
        partial: log.partial + bytes,
        input_bytes: (log.input_bytes + bytes.len()) as u64,
        ..log
    }
}

/// How a physical record is cut into pieces does not matter: two pieces are
/// taken in where they could be taken in as one, and leave the same state.
pub proof fn pieces_do_not_matter(
    log: LogView,
    first: Seq<u8>,
    second: Seq<u8>,
    limits: IngestLimits,
)
    ensures
        piece_fault(log, (first + second).len() as int, limits) is None <==> {
            &&& piece_fault(log, first.len() as int, limits) is None
            &&& piece_fault(with_piece(log, first), second.len() as int, limits) is None
        },
        piece_fault(log, (first + second).len() as int, limits) is None ==> with_piece(
            with_piece(log, first),
            second,
        ) == with_piece(log, first + second),
{
    if piece_fault(log, (first + second).len() as int, limits) is None {
        assert(with_piece(with_piece(log, first), second) =~= with_piece(log, first + second));
    }
}

/// The body of a physical record: without its LF or CRLF.
pub open spec fn line_body(raw: Seq<u8>) -> Seq<u8> {
    if raw.len() > 0 && raw.last() == 0x0a {
        let line = raw.drop_last();
        if line.len() > 0 && line.last() == 0x0d {
            line.drop_last()
        } else {
            line
        }
    } else {
        raw
    }
}

/// The UTF-8 byte order mark.
pub open spec fn byte_order_mark() -> Seq<u8> {
    seq![0xefu8, 0xbbu8, 0xbfu8]
}

pub open spec fn starts_with_mark(body: Seq<u8>) -> bool {
    body.len() >= 3 && body[0] == 0xef && body[1] == 0xbb && body[2] == 0xbf
}

/// A byte order mark stands somewhere in the body.
pub open spec fn contains_mark(body: Seq<u8>) -> bool {
    exists|i: int| 0 <= i && #[trigger] mark_at(body, i)
}

pub open spec fn mark_at(body: Seq<u8>, i: int) -> bool {
    i + 3 <= body.len() && body[i] == 0xef && body[i + 1] == 0xbb && body[i + 2] == 0xbf
}

/// The first record of a stream may start with a byte order mark.
pub open spec fn unmarked_body(raw: Seq<u8>, first: bool) -> Seq<u8> {
    if first && starts_with_mark(line_body(raw)) {
        line_body(raw).skip(3)
    } else {
        line_body(raw)
    }
}

/// A byte order mark at the very end of the stream marks an empty stream.
pub open spec fn is_empty_stream_mark(raw: Seq<u8>, first: bool) -> bool {
    first && raw == byte_order_mark()
}

/// Why a body is refused before it is split into fields.
pub open spec fn body_fault(body: Seq<u8>, line: u64, byte_offset: u64) -> Option<ErrorView> {
    if contains_mark(body) {
        Some(
            record::record_error(
                ErrorCode::BomNotAtStart,
                body,
                line,
                byte_offset,
                "UTF-8 BOM is permitted only at stream start"@,
            ),
        )
    } else if body.contains(0) {
        Some(
            record::record_error(
                ErrorCode::NulByte,
                body,
                line,
                byte_offset,
                "NUL is not valid in a custom-log record"@,
            ),
        )
    } else if body.contains(0x0d) {
        Some(
            record::record_error(
                ErrorCode::LoneCarriageReturn,
                body,
                line,
                byte_offset,
                "carriage return is valid only as part of CRLF"@,
            ),
        )
    } else if body.len() == 0 {
        Some(
            error::plain_error(
                ErrorCode::WrongFieldCount,
                line,
                byte_offset,
                "blank records are not valid custom-log input"@,
            ),
        )
    } else {
        None
    }
}

/// Memory in use: read-ahead buffer, run state and records.
pub open spec fn memory_in_use(log: LogView, limits: IngestLimits) -> int {
    limits::buffer_share(limits::parser_share(limits.working_memory_bytes)) + (match log.runs {
        Some(runs) => sorting::runs_memory(runs.contents.len() as int, runs.directory),
        None => 0,
    }) + sorting::records_memory(log.chunk)
}

/// The state after the records in memory were spilled.
pub open spec fn spilled(log: LogView, limits: IngestLimits) -> Result<LogView, ErrorView> {
    let sorted = order::in_order(log.chunk);
    match sorting::spill_fault(sorted, log.runs, log.directory, limits) {
        Some(e) => Err(e),
        None => Ok(
            LogView {
                chunk: Seq::empty(),
                runs: Some(sorting::after_spill(sorted, log.runs, log.directory)),
                ..log
            },
        ),
    }
}

/// Spills when `additional` bytes do not fit and there is something to spill.
pub open spec fn making_room(log: LogView, additional: int, limits: IngestLimits) -> Result<
    LogView,
    ErrorView,
> {
    if log.chunk.len() > 0 && memory_in_use(log, limits) + additional > limits::parser_share(
        limits.working_memory_bytes,
    ) {
        spilled(log, limits)
    } else {
        Ok(log)
    }
}

/// Room that is kept for the worst physical record and its texts.
pub open spec fn anticipated(limits: IngestLimits) -> int {
    let payload = limits::payload_share(limits::parser_share(limits.working_memory_bytes));
    let body = if limits.max_record_bytes < payload {
        limits.max_record_bytes
    } else {
        payload
    };
    if body * 2 + RECORD_SLOT_BYTES > u64::MAX {
        u64::MAX as int
    } else {
        body * 2 + RECORD_SLOT_BYTES
    }
}

/// The state when the next physical record is begun.
pub open spec fn line_begun(log: LogView, limits: IngestLimits) -> Result<LogView, ErrorView> {
    making_room(log, anticipated(limits), limits)
}

/// The record of a body, with its place and source sequence.
pub open spec fn sequenced(r: RecordView, count: u64) -> RecordView {
    RecordView { source_sequence: count, ..r }
}

/// The record that the assembled physical record means, and the state with
/// room for it.
pub open spec fn line_parsed(log: LogView, limits: IngestLimits) -> Result<
    (LogView, RecordView),
    ErrorView,
> {
    let raw = log.partial;
    let body = unmarked_body(raw, log.count == 0);
    let parse_bytes = raw.len() + body.len() + RECORD_SLOT_BYTES;
    match body_fault(body, log.line, log.byte_offset) {
        Some(e) => Err(e),
        None => match making_room(log, parse_bytes, limits) {
            Err(e) => Err(e),
            Ok(roomy) => match sorting::memory_fault(
                memory_in_use(roomy, limits) + parse_bytes,
                limits::parser_share(limits.working_memory_bytes),
                log.line,
                log.byte_offset,
            ) {
                Some(e) => Err(e),
                None => match record::record_of(body, log.line, log.byte_offset, limits) {
                    Err(e) => Err(e),
                    Ok(parsed) => if log.count >= limits.max_events {
                        Err(
                            record::record_error(
                                ErrorCode::EventCountLimit,
                                body,
                                log.line,
                                log.byte_offset,
                                "configured event-count limit exceeded"@,
                            ),
                        )
                    } else {
                        Ok((roomy, sequenced(parsed, log.count)))
                    },
                },
            },
        },
    }
}

/// The state after a record joined those in memory.
pub open spec fn record_kept(log: LogView, record: RecordView, limits: IngestLimits) -> Result<
    LogView,
    ErrorView,
> {
    let needed = runs::text_size(record) + 2 * RECORD_SLOT_BYTES;
    match making_room(log, needed, limits) {
        Err(e) => Err(e),
        Ok(ready) => match sorting::memory_fault(
            memory_in_use(ready, limits) + needed,
            limits::parser_share(limits.working_memory_bytes),
            log.line,
            log.byte_offset,
        ) {
            Some(e) => Err(e),
            None => Ok(
                LogView {
                    partial: Seq::empty(),
                    line: (log.line + 1) as u64,
                    byte_offset: log.input_bytes,
                    count: (log.count + 1) as u64,
                    chunk: ready.chunk.push(record),
                    ..ready
                },
            ),
        },
    }
}

/// The state after the assembled physical record was accepted.
pub open spec fn accepted(log: LogView, limits: IngestLimits) -> Result<LogView, ErrorView> {
    match line_parsed(log, limits) {
        Err(e) => Err(e),
        Ok((roomy, record)) => record_kept(roomy, record, limits),
    }
}

/// What reading one more record gives.
pub enum NextView {
    /// A record was accepted; the state after it and the position reached.
    Record(LogView, int),
    /// The input has ended.
    End(LogView),
}

/// Where the read-ahead buffer that covers a position ends.
pub open spec fn buffer_end(position: int, buffer: int, length: int) -> int {
    let end = (position / buffer + 1) * buffer;
    if end < length {
        end
    } else {
        length
    }
}

/// Reads buffer by buffer until the physical record or the input ends.
pub open spec fn line_read(log: LogView, input: Seq<u8>, position: int, limits: IngestLimits) -> Result<
    (LogView, int),
    ErrorView,
>
    decreases input.len() - position,
{
    let end = buffer_end(position, read_ahead(limits), input.len() as int);
    if position < 0 || position >= input.len() || end <= position {
        Ok((log, position))
    } else {
        let available = input.subrange(position, end);
        let length = piece_length(available);
        match piece_fault(log, length, limits) {
            Some(e) => Err(e),
            None => {
                let after = with_piece(log, available.take(length));
                if piece_ends_record(available) {
                    Ok((after, position + length))
                } else {
                    proof {
                        piece_length_bounds(available);
                    }
                    line_read(after, input, position + length, limits)
                }
            },
        }
    }
}

/// A piece of a nonempty buffer is nonempty and ends with the first LF, if
/// there is one, and is otherwise the whole buffer.
pub proof fn piece_length_bounds(available: Seq<u8>)
    ensures
        available.len() > 0 ==> 0 < piece_length(available) <= available.len(),
        piece_ends_record(available) ==> available[piece_length(available) - 1] == 0x0a,
        !piece_ends_record(available) ==> piece_length(available) == available.len(),
        forall|i: int| 0 <= i < piece_length(available) - 1 ==> available[i] != 0x0a,
    decreases available.len(),
{
    if available.len() > 0 && available[0] != 0x0a {
        let rest = available.drop_first();
        piece_length_bounds(rest);
        if piece_ends_record(available) {
            let at = available.index_of(0x0a);
            assert(rest[at - 1] == 0x0a);
            assert(rest.contains(0x0a));
        }
        if piece_ends_record(rest) {
            let at = rest.index_of(0x0a);
            assert(available[at + 1] == 0x0a);
            assert(available.contains(0x0a));
            assert(rest[piece_length(rest) - 1] == 0x0a);
        }
        assert forall|i: int| 0 <= i < piece_length(available) - 1 implies available[i] != 0x0a by {
            if i > 0 {
                assert(rest[i - 1] == available[i]);
            }
        }
    } else if available.len() > 0 {
        assert(available.contains(available[0]));
    }
}

/// The size of the read-ahead buffer.
pub open spec fn read_ahead(limits: IngestLimits) -> int {
    limits::buffer_share(limits::parser_share(limits.working_memory_bytes)) as int
}

/// Begins, reads and accepts the physical record at a position.
#[verifier::opaque]
pub open spec fn next_outcome(
    log: LogView,
    input: Seq<u8>,
    position: int,
    limits: IngestLimits,
) -> Result<NextView, ErrorView> {
    match line_begun(log, limits) {
        Err(e) => Err(e),
        Ok(begun) => match line_read(begun, input, position, limits) {
            Err(e) => Err(e),
            Ok((read, next)) => if read.partial.len() == 0 || is_empty_stream_mark(
                read.partial,
                read.count == 0,
            ) {
                Ok(NextView::End(read))
            } else {
                match accepted(read, limits) {
                    Err(e) => Err(e),
                    Ok(done) => Ok(NextView::Record(done, next)),
                }
            },
        },
    }
}

/// Records that wait in memory join the runs, if there are any.
pub open spec fn finished(log: LogView, limits: IngestLimits) -> Result<LogView, ErrorView> {
    if log.chunk.len() > 0 && log.runs is Some {
        spilled(log, limits)
    } else {
        Ok(log)
    }
}

/// Whether limits leave any memory to the parser.
pub open spec fn start_fault(limits: IngestLimits) -> Option<ErrorView> {
    if !limits.usable() {
        Some(limits.zero_bound())
    } else if record_memory_limit(limits) == 0 {
        Some(error::memory_error(1, limits::parser_share(limits.working_memory_bytes), 0, 0))
    } else {
        None
    }
}

/// A record that is accepted under these limits can be stored under them.
pub proof fn accepted_record_is_storable(
    body: Seq<u8>,
    line: u64,
    byte_offset: u64,
    limits: IngestLimits,
)
    requires
        record::record_of(body, line, byte_offset, limits) is Ok,
    ensures
        ({
            let r = record::record_of(body, line, byte_offset, limits)->Ok_0;
            &&& r.line == line
            &&& r.byte_offset == byte_offset
            &&& runs::encodable(r) ==> runs::storable(r, limits)
            &&& valid_utf8(r.username)
            &&& valid_utf8(r.path)
            &&& r.path.len() > 0
            &&& record::normalized_path(r.path) == r.path
            &&& body.len() >= 3
        }),
{
    let fields = record::split(body, 0x7c);
    record::split_keeps_utf8(body, 0x7c);
    record::normalized_path_keeps_utf8(fields[3]);
    record::normalization_is_idempotent(fields[3], limits);
    encode_utf8_valid_utf8("Unknown"@);
    separators_take_room(body, 0x7c);
}

pub proof fn separators_take_room(s: Seq<u8>, separator: u8)
    ensures
        0 < record::split(s, separator).len() <= s.len() + 1,
    decreases s.len(),
{
    if s.len() > 0 {
        separators_take_room(s.drop_last(), separator);
    }
}

/// Every record has its index as source sequence and can be stored.
pub open spec fn well_sequenced(records: Seq<RecordView>, limits: IngestLimits) -> bool {
    forall|i: int| 0 <= i < records.len() ==> #[trigger] well_placed(records[i], i, limits)
}

pub open spec fn well_placed(r: RecordView, index: int, limits: IngestLimits) -> bool {
    &&& r.source_sequence == index
    &&& r.line >= 1
    &&& runs::encodable(r) ==> runs::storable(r, limits)
    &&& valid_utf8(r.username)
    &&& valid_utf8(r.path)
    &&& is_normalized(r)
}

/// Every record has its index as source sequence.
pub open spec fn in_sequence(records: Seq<RecordView>) -> bool {
    forall|i: int| 0 <= i < records.len() ==> (#[trigger] records[i]).source_sequence == i
}

/// Every path is one that normalizing leaves as it is.
pub open spec fn all_normalized(records: Seq<RecordView>) -> bool {
    forall|i: int| 0 <= i < records.len() ==> is_normalized(#[trigger] records[i])
}

pub open spec fn is_normalized(r: RecordView) -> bool {
    r.path.len() > 0 && record::normalized_path(r.path) == r.path
}

/// Well-sequenced records are in sequence and normalized.
pub proof fn well_sequenced_is(records: Seq<RecordView>, limits: IngestLimits)
    requires
        well_sequenced(records, limits),
    ensures
        in_sequence(records),
        all_normalized(records),
{
    assert forall|i: int| 0 <= i < records.len() implies (#[trigger] records[i]).source_sequence
        == i && is_normalized(records[i]) by {
        assert(well_placed(records[i], i, limits));
    }
}

/// The accepted records are those in the runs and those in memory.
pub open spec fn holds_all(log: LogView, accepted: Seq<RecordView>) -> bool {
    let spilled = accepted.len() - log.chunk.len();
    &&& accepted.len() == log.count
    &&& spilled >= 0
    &&& log.chunk == accepted.skip(spilled)
    &&& match log.runs {
        Some(runs) => merge::pooled(runs.contents) == accepted.take(spilled).to_multiset(),
        None => spilled == 0,
    }
}

/// The physical record that starts at a position, with its LF.
pub open spec fn raw_line(input: Seq<u8>, position: int) -> Seq<u8> {
    input.skip(position).take(piece_length(input.skip(position)))
}

/// The record of a physical record.
pub open spec fn line_record(raw: Seq<u8>, index: int, position: int, limits: IngestLimits) -> Result<
    RecordView,
    ErrorView,
> {
    match record::record_of(
        unmarked_body(raw, index == 0),
        (index + 1) as u64,
        position as u64,
        limits,
    ) {
        Ok(r) => Ok(sequenced(r, index as u64)),
        Err(e) => Err(e),
    }
}

/// The records of all physical records from a position on.
pub open spec fn records_from(input: Seq<u8>, position: int, index: int, limits: IngestLimits) -> Seq<
    RecordView,
>
    decreases input.len() - position,
{
    let raw = raw_line(input, position);
    if position < 0 || position >= input.len() || is_empty_stream_mark(raw, index == 0) {
        Seq::empty()
    } else {
        proof {
            piece_length_bounds(input.skip(position));
        }
        seq![line_record(raw, index, position, limits)->Ok_0] + records_from(
            input,
            position + raw.len(),
            index + 1,
            limits,
        )
    }
}

/// The records of a whole input, one for each physical record.
pub open spec fn records_of(input: Seq<u8>, limits: IngestLimits) -> Seq<RecordView> {
    records_from(input, 0, 0, limits)
}

/// Whatever the buffers are, reading gives the physical record.
pub proof fn line_read_is_raw_line(
    log: LogView,
    input: Seq<u8>,
    start: int,
    position: int,
    limits: IngestLimits,
)
    requires
        0 <= start <= position <= input.len(),
        read_ahead(limits) > 0,
        log.partial == input.subrange(start, position),
        !log.partial.contains(0x0a),
        line_read(log, input, position, limits) is Ok,
    ensures
        (line_read(log, input, position, limits)->Ok_0).0.partial == raw_line(input, start),
    decreases input.len() - position,
{
    line_read_ends(log, input, position, limits);
    let buffer = read_ahead(limits);
    let end = buffer_end(position, buffer, input.len() as int);
    let rest = input.skip(start);
    piece_length_bounds(rest);
    if position < input.len() {
        vstd::arithmetic::div_mod::lemma_fundamental_div_mod(position, buffer);
        assert((position / buffer + 1) * buffer == buffer * (position / buffer) + buffer)
            by (nonlinear_arith);
        let available = input.subrange(position, end);
        let length = piece_length(available);
        piece_length_bounds(available);
        let after = with_piece(log, available.take(length));
        assert(after.partial =~= input.subrange(start, position + length));
        assert forall|i: int| 0 <= i < after.partial.len() - 1 implies after.partial[i] != 0x0a by {
            if i < log.partial.len() {
                assert(after.partial[i] == log.partial[i]);
                assert(log.partial.contains(log.partial[i]));
            } else {
                assert(after.partial[i] == available[i - log.partial.len()]);
            }
        }
        if piece_ends_record(available) {
            let size = position + length - start;
            assert(rest[size - 1] == 0x0a);
            assert(rest.contains(0x0a));
            line_ends_at(rest, size);
            assert(raw_line(input, start) =~= after.partial);
        } else {
            if after.partial.contains(0x0a) {
                let i = after.partial.index_of(0x0a);
                assert(after.partial[i] == available[i - log.partial.len()]);
                assert(available.contains(available[i - log.partial.len()]));
            }
            line_read_is_raw_line(after, input, start, position + length, limits);
        }
    } else {
        assert(rest =~= log.partial);
        assert(raw_line(input, start) =~= log.partial);
    }
}

/// Accepting the next physical record keeps the record of that line.
pub proof fn next_is_line(log: LogView, input: Seq<u8>, position: int, limits: IngestLimits)
    requires
        0 <= position <= input.len(),
        read_ahead(limits) > 0,
        log.partial.len() == 0,
        log.byte_offset == position,
        log.line == log.count + 1,
        next_outcome(log, input, position, limits) is Ok,
        next_outcome(log, input, position, limits)->Ok_0 is Record,
        log.count < u64::MAX,
    ensures
        ({
            let outcome = next_outcome(log, input, position, limits)->Ok_0;
            let done = outcome->Record_0;
            let next = outcome->Record_1;
            let count = log.count as int;
            records_from(input, position, count, limits) == seq![done.chunk.last()] + records_from(
                input,
                next,
                count + 1,
                limits,
            )
        }),
{
    reveal(next_outcome);
    let begun = line_begun(log, limits)->Ok_0;
    line_read_ends(begun, input, position, limits);
    assert(begun.partial =~= input.subrange(position, position));
    line_read_is_raw_line(begun, input, position, position, limits);
    let read = (line_read(begun, input, position, limits)->Ok_0).0;
    line_read_keeps(begun, input, position, limits);
    kept_record(read, limits);
    let raw = raw_line(input, position);
    assert(raw == read.partial);
    assert(line_record(raw, log.count as int, position, limits) == Ok::<RecordView, ErrorView>(
        (line_parsed(read, limits)->Ok_0).1,
    ));
}

pub proof fn line_read_keeps(log: LogView, input: Seq<u8>, position: int, limits: IngestLimits)
    requires
        line_read(log, input, position, limits) is Ok,
    ensures
        ({
            let read = (line_read(log, input, position, limits)->Ok_0).0;
            &&& read.line == log.line
            &&& read.byte_offset == log.byte_offset
            &&& read.count == log.count
        }),
    decreases input.len() - position,
{
    let end = buffer_end(position, read_ahead(limits), input.len() as int);
    if !(position < 0 || position >= input.len() || end <= position) {
        let available = input.subrange(position, end);
        let length = piece_length(available);
        piece_length_bounds(available);
        if !piece_ends_record(available) {
            line_read_keeps(
                with_piece(log, available.take(length)),
                input,
                position + length,
                limits,
            );
        }
    }
}

pub proof fn kept_record(log: LogView, limits: IngestLimits)
    requires
        accepted(log, limits) is Ok,
    ensures
        (accepted(log, limits)->Ok_0).chunk.last() == (line_parsed(log, limits)->Ok_0).1,
{
    let (roomy, record) = line_parsed(log, limits)->Ok_0;
    let ready = making_room(roomy, runs::text_size(record) + 2 * RECORD_SLOT_BYTES, limits)->Ok_0;
    assert(ready.chunk.push(record).last() == record);
}

/// No record is left where reading ends.
pub proof fn end_is_end(log: LogView, input: Seq<u8>, position: int, limits: IngestLimits)
    requires
        0 <= position <= input.len(),
        read_ahead(limits) > 0,
        log.partial.len() == 0,
        next_outcome(log, input, position, limits) is Ok,
        next_outcome(log, input, position, limits)->Ok_0 is End,
    ensures
        records_from(input, position, log.count as int, limits) == Seq::<RecordView>::empty(),
{
    reveal(next_outcome);
    let begun = line_begun(log, limits)->Ok_0;
    line_read_ends(begun, input, position, limits);
    assert(begun.partial =~= input.subrange(position, position));
    line_read_is_raw_line(begun, input, position, position, limits);
    line_read_keeps(begun, input, position, limits);
}

pub proof fn line_ends_at(s: Seq<u8>, size: int)
    requires
        0 < size <= s.len(),
        s[size - 1] == 0x0a,
        forall|i: int| 0 <= i < size - 1 ==> s[i] != 0x0a,
    ensures
        piece_length(s) == size,
{
    piece_length_bounds(s);
    assert(s.contains(s[size - 1]));
    let found = piece_length(s);
    if found < size {
        assert(s[found - 1] == 0x0a);
    }
}

/// The state after everything from a position on was read.
pub open spec fn log_run(log: LogView, input: Seq<u8>, position: int, limits: IngestLimits) -> Result<
    LogView,
    ErrorView,
>
    decreases input.len() - position,
{
    match next_outcome(log, input, position, limits) {
        Err(e) => Err(e),
        Ok(NextView::End(end)) => Ok(end),
        Ok(NextView::Record(after, next)) => if position < next <= input.len() {
            log_run(after, input, next, limits)
        } else {
            Ok(after)
        },
    }
}

/// What parsing a whole input gives.
pub open spec fn parse_outcome(input: Seq<u8>, limits: IngestLimits) -> Result<LogView, ErrorView> {
    match start_fault(limits) {
        Some(e) => Err(e),
        None => match log_run(initial_log(), input, 0, limits) {
            Err(e) => Err(e),
            Ok(end) => finished(end, limits),
        },
    }
}

/// Reading stops after an LF or at the end of the input.
pub proof fn line_read_ends(log: LogView, input: Seq<u8>, position: int, limits: IngestLimits)
    requires
        0 <= position <= input.len(),
        read_ahead(limits) > 0,
        line_read(log, input, position, limits) is Ok,
    ensures
        ({
            let (read, next) = line_read(log, input, position, limits)->Ok_0;
            &&& position <= next <= input.len()
            &&& read.partial.len() - log.partial.len() == next - position
            &&& next == input.len() || (next > position && read.partial.last() == 0x0a)
        }),
    decreases input.len() - position,
{
    let buffer = read_ahead(limits);
    let end = buffer_end(position, buffer, input.len() as int);
    if position < input.len() {
        vstd::arithmetic::div_mod::lemma_fundamental_div_mod(position, buffer);
        assert((position / buffer + 1) * buffer == buffer * (position / buffer) + buffer)
            by (nonlinear_arith);
        let available = input.subrange(position, end);
        let length = piece_length(available);
        piece_length_bounds(available);
        if !piece_ends_record(available) {
            line_read_ends(
                with_piece(log, available.take(length)),
                input,
                position + length,
                limits,
            );
        }
    }
}

} // verus!
