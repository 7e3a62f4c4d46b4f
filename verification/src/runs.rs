//! Encoded sort runs.
//!
//! A run is a magic number followed by records in canonical order, each with
//! a fixed little-endian part, an optional colour and its two texts.

use vstd::bytes::*;
use vstd::prelude::*;
use vstd::slice::{slice_subrange};
use vstd::string::*;
use vstd::utf8::*;

use crate::error;
use crate::error::{working_memory_error, ErrorCode, ErrorView, IngestError};
use crate::limits::IngestLimits;
use crate::record::{NormalizedRecord, ParsedAction, ParsedColour, RecordView};
use crate::text;

verus! {

/// The first bytes of a run.
pub open spec fn run_magic() -> Seq<u8> {
    seq![0x47u8, 0x49u8, 0x52u8, 0x55u8, 0x4eu8, 0u8, 0u8, 1u8]
}

pub const RUN_HEADER_BYTES: u64 = 8;
pub const RECORD_FIXED_BYTES: u64 = 43;

pub open spec fn parsed_action_byte(action: ParsedAction) -> u8 {
    match action {
        ParsedAction::Add => 0x41,
        ParsedAction::Modify => 0x4d,
        ParsedAction::Delete => 0x44,
    }
}

/// The colour marker and, where there is a colour, its components.
pub open spec fn colour_bytes(colour: Option<ParsedColour>) -> Seq<u8> {
    match colour {
        Some(c) => seq![1u8] + c.0@,
        None => seq![0u8],
    }
}

/// The fixed part of an encoded record, up to its kind byte.
pub open spec fn record_header(r: RecordView) -> Seq<u8> {
    spec_u64_to_le_bytes(r.timestamp as u64) + spec_u64_to_le_bytes(r.source_sequence)
        + spec_u64_to_le_bytes(r.line) + spec_u64_to_le_bytes(r.byte_offset)
        + spec_u32_to_le_bytes(r.username.len() as u32) + spec_u32_to_le_bytes(r.path.len() as u32)
        + seq![
        parsed_action_byte(r.action),
        if r.is_directory {
            1u8
        } else {
            0u8
        },
    ]
}

/// The encoded form of a record.
pub open spec fn record_bytes(r: RecordView) -> Seq<u8> {
    record_header(r) + colour_bytes(r.colour) + r.username + r.path
}

/// The encoded forms of records, one after the other.
pub open spec fn records_bytes(records: Seq<RecordView>) -> Seq<u8>
    decreases records.len(),
{
    if records.len() == 0 {
        Seq::empty()
    } else {
        records_bytes(records.drop_last()) + record_bytes(records.last())
    }
}

/// The encoded form of a run.
pub open spec fn run_bytes(records: Seq<RecordView>) -> Seq<u8> {
    run_magic() + records_bytes(records)
}

/// The number of bytes of an encoded record.
pub open spec fn record_size(r: RecordView) -> int {
    RECORD_FIXED_BYTES + r.username.len() + r.path.len() + if r.colour is Some {
        3int
    } else {
        0int
    }
}

/// Both texts are short enough for their length fields.
pub open spec fn encodable(r: RecordView) -> bool {
    r.username.len() <= u32::MAX && r.path.len() <= u32::MAX
}

/// The size that is charged for a record is the size of its encoded form.
pub proof fn charged_size_is_encoded_size(r: RecordView)
    ensures
        record_bytes(r).len() == record_size(r),
        record_header(r).len() == 42,
{
    lemma_auto_spec_u64_to_from_le_bytes();
    lemma_auto_spec_u32_to_from_le_bytes();
}

/// The encoded size of a record, if it is representable.
pub fn record_disk_bytes(record: &NormalizedRecord) -> (size: Option<u64>)
    ensures
        size == if record_size(record@) <= u64::MAX {
            Some(record_size(record@) as u64)
        } else {
            None
        },
{
    let username: u64 = record.username.as_str().as_bytes().len() as u64;
    let path: u64 = record.path.as_str().as_bytes().len() as u64;
    let colour: u64 = if record.colour.is_some() {
        3
    } else {
        0
    };
    match RECORD_FIXED_BYTES.checked_add(username) {
        None => None,
        Some(size) => match size.checked_add(path) {
            None => None,
            Some(size) => size.checked_add(colour),
        },
    }
}

pub fn put_bytes(out: &mut Vec<u8>, bytes: &[u8])
    ensures
        final(out)@ == old(out)@ + bytes@,
{
    out.extend_from_slice(bytes);
    assert(out@ =~= old(out)@ + bytes@);
}

pub fn put_u16(out: &mut Vec<u8>, value: u16)
    ensures
        final(out)@ == old(out)@ + spec_u16_to_le_bytes(value),
{
    let bytes = u16_to_le_bytes(value);
    put_bytes(out, bytes.as_slice());
}

pub fn put_u32(out: &mut Vec<u8>, value: u32)
    ensures
        final(out)@ == old(out)@ + spec_u32_to_le_bytes(value),
{
    let bytes = u32_to_le_bytes(value);
    put_bytes(out, bytes.as_slice());
}

pub fn put_u64(out: &mut Vec<u8>, value: u64)
    ensures
        final(out)@ == old(out)@ + spec_u64_to_le_bytes(value),
{
    let bytes = u64_to_le_bytes(value);
    put_bytes(out, bytes.as_slice());
}

/// Appends the encoded form of a record.
pub fn write_normalized_record(out: &mut Vec<u8>, record: &NormalizedRecord)
    requires
        encodable(record@),
    ensures
        final(out)@ == old(out)@ + record_bytes(record@),
{
    let username = record.username.as_str().as_bytes();
    let path = record.path.as_str().as_bytes();
    put_u64(out, record.timestamp as u64);
    put_u64(out, record.source_sequence);
    put_u64(out, record.line);
    put_u64(out, record.byte_offset);
    put_u32(out, username.len() as u32);
    put_u32(out, path.len() as u32);
    out.push(
        match record.action {
            ParsedAction::Add => 0x41,
            ParsedAction::Modify => 0x4d,
            ParsedAction::Delete => 0x44,
        },
    );
    out.push(
        if record.is_directory {
            1
        } else {
            0
        },
    );
    match record.colour {
        Some(colour) => {
            out.push(1);
            out.push(colour.0[0]);
            out.push(colour.0[1]);
            out.push(colour.0[2]);
            assert(colour.0@ =~= seq![colour.0@[0], colour.0@[1], colour.0@[2]]);
        },
        None => {
            out.push(0);
        },
    }
    put_bytes(out, username);
    put_bytes(out, path);
    proof {
        assert(out@ =~= old(out)@ + record_bytes(record@));
    }
}

/// A managed memory budget.
#[derive(Clone, Copy, Debug, PartialEq, Eq, Structural)]
pub struct MergeMemory {
    pub limit: u64,
    pub used: u64,
}

/// The error for a refused reservation.
pub open spec fn reserve_error(memory: MergeMemory, bytes: int, line: u64, byte_offset: u64) -> ErrorView {
    error::memory_error(
        if memory.used + bytes > u64::MAX {
            u64::MAX
        } else {
            (memory.used + bytes) as u64
        },
        memory.limit,
        line,
        byte_offset,
    )
}

impl MergeMemory {
    /// Takes bytes from the budget, or refuses and takes nothing.
    pub fn reserve(&mut self, bytes: u64, line: u64, byte_offset: u64) -> (result: Result<
        (),
        IngestError,
    >)
        ensures
            result is Ok <==> old(self).used + bytes <= old(self).limit,
            result is Ok ==> *final(self) == (MergeMemory {
                used: (old(self).used + bytes) as u64,
                ..*old(self)
            }),
            result matches Err(e) ==> *final(self) == *old(self) && e@ == reserve_error(
                *old(self),
                bytes as int,
                line,
                byte_offset,
            ),
    {
        let requested: u64 = match self.used.checked_add(bytes) {
            Some(requested) => requested,
            None => return Err(working_memory_error(u64::MAX, self.limit, line, byte_offset)),
        };
        if requested > self.limit {
            return Err(working_memory_error(requested, self.limit, line, byte_offset));
        }
        self.used = requested;
        Ok(())
    }

    /// Gives bytes back to the budget.
    pub fn release(&mut self, bytes: u64)
        ensures
            final(self).limit == old(self).limit,
            final(self).used == if old(self).used >= bytes {
                old(self).used - bytes
            } else {
                0
            },
    {
        self.used = self.used.saturating_sub(bytes);
    }
}

/// A run that ends inside a record.
pub open spec fn short_read(line: u64, byte_offset: u64) -> ErrorView {
    error::plain_error(ErrorCode::Io, line, byte_offset, "failed to fill whole buffer"@)
}

pub open spec fn u64_at(data: Seq<u8>, position: int) -> u64 {
    spec_u64_from_le_bytes(data.subrange(position, position + 8))
}

pub open spec fn u32_at(data: Seq<u8>, position: int) -> u32 {
    spec_u32_from_le_bytes(data.subrange(position, position + 4))
}

/// The record whose encoded form starts at a position, with the position of
/// what follows it.
pub open spec fn record_at(
    data: Seq<u8>,
    position: int,
    limits: IngestLimits,
    memory: MergeMemory,
) -> Result<(RecordView, int), ErrorView> {
    let line = u64_at(data, position + 16);
    let offset = u64_at(data, position + 24);
    let username_len = u32_at(data, position + 32);
    let path_len = u32_at(data, position + 36);
    let action = data[position + 40];
    let directory = data[position + 41];
    let tag = data[position + 42];
    let texts = if tag == 1 {
        position + 46
    } else {
        position + 43
    };
    let fail = |message: Seq<char>|
        Err::<(RecordView, int), ErrorView>(
            error::plain_error(ErrorCode::Io, line, offset, message),
        );
    if data.len() < position + 24 {
        Err(short_read(0, 0))
    } else if data.len() < position + 32 {
        Err(short_read(line, 0))
    } else if data.len() < position + 43 {
        Err(short_read(line, offset))
    } else if tag > 1 {
        fail("temporary sort run contains an invalid colour marker"@)
    } else if data.len() < texts {
        Err(short_read(line, offset))
    } else if directory > 1 || username_len > limits.max_contributor_bytes || path_len
        > limits.max_path_bytes {
        fail("temporary sort run violates configured field bounds"@)
    } else if memory.used + username_len + path_len > memory.limit {
        Err(reserve_error(memory, username_len + path_len, line, offset))
    } else if data.len() < texts + username_len {
        Err(short_read(line, offset))
    } else if !valid_utf8(data.subrange(texts, texts + username_len)) {
        fail("temporary sort run contains invalid UTF-8"@)
    } else if data.len() < texts + username_len + path_len {
        Err(short_read(line, offset))
    } else if !valid_utf8(
        data.subrange(texts + username_len, texts + username_len + path_len),
    ) {
        fail("temporary sort run contains invalid UTF-8"@)
    } else if action != 0x41 && action != 0x4d && action != 0x44 {
        fail("temporary sort run contains an invalid action"@)
    } else {
        Ok(
            (
                RecordView {
                    timestamp: u64_at(data, position) as i64,
                    username: data.subrange(texts, texts + username_len),
                    action: if action == 0x41 {
                        ParsedAction::Add
                    } else if action == 0x4d {
                        ParsedAction::Modify
                    } else {
                        ParsedAction::Delete
                    },
                    path: data.subrange(texts + username_len, texts + username_len + path_len),
                    is_directory: directory == 1,
                    colour: if tag == 1 {
                        Some(
                            ParsedColour(
                                [data[position + 43], data[position + 44], data[position + 45]],
                            ),
                        )
                    } else {
                        None
                    },
                    source_sequence: u64_at(data, position + 8),
                    line,
                    byte_offset: offset,
                },
                texts + username_len + path_len,
            ),
        )
    }
}

/// The record can be read back under these limits.
pub open spec fn storable(r: RecordView, limits: IngestLimits) -> bool {
    &&& encodable(r)
    &&& r.username.len() <= limits.max_contributor_bytes
    &&& r.path.len() <= limits.max_path_bytes
    &&& valid_utf8(r.username)
    &&& valid_utf8(r.path)
}

/// The bytes of memory that a record's texts take.
pub open spec fn text_size(r: RecordView) -> int {
    (r.username.len() + r.path.len()) as int
}

proof fn signed_round_trip(x: i64)
    ensures
        (x as u64) as i64 == x,
{
    assert((x as u64) as i64 == x) by (bit_vector);
}

/// Reading an encoded record gives back the record, wherever it stands.
pub proof fn reading_gives_back_what_was_written(
    before: Seq<u8>,
    r: RecordView,
    after: Seq<u8>,
    limits: IngestLimits,
    memory: MergeMemory,
)
    requires
        storable(r, limits),
        memory.used + text_size(r) <= memory.limit,
    ensures
        record_at(before + record_bytes(r) + after, before.len() as int, limits, memory) == Ok::<
            (RecordView, int),
            ErrorView,
        >((r, before.len() + record_size(r))),
{
    lemma_auto_spec_u64_to_from_le_bytes();
    lemma_auto_spec_u32_to_from_le_bytes();
    charged_size_is_encoded_size(r);
    signed_round_trip(r.timestamp);
    let data = before + record_bytes(r) + after;
    let p = before.len() as int;
    let header = record_header(r);
    let colour = colour_bytes(r.colour);
    let texts = p + 42 + colour.len();
    assert(data.subrange(p, p + 8) =~= spec_u64_to_le_bytes(r.timestamp as u64));
    assert(data.subrange(p + 8, p + 16) =~= spec_u64_to_le_bytes(r.source_sequence));
    assert(data.subrange(p + 16, p + 24) =~= spec_u64_to_le_bytes(r.line));
    assert(data.subrange(p + 24, p + 32) =~= spec_u64_to_le_bytes(r.byte_offset));
    assert(data.subrange(p + 32, p + 36) =~= spec_u32_to_le_bytes(r.username.len() as u32));
    assert(data.subrange(p + 36, p + 40) =~= spec_u32_to_le_bytes(r.path.len() as u32));
    assert(data[p + 40] == parsed_action_byte(r.action));
    assert(data[p + 42] == colour[0]);
    assert(data.subrange(texts, texts + r.username.len()) =~= r.username);
    assert(data.subrange(
        texts + r.username.len(),
        texts + r.username.len() + r.path.len(),
    ) =~= r.path);
    match r.colour {
        Some(c) => {
            let read: [u8; 3] = [data[p + 43], data[p + 44], data[p + 45]];
            assert(data[p + 43] == colour[1]);
            assert(data[p + 44] == colour[2]);
            assert(data[p + 45] == colour[3]);
            assert(read@ =~= c.0@);
            assert(read =~= c.0);
        },
        None => {},
    }
}

/// The encoded form of records starts with that of the first.
pub proof fn records_bytes_front(records: Seq<RecordView>)
    requires
        records.len() > 0,
    ensures
        records_bytes(records) == record_bytes(records[0]) + records_bytes(records.drop_first()),
    decreases records.len(),
{
    if records.len() == 1 {
        assert(records.drop_last() =~= Seq::<RecordView>::empty());
        assert(records.drop_first() =~= Seq::<RecordView>::empty());
        assert(records_bytes(records.drop_last()) =~= Seq::<u8>::empty());
        assert(records_bytes(records.drop_first()) =~= Seq::<u8>::empty());
        assert(records_bytes(records) =~= record_bytes(records[0]));
        assert(record_bytes(records[0]) + Seq::<u8>::empty() =~= record_bytes(records[0]));
    } else {
        let rest = records.drop_first();
        records_bytes_front(records.drop_last());
        assert(records.drop_last().drop_first() =~= rest.drop_last());
        assert(rest.last() == records.last());
        assert(records_bytes(records) =~= record_bytes(records[0]) + records_bytes(rest));
    }
}

/// Reads the records of one encoded run in order.
pub struct RunReader<'a> {
    pub data: &'a [u8],
    pub position: usize,
    pub remaining: u64,
}

/// What opening encoded bytes as a run reports.
pub open spec fn open_error(data: Seq<u8>) -> Option<ErrorView> {
    if data.len() < RUN_HEADER_BYTES {
        Some(short_read(0, 0))
    } else if data.take(RUN_HEADER_BYTES as int) != run_magic() {
        Some(
            error::plain_error(
                ErrorCode::Io,
                0,
                0,
                "temporary sort run has an unsupported version"@,
            ),
        )
    } else {
        None
    }
}

impl<'a> RunReader<'a> {
    /// The position is inside the run.
    pub open spec fn wf(self) -> bool {
        self.position <= self.data@.len()
    }

    /// The reader is about to read exactly these records.
    pub open spec fn reads(self, rest: Seq<RecordView>, limits: IngestLimits) -> bool {
        &&& self.wf()
        &&& self.remaining == rest.len()
        &&& self.data@.skip(self.position as int) == records_bytes(rest)
        &&& forall|i: int| 0 <= i < rest.len() ==> storable(#[trigger] rest[i], limits)
    }

    /// Opens encoded bytes that hold the given number of records.
    pub fn open(data: &'a [u8], records: u64) -> (reader: Result<RunReader<'a>, IngestError>)
        ensures
            match reader {
                Ok(reader) => open_error(data@) is None && reader.data@ == data@ && reader.position
                    == RUN_HEADER_BYTES && reader.remaining == records && reader.wf(),
                Err(e) => open_error(data@) == Some(e@),
            },
    {
        if data.len() < 8 {
            return Err(IngestError::plain(ErrorCode::Io, 0, 0, "failed to fill whole buffer"));
        }
        let magic: [u8; 8] = [0x47, 0x49, 0x52, 0x55, 0x4e, 0, 0, 1];
        assert(magic@ =~= run_magic());
        let found = slice_subrange(data, 0, 8);
        assert(found@ =~= data@.take(8));
        if !text::same_bytes(found, magic.as_slice()) {
            return Err(
                IngestError::plain(
                    ErrorCode::Io,
                    0,
                    0,
                    "temporary sort run has an unsupported version",
                ),
            );
        }
        Ok(RunReader { data, position: 8, remaining: records })
    }

    fn u64_from(&self, position: usize) -> (value: u64)
        requires
            position + 8 <= self.data@.len(),
        ensures
            value == u64_at(self.data@, position as int),
    {
        assert(self.data.len() == self.data@.len());
        u64_from_le_bytes(slice_subrange(self.data, position, position + 8))
    }

    fn u32_from(&self, position: usize) -> (value: u32)
        requires
            position + 4 <= self.data@.len(),
        ensures
            value == u32_at(self.data@, position as int),
    {
        assert(self.data.len() == self.data@.len());
        u32_from_le_bytes(slice_subrange(self.data, position, position + 4))
    }

    /// Reads the next record; `None` after the last.
    #[verifier::rlimit(40)]
    #[verifier::spinoff_prover]
    pub fn next_record(
        &mut self,
        limits: &IngestLimits,
        memory: &mut MergeMemory,
    ) -> (result: Result<Option<NormalizedRecord>, IngestError>)
        requires
            old(self).wf(),
        ensures
            final(self).wf(),
            final(self).data == old(self).data,
            old(self).remaining == 0 ==> (result matches Ok(None)) && *final(self) == *old(self)
                && *final(memory) == *old(memory),
            old(self).remaining > 0 ==> match record_at(
                old(self).data@,
                old(self).position as int,
                *limits,
                *old(memory),
            ) {
                Ok((view, next)) => {
                    &&& result matches Ok(Some(record))
                    &&& record@ == view
                    &&& final(self).position == next
                    &&& final(self).remaining == old(self).remaining - 1
                    &&& *final(memory) == (MergeMemory {
                        used: (old(memory).used + text_size(view)) as u64,
                        ..*old(memory)
                    })
                },
                Err(view) => result matches Err(e) && e@ == view,
            },
    {
        if self.remaining == 0 {
            return Ok(None);
        }
        let p: usize = self.position;
        let available: usize = self.data.len() - p;
        if available < 24 {
            return Err(IngestError::plain(ErrorCode::Io, 0, 0, "failed to fill whole buffer"));
        }
        let timestamp: i64 = self.u64_from(p) as i64;
        let source_sequence: u64 = self.u64_from(p + 8);
        let line: u64 = self.u64_from(p + 16);
        if available < 32 {
            return Err(IngestError::plain(ErrorCode::Io, line, 0, "failed to fill whole buffer"));
        }
        let byte_offset: u64 = self.u64_from(p + 24);
        if available < 43 {
            return Err(
                IngestError::plain(ErrorCode::Io, line, byte_offset, "failed to fill whole buffer"),
            );
        }
        let username_len: u32 = self.u32_from(p + 32);
        let path_len: u32 = self.u32_from(p + 36);
        let action: u8 = self.data[p + 40];
        let directory: u8 = self.data[p + 41];
        let tag: u8 = self.data[p + 42];
        if tag > 1 {
            return Err(
                IngestError::plain(
                    ErrorCode::Io,
                    line,
                    byte_offset,
                    "temporary sort run contains an invalid colour marker",
                ),
            );
        }
        if tag == 1 && available < 46 {
            return Err(
                IngestError::plain(ErrorCode::Io, line, byte_offset, "failed to fill whole buffer"),
            );
        }
        let colour = if tag == 1 {
            let rgb: [u8; 3] = [self.data[p + 43], self.data[p + 44], self.data[p + 45]];
            Some(ParsedColour(rgb))
        } else {
            None
        };
        let texts: usize = if tag == 1 {
            p + 46
        } else {
            p + 43
        };
        if directory > 1 || username_len as u64 > limits.max_contributor_bytes || path_len as u64
            > limits.max_path_bytes {
            return Err(
                IngestError::plain(
                    ErrorCode::Io,
                    line,
                    byte_offset,
                    "temporary sort run violates configured field bounds",
                ),
            );
        }
        match memory.reserve(username_len as u64 + path_len as u64, line, byte_offset) {
            Ok(()) => {},
            Err(e) => return Err(e),
        }
        if self.data.len() - texts < username_len as usize {
            return Err(
                IngestError::plain(ErrorCode::Io, line, byte_offset, "failed to fill whole buffer"),
            );
        }
        let path_start: usize = texts + username_len as usize;
        let username = match text::string_from_bytes(slice_subrange(self.data, texts, path_start)) {
            Some(username) => username,
            None => {
                return Err(
                    IngestError::plain(
                        ErrorCode::Io,
                        line,
                        byte_offset,
                        "temporary sort run contains invalid UTF-8",
                    ),
                );
            },
        };
        if self.data.len() - path_start < path_len as usize {
            return Err(
                IngestError::plain(ErrorCode::Io, line, byte_offset, "failed to fill whole buffer"),
            );
        }
        let end: usize = path_start + path_len as usize;
        let path = match text::string_from_bytes(slice_subrange(self.data, path_start, end)) {
            Some(path) => path,
            None => {
                return Err(
                    IngestError::plain(
                        ErrorCode::Io,
                        line,
                        byte_offset,
                        "temporary sort run contains invalid UTF-8",
                    ),
                );
            },
        };
        let action = if action == 0x41 {
            ParsedAction::Add
        } else if action == 0x4d {
            ParsedAction::Modify
        } else if action == 0x44 {
            ParsedAction::Delete
        } else {
            return Err(
                IngestError::plain(
                    ErrorCode::Io,
                    line,
                    byte_offset,
                    "temporary sort run contains an invalid action",
                ),
            );
        };
        self.position = end;
        self.remaining = self.remaining - 1;
        Ok(
            Some(
                NormalizedRecord {
                    timestamp,
                    username,
                    action,
                    path,
                    is_directory: directory == 1,
                    colour,
                    source_sequence,
                    line,
                    byte_offset,
                },
            ),
        )
    }

    /// Reads the first of the records that the reader is about to read.
    pub(crate) fn next_of(
        &mut self,
        limits: &IngestLimits,
        memory: &mut MergeMemory,
        Ghost(rest): Ghost<Seq<RecordView>>,
    ) -> (result: Result<Option<NormalizedRecord>, IngestError>)
        requires
            old(self).reads(rest, *limits),
        ensures
            match result {
                Ok(Some(record)) => {
                    &&& rest.len() > 0
                    &&& record@ == rest[0]
                    &&& old(memory).used + text_size(rest[0]) <= old(memory).limit
                    &&& final(self).reads(rest.drop_first(), *limits)
                    &&& *final(memory) == (MergeMemory {
                        used: (old(memory).used + text_size(rest[0])) as u64,
                        ..*old(memory)
                    })
                },
                Ok(None) => rest.len() == 0 && *final(self) == *old(self) && *final(memory)
                    == *old(memory),
                Err(e) => {
                    &&& rest.len() > 0
                    &&& old(memory).used + text_size(rest[0]) > old(memory).limit
                    &&& e@ == reserve_error(
                        *old(memory),
                        text_size(rest[0]),
                        rest[0].line,
                        rest[0].byte_offset,
                    )
                },
            },
    {
        let ghost before = self.data@.take(self.position as int);
        proof {
            if rest.len() > 0 {
                records_bytes_front(rest);
                let after = records_bytes(rest.drop_first());
                assert(storable(rest[0], *limits));
                assert(self.data@ =~= before + self.data@.skip(self.position as int));
                assert(self.data@ =~= before + record_bytes(rest[0]) + after);
                record_position(before, rest[0], after, *limits, *memory);
            }
        }
        let result = self.next_record(limits, memory);
        proof {
            if rest.len() > 0 && result is Ok {
                charged_size_is_encoded_size(rest[0]);
                assert(self.data@.skip(self.position as int) =~= records_bytes(rest.drop_first()));
                assert forall|i: int| 0 <= i < rest.drop_first().len() implies storable(
                    #[trigger] rest.drop_first()[i],
                    *limits,
                ) by {
                    assert(rest.drop_first()[i] == rest[i + 1]);
                }
            }
        }
        result
    }
}

/// Reading a stored record fails only for want of memory.
pub proof fn record_position(
    before: Seq<u8>,
    r: RecordView,
    after: Seq<u8>,
    limits: IngestLimits,
    memory: MergeMemory,
)
    requires
        storable(r, limits),
    ensures
        record_at(before + record_bytes(r) + after, before.len() as int, limits, memory)
            == if memory.used + text_size(r) <= memory.limit {
            Ok::<(RecordView, int), ErrorView>((r, before.len() + record_size(r)))
        } else {
            Err::<(RecordView, int), ErrorView>(
                reserve_error(memory, text_size(r), r.line, r.byte_offset),
            )
        },
{
    let roomy = MergeMemory { limit: u64::MAX, used: 0 };
    reading_gives_back_what_was_written(before, r, after, limits, roomy);
    let data = before + record_bytes(r) + after;
    let p = before.len() as int;
    lemma_auto_spec_u64_to_from_le_bytes();
    lemma_auto_spec_u32_to_from_le_bytes();
    charged_size_is_encoded_size(r);
    assert(data.subrange(p + 16, p + 24) =~= spec_u64_to_le_bytes(r.line));
    assert(data.subrange(p + 24, p + 32) =~= spec_u64_to_le_bytes(r.byte_offset));
    assert(data.subrange(p + 32, p + 36) =~= spec_u32_to_le_bytes(r.username.len() as u32));
    assert(data.subrange(p + 36, p + 40) =~= spec_u32_to_le_bytes(r.path.len() as u32));
}

} // verus!
