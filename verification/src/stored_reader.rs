//! Reading sort runs that are kept outside, piece by piece.
//!
//! A reader asks for a piece of its run and takes what comes back.  Pieces are
//! not trusted: whatever they hold, a reader gives a record or an error.  Where
//! every piece is what was written there, the records are those that were
//! written.

use vstd::bytes::*;
use vstd::prelude::*;
use vstd::slice::slice_subrange;

use crate::error::{ErrorView, IngestError};
use crate::limits::IngestLimits;
use crate::record::{NormalizedRecord, RecordView};
use crate::runs;
use crate::runs::{MergeMemory, RunReader, RECORD_FIXED_BYTES, RUN_HEADER_BYTES};

verus! {

/// What a reader reads next.
#[derive(Clone, Copy, Debug, PartialEq, Eq, Structural)]
pub enum ReadStage {
    /// The first bytes of the run.
    Magic,
    /// Nothing until it is asked for a record.
    Idle,
    /// The fixed part of a record.
    Fixed,
    /// The rest of a record.
    Rest,
}

/// A piece of a run.
#[derive(Clone, Copy, Debug, PartialEq, Eq, Structural)]
pub struct ReadRequest {
    pub run: u64,
    pub offset: u64,
    pub length: usize,
}

/// A reader of one run.
pub struct StoredReader {
    pub run: u64,
    pub size: u64,
    pub offset: u64,
    pub remaining: u64,
    pub stage: ReadStage,
    pub header: Vec<u8>,
    /// What was written as the run.
    pub content: Ghost<Seq<RecordView>>,
    /// What of it was not read yet.
    pub unread: Ghost<Seq<RecordView>>,
    /// Every piece was what was written there.
    pub faithful: Ghost<bool>,
}

pub open spec fn least(a: int, b: int) -> int {
    if a < b {
        a
    } else {
        b
    }
}

/// The bytes of a record after its fixed part, as the fixed part says.  Texts
/// beyond their bounds are not read.
pub open spec fn rest_length(header: Seq<u8>, limits: IngestLimits) -> int {
    let username = runs::u32_at(header, 32);
    let path = runs::u32_at(header, 36);
    let colour = if header[42] == 1 {
        3int
    } else {
        0int
    };
    if username <= limits.max_contributor_bytes && path <= limits.max_path_bytes {
        colour + username + path
    } else {
        colour
    }
}

/// A record can be read back, and its encoded form fits memory.
pub open spec fn readable(r: RecordView, limits: IngestLimits) -> bool {
    runs::storable(r, limits) && runs::record_size(r) <= usize::MAX
}

impl StoredReader {
    /// The reader stays within its run.
    pub open spec fn within(&self) -> bool {
        &&& self.offset <= self.size
        &&& self.stage is Magic ==> self.offset == 0
        &&& self.stage is Fixed || self.stage is Rest ==> self.remaining > 0
        &&& self.stage is Rest ==> self.header@.len() == RECORD_FIXED_BYTES && self.offset
            + RECORD_FIXED_BYTES <= self.size
    }

    /// The reader is where what was written says it is.
    pub open spec fn follows(&self, limits: IngestLimits) -> bool {
        &&& self.size == runs::run_bytes(self.content@).len()
        &&& self.remaining == self.unread@.len()
        &&& forall|i: int|
            0 <= i < self.unread@.len() ==> readable(#[trigger] self.unread@[i], limits)
        &&& if self.stage is Magic {
            self.unread@ == self.content@
        } else {
            runs::run_bytes(self.content@).skip(self.offset as int) == runs::records_bytes(
                self.unread@,
            )
        }
        &&& self.stage is Rest ==> self.header@ == runs::record_bytes(self.unread@[0]).take(
            RECORD_FIXED_BYTES as int,
        )
    }

    pub open spec fn wf(&self, limits: IngestLimits) -> bool {
        &&& self.within()
        &&& self.faithful@ ==> self.follows(limits)
    }

    /// Where the next piece starts and how long it is.
    pub open spec fn piece(&self, limits: IngestLimits) -> (int, int) {
        match self.stage {
            ReadStage::Magic => (0, least(RUN_HEADER_BYTES as int, self.size as int)),
            ReadStage::Idle => (self.offset as int, 0),
            ReadStage::Fixed => (
                self.offset as int,
                least(RECORD_FIXED_BYTES as int, self.size - self.offset),
            ),
            ReadStage::Rest => (
                self.offset + RECORD_FIXED_BYTES,
                least(
                    least(
                        rest_length(self.header@, limits),
                        self.size - self.offset - RECORD_FIXED_BYTES,
                    ),
                    usize::MAX as int,
                ),
            ),
        }
    }

    /// Pieces to take and records to hand out until the run is merged, those
    /// that are shown apart.
    pub open spec fn work(&self) -> int {
        3 * self.remaining + if self.stage is Magic {
            1int
        } else if self.stage is Rest {
            -1int
        } else {
            0int
        }
    }

    /// The reader is of the same run.
    pub open spec fn same_run(&self, other: &StoredReader) -> bool {
        &&& self.run == other.run
        &&& self.size == other.size
        &&& self.content == other.content
    }

    /// What was written where the next piece is.
    pub open spec fn written(&self, limits: IngestLimits) -> Seq<u8> {
        let (from, length) = self.piece(limits);
        runs::run_bytes(self.content@).subrange(from, from + length)
    }

    /// What a reader makes of the bytes that it asked for.
    pub open spec fn taken(&self, bytes: Seq<u8>, limits: IngestLimits) -> Seq<u8> {
        bytes.take(least(bytes.len() as int, self.piece(limits).1))
    }

    /// The piece that the reader waits for.
    pub(crate) fn request(&self, limits: &IngestLimits) -> (request: Option<ReadRequest>)
        requires
            self.within(),
        ensures
            request is None <==> self.stage is Idle,
            request matches Some(r) ==> r.run == self.run && (r.offset as int, r.length as int)
                == self.piece(*limits),
    {
        match self.stage {
            ReadStage::Idle => None,
            ReadStage::Magic => {
                let length: usize = clip(RUN_HEADER_BYTES, self.size);
                Some(ReadRequest { run: self.run, offset: 0, length })
            },
            ReadStage::Fixed => {
                let length: usize = clip(RECORD_FIXED_BYTES, self.size - self.offset);
                Some(ReadRequest { run: self.run, offset: self.offset, length })
            },
            ReadStage::Rest => {
                let wanted: u64 = rest_bytes(self.header.as_slice(), limits);
                let length: usize = clip(wanted, self.size - self.offset - RECORD_FIXED_BYTES);
                Some(
                    ReadRequest {
                        run: self.run,
                        offset: self.offset + RECORD_FIXED_BYTES,
                        length,
                    },
                )
            },
        }
    }

    /// Asks for the next record; gives false where there is none.
    pub(crate) fn want(&mut self, Ghost(limits): Ghost<IngestLimits>) -> (wanted: bool)
        requires
            old(self).wf(limits),
            old(self).stage is Idle,
        ensures
            final(self).wf(limits),
            wanted == (old(self).remaining > 0),
            *final(self) == (StoredReader {
                stage: if wanted {
                    ReadStage::Fixed
                } else {
                    ReadStage::Idle
                },
                ..*old(self)
            }),
    {
        if self.remaining == 0 {
            return false;
        }
        self.stage = ReadStage::Fixed;
        true
    }

    /// Takes the first bytes of the run.
    pub(crate) fn take_magic(&mut self, bytes: &[u8], limits: &IngestLimits) -> (result: Result<
        (),
        IngestError,
    >)
        requires
            old(self).wf(*limits),
            old(self).stage is Magic,
        ensures
            final(self).wf(*limits),
            final(self).same_run(old(self)),
            final(self).faithful@ == (old(self).faithful@ && bytes@ == old(self).written(*limits)),
            match result {
                Ok(()) => {
                    &&& runs::open_error(old(self).taken(bytes@, *limits)) is None
                    &&& final(self).stage is Idle
                    &&& final(self).offset == RUN_HEADER_BYTES
                    &&& final(self).remaining == old(self).remaining
                    &&& final(self).unread == old(self).unread
                },
                Err(e) => {
                    &&& runs::open_error(old(self).taken(bytes@, *limits)) == Some(e@)
                    &&& !final(self).faithful@
                },
            },
    {
        let ghost start = *self;
        let ghost honest = bytes@ == self.written(*limits);
        let length: usize = clip(RUN_HEADER_BYTES, self.size);
        let used: usize = if bytes.len() < length {
            bytes.len()
        } else {
            length
        };
        let piece = slice_subrange(bytes, 0, used);
        proof {
            assert(bytes.len() == bytes@.len());
            assert(piece@ =~= start.taken(bytes@, *limits));
            self.faithful@ = self.faithful@ && honest;
            if self.faithful@ {
                let all = runs::run_bytes(self.content@);
                assert(all.take(8) =~= runs::run_magic());
                assert(piece@ =~= runs::run_magic());
                assert(piece@.take(8) =~= piece@);
                assert(all.skip(8) =~= runs::records_bytes(self.content@));
            }
        }
        match RunReader::open(piece, 0) {
            Ok(_) => {
                self.stage = ReadStage::Idle;
                self.offset = RUN_HEADER_BYTES;
                Ok(())
            },
            Err(e) => {
                assert(!self.faithful@);
                Err(e)
            },
        }
    }

    /// Takes the fixed part of a record.  A part that is too short is an error.
    pub(crate) fn take_fixed(&mut self, bytes: &[u8], limits: &IngestLimits, memory: &MergeMemory) -> (
    result: Result<(), IngestError>)
        requires
            old(self).wf(*limits),
            old(self).stage is Fixed,
        ensures
            final(self).wf(*limits),
            final(self).faithful@ == (old(self).faithful@ && bytes@ == old(self).written(*limits)),
            final(self).same_run(old(self)),
            final(self).unread == old(self).unread,
            final(self).remaining == old(self).remaining,
            final(self).offset == old(self).offset,
            ({
                let piece = old(self).taken(bytes@, *limits);
                match result {
                    Ok(()) => {
                        &&& piece.len() == RECORD_FIXED_BYTES
                        &&& final(self).stage is Rest
                        &&& final(self).header@ == piece
                    },
                    Err(e) => {
                        &&& piece.len() < RECORD_FIXED_BYTES
                        &&& runs::record_at(piece, 0, *limits, *memory) == Err::<
                            (RecordView, int),
                            ErrorView,
                        >(e@)
                        &&& !final(self).faithful@
                    },
                }
            }),
    {
        let ghost start = *self;
        let ghost honest = bytes@ == self.written(*limits);
        let length: usize = clip(RECORD_FIXED_BYTES, self.size - self.offset);
        let used: usize = if bytes.len() < length {
            bytes.len()
        } else {
            length
        };
        let piece = slice_subrange(bytes, 0, used);
        proof {
            assert(bytes.len() == bytes@.len());
            assert(piece@ =~= start.taken(bytes@, *limits));
            self.faithful@ = self.faithful@ && honest;
            if self.faithful@ {
                let all = runs::run_bytes(self.content@);
                let first = self.unread@[0];
                runs::records_bytes_front(self.unread@);
                runs::charged_size_is_encoded_size(first);
                assert(all.skip(self.offset as int).take(43) =~= runs::record_bytes(first).take(
                    43,
                ));
                assert(all.skip(self.offset as int).take(43) =~= all.subrange(
                    self.offset as int,
                    self.offset + 43,
                ));
                assert(piece@ =~= runs::record_bytes(first).take(43));
            }
        }
        if used < RECORD_FIXED_BYTES as usize {
            let mut reader = RunReader { data: piece, position: 0, remaining: 1 };
            let mut scratch = *memory;
            return match reader.next_record(limits, &mut scratch) {
                Ok(_) => {
                    assert(false);
                    Ok(())
                },
                Err(e) => Err(e),
            };
        }
        let mut header: Vec<u8> = Vec::new();
        runs::put_bytes(&mut header, piece);
        assert(header@ =~= piece@);
        self.header = header;
        self.stage = ReadStage::Rest;
        Ok(())
    }

    /// Takes the rest of a record and gives the record.
    #[verifier::rlimit(40)]
    pub(crate) fn take_rest(
        &mut self,
        bytes: &[u8],
        limits: &IngestLimits,
        memory: &mut MergeMemory,
    ) -> (result: Result<NormalizedRecord, IngestError>)
        requires
            old(self).wf(*limits),
            old(self).stage is Rest,
        ensures
            final(self).wf(*limits),
            final(self).same_run(old(self)),
            ({
                let data = old(self).header@ + old(self).taken(bytes@, *limits);
                let honest = old(self).faithful@ && bytes@ == old(self).written(*limits);
                match result {
                    Ok(record) => {
                        &&& final(self).faithful@ == honest
                        &&& runs::record_at(data, 0, *limits, *old(memory)) matches Ok((view, next))
                        &&& record@ == view
                        &&& final(self).stage is Idle
                        &&& final(self).offset == old(self).offset + next
                        &&& final(self).remaining == old(self).remaining - 1
                        &&& *final(memory) == (MergeMemory {
                            used: (old(memory).used + runs::text_size(view)) as u64,
                            ..*old(memory)
                        })
                        &&& old(memory).used + runs::text_size(view) <= old(memory).limit
                        &&& honest ==> {
                            &&& view == old(self).unread@[0]
                            &&& final(self).unread@ == old(self).unread@.drop_first()
                        }
                    },
                    Err(e) => {
                        &&& runs::record_at(data, 0, *limits, *old(memory)) == Err::<
                            (RecordView, int),
                            ErrorView,
                        >(e@)
                        &&& honest ==> {
                            let first = old(self).unread@[0];
                            &&& old(memory).used + runs::text_size(first) > old(memory).limit
                            &&& e@ == runs::reserve_error(
                                *old(memory),
                                runs::text_size(first),
                                first.line,
                                first.byte_offset,
                            )
                        }
                    },
                }
            }),
    {
        let ghost start = *self;
        let ghost honest = self.faithful@ && bytes@ == self.written(*limits);
        let wanted: u64 = rest_bytes(self.header.as_slice(), limits);
        let length: usize = clip(wanted, self.size - self.offset - RECORD_FIXED_BYTES);
        let used: usize = if bytes.len() < length {
            bytes.len()
        } else {
            length
        };
        let piece = slice_subrange(bytes, 0, used);
        let mut data: Vec<u8> = Vec::new();
        runs::put_bytes(&mut data, self.header.as_slice());
        runs::put_bytes(&mut data, piece);
        proof {
            assert(bytes.len() == bytes@.len());
            assert(piece@ =~= start.taken(bytes@, *limits));
            assert(data@ =~= start.header@ + piece@);
            if honest {
                assert(readable(self.unread@[0], *limits));
                fixed_part_describes_record(self.unread@[0], *limits);
                let first = self.unread@[0];
                runs::records_bytes_front(self.unread@);
                runs::charged_size_is_encoded_size(first);
                let all = runs::run_bytes(self.content@);
                let here = all.skip(self.offset as int);
                let more = runs::record_size(first) - 43;
                assert(here.len() == all.len() - self.offset);
                assert(here =~= runs::record_bytes(first) + runs::records_bytes(
                    self.unread@.drop_first(),
                ));
                assert(rest_length(self.header@, *limits) == more);
                assert(self.piece(*limits).1 == more);
                let tail = all.subrange(self.offset + 43, self.offset + 43 + more);
                assert forall|i: int| 0 <= i < more implies tail[i] == runs::record_bytes(
                    first,
                )[43 + i] by {
                    assert(here[43 + i] == all[self.offset + 43 + i]);
                }
                assert(tail =~= runs::record_bytes(first).skip(43));
                assert(piece@ =~= bytes@);
                assert(data@ =~= runs::record_bytes(first));
                let nothing = Seq::<u8>::empty();
                assert(nothing + runs::record_bytes(first) + nothing =~= runs::record_bytes(first));
                runs::record_position(nothing, first, nothing, *limits, *memory);
            }
        }
        let ghost budget = *memory;
        let mut reader = RunReader { data: data.as_slice(), position: 0, remaining: 1 };
        match reader.next_record(limits, memory) {
            Ok(Some(record)) => {
                let size: usize = reader.position;
                self.offset = self.offset + size as u64;
                self.remaining = self.remaining - 1;
                self.stage = ReadStage::Idle;
                proof {
                    self.faithful@ = honest;
                    if honest {
                        let all = runs::run_bytes(self.content@);
                        let rest = start.unread@.drop_first();
                        self.unread@ = rest;
                        let here = all.skip(start.offset as int);
                        assert(all.skip(self.offset as int) =~= here.skip(size as int));
                        assert(here.skip(size as int) =~= runs::records_bytes(rest));
                        assert forall|i: int| 0 <= i < rest.len() implies readable(
                            #[trigger] rest[i],
                            *limits,
                        ) by {
                            assert(rest[i] == start.unread@[i + 1]);
                        }
                    }
                }
                Ok(record)
            },
            Ok(None) => {
                assert(false);
                Err(IngestError::plain(crate::error::ErrorCode::Io, 0, 0, ""))
            },
            Err(e) => Err(e),
        }
    }
}

/// The fixed part of a stored record says how long the rest is.
proof fn fixed_part_describes_record(r: RecordView, limits: IngestLimits)
    requires
        runs::storable(r, limits),
    ensures
        rest_length(runs::record_bytes(r).take(43), limits) == runs::record_size(r) - 43,
        runs::record_bytes(r).len() >= 43,
{
    lemma_auto_spec_u64_to_from_le_bytes();
    lemma_auto_spec_u32_to_from_le_bytes();
    runs::charged_size_is_encoded_size(r);
    let data = runs::record_bytes(r).take(43);
    let colour = runs::colour_bytes(r.colour);
    assert(data.subrange(32, 36) =~= spec_u32_to_le_bytes(r.username.len() as u32));
    assert(data.subrange(36, 40) =~= spec_u32_to_le_bytes(r.path.len() as u32));
    assert(data[42] == colour[0]);
}

/// The lesser of two sizes, as far as a slice can be long.
fn clip(wanted: u64, available: u64) -> (length: usize)
    ensures
        length == least(least(wanted as int, available as int), usize::MAX as int),
{
    let least: u64 = if wanted < available {
        wanted
    } else {
        available
    };
    if least > usize::MAX as u64 {
        usize::MAX
    } else {
        least as usize
    }
}

fn rest_bytes(header: &[u8], limits: &IngestLimits) -> (length: u64)
    requires
        header@.len() == RECORD_FIXED_BYTES,
    ensures
        length == rest_length(header@, *limits),
{
    assert(header.len() == header@.len());
    let username: u32 = u32_from_le_bytes(slice_subrange(header, 32, 36));
    let path: u32 = u32_from_le_bytes(slice_subrange(header, 36, 40));
    let colour: u64 = if header[42] == 1 {
        3
    } else {
        0
    };
    if username as u64 <= limits.max_contributor_bytes && path as u64 <= limits.max_path_bytes {
        colour + username as u64 + path as u64
    } else {
        colour
    }
}

} // verus!
