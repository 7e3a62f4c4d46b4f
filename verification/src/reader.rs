//! Reading a whole log from memory.

use vstd::prelude::*;
use vstd::slice::slice_subrange;

use crate::digest;
use crate::error::{ErrorView, IngestError};
use crate::limits::{parser_buffer_bytes, parser_working_memory_bytes};
use crate::lines;
use crate::lines::{LogView, NextView};
use crate::options;
use crate::options::IngestOptions;
use crate::parser::{LogParser, ParsedInput};
use crate::record::RecordView;

verus! {

impl LogParser {
    /// Takes in an input in memory, a buffer at a time, until a physical record
    /// or the input ends.
    pub fn read_line(
        &mut self,
        input: &[u8],
        position: &mut usize,
        options: &IngestOptions,
    ) -> (result: Result<(), IngestError>)
        requires
            old(self).wf(options.limits),
            *old(position) <= input@.len(),
            old(self).consumed() == input@.take(*old(position) as int),
        ensures
            final(self).accepted() == old(self).accepted(),
            match result {
                Ok(()) => {
                    &&& final(self).wf(options.limits)
                    &&& old(self).held() ==> final(self).held()
                    &&& *old(position) <= *final(position) <= input@.len()
                    &&& final(self).consumed() == input@.take(*final(position) as int)
                    &&& lines::line_read(old(self)@, input@, *old(position) as int, options.limits) == Ok::<
                        (LogView, int),
                        ErrorView,
                    >((final(self)@, *final(position) as int))
                },
                Err(e) => options::may_cancel_reading(*options, e@) || lines::line_read(
                    old(self)@,
                    input@,
                    *old(position) as int,
                    options.limits,
                ) == Err::<(LogView, int), ErrorView>(e@),
            },
    {
        let ghost start = self@;
        let ghost from = *position as int;
        let buffer: usize = parser_buffer_bytes(
            parser_working_memory_bytes(options.limits.working_memory_bytes),
        ) as usize;
        proof {
            self.stays_consistent(options.limits);
        }
        loop
            invariant
                buffer == lines::read_ahead(options.limits),
                buffer > 0,
                self.wf(options.limits),
                from <= *position <= input@.len(),
                self.consumed() == input@.take(*position as int),
                self.accepted() == old(self).accepted(),
                old(self).held() ==> self.held(),
                start == old(self)@,
                from == *old(position),
                lines::line_read(start, input@, from, options.limits) == lines::line_read(
                    self@,
                    input@,
                    *position as int,
                    options.limits,
                ),
            decreases input@.len() - *position,
        {
            proof {
                self.stays_consistent(options.limits);
            }
            match options.check_cancelled(self.line(), self.input_bytes()) {
                Ok(()) => {},
                Err(e) => return Err(e),
            }
            let at: usize = *position;
            if at >= input.len() {
                return Ok(());
            }
            let into: usize = at % buffer;
            let end: usize = if input.len() - at <= buffer - into {
                input.len()
            } else {
                at + (buffer - into)
            };
            assert(end == lines::buffer_end(at as int, buffer as int, input@.len() as int) && end > at) by {
                vstd::arithmetic::div_mod::lemma_fundamental_div_mod(at as int, buffer as int);
                assert((at as int / buffer as int + 1) * buffer == buffer * (at as int
                    / buffer as int) + buffer) by (nonlinear_arith);
            }
            let available = slice_subrange(input, at, end);
            let ghost before = self@;
            match self.take_piece(available, options) {
                Ok((length, ends)) => {
                    proof {
                        lines::piece_length_bounds(available@);
                        assert(input@.take(at as int) + available@.take(length as int)
                            =~= input@.take(at + length));
                    }
                    *position = at + length;
                    if ends {
                        return Ok(());
                    }
                },
                Err(e) => return Err(e),
            }
        }
    }

    /// Begins, reads and accepts the next physical record of an input in
    /// memory.  Gives false at the end of the input.
    pub fn next(&mut self, input: &[u8], position: &mut usize, options: &IngestOptions) -> (result:
        Result<bool, IngestError>)
        requires
            old(self).wf(options.limits),
            old(self)@.partial.len() == 0,
            *old(position) <= input@.len(),
            old(self).consumed() == input@.take(*old(position) as int),
        ensures
            match result {
                Ok(true) => {
                    &&& final(self).wf(options.limits)
                    &&& old(self).held() ==> final(self).held()
                    &&& final(self)@.partial.len() == 0
                    &&& *old(position) < *final(position) <= input@.len()
                    &&& final(self).consumed() == input@.take(*final(position) as int)
                    &&& lines::next_outcome(old(self)@, input@, *old(position) as int, options.limits)
                        == Ok::<NextView, ErrorView>(
                        NextView::Record(final(self)@, *final(position) as int),
                    )
                    &&& final(self)@.chunk.len() > 0
                    &&& final(self).accepted() == old(self).accepted().push(
                        final(self)@.chunk.last(),
                    )
                    &&& old(self).accepted() + lines::records_from(
                        input@,
                        *old(position) as int,
                        old(self)@.count as int,
                        options.limits,
                    ) == final(self).accepted() + lines::records_from(
                        input@,
                        *final(position) as int,
                        final(self)@.count as int,
                        options.limits,
                    )
                },
                Ok(false) => {
                    &&& final(self).wf(options.limits)
                    &&& old(self).held() ==> final(self).held()
                    &&& *final(position) == input@.len()
                    &&& lines::records_from(
                        input@,
                        *old(position) as int,
                        old(self)@.count as int,
                        options.limits,
                    ) == Seq::<RecordView>::empty()
                    &&& final(self).consumed() == input@
                    &&& lines::next_outcome(old(self)@, input@, *old(position) as int, options.limits)
                        == Ok::<NextView, ErrorView>(NextView::End(final(self)@))
                    &&& final(self).accepted() == old(self).accepted()
                },
                Err(e) => options::may_cancel_reading(*options, e@) || lines::next_outcome(
                    old(self)@,
                    input@,
                    *old(position) as int,
                    options.limits,
                ) == Err::<NextView, ErrorView>(e@),
            },
    {
        let ghost start = self@;
        proof {
            reveal(lines::next_outcome);
            self.stays_consistent(options.limits);
        }
        match options.check_cancelled(self.line(), self.byte_offset()) {
            Ok(()) => {},
            Err(e) => return Err(e),
        }
        match self.begin_line(options) {
            Ok(()) => {},
            Err(e) => return Err(e),
        }
        let ghost begun = self@;
        match self.read_line(input, position, options) {
            Ok(()) => {},
            Err(e) => return Err(e),
        }
        let ghost from = *old(position) as int;
        proof {
            lines::line_read_ends(begun, input@, from, options.limits);
        }
        if !self.has_partial_record() || self.marks_empty_stream() {
            assert(input@.take(input@.len() as int) =~= input@);
            proof {
                lines::end_is_end(start, input@, from, options.limits);
            }
            return Ok(false);
        }
        let ghost before = self.accepted();
        match self.accept(options) {
            Ok(()) => {},
            Err(e) => return Err(e),
        }
        proof {
            lines::next_is_line(start, input@, from, options.limits);
            self.stays_consistent(options.limits);
            let record = self@.chunk.last();
            let rest = lines::records_from(input@, *position as int, self@.count as int, options.limits);
            assert(before + (seq![record] + rest) =~= before.push(record) + rest);
        }
        Ok(true)
    }
}

/// Parses a whole input in memory.
pub fn parse_log(input: &[u8], options: &IngestOptions) -> (result: Result<ParsedInput, IngestError>)
    ensures
        match result {
            Ok(parsed) => {
                &&& parsed.wf(options.limits)
                &&& parsed.held()
                &&& lines::parse_outcome(input@, options.limits) is Ok
                &&& parsed.matches(lines::parse_outcome(input@, options.limits)->Ok_0)
                &&& parsed.input_bytes == input@.len()
                &&& parsed.input_hash@ == digest::blake3_digest(input@)
                &&& parsed.accepted@ == lines::records_of(input@, options.limits)
            },
            Err(e) => options::may_cancel_reading(*options, e@) || lines::parse_outcome(input@, options.limits)
                == Err::<LogView, ErrorView>(e@),
        },
{
    let mut parser = match LogParser::new(options) {
        Ok(parser) => parser,
        Err(e) => return Err(e),
    };
    let mut position: usize = 0;
    assert(input@.take(0) =~= Seq::<u8>::empty());
    loop
        invariant_except_break
            lines::start_fault(options.limits) is None,
            parser.wf(options.limits),
            parser.held(),
            parser@.partial.len() == 0,
            position <= input@.len(),
            parser.consumed() == input@.take(position as int),
            parser.accepted() + lines::records_from(
                input@,
                position as int,
                parser@.count as int,
                options.limits,
            ) == lines::records_of(input@, options.limits),
            lines::log_run(lines::initial_log(), input@, 0, options.limits) == lines::log_run(
                parser@,
                input@,
                position as int,
                options.limits,
            ),
        ensures
            lines::start_fault(options.limits) is None,
            parser.wf(options.limits),
            parser.held(),
            parser.consumed() == input@,
            parser.accepted() == lines::records_of(input@, options.limits),
            lines::log_run(lines::initial_log(), input@, 0, options.limits) == Ok::<LogView, ErrorView>(parser@),
        decreases input@.len() - position,
    {
        match parser.next(input, &mut position, options) {
            Ok(true) => {
                parser.report_reading(options);
            },
            Ok(false) => {
                assert(parser.accepted() + Seq::<RecordView>::empty() =~= parser.accepted());
                break;
            },
            Err(e) => return Err(e),
        }
    }
    proof {
        parser.stays_consistent(options.limits);
    }
    parser.finish(options)
}

} // verus!
