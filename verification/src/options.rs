//! Options of an ingest: limits, cancellation and progress.

use std::sync::atomic::AtomicBool;
use std::sync::Arc;
use vstd::prelude::*;
use vstd::std_specs::convert::FromSpecImpl;

use crate::error;
use crate::error::{ErrorCode, ErrorView, IngestError};
use crate::limits;
use crate::limits::IngestLimits;

verus! {

/// A shared request to stop.  Whether it is set can change at any time, so
/// nothing is known of what [`Self::is_cancelled`] returns.
#[derive(Clone, Debug)]
pub struct CancellationToken(Arc<AtomicBool>);

impl CancellationToken {
    pub fn new() -> Self {
        CancellationToken(Arc::new(AtomicBool::new(false)))
    }

    pub fn cancel(&self) {
        self.0.store(true, std::sync::atomic::Ordering::Release);
    }

    pub fn is_cancelled(&self) -> bool {
        self.0.load(std::sync::atomic::Ordering::Acquire)
    }
}

impl Default for CancellationToken {
    fn default() -> Self {
        CancellationToken::new()
    }
}

/// What an ingest is doing.
#[derive(Clone, Copy, Debug, PartialEq, Eq, Structural)]
pub enum ProgressPhase {
    Reading,
    Normalizing,
    Sorting,
    Publishing,
}

/// How far an ingest has come.
#[derive(Clone, Copy, Debug, PartialEq, Eq, Structural)]
pub struct ProgressUpdate {
    pub phase: ProgressPhase,
    pub bytes_read: u64,
    pub input_bytes: Option<u64>,
    pub records_read: u64,
}

/// Receives progress updates.
pub trait ProgressSink: Send + Sync {
    fn report(&self, update: ProgressUpdate);
}

/// Options of an ingest.
#[derive(Clone)]
pub struct IngestOptions {
    pub limits: IngestLimits,
    pub cancellation: Option<CancellationToken>,
    pub progress: Option<Arc<dyn ProgressSink>>,
}

impl Default for IngestOptions {
    fn default() -> (options: Self)
        ensures
            options.limits == limits::default_limits(),
            options.cancellation is None,
            options.progress is None,
    {
        IngestOptions { limits: IngestLimits::default(), cancellation: None, progress: None }
    }
}

/// Limits with nothing else set.
pub open spec fn options_with(limits: IngestLimits) -> IngestOptions {
    IngestOptions { limits, cancellation: None, progress: None }
}

impl From<IngestLimits> for IngestOptions {
    fn from(limits: IngestLimits) -> (options: Self) {
        IngestOptions { limits, cancellation: None, progress: None }
    }
}

impl FromSpecImpl<IngestLimits> for IngestOptions {
    open spec fn obeys_from_spec() -> bool {
        true
    }

    open spec fn from_spec(limits: IngestLimits) -> Self {
        options_with(limits)
    }
}

impl From<()> for IngestOptions {
    fn from(_none: ()) -> (options: Self) {
        IngestOptions { limits: IngestLimits::default(), cancellation: None, progress: None }
    }
}

impl FromSpecImpl<()> for IngestOptions {
    open spec fn obeys_from_spec() -> bool {
        true
    }

    open spec fn from_spec(_none: ()) -> Self {
        options_with(limits::default_limits())
    }
}

/// What a cancelled ingest reports.
pub open spec fn cancelled_error(line: u64, byte_offset: u64) -> ErrorView {
    error::plain_error(ErrorCode::Cancelled, line, byte_offset, "input cancelled"@)
}

/// An ingest may end this way at any point when it has a cancellation token.
pub open spec fn may_cancel(options: IngestOptions, e: ErrorView) -> bool {
    &&& options.cancellation is Some
    &&& e == cancelled_error(e.line, e.byte_offset)
}

/// While its input is read, a cancelled ingest names the line that it had come
/// to.
pub open spec fn may_cancel_reading(options: IngestOptions, e: ErrorView) -> bool {
    may_cancel(options, e) && e.line >= 1
}

impl IngestOptions {
    pub fn with_limits(self, limits: IngestLimits) -> (options: Self)
        ensures
            options == (IngestOptions { limits, ..self }),
    {
        IngestOptions { limits, ..self }
    }

    pub fn with_cancellation(self, token: CancellationToken) -> (options: Self)
        ensures
            options == (IngestOptions { cancellation: Some(token), ..self }),
    {
        IngestOptions { cancellation: Some(token), ..self }
    }

    pub fn with_progress(self, sink: Arc<dyn ProgressSink>) -> (options: Self)
        ensures
            options.limits == self.limits,
            options.cancellation == self.cancellation,
            options.progress == Some(sink),
    {
        let progress = Some(sink);
        IngestOptions { progress, ..self }
    }

    /// What a sampled cancellation state means at a place in the input.
    pub fn cancelled_at(cancelled: bool, line: u64, byte_offset: u64) -> (result: Result<
        (),
        IngestError,
    >)
        ensures
            result is Err <==> cancelled,
            result matches Err(e) ==> e@ == cancelled_error(line, byte_offset),
    {
        if cancelled {
            Err(IngestError::plain(ErrorCode::Cancelled, line, byte_offset, "input cancelled"))
        } else {
            Ok(())
        }
    }

    /// Fails when the ingest has a token and the token is set.
    pub fn check_cancelled(&self, line: u64, byte_offset: u64) -> (result: Result<(), IngestError>)
        ensures
            self.cancellation is None ==> result is Ok,
            result matches Err(e) ==> may_cancel(*self, e@) && e@ == cancelled_error(
                line,
                byte_offset,
            ),
    {
        let cancelled = match &self.cancellation {
            Some(token) => token.is_cancelled(),
            None => false,
        };
        Self::cancelled_at(cancelled, line, byte_offset)
    }

    /// Reports progress to the sink, if there is one.
    pub fn report(&self, update: ProgressUpdate) {
        match &self.progress {
            Some(sink) => sink.report(update),
            None => {},
        }
    }
}

} // verus!
