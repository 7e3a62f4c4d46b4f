//! Typed ingest failures with a source location and a bounded context.

use vstd::prelude::*;
use vstd::string::*;

use crate::text;

verus! {

/// What kind of failure stopped an ingest.
#[derive(Clone, Copy, Debug, PartialEq, Eq, Structural)]
pub enum ErrorCode {
    Io,
    Cancelled,
    RecordTooLarge,
    InputTooLarge,
    EventCountLimit,
    WorkingMemoryLimit,
    RunFanInLimit,
    WorkingDiskLimit,
    WrongFieldCount,
    InvalidUtf8,
    InvalidTimestamp,
    InvalidAction,
    InvalidColour,
    InvalidPath,
    PathTooLong,
    ContributorTooLong,
    PathTooDeep,
    NulByte,
    LoneCarriageReturn,
    BomNotAtStart,
    DirectoryActionUnsupported,
}

/// The stable text of an error code.
pub open spec fn code_text(code: ErrorCode) -> Seq<char> {
    match code {
        ErrorCode::Io => "io-error"@,
        ErrorCode::Cancelled => "cancelled"@,
        ErrorCode::RecordTooLarge => "record-too-large"@,
        ErrorCode::InputTooLarge => "input-too-large"@,
        ErrorCode::EventCountLimit => "event-count-limit"@,
        ErrorCode::WorkingMemoryLimit => "working-memory-limit"@,
        ErrorCode::RunFanInLimit => "run-fan-in-limit"@,
        ErrorCode::WorkingDiskLimit => "working-disk-limit"@,
        ErrorCode::WrongFieldCount => "wrong-field-count"@,
        ErrorCode::InvalidUtf8 => "invalid-utf8"@,
        ErrorCode::InvalidTimestamp => "invalid-timestamp"@,
        ErrorCode::InvalidAction => "invalid-action"@,
        ErrorCode::InvalidColour => "invalid-colour"@,
        ErrorCode::InvalidPath => "invalid-path"@,
        ErrorCode::PathTooLong => "path-too-long"@,
        ErrorCode::ContributorTooLong => "contributor-too-long"@,
        ErrorCode::PathTooDeep => "path-too-deep"@,
        ErrorCode::NulByte => "nul-byte"@,
        ErrorCode::LoneCarriageReturn => "lone-carriage-return"@,
        ErrorCode::BomNotAtStart => "bom-not-at-start"@,
        ErrorCode::DirectoryActionUnsupported => "directory-action-unsupported"@,
    }
}

impl ErrorCode {
    /// The stable text of this code.
    pub fn as_str(&self) -> (text: &'static str)
        ensures
            text@ == code_text(*self),
    {
        match self {
            Self::Io => "io-error",
            Self::Cancelled => "cancelled",
            Self::RecordTooLarge => "record-too-large",
            Self::InputTooLarge => "input-too-large",
            Self::EventCountLimit => "event-count-limit",
            Self::WorkingMemoryLimit => "working-memory-limit",
            Self::RunFanInLimit => "run-fan-in-limit",
            Self::WorkingDiskLimit => "working-disk-limit",
            Self::WrongFieldCount => "wrong-field-count",
            Self::InvalidUtf8 => "invalid-utf8",
            Self::InvalidTimestamp => "invalid-timestamp",
            Self::InvalidAction => "invalid-action",
            Self::InvalidColour => "invalid-colour",
            Self::InvalidPath => "invalid-path",
            Self::PathTooLong => "path-too-long",
            Self::ContributorTooLong => "contributor-too-long",
            Self::PathTooDeep => "path-too-deep",
            Self::NulByte => "nul-byte",
            Self::LoneCarriageReturn => "lone-carriage-return",
            Self::BomNotAtStart => "bom-not-at-start",
            Self::DirectoryActionUnsupported => "directory-action-unsupported",
        }
    }
}

/// A failed ingest.
#[derive(Clone, Debug, PartialEq, Eq)]
pub struct IngestError {
    pub code: ErrorCode,
    /// One-based physical line. Zero means that no physical record exists.
    pub line: u64,
    /// Zero-based byte offset of the physical record or failing source byte.
    pub byte_offset: u64,
    /// Bounded escaped context suitable for diagnostics.
    pub context: String,
    pub message: String,
}

/// What an [`IngestError`] says.
#[verifier::ext_equal]
pub struct ErrorView {
    pub code: ErrorCode,
    pub line: u64,
    pub byte_offset: u64,
    pub context: Seq<char>,
    pub message: Seq<char>,
}

impl View for IngestError {
    type V = ErrorView;

    open spec fn view(&self) -> ErrorView {
        ErrorView {
            code: self.code,
            line: self.line,
            byte_offset: self.byte_offset,
            context: self.context@,
            message: self.message@,
        }
    }
}

/// An error without a context.
pub open spec fn plain_error(
    code: ErrorCode,
    line: u64,
    byte_offset: u64,
    message: Seq<char>,
) -> ErrorView {
    ErrorView { code, line, byte_offset, context: Seq::empty(), message }
}

/// The text that describes an error to a person.
pub open spec fn error_text(e: ErrorView) -> Seq<char> {
    let place = if e.line != 0 {
        " at line "@ + text::decimal(e.line as nat) + " byte "@ + text::decimal(e.byte_offset as nat)
    } else {
        " at byte "@ + text::decimal(e.byte_offset as nat)
    };
    let message = if e.message.len() == 0 {
        Seq::empty()
    } else {
        ": "@ + e.message
    };
    let context = if e.context.len() == 0 {
        Seq::empty()
    } else {
        " (context: "@ + e.context + ")"@
    };
    code_text(e.code) + place + message + context
}

impl IngestError {
    pub fn new(
        code: ErrorCode,
        line: u64,
        byte_offset: u64,
        context: String,
        message: String,
    ) -> (error: Self)
        ensures
            error.code == code,
            error.line == line,
            error.byte_offset == byte_offset,
            error.context == context,
            error.message == message,
    {
        Self { code, line, byte_offset, context, message }
    }

    /// An error without a context and with a fixed message.
    pub fn plain(code: ErrorCode, line: u64, byte_offset: u64, message: &str) -> (error: Self)
        ensures
            error@ == plain_error(code, line, byte_offset, message@),
    {
        let context = String::new();
        assert(context@ =~= Seq::<char>::empty());
        Self::new(code, line, byte_offset, context, message.to_owned())
    }

    /// The stable text of the error code.
    pub fn code(&self) -> (text: &'static str)
        ensures
            text@ == code_text(self.code),
    {
        self.code.as_str()
    }

    pub fn is_cancelled(&self) -> (cancelled: bool)
        ensures
            cancelled == (self.code == ErrorCode::Cancelled),
    {
        self.code == ErrorCode::Cancelled
    }

    /// Describes the error: code, place, message and context.
    pub fn render(&self) -> (text: String)
        ensures
            text@ == error_text(self@),
    {
        let mut out = self.code.as_str().to_owned();
        if self.line != 0 {
            out.append(" at line ");
            text::push_decimal(&mut out, self.line);
            out.append(" byte ");
            text::push_decimal(&mut out, self.byte_offset);
        } else {
            out.append(" at byte ");
            text::push_decimal(&mut out, self.byte_offset);
        }
        if !self.message.as_str().is_empty() {
            out.append(": ");
            out.append(self.message.as_str());
        }
        if !self.context.as_str().is_empty() {
            out.append(" (context: ");
            out.append(self.context.as_str());
            out.append(")");
        }
        assert(out@ =~= error_text(self@));
        out
    }
}

/// The message of an exceeded byte budget.
pub open spec fn budget_message(resource: Seq<char>, requested: u64, maximum: u64) -> Seq<char> {
    resource + " requested "@ + text::decimal(requested as nat) + " bytes exceeds configured bound "@
        + text::decimal(maximum as nat)
}

fn budget_text(resource: &str, requested: u64, maximum: u64) -> (text: String)
    ensures
        text@ == budget_message(resource@, requested, maximum),
{
    let mut out = resource.to_owned();
    out.append(" requested ");
    text::push_decimal(&mut out, requested);
    out.append(" bytes exceeds configured bound ");
    text::push_decimal(&mut out, maximum);
    out
}

/// What an exceeded working-memory budget is reported as.
pub open spec fn memory_error(
    requested: u64,
    maximum: u64,
    line: u64,
    byte_offset: u64,
) -> ErrorView {
    plain_error(
        ErrorCode::WorkingMemoryLimit,
        line,
        byte_offset,
        budget_message("working_memory_bytes"@, requested, maximum),
    )
}

/// What an exceeded working-disk budget is reported as.
pub open spec fn disk_error(
    requested: u64,
    maximum: u64,
    line: u64,
    byte_offset: u64,
) -> ErrorView {
    plain_error(
        ErrorCode::WorkingDiskLimit,
        line,
        byte_offset,
        budget_message("working_disk_bytes"@, requested, maximum),
    )
}

pub fn working_memory_error(
    requested: u64,
    maximum: u64,
    line: u64,
    byte_offset: u64,
) -> (error: IngestError)
    ensures
        error@ == memory_error(requested, maximum, line, byte_offset),
{
    let text = budget_text("working_memory_bytes", requested, maximum);
    IngestError::plain(ErrorCode::WorkingMemoryLimit, line, byte_offset, text.as_str())
}

pub fn working_disk_error(
    requested: u64,
    maximum: u64,
    line: u64,
    byte_offset: u64,
) -> (error: IngestError)
    ensures
        error@ == disk_error(requested, maximum, line, byte_offset),
{
    let text = budget_text("working_disk_bytes", requested, maximum);
    IngestError::plain(ErrorCode::WorkingDiskLimit, line, byte_offset, text.as_str())
}

/// What an unusable configured bound is reported as.
pub open spec fn bound_error(code: ErrorCode, resource: Seq<char>, maximum: u64) -> ErrorView {
    plain_error(
        code,
        0,
        0,
        resource + " configured bound is "@ + text::decimal(maximum as nat),
    )
}

pub fn limit_error(code: ErrorCode, resource: &str, maximum: u64) -> (error: IngestError)
    ensures
        error@ == bound_error(code, resource@, maximum),
{
    let mut out = resource.to_owned();
    out.append(" configured bound is ");
    text::push_decimal(&mut out, maximum);
    IngestError::plain(code, 0, 0, out.as_str())
}

} // verus!
