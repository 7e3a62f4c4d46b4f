//! Options and errors of Git ingestion.

use vstd::prelude::*;
use vstd::string::*;

use crate::error;
use crate::error::{ErrorView, IngestError};
use crate::text;

verus! {

/// Default wall-clock deadline: 30 seconds, in nanoseconds.
pub const DEFAULT_TIMEOUT_NANOS: u128 = 30000000000;

pub const DEFAULT_MAX_STDERR_BYTES: u64 = 65536;

/// Longest accepted revision text.
pub const MAX_REVISION_BYTES: u64 = 4096;

/// Options controlling the fixed Git subprocess and its wire protocol.
#[derive(Clone, Debug, PartialEq, Eq)]
pub struct GitOptions {
    /// Git executable to invoke.  It is never interpreted as shell text.
    pub executable: String,
    /// Wall-clock deadline for the complete child process and pipe drain, in
    /// nanoseconds.
    pub timeout_nanos: u128,
    /// Maximum diagnostic bytes accepted from stderr.
    pub max_stderr_bytes: u64,
    /// Select the author timestamp instead of the committer timestamp.
    pub author_time: bool,
    /// Optional single revision or commit-ish.
    pub revision: Option<String>,
}

impl Default for GitOptions {
    fn default() -> (options: Self)
        ensures
            options.executable@ == "git"@,
            options.timeout_nanos == DEFAULT_TIMEOUT_NANOS,
            options.max_stderr_bytes == DEFAULT_MAX_STDERR_BYTES,
            !options.author_time,
            options.revision is None,
    {
        GitOptions {
            executable: "git".to_owned(),
            timeout_nanos: DEFAULT_TIMEOUT_NANOS,
            max_stderr_bytes: DEFAULT_MAX_STDERR_BYTES,
            author_time: false,
            revision: None,
        }
    }
}

impl GitOptions {
    pub fn with_executable(self, executable: String) -> (options: Self)
        ensures
            options == (GitOptions { executable, ..self }),
    {
        GitOptions { executable, ..self }
    }

    pub fn with_timeout(self, timeout_nanos: u128) -> (options: Self)
        ensures
            options == (GitOptions { timeout_nanos, ..self }),
    {
        GitOptions { timeout_nanos, ..self }
    }

    pub fn with_max_stderr_bytes(self, bytes: u64) -> (options: Self)
        ensures
            options == (GitOptions { max_stderr_bytes: bytes, ..self }),
    {
        GitOptions { max_stderr_bytes: bytes, ..self }
    }

    pub fn with_author_time(self, author_time: bool) -> (options: Self)
        ensures
            options == (GitOptions { author_time, ..self }),
    {
        GitOptions { author_time, ..self }
    }

    pub fn with_revision(self, revision: String) -> (options: Self)
        ensures
            options == (GitOptions { revision: Some(revision), ..self }),
    {
        GitOptions { revision: Some(revision), ..self }
    }

    pub fn with_ref_name(self, revision: String) -> (options: Self)
        ensures
            options == (GitOptions { revision: Some(revision), ..self }),
    {
        self.with_revision(revision)
    }
}

/// Errors raised while validating, supervising and decoding a local Git
/// history.
#[derive(Clone, Debug, PartialEq, Eq)]
pub enum GitError {
    InvalidRepository(String),
    InvalidOptions(&'static str),
    Spawn(String),
    Io(String),
    Nonzero { status: String, stderr: String },
    Timeout { stderr: String },
    Cancelled { stderr: String },
    StdoutLimit { limit: u64 },
    StderrLimit { limit: u64 },
    MalformedOutput { offset: u64, message: &'static str },
    InvalidUtf8 { stream: &'static str, offset: u64 },
    WorkingMemoryLimit { requested: u64, limit: u64 },
    EventCountLimit { limit: u64 },
    RecordTooLarge { limit: u64 },
    Ingest(IngestError),
}

/// What a Git error says.
#[verifier::ext_equal]
pub enum GitErrorView {
    InvalidRepository(Seq<char>),
    InvalidOptions(Seq<char>),
    Spawn(Seq<char>),
    Io(Seq<char>),
    Nonzero(Seq<char>, Seq<char>),
    Timeout(Seq<char>),
    Cancelled(Seq<char>),
    StdoutLimit(u64),
    StderrLimit(u64),
    MalformedOutput(u64, Seq<char>),
    InvalidUtf8(Seq<char>, u64),
    WorkingMemoryLimit(u64, u64),
    EventCountLimit(u64),
    RecordTooLarge(u64),
    Ingest(ErrorView),
}

impl View for GitError {
    type V = GitErrorView;

    open spec fn view(&self) -> GitErrorView {
        match self {
            GitError::InvalidRepository(path) => GitErrorView::InvalidRepository(path@),
            GitError::InvalidOptions(text) => GitErrorView::InvalidOptions(text@),
            GitError::Spawn(text) => GitErrorView::Spawn(text@),
            GitError::Io(text) => GitErrorView::Io(text@),
            GitError::Nonzero { status, stderr } => GitErrorView::Nonzero(status@, stderr@),
            GitError::Timeout { stderr } => GitErrorView::Timeout(stderr@),
            GitError::Cancelled { stderr } => GitErrorView::Cancelled(stderr@),
            GitError::StdoutLimit { limit } => GitErrorView::StdoutLimit(*limit),
            GitError::StderrLimit { limit } => GitErrorView::StderrLimit(*limit),
            GitError::MalformedOutput { offset, message } => GitErrorView::MalformedOutput(
                *offset,
                message@,
            ),
            GitError::InvalidUtf8 { stream, offset } => GitErrorView::InvalidUtf8(stream@, *offset),
            GitError::WorkingMemoryLimit { requested, limit } => GitErrorView::WorkingMemoryLimit(
                *requested,
                *limit,
            ),
            GitError::EventCountLimit { limit } => GitErrorView::EventCountLimit(*limit),
            GitError::RecordTooLarge { limit } => GitErrorView::RecordTooLarge(*limit),
            GitError::Ingest(error) => GitErrorView::Ingest(error@),
        }
    }
}

/// The text of a Git error.
pub open spec fn git_error_text(e: GitErrorView) -> Seq<char> {
    match e {
        GitErrorView::InvalidRepository(path) => "repository path is not a directory: "@ + path,
        GitErrorView::InvalidOptions(text) => "Git options are invalid: "@ + text,
        GitErrorView::Spawn(text) => "Git process could not be started: "@ + text,
        GitErrorView::Io(text) => "Git process I/O failed: "@ + text,
        GitErrorView::Nonzero(status, stderr) => "Git process exited unsuccessfully ("@ + status
            + "); stderr: "@ + stderr,
        GitErrorView::Timeout(stderr) => "Git process timed out and was killed; stderr: "@ + stderr,
        GitErrorView::Cancelled(stderr) => "Git process was cancelled and killed; stderr: "@
            + stderr,
        GitErrorView::StdoutLimit(limit) => "Git stdout exceeded the configured "@ + text::decimal(
            limit as nat,
        ) + "-byte limit"@,
        GitErrorView::StderrLimit(limit) => "Git stderr exceeded the configured "@ + text::decimal(
            limit as nat,
        ) + "-byte limit"@,
        GitErrorView::MalformedOutput(offset, message) => "malformed Git output at byte "@
            + text::decimal(offset as nat) + ": "@ + message,
        GitErrorView::InvalidUtf8(stream, offset) => "Git output is not valid UTF-8 at byte "@
            + text::decimal(offset as nat) + ": "@ + stream,
        GitErrorView::WorkingMemoryLimit(requested, limit) => "Git protocol memory requirement "@
            + text::decimal(requested as nat) + " bytes exceeds configured "@ + text::decimal(
            limit as nat,
        ) + "-byte limit"@,
        GitErrorView::EventCountLimit(limit) => "Git protocol event count exceeds configured "@
            + text::decimal(limit as nat),
        GitErrorView::RecordTooLarge(limit) => "Git record exceeds configured "@ + text::decimal(
            limit as nat,
        ) + "-byte record limit"@,
        GitErrorView::Ingest(error) => "Git ingest failed: "@ + error::error_text(error),
    }
}

impl GitError {
    /// Whether the operation was cancelled, as a process or as an ingest.
    pub fn is_cancelled(&self) -> (cancelled: bool)
        ensures
            cancelled == match self@ {
                GitErrorView::Cancelled(_) => true,
                GitErrorView::Ingest(error) => error.code is Cancelled,
                _ => false,
            },
    {
        match self {
            GitError::Cancelled { stderr: _ } => true,
            GitError::Ingest(error) => error.is_cancelled(),
            _ => false,
        }
    }

    /// The error as a message.
    pub fn render(&self) -> (text: String)
        ensures
            text@ == git_error_text(self@),
    {
        let mut out = String::new();
        match self {
            GitError::InvalidRepository(path) => {
                out.append("repository path is not a directory: ");
                out.append(path.as_str());
            },
            GitError::InvalidOptions(text) => {
                out.append("Git options are invalid: ");
                out.append(text);
            },
            GitError::Spawn(text) => {
                out.append("Git process could not be started: ");
                out.append(text.as_str());
            },
            GitError::Io(text) => {
                out.append("Git process I/O failed: ");
                out.append(text.as_str());
            },
            GitError::Nonzero { status, stderr } => {
                out.append("Git process exited unsuccessfully (");
                out.append(status.as_str());
                out.append("); stderr: ");
                out.append(stderr.as_str());
            },
            GitError::Timeout { stderr } => {
                out.append("Git process timed out and was killed; stderr: ");
                out.append(stderr.as_str());
            },
            GitError::Cancelled { stderr } => {
                out.append("Git process was cancelled and killed; stderr: ");
                out.append(stderr.as_str());
            },
            GitError::StdoutLimit { limit } => {
                out.append("Git stdout exceeded the configured ");
                text::push_decimal(&mut out, *limit);
                out.append("-byte limit");
            },
            GitError::StderrLimit { limit } => {
                out.append("Git stderr exceeded the configured ");
                text::push_decimal(&mut out, *limit);
                out.append("-byte limit");
            },
            GitError::MalformedOutput { offset, message } => {
                out.append("malformed Git output at byte ");
                text::push_decimal(&mut out, *offset);
                out.append(": ");
                out.append(message);
            },
            GitError::InvalidUtf8 { stream, offset } => {
                out.append("Git output is not valid UTF-8 at byte ");
                text::push_decimal(&mut out, *offset);
                out.append(": ");
                out.append(stream);
            },
            GitError::WorkingMemoryLimit { requested, limit } => {
                out.append("Git protocol memory requirement ");
                text::push_decimal(&mut out, *requested);
                out.append(" bytes exceeds configured ");
                text::push_decimal(&mut out, *limit);
                out.append("-byte limit");
            },
            GitError::EventCountLimit { limit } => {
                out.append("Git protocol event count exceeds configured ");
                text::push_decimal(&mut out, *limit);
            },
            GitError::RecordTooLarge { limit } => {
                out.append("Git record exceeds configured ");
                text::push_decimal(&mut out, *limit);
                out.append("-byte record limit");
            },
            GitError::Ingest(error) => {
                out.append("Git ingest failed: ");
                out.append(error.render().as_str());
            },
        }
        assert(out@ =~= git_error_text(self@));
        out
    }
}

/// A character with the Unicode White_Space property.
pub open spec fn is_white_space(c: char) -> bool {
    ||| '\u{9}' <= c <= '\u{d}'
    ||| c == ' '
    ||| c == '\u{85}'
    ||| c == '\u{a0}'
    ||| c == '\u{1680}'
    ||| '\u{2000}' <= c <= '\u{200a}'
    ||| c == '\u{2028}'
    ||| c == '\u{2029}'
    ||| c == '\u{202f}'
    ||| c == '\u{205f}'
    ||| c == '\u{3000}'
}

fn white_space(c: char) -> (white: bool)
    ensures
        white == is_white_space(c),
{
    ('\u{9}' <= c && c <= '\u{d}') || c == ' ' || c == '\u{85}' || c == '\u{a0}' || c == '\u{1680}'
        || ('\u{2000}' <= c && c <= '\u{200a}') || c == '\u{2028}' || c == '\u{2029}' || c
        == '\u{202f}' || c == '\u{205f}' || c == '\u{3000}'
}

/// A revision is one commit-ish and neither an option, a range nor a path.
pub open spec fn is_commitish(revision: Seq<char>) -> bool {
    &&& revision.len() > 0
    &&& revision[0] != '-'
    &&& forall|i: int| 0 <= i < revision.len() ==> !refused_at(revision, i)
}

/// A character, or a pair of dots, that no commit-ish holds.
pub open spec fn refused_at(revision: Seq<char>, i: int) -> bool {
    ||| revision[i] == '\0'
    ||| revision[i] == ':'
    ||| is_white_space(revision[i])
    ||| i + 1 < revision.len() && revision[i] == '.' && revision[i + 1] == '.'
}

fn check_commitish(revision: &str) -> (ok: bool)
    ensures
        ok == is_commitish(revision@),
{
    let length: usize = revision.unicode_len();
    if length == 0 || revision.get_char(0) == '-' {
        return false;
    }
    let mut index: usize = 0;
    while index < length
        invariant
            index <= length == revision@.len(),
            forall|i: int| 0 <= i < index ==> !refused_at(revision@, i),
        decreases length - index,
    {
        let c = revision.get_char(index);
        let dots = c == '.' && index + 1 < length && revision.get_char(index + 1) == '.';
        if c == '\0' || c == ':' || white_space(c) || dots {
            assert(refused_at(revision@, index as int));
            return false;
        }
        index = index + 1;
    }
    true
}

impl GitOptions {
    /// Why options are refused.
    pub open spec fn fault(&self) -> Option<GitErrorView> {
        if self.executable@.len() == 0 {
            Some(GitErrorView::InvalidOptions("the Git executable path cannot be empty"@))
        } else if self.timeout_nanos == 0 {
            Some(GitErrorView::InvalidOptions("the Git timeout must be positive"@))
        } else if self.max_stderr_bytes == 0 {
            Some(GitErrorView::InvalidOptions("the Git stderr limit must be positive"@))
        } else {
            match self.revision {
                None => None,
                Some(revision) => if text::string_bytes(revision).len() > MAX_REVISION_BYTES {
                    Some(
                        GitErrorView::InvalidOptions(
                            "the Git revision exceeds the 4096-byte limit"@,
                        ),
                    )
                } else if !is_commitish(revision@) {
                    Some(
                        GitErrorView::InvalidOptions(
                            "the Git revision must be one non-option commit-ish"@,
                        ),
                    )
                } else {
                    None
                },
            }
        }
    }
}

/// Checks options before any process is started.
pub fn validate_git_options(options: &GitOptions) -> (result: Result<(), GitError>)
    ensures
        match result {
            Ok(()) => options.fault() is None,
            Err(e) => options.fault() == Some(e@),
        },
{
    if options.executable.as_str().unicode_len() == 0 {
        return Err(GitError::InvalidOptions("the Git executable path cannot be empty"));
    }
    if options.timeout_nanos == 0 {
        return Err(GitError::InvalidOptions("the Git timeout must be positive"));
    }
    if options.max_stderr_bytes == 0 {
        return Err(GitError::InvalidOptions("the Git stderr limit must be positive"));
    }
    if let Some(revision) = &options.revision {
        if revision.as_str().as_bytes().len() as u64 > MAX_REVISION_BYTES {
            return Err(GitError::InvalidOptions("the Git revision exceeds the 4096-byte limit"));
        }
        if !check_commitish(revision.as_str()) {
            return Err(
                GitError::InvalidOptions("the Git revision must be one non-option commit-ish"),
            );
        }
    }
    Ok(())
}

} // verus!
