//! Decisions about Git processes: what they are started with, when they are
//! given up, and what their output means.

use vstd::prelude::*;
use vstd::slice::slice_subrange;
use vstd::string::*;
use vstd::utf8::*;

use crate::git_options::{GitError, GitErrorView, GitOptions, MAX_REVISION_BYTES};
use crate::git_protocol;
use crate::limits;
use crate::limits::{parser_working_memory_bytes, IngestLimits};
use crate::runs::put_bytes;
use crate::sorting;
use crate::text;

verus! {

/// The text that bytes stand for, with replacements for what is not UTF-8.
pub uninterp spec fn lossy_chars(bytes: Seq<u8>) -> Seq<char>;

/// `String::from_utf8_lossy` gives the text of the bytes.  Bytes that are
/// valid UTF-8 give exactly the text that they encode; what the replacement
/// of other bytes looks like is left to the name.
#[verifier::external_body]
fn lossy_text(bytes: &[u8]) -> (text: String)
    ensures
        text@ == lossy_chars(bytes@),
        valid_utf8(bytes@) ==> encode_utf8(text@) == bytes@,
{
    String::from_utf8_lossy(bytes).into_owned()
}

/// The text of diagnostics.
pub fn bounded_stderr_text(bytes: &[u8]) -> (text: String)
    ensures
        text@ == lossy_chars(bytes@),
        valid_utf8(bytes@) ==> encode_utf8(text@) == bytes@,
{
    lossy_text(bytes)
}

/// One of the two output streams of a process.
#[derive(Clone, Copy, Debug, PartialEq, Eq, Structural)]
pub enum StreamKind {
    Stdout,
    Stderr,
}

/// The bytes read from a stream after another read, while they stay within
/// its limit.
pub fn reader_total(total: u64, read: usize, limit: u64) -> (next: Option<u64>)
    requires
        total <= limit,
    ensures
        next is Some <==> total + read <= limit,
        next matches Some(n) ==> n == total + read,
{
    if read as u64 > limit - total {
        None
    } else {
        Some(total + read as u64)
    }
}

/// What a supervisor hears about a process.
pub enum ProcessEvent {
    /// A stream gave bytes.
    Data(StreamKind, Vec<u8>),
    /// A stream has ended.
    Eof(StreamKind),
    /// A stream went beyond its limit.
    Limit(StreamKind, u64),
    /// A stream could not be read.
    Failed(String),
    /// Both readers are gone.
    Disconnected,
    /// Nothing was heard.
    Quiet,
}

/// What a supervisor does next.
pub enum SupervisorStep {
    /// The process is over and all output was read.
    Finish,
    /// The process is killed and the operation fails.
    Fail(GitError),
    /// Output is complete; the exit of the process is awaited.
    AwaitExit,
    /// The next event is awaited.
    AwaitEvent,
}

/// The state of a supervised process.
#[verifier::ext_equal]
pub struct SupervisorView {
    pub stdout_bytes: int,
    pub stderr: Seq<u8>,
    pub stdout_done: bool,
    pub stderr_done: bool,
    pub readers_gone: bool,
}

/// Supervises one process.
pub struct Supervisor {
    stdout_limit: u64,
    stderr_limit: u64,
    stdout_bytes: u64,
    stderr: Vec<u8>,
    stdout_done: bool,
    stderr_done: bool,
    readers_gone: bool,
}

impl View for Supervisor {
    type V = SupervisorView;

    closed spec fn view(&self) -> SupervisorView {
        SupervisorView {
            stdout_bytes: self.stdout_bytes as int,
            stderr: self.stderr@,
            stdout_done: self.stdout_done,
            stderr_done: self.stderr_done,
            readers_gone: self.readers_gone,
        }
    }
}

/// The step that the state of a process calls for.  Cancellation comes before
/// the deadline, and the deadline before success.
pub open spec fn supervisor_step(
    s: SupervisorView,
    cancelled: bool,
    expired: bool,
    exited: bool,
) -> StepView {
    if cancelled {
        StepView::Fail(GitErrorView::Cancelled(lossy_chars(s.stderr)))
    } else if expired {
        StepView::Fail(GitErrorView::Timeout(lossy_chars(s.stderr)))
    } else if s.stdout_done && s.stderr_done && exited {
        StepView::Finish
    } else if s.readers_gone && !(s.stdout_done && s.stderr_done) {
        StepView::Fail(GitErrorView::Io("Git output readers disconnected"@))
    } else if s.readers_gone {
        StepView::AwaitExit
    } else {
        StepView::AwaitEvent
    }
}

/// What a supervisor step is.
#[verifier::ext_equal]
pub enum StepView {
    Finish,
    Fail(GitErrorView),
    AwaitExit,
    AwaitEvent,
}

impl View for SupervisorStep {
    type V = StepView;

    open spec fn view(&self) -> StepView {
        match self {
            SupervisorStep::Finish => StepView::Finish,
            SupervisorStep::Fail(e) => StepView::Fail(e@),
            SupervisorStep::AwaitExit => StepView::AwaitExit,
            SupervisorStep::AwaitEvent => StepView::AwaitEvent,
        }
    }
}

/// The state after an event, or the error that it means.
pub open spec fn event_heard(
    s: SupervisorView,
    event: ProcessEvent,
    stdout_limit: u64,
    stderr_limit: u64,
) -> Result<SupervisorView, GitErrorView> {
    match event {
        ProcessEvent::Data(StreamKind::Stdout, bytes) => if s.stdout_bytes + bytes@.len()
            > stdout_limit {
            Err(GitErrorView::StdoutLimit(stdout_limit))
        } else {
            Ok(SupervisorView { stdout_bytes: s.stdout_bytes + bytes@.len(), ..s })
        },
        ProcessEvent::Data(StreamKind::Stderr, bytes) => if s.stderr.len() + bytes@.len()
            > stderr_limit {
            Err(GitErrorView::StderrLimit(stderr_limit))
        } else {
            Ok(SupervisorView { stderr: s.stderr + bytes@, ..s })
        },
        ProcessEvent::Eof(StreamKind::Stdout) => Ok(SupervisorView { stdout_done: true, ..s }),
        ProcessEvent::Eof(StreamKind::Stderr) => Ok(SupervisorView { stderr_done: true, ..s }),
        ProcessEvent::Limit(StreamKind::Stdout, limit) => Err(GitErrorView::StdoutLimit(limit)),
        ProcessEvent::Limit(StreamKind::Stderr, limit) => Err(GitErrorView::StderrLimit(limit)),
        ProcessEvent::Failed(text) => Err(GitErrorView::Io(text@)),
        ProcessEvent::Disconnected => Ok(SupervisorView { readers_gone: true, ..s }),
        ProcessEvent::Quiet => Ok(s),
    }
}

impl Supervisor {
    /// The limits of the two streams.
    pub closed spec fn stream_limits(&self) -> (u64, u64) {
        (self.stdout_limit, self.stderr_limit)
    }

    /// What was read stays within the limits.
    pub closed spec fn wf(&self) -> bool {
        self.stdout_bytes <= self.stdout_limit && self.stderr@.len() <= self.stderr_limit
    }

    /// Output never exceeds its limits.
    pub proof fn stays_within_limits(&self)
        requires
            self.wf(),
        ensures
            self@.stdout_bytes <= self.stream_limits().0,
            self@.stderr.len() <= self.stream_limits().1,
    {
    }

    /// Starts supervising a process.
    pub fn new(stdout_limit: u64, stderr_limit: u64) -> (supervisor: Self)
        ensures
            supervisor.wf(),
            supervisor.stream_limits() == (stdout_limit, stderr_limit),
            supervisor@ == (SupervisorView {
                stdout_bytes: 0,
                stderr: Seq::empty(),
                stdout_done: false,
                stderr_done: false,
                readers_gone: false,
            }),
    {
        Supervisor {
            stdout_limit,
            stderr_limit,
            stdout_bytes: 0,
            stderr: Vec::new(),
            stdout_done: false,
            stderr_done: false,
            readers_gone: false,
        }
    }

    /// Decides what comes next.
    pub fn step(&self, cancelled: bool, expired: bool, exited: bool) -> (step: SupervisorStep)
        ensures
            step@ == supervisor_step(self@, cancelled, expired, exited),
    {
        if cancelled {
            return SupervisorStep::Fail(
                GitError::Cancelled { stderr: bounded_stderr_text(self.stderr.as_slice()) },
            );
        }
        if expired {
            return SupervisorStep::Fail(
                GitError::Timeout { stderr: bounded_stderr_text(self.stderr.as_slice()) },
            );
        }
        if self.stdout_done && self.stderr_done && exited {
            return SupervisorStep::Finish;
        }
        if self.readers_gone {
            if !self.stdout_done || !self.stderr_done {
                return SupervisorStep::Fail(
                    GitError::Io("Git output readers disconnected".to_owned()),
                );
            }
            return SupervisorStep::AwaitExit;
        }
        SupervisorStep::AwaitEvent
    }

    /// Takes an event.
    pub fn hear(&mut self, event: &ProcessEvent) -> (result: Result<(), GitError>)
        requires
            old(self).wf(),
        ensures
            final(self).stream_limits() == old(self).stream_limits(),
            ({
                let outcome = event_heard(
                    old(self)@,
                    *event,
                    old(self).stream_limits().0,
                    old(self).stream_limits().1,
                );
                match result {
                    Ok(()) => final(self).wf() && outcome == Ok::<SupervisorView, GitErrorView>(
                        final(self)@,
                    ),
                    Err(e) => outcome == Err::<SupervisorView, GitErrorView>(e@),
                }
            }),
    {
        match event {
            ProcessEvent::Data(StreamKind::Stdout, bytes) => {
                match reader_total(self.stdout_bytes, bytes.len(), self.stdout_limit) {
                    Some(next) => {
                        self.stdout_bytes = next;
                        Ok(())
                    },
                    None => Err(GitError::StdoutLimit { limit: self.stdout_limit }),
                }
            },
            ProcessEvent::Data(StreamKind::Stderr, bytes) => {
                assert(self.stderr.len() == self.stderr@.len());
                match reader_total(self.stderr.len() as u64, bytes.len(), self.stderr_limit) {
                    Some(_) => {
                        put_bytes(&mut self.stderr, bytes.as_slice());
                        Ok(())
                    },
                    None => Err(GitError::StderrLimit { limit: self.stderr_limit }),
                }
            },
            ProcessEvent::Eof(StreamKind::Stdout) => {
                self.stdout_done = true;
                Ok(())
            },
            ProcessEvent::Eof(StreamKind::Stderr) => {
                self.stderr_done = true;
                Ok(())
            },
            ProcessEvent::Limit(StreamKind::Stdout, limit) => Err(
                GitError::StdoutLimit { limit: *limit },
            ),
            ProcessEvent::Limit(StreamKind::Stderr, limit) => Err(
                GitError::StderrLimit { limit: *limit },
            ),
            ProcessEvent::Failed(text) => Err(GitError::Io(text::copy_string(text))),
            ProcessEvent::Disconnected => {
                self.readers_gone = true;
                Ok(())
            },
            ProcessEvent::Quiet => Ok(()),
        }
    }

    /// Bytes of standard output so far.
    pub fn stdout_bytes(&self) -> (bytes: u64)
        ensures
            bytes == self@.stdout_bytes,
    {
        self.stdout_bytes
    }

    /// Diagnostics so far.
    pub fn stderr(&self) -> (bytes: &[u8])
        ensures
            bytes@ == self@.stderr,
    {
        self.stderr.as_slice()
    }
}

/// A process is finished only when both streams have ended and it has exited.
pub proof fn success_needs_everything(
    s: SupervisorView,
    cancelled: bool,
    expired: bool,
    exited: bool,
)
    ensures
        supervisor_step(s, cancelled, expired, exited) == StepView::Finish <==> !cancelled
            && !expired && exited && s.stdout_done && s.stderr_done,
{
}

pub open spec fn least(a: u64, b: u64) -> u64 {
    if a < b {
        a
    } else {
        b
    }
}

/// The diagnostics limit that a run obeys.
pub fn effective_stderr_limit(options: &GitOptions, limits: &IngestLimits) -> (result: Result<
    u64,
    GitError,
>)
    ensures
        ({
            let limit = least(
                least(options.max_stderr_bytes, limits.max_input_bytes),
                limits.working_memory_bytes,
            );
            match result {
                Ok(l) => l == limit && l > 0,
                Err(e) => limit == 0 && e@ == GitErrorView::InvalidOptions(
                    "the effective Git stderr limit must be positive"@,
                ),
            }
        }),
{
    let mut limit: u64 = options.max_stderr_bytes;
    if limits.max_input_bytes <= limit {
        limit = limits.max_input_bytes;
    }
    if limits.working_memory_bytes <= limit {
        limit = limits.working_memory_bytes;
    }
    if limit == 0 {
        return Err(GitError::InvalidOptions("the effective Git stderr limit must be positive"));
    }
    Ok(limit)
}

/// How much output a revision probe may give.
pub fn probe_output_limit(limits: &IngestLimits) -> (limit: u64)
    ensures
        limit == least(limits.max_input_bytes, 4096),
{
    if limits.max_input_bytes < 4096 {
        limits.max_input_bytes
    } else {
        4096
    }
}

/// Why a revision is too long to be asked for.
pub open spec fn selector_fault(revision: Seq<char>, limits: IngestLimits) -> Option<GitErrorView> {
    let length = encode_utf8(revision).len() + 9;
    let limit = limits::parser_share(limits.working_memory_bytes);
    if length > MAX_REVISION_BYTES || length > limit {
        Some(GitErrorView::WorkingMemoryLimit(sorting::sat(length as int), limit))
    } else {
        None
    }
}

/// The selector that asks for the commit of a revision.
pub fn commit_selector(revision: &str, limits: &IngestLimits) -> (result: Result<String, GitError>)
    ensures
        match result {
            Ok(selector) => selector_fault(revision@, *limits) is None && selector@ == revision@
                + "^{commit}"@,
            Err(e) => selector_fault(revision@, *limits) == Some(e@),
        },
{
    let limit: u64 = parser_working_memory_bytes(limits.working_memory_bytes);
    let length: u64 = (revision.as_bytes().len() as u64).saturating_add(9);
    if length > MAX_REVISION_BYTES || length > limit {
        return Err(GitError::WorkingMemoryLimit { requested: length, limit });
    }
    let mut selector = revision.to_owned();
    selector.append("^{commit}");
    Ok(selector)
}

/// A hexadecimal digit of either case.
pub open spec fn is_hex(byte: u8) -> bool {
    0x30 <= byte <= 0x39 || 0x41 <= byte <= 0x46 || 0x61 <= byte <= 0x66
}

/// A full object identity: 40 or 64 hexadecimal digits.
pub open spec fn is_object_id(id: Seq<u8>) -> bool {
    (id.len() == 40 || id.len() == 64) && forall|i: int| 0 <= i < id.len() ==> is_hex(#[trigger] id[i])
}

fn all_hex(bytes: &[u8]) -> (all: bool)
    ensures
        all == forall|i: int| 0 <= i < bytes@.len() ==> is_hex(#[trigger] bytes@[i]),
{
    let mut index: usize = 0;
    while index < bytes.len()
        invariant
            index <= bytes@.len(),
            forall|i: int| 0 <= i < index ==> is_hex(#[trigger] bytes@[i]),
        decreases bytes@.len() - index,
    {
        let byte: u8 = bytes[index];
        if !((0x30 <= byte && byte <= 0x39) || (0x41 <= byte && byte <= 0x46) || (0x61 <= byte
            && byte <= 0x66)) {
            assert(!is_hex(bytes@[index as int]));
            return false;
        }
        index = index + 1;
    }
    true
}

/// Why the output of `rev-parse` is not one object identity.
pub open spec fn revision_fault(output: Seq<u8>) -> Option<GitErrorView> {
    if !valid_utf8(output) {
        Some(GitErrorView::InvalidUtf8("revision"@, 0))
    } else if output.len() == 0 || output.last() != 0x0a {
        Some(GitErrorView::MalformedOutput(output.len() as u64, "rev-parse output lacks LF"@))
    } else if !is_object_id(output.drop_last()) {
        Some(
            GitErrorView::MalformedOutput(
                0,
                "rev-parse did not return exactly one full object id"@,
            ),
        )
    } else {
        None
    }
}

/// The output of `rev-parse` is one object identity and a line feed.
pub open spec fn names_object(output: Seq<u8>, id: Seq<char>) -> bool {
    revision_fault(output) is None && encode_utf8(id) == output.drop_last()
}

/// The object identity that `rev-parse` printed.
pub fn resolved_revision(output: &[u8]) -> (result: Result<String, GitError>)
    ensures
        match result {
            Ok(id) => names_object(output@, id@),
            Err(e) => revision_fault(output@) == Some(e@),
        },
{
    if text::utf8_text(output).is_none() {
        return Err(GitError::InvalidUtf8 { stream: "revision", offset: 0 });
    }
    assert(output.len() == output@.len());
    if output.len() == 0 || output[output.len() - 1] != 0x0a {
        return Err(git_protocol::malformed(output.len() as u64, "rev-parse output lacks LF"));
    }
    let id = slice_subrange(output, 0, output.len() - 1);
    proof {
        assert(id@ =~= output@.drop_last());
        text::valid_utf8_between_boundaries(output@, 0, output@.len() - 1);
    }
    if !(id.len() == 40 || id.len() == 64) || !all_hex(id) {
        return Err(
            git_protocol::malformed(0, "rev-parse did not return exactly one full object id"),
        );
    }
    match text::string_from_bytes(id) {
        Some(id) => Ok(id),
        None => {
            assert(false);
            Err(GitError::InvalidUtf8 { stream: "revision", offset: 0 })
        },
    }
}

/// `refs/heads/`.
pub open spec fn heads_prefix() -> Seq<u8> {
    seq![
        0x72u8, 0x65u8, 0x66u8, 0x73u8, 0x2fu8, 0x68u8, 0x65u8, 0x61u8, 0x64u8, 0x73u8, 0x2fu8,
    ]
}

/// The branch that a symbolic `HEAD` names, if it names one.
pub open spec fn head_branch(output: Seq<u8>) -> Option<Seq<u8>> {
    if output.len() > 12 && output.last() == 0x0a && output.take(11) == heads_prefix() {
        Some(output.drop_last().skip(11))
    } else {
        None
    }
}

/// The output of `symbolic-ref` names a branch.
pub open spec fn names_branch(output: Seq<u8>, branch: Seq<char>) -> bool {
    valid_utf8(output) && head_branch(output) == Some(encode_utf8(branch))
}

/// The error of output that names no branch: an earlier error stands, unless
/// the output is not text.
pub open spec fn head_fault(output: Seq<u8>, earlier: GitErrorView) -> Option<GitErrorView> {
    if !valid_utf8(output) {
        Some(GitErrorView::InvalidUtf8("HEAD"@, 0))
    } else if head_branch(output) is None {
        Some(earlier)
    } else {
        None
    }
}

/// Reads the branch out of what `symbolic-ref` printed.
pub fn symbolic_branch(output: &[u8]) -> (result: Result<Option<String>, GitError>)
    ensures
        match result {
            Ok(Some(branch)) => names_branch(output@, branch@),
            Ok(None) => valid_utf8(output@) && head_branch(output@) is None,
            Err(e) => !valid_utf8(output@) && e@ == GitErrorView::InvalidUtf8("HEAD"@, 0),
        },
{
    if text::utf8_text(output).is_none() {
        return Err(GitError::InvalidUtf8 { stream: "HEAD", offset: 0 });
    }
    if output.len() <= 12 || output[output.len() - 1] != 0x0a {
        return Ok(None);
    }
    let prefix: [u8; 11] = [
        0x72, 0x65, 0x66, 0x73, 0x2f, 0x68, 0x65, 0x61, 0x64, 0x73, 0x2f,
    ];
    assert(prefix@ =~= heads_prefix());
    let front = slice_subrange(output, 0, 11);
    assert(front@ =~= output@.take(11));
    if !text::same_bytes(front, prefix.as_slice()) {
        return Ok(None);
    }
    let branch = slice_subrange(output, 11, output.len() - 1);
    proof {
        assert(branch@ =~= output@.drop_last().skip(11));
        assert(output@[10] == output@.take(11)[10]);
        prefix_ends_at_boundary(output@);
        text::valid_utf8_between_boundaries(output@, 11, output@.len() - 1);
        assert(output@.subrange(11, output@.len() - 1) =~= branch@);
    }
    match text::string_from_bytes(branch) {
        Some(branch) => Ok(Some(branch)),
        None => {
            assert(false);
            Ok(None)
        },
    }
}

/// After the ASCII prefix a new character starts.
proof fn prefix_ends_at_boundary(output: Seq<u8>)
    requires
        valid_utf8(output),
        output.len() > 11,
        output.take(11) == heads_prefix(),
    ensures
        !is_continuation_byte(output[11]),
{
    assert forall|i: int| 0 <= i < 11 implies output[i] < 0x80 by {
        assert(output[i] == output.take(11)[i]);
    }
    ascii_prefix_pops(output, 11);
}

proof fn ascii_prefix_pops(bytes: Seq<u8>, count: int)
    requires
        valid_utf8(bytes),
        0 <= count < bytes.len(),
        forall|i: int| 0 <= i < count ==> bytes[i] < 0x80,
    ensures
        !is_continuation_byte(bytes[count]),
    decreases count,
{
    if count > 0 {
        assert(bytes[0] < 0x80);
        assert(length_of_first_scalar(bytes) == 1);
        assert(pop_first_scalar(bytes) =~= bytes.skip(1));
        let rest = bytes.skip(1);
        assert forall|i: int| 0 <= i < count - 1 implies rest[i] < 0x80 by {
            assert(rest[i] == bytes[i + 1]);
        }
        ascii_prefix_pops(rest, count - 1);
        assert(rest[count - 1] == bytes[count]);
    }
}

/// What `show-ref` says of the branch of a symbolic `HEAD`.
#[derive(Clone, Copy, Debug, PartialEq, Eq, Structural)]
pub enum BranchState {
    Born,
    Unborn,
    Unknown,
}

/// A missing branch makes `HEAD` unborn; only the documented exit code says
/// that it is missing.
pub fn branch_state(success: bool, code: Option<i32>) -> (state: BranchState)
    ensures
        state == if success {
            BranchState::Born
        } else if code == Some(1i32) {
            BranchState::Unborn
        } else {
            BranchState::Unknown
        },
{
    if success {
        BranchState::Born
    } else {
        match code {
            Some(code) => {
                if code == 1 {
                    BranchState::Unborn
                } else {
                    BranchState::Unknown
                }
            },
            None => BranchState::Unknown,
        }
    }
}

} // verus!
