//! The machine protocol of `git log`.
//!
//! Commits are framed by a marker, a timestamp and an author, each ended by a
//! NUL.  A commit with changes continues after an LF with raw metadata and
//! path pairs; an empty NUL field separates commits.

use vstd::prelude::*;
use vstd::slice::slice_subrange;
use vstd::string::*;
use vstd::utf8::*;

use crate::charges;
use crate::error;
use crate::error::{working_memory_error, ErrorCode, IngestError};
use crate::git_options::{GitError, GitErrorView};
use crate::limits::IngestLimits;
use crate::lines;
use crate::merge;
use crate::options::IngestOptions;
use crate::order;
use crate::parser::ParsedInput;
use crate::record;
use crate::record::{NormalizedRecord, ParsedAction, RecordView};
use crate::runs;
use crate::sorting;
use crate::sorting::RECORD_SLOT_BYTES;
use crate::text;
use crate::timestamp;

verus! {

/// What the protocol expects next.
#[derive(Clone, Copy, Debug, PartialEq, Eq, Structural)]
pub enum ProtocolPhase {
    Marker,
    Timestamp,
    Author,
    HeaderLf,
    PostHeader,
    Path,
    PostRecord,
    ExpectMarker,
}

/// `GOURCE-COMMIT`.
pub open spec fn commit_marker() -> Seq<u8> {
    seq![
        0x47u8, 0x4fu8, 0x55u8, 0x52u8, 0x43u8, 0x45u8, 0x2du8, 0x43u8, 0x4fu8, 0x4du8, 0x4du8,
        0x49u8, 0x54u8,
    ]
}

/// The state of a protocol parser.
#[verifier::ext_equal]
pub struct ProtocolView {
    pub phase: ProtocolPhase,
    pub timestamp: i64,
    pub username: Seq<u8>,
    pub metadata: Seq<u8>,
    /// Bytes of the field that is being read.
    pub pending: Seq<u8>,
    pub records: Seq<RecordView>,
}

pub open spec fn initial_protocol() -> ProtocolView {
    ProtocolView {
        phase: ProtocolPhase::Marker,
        timestamp: 0,
        username: Seq::empty(),
        metadata: Seq::empty(),
        pending: Seq::empty(),
        records: Seq::empty(),
    }
}

impl ProtocolView {
    /// The line that errors give: one more than the records so far.
    pub open spec fn line(self) -> u64 {
        sorting::sat(self.records.len() as int + 1)
    }

    /// Memory that the parser holds.
    pub open spec fn usage(self) -> int {
        sorting::records_memory(self.records) + self.pending.len() + self.username.len()
            + self.metadata.len()
    }

    /// The error when more memory is needed than the limit allows.
    pub open spec fn extra_fault(self, extra: int, offset: u64, limit: u64) -> Option<GitErrorView> {
        let requested = sorting::sat(self.usage() + extra);
        if requested > limit {
            Some(
                GitErrorView::Ingest(error::memory_error(requested, limit, self.line(), offset)),
            )
        } else {
            None
        }
    }

    /// An ingest error about the current record.
    pub open spec fn record_fault(
        self,
        code: ErrorCode,
        context: Seq<u8>,
        offset: u64,
        message: Seq<char>,
    ) -> GitErrorView {
        GitErrorView::Ingest(
            record::record_error(code, context, self.line(), offset, message),
        )
    }
}

/// The longest field that a phase accepts.
pub open spec fn phase_limit(phase: ProtocolPhase, limits: IngestLimits) -> u64 {
    match phase {
        ProtocolPhase::Marker => 13,
        ProtocolPhase::ExpectMarker => 13,
        ProtocolPhase::Timestamp => 32,
        ProtocolPhase::Author => limits.max_contributor_bytes,
        ProtocolPhase::HeaderLf => 0,
        ProtocolPhase::PostHeader => limits.max_record_bytes,
        ProtocolPhase::PostRecord => limits.max_record_bytes,
        ProtocolPhase::Path => limits.max_path_bytes,
    }
}

/// The error of a field that is too long for its phase.
pub open spec fn field_limit_fault(p: ProtocolView, offset: u64) -> GitErrorView {
    match p.phase {
        ProtocolPhase::Author => p.record_fault(
            ErrorCode::ContributorTooLong,
            p.pending,
            offset,
            "contributor exceeds configured byte limit"@,
        ),
        ProtocolPhase::PostHeader => p.record_fault(
            ErrorCode::RecordTooLarge,
            p.pending,
            offset,
            "Git raw metadata exceeds configured record byte limit"@,
        ),
        ProtocolPhase::PostRecord => p.record_fault(
            ErrorCode::RecordTooLarge,
            p.pending,
            offset,
            "Git raw metadata exceeds configured record byte limit"@,
        ),
        ProtocolPhase::Path => p.record_fault(
            ErrorCode::PathTooLong,
            p.pending,
            offset,
            "path exceeds configured byte limit"@,
        ),
        _ => GitErrorView::MalformedOutput(offset, "Git protocol field exceeds its fixed bound"@),
    }
}

/// An ASCII white-space byte.
pub open spec fn is_space(byte: u8) -> bool {
    byte == 0x20 || byte == 0x09 || byte == 0x0a || byte == 0x0c || byte == 0x0d
}

/// A text without the white space at its end.
pub open spec fn trimmed(s: Seq<u8>) -> Seq<u8>
    decreases s.len(),
{
    if s.len() > 0 && is_space(s.last()) {
        trimmed(s.drop_last())
    } else {
        s
    }
}

/// What follows the last white space of a text.
pub open spec fn last_word(s: Seq<u8>) -> Seq<u8>
    decreases s.len(),
{
    if s.len() == 0 || is_space(s.last()) {
        Seq::empty()
    } else {
        last_word(s.drop_last()).push(s.last())
    }
}

/// The last white-space separated field of raw metadata.
pub open spec fn status_field(metadata: Seq<u8>) -> Seq<u8> {
    last_word(trimmed(metadata))
}

/// The action that raw metadata gives.
pub open spec fn metadata_action(metadata: Seq<u8>, offset: u64) -> Result<
    ParsedAction,
    GitErrorView,
> {
    let status = status_field(metadata);
    if status.len() == 0 {
        Err(GitErrorView::MalformedOutput(offset, "raw metadata has no status"@))
    } else if status.len() != 1 {
        Err(
            GitErrorView::MalformedOutput(
                offset,
                "renamed or scored raw statuses are unsupported"@,
            ),
        )
    } else if status[0] == 0x41 {
        Ok(ParsedAction::Add)
    } else if status[0] == 0x4d {
        Ok(ParsedAction::Modify)
    } else if status[0] == 0x44 {
        Ok(ParsedAction::Delete)
    } else {
        Err(GitErrorView::MalformedOutput(offset, "raw status must be add, modify, or delete"@))
    }
}

/// A byte that record paths cannot hold.
pub open spec fn is_forbidden(byte: u8) -> bool {
    byte == 0 || byte == 0x7c || byte == 0x0a || byte == 0x0d
}

pub open spec fn holds_forbidden(path: Seq<u8>) -> bool {
    exists|i: int| 0 <= i < path.len() && is_forbidden(#[trigger] path[i])
}

/// The record of a changed path.
pub open spec fn path_record(
    p: ProtocolView,
    path: Seq<u8>,
    action: ParsedAction,
    offset: u64,
) -> RecordView {
    RecordView {
        timestamp: p.timestamp,
        username: p.username,
        action,
        path,
        is_directory: false,
        colour: None,
        source_sequence: p.records.len() as u64,
        line: p.line(),
        byte_offset: offset,
    }
}

/// Why a path field cannot become a record; its action otherwise.
pub open spec fn path_checked(
    p: ProtocolView,
    path: Seq<u8>,
    offset: u64,
    limits: IngestLimits,
) -> Result<ParsedAction, GitErrorView> {
    if p.metadata.len() + 1 + path.len() + 1 > limits.max_record_bytes {
        Err(
            p.record_fault(
                ErrorCode::RecordTooLarge,
                path,
                offset,
                "Git raw record exceeds configured byte limit"@,
            ),
        )
    } else if metadata_action(p.metadata, offset) is Err {
        metadata_action(p.metadata, offset)
    } else if !valid_utf8(path) {
        Err(GitErrorView::InvalidUtf8("path"@, offset))
    } else if path.len() == 0 {
        Err(
            GitErrorView::Ingest(
                error::plain_error(
                    ErrorCode::InvalidPath,
                    p.line(),
                    offset,
                    "Git path cannot be empty"@,
                ),
            ),
        )
    } else if path.len() > limits.max_path_bytes {
        Err(
            p.record_fault(
                ErrorCode::PathTooLong,
                path,
                offset,
                "path exceeds configured byte limit"@,
            ),
        )
    } else if holds_forbidden(path) {
        Err(
            p.record_fault(
                ErrorCode::InvalidPath,
                path,
                offset,
                "Git path contains a byte forbidden by the common index format"@,
            ),
        )
    } else if charges::slashes(path) + 1 > limits.max_path_components {
        Err(
            p.record_fault(
                ErrorCode::PathTooDeep,
                path,
                offset,
                "path exceeds configured component limit"@,
            ),
        )
    } else if p.records.len() >= limits.max_events {
        Err(GitErrorView::EventCountLimit(limits.max_events))
    } else {
        metadata_action(p.metadata, offset)
    }
}

/// The state after a path field.
pub open spec fn path_consumed(
    p: ProtocolView,
    path: Seq<u8>,
    offset: u64,
    limits: IngestLimits,
    limit: u64,
) -> Result<ProtocolView, GitErrorView> {
    match path_checked(p, path, offset, limits) {
        Err(e) => Err(e),
        Ok(action) => {
            let after = ProtocolView { metadata: Seq::empty(), ..p };
            let record = path_record(p, path, action, offset);
            let extra = p.metadata.len() + runs::text_size(record) + 2 * RECORD_SLOT_BYTES;
            match after.extra_fault(extra, offset, limit) {
                Some(e) => Err(e),
                None => Ok(
                    ProtocolView {
                        records: p.records.push(record),
                        phase: ProtocolPhase::PostRecord,
                        ..after
                    },
                ),
            }
        },
    }
}

/// The state after an author field.
pub open spec fn author_consumed(p: ProtocolView, token: Seq<u8>, offset: u64, limit: u64) -> Result<
    ProtocolView,
    GitErrorView,
> {
    let username = record::contributor_of(token);
    if !valid_utf8(token) {
        Err(GitErrorView::InvalidUtf8("contributor"@, offset))
    } else {
        match p.extra_fault(username.len() as int, offset, limit) {
            Some(e) => Err(e),
            None => Ok(ProtocolView { username, phase: ProtocolPhase::HeaderLf, ..p }),
        }
    }
}

/// The state after a field that ended with a NUL.
pub open spec fn token_consumed(
    p: ProtocolView,
    token: Seq<u8>,
    offset: u64,
    limits: IngestLimits,
    limit: u64,
) -> Result<ProtocolView, GitErrorView> {
    let malformed = |message: Seq<char>|
        Err::<ProtocolView, GitErrorView>(GitErrorView::MalformedOutput(offset, message));
    match p.phase {
        ProtocolPhase::Marker => marker_consumed(p, token, offset),
        ProtocolPhase::ExpectMarker => marker_consumed(p, token, offset),
        ProtocolPhase::Timestamp => if !valid_utf8(token) {
            Err(GitErrorView::InvalidUtf8("timestamp"@, offset))
        } else if token.len() == 0 {
            malformed("commit timestamp is empty"@)
        } else {
            match timestamp::signed_number_of(token) {
                None => malformed("commit timestamp is not a signed epoch"@),
                Some(timestamp) => Ok(
                    ProtocolView { timestamp, phase: ProtocolPhase::Author, ..p },
                ),
            }
        },
        ProtocolPhase::Author => author_consumed(p, token, offset, limit),
        ProtocolPhase::PostHeader => if token.len() == 0 || token[0] != 0x3a {
            malformed("expected raw metadata after commit header LF"@)
        } else {
            Ok(ProtocolView { metadata: token, phase: ProtocolPhase::Path, ..p })
        },
        ProtocolPhase::Path => path_consumed(p, token, offset, limits, limit),
        ProtocolPhase::PostRecord => if token.len() == 0 {
            Ok(ProtocolView { phase: ProtocolPhase::ExpectMarker, ..p })
        } else if token[0] == 0x3a {
            Ok(ProtocolView { metadata: token, phase: ProtocolPhase::Path, ..p })
        } else {
            malformed("expected raw metadata or commit separator"@)
        },
        ProtocolPhase::HeaderLf => malformed("unexpected NUL before commit header LF"@),
    }
}

pub open spec fn marker_consumed(p: ProtocolView, token: Seq<u8>, offset: u64) -> Result<
    ProtocolView,
    GitErrorView,
> {
    if token != commit_marker() {
        Err(GitErrorView::MalformedOutput(offset, "expected GOURCE-COMMIT marker"@))
    } else {
        Ok(
            ProtocolView {
                username: Seq::empty(),
                metadata: Seq::empty(),
                phase: ProtocolPhase::Timestamp,
                ..p
            },
        )
    }
}

/// The state after one byte.
pub open spec fn byte_fed(
    p: ProtocolView,
    byte: u8,
    offset: u64,
    limits: IngestLimits,
    limit: u64,
) -> Result<ProtocolView, GitErrorView> {
    if p.phase == ProtocolPhase::HeaderLf {
        if byte == 0x0a {
            Ok(ProtocolView { phase: ProtocolPhase::PostHeader, ..p })
        } else if byte == 0 {
            Ok(ProtocolView { phase: ProtocolPhase::ExpectMarker, ..p })
        } else {
            Err(
                GitErrorView::MalformedOutput(
                    offset,
                    "commit header is not terminated by LF or empty-commit separator"@,
                ),
            )
        }
    } else if byte != 0 {
        if p.pending.len() + 1 > phase_limit(p.phase, limits) {
            Err(field_limit_fault(p, offset))
        } else {
            match p.extra_fault(1, offset, limit) {
                Some(e) => Err(e),
                None => Ok(ProtocolView { pending: p.pending.push(byte), ..p }),
            }
        }
    } else {
        token_consumed(
            ProtocolView { pending: Seq::empty(), ..p },
            p.pending,
            offset,
            limits,
            limit,
        )
    }
}

/// The state after some bytes, of which the first is at an offset.
pub open spec fn fed(
    p: ProtocolView,
    bytes: Seq<u8>,
    base: int,
    limits: IngestLimits,
    limit: u64,
) -> Result<ProtocolView, GitErrorView>
    decreases bytes.len(),
{
    if bytes.len() == 0 {
        Ok(p)
    } else {
        match fed(p, bytes.drop_last(), base, limits, limit) {
            Err(e) => Err(e),
            Ok(next) => byte_fed(
                next,
                bytes.last(),
                sorting::sat(base + bytes.len() - 1),
                limits,
                limit,
            ),
        }
    }
}

/// Where the output is cut into chunks makes no difference.
pub proof fn chunks_do_not_matter(
    p: ProtocolView,
    first: Seq<u8>,
    second: Seq<u8>,
    base: int,
    limits: IngestLimits,
    limit: u64,
)
    ensures
        fed(p, first + second, base, limits, limit) == match fed(p, first, base, limits, limit) {
            Err(e) => Err::<ProtocolView, GitErrorView>(e),
            Ok(next) => fed(next, second, base + first.len(), limits, limit),
        },
    decreases second.len(),
{
    if second.len() == 0 {
        assert(first + second =~= first);
    } else {
        chunks_do_not_matter(p, first, second.drop_last(), base, limits, limit);
        assert((first + second).drop_last() =~= first + second.drop_last());
        assert((first + second).last() == second.last());
    }
}

/// Why the output may not end in a phase.
pub open spec fn end_fault(p: ProtocolView, input_bytes: u64) -> Option<GitErrorView> {
    let malformed = |message: Seq<char>| Some(GitErrorView::MalformedOutput(input_bytes, message));
    if p.pending.len() > 0 {
        malformed("Git output ended in an unterminated NUL field"@)
    } else {
        match p.phase {
            ProtocolPhase::HeaderLf => None,
            ProtocolPhase::PostRecord => None,
            ProtocolPhase::Marker => malformed("Git output ended before a commit marker"@),
            ProtocolPhase::Timestamp => malformed("Git output ended after a commit marker"@),
            ProtocolPhase::Author => malformed("Git output ended before a contributor field"@),
            ProtocolPhase::PostHeader => malformed("Git output ended before raw metadata"@),
            ProtocolPhase::Path => malformed("Git output ended before a raw path field"@),
            ProtocolPhase::ExpectMarker => malformed("Git output ended after a commit separator"@),
        }
    }
}

fn space(byte: u8) -> (is: bool)
    ensures
        is == is_space(byte),
{
    byte == 0x20 || byte == 0x09 || byte == 0x0a || byte == 0x0c || byte == 0x0d
}

/// The action that raw metadata gives: its last field is the status.
pub fn parse_action(metadata: &[u8], offset: u64) -> (action: Result<ParsedAction, GitError>)
    ensures
        match action {
            Ok(action) => metadata_action(metadata@, offset) == Ok::<ParsedAction, GitErrorView>(
                action,
            ),
            Err(e) => metadata_action(metadata@, offset) == Err::<ParsedAction, GitErrorView>(e@),
        },
{
    let mut end: usize = metadata.len();
    assert(metadata@.take(end as int) =~= metadata@);
    while end > 0 && space(metadata[end - 1])
        invariant
            end <= metadata@.len(),
            trimmed(metadata@) == trimmed(metadata@.take(end as int)),
        decreases end,
    {
        assert(metadata@.take(end as int).drop_last() =~= metadata@.take(end - 1));
        end = end - 1;
    }
    let ghost text = metadata@.take(end as int);
    assert(trimmed(metadata@) == text);
    let mut start: usize = end;
    assert(text.subrange(end as int, end as int) =~= Seq::<u8>::empty());
    assert(text.take(start as int) =~= text);
    assert(last_word(text) + text.subrange(end as int, end as int) =~= last_word(text));
    while start > 0 && !space(metadata[start - 1])
        invariant
            start <= end <= metadata@.len(),
            text == metadata@.take(end as int),
            last_word(text) == last_word(text.take(start as int)) + text.subrange(
                start as int,
                end as int,
            ),
        decreases start,
    {
        proof {
            let front = text.take(start as int);
            assert(front.drop_last() =~= text.take(start - 1));
            assert(front.last() == metadata@[start - 1]);
            assert(last_word(front) =~= last_word(text.take(start - 1)).push(front.last()));
            assert(last_word(front) + text.subrange(start as int, end as int) =~= last_word(
                text.take(start - 1),
            ) + text.subrange(start - 1, end as int));
        }
        start = start - 1;
    }
    let status = slice_subrange(metadata, start, end);
    proof {
        let front = text.take(start as int);
        if start > 0 {
            assert(front.last() == metadata@[start - 1]);
        }
        assert(last_word(front) =~= Seq::<u8>::empty());
        assert(status@ =~= text.subrange(start as int, end as int));
        assert(last_word(text) =~= status@);
    }
    if status.len() == 0 {
        return Err(malformed(offset, "raw metadata has no status"));
    }
    if status.len() != 1 {
        return Err(malformed(offset, "renamed or scored raw statuses are unsupported"));
    }
    match status[0] {
        0x41 => Ok(ParsedAction::Add),
        0x4d => Ok(ParsedAction::Modify),
        0x44 => Ok(ParsedAction::Delete),
        _ => Err(malformed(offset, "raw status must be add, modify, or delete")),
    }
}

pub(crate) fn malformed(offset: u64, message: &'static str) -> (error: GitError)
    ensures
        error@ == GitErrorView::MalformedOutput(offset, message@),
{
    GitError::MalformedOutput { offset, message }
}

fn has_forbidden(path: &[u8]) -> (has: bool)
    ensures
        has == holds_forbidden(path@),
{
    let mut index: usize = 0;
    while index < path.len()
        invariant
            index <= path@.len(),
            forall|i: int| 0 <= i < index ==> !is_forbidden(#[trigger] path@[i]),
        decreases path@.len() - index,
    {
        let byte: u8 = path[index];
        if byte == 0 || byte == 0x7c || byte == 0x0a || byte == 0x0d {
            assert(is_forbidden(path@[index as int]));
            return true;
        }
        index = index + 1;
    }
    false
}

/// An incremental parser of the protocol.
pub struct GitProtocolParser {
    limits: IngestLimits,
    limit: u64,
    phase: ProtocolPhase,
    timestamp: i64,
    username: String,
    metadata: Vec<u8>,
    pending: Vec<u8>,
    records: Vec<NormalizedRecord>,
    records_bytes: u64,
}

impl View for GitProtocolParser {
    type V = ProtocolView;

    closed spec fn view(&self) -> ProtocolView {
        ProtocolView {
            phase: self.phase,
            timestamp: self.timestamp,
            username: text::string_bytes(self.username),
            metadata: self.metadata@,
            pending: self.pending@,
            records: order::views(self.records@),
        }
    }
}

impl GitProtocolParser {
    /// The limits that the parser was made with.
    pub closed spec fn bounds(&self) -> (IngestLimits, u64) {
        (self.limits, self.limit)
    }

    pub closed spec fn wf(&self) -> bool {
        &&& self.records_bytes == sorting::sat(sorting::texts_size(order::views(self.records@)))
        &&& lines::in_sequence(order::views(self.records@))
    }

    /// Starts a parser with a memory limit.
    pub fn new(options: &IngestOptions, limit: u64) -> (parser: Self)
        ensures
            parser.wf(),
            parser@ == initial_protocol(),
            parser.bounds() == (options.limits, limit),
    {
        let parser = GitProtocolParser {
            limits: options.limits,
            limit,
            phase: ProtocolPhase::Marker,
            timestamp: 0,
            username: String::new(),
            metadata: Vec::new(),
            pending: Vec::new(),
            records: Vec::new(),
            records_bytes: 0,
        };
        proof {
            assert(order::views(parser.records@) =~= Seq::<RecordView>::empty());
            assert(text::string_bytes(parser.username) =~= Seq::<u8>::empty()) by {
                assert(encode_utf8(Seq::<char>::empty()) =~= Seq::<u8>::empty());
            }
        }
        parser
    }

    fn line(&self) -> (line: u64)
        ensures
            line == self@.line(),
    {
        assert(self.records.len() == self.records@.len());
        (self.records.len() as u64).saturating_add(1)
    }

    fn working_usage(&self) -> (bytes: u64)
        requires
            self.wf(),
        ensures
            bytes == sorting::sat(self@.usage()),
    {
        proof {
            sorting::texts_size_is_nonnegative(order::views(self.records@));
        }
        sorting::slots(self.records.len(), RECORD_SLOT_BYTES).saturating_add(
            self.records_bytes,
        ).saturating_add(self.pending.len() as u64).saturating_add(
            self.username.as_str().as_bytes().len() as u64,
        ).saturating_add(self.metadata.len() as u64)
    }

    fn check_extra(&self, extra: u64, offset: u64) -> (result: Result<(), GitError>)
        requires
            self.wf(),
        ensures
            match result {
                Ok(()) => forall|x: int|
                    sorting::sat(x) == extra && x >= 0 ==> #[trigger] self@.extra_fault(
                        x,
                        offset,
                        self.bounds().1,
                    ) is None,
                Err(e) => forall|x: int|
                    sorting::sat(x) == extra && x >= 0 ==> #[trigger] self@.extra_fault(
                        x,
                        offset,
                        self.bounds().1,
                    ) == Some(e@),
            },
    {
        proof {
            sorting::texts_size_is_nonnegative(order::views(self.records@));
        }
        let requested: u64 = self.working_usage().saturating_add(extra);
        if requested > self.limit {
            Err(
                GitError::Ingest(
                    working_memory_error(requested, self.limit, self.line(), offset),
                ),
            )
        } else {
            Ok(())
        }
    }

    fn record_fault(&self, code: ErrorCode, context: &[u8], offset: u64, message: &str) -> (error:
        GitError)
        ensures
            error@ == self@.record_fault(code, context@, offset, message@),
    {
        GitError::Ingest(
            IngestError::new(
                code,
                self.line(),
                offset,
                text::bounded_context(context),
                message.to_owned(),
            ),
        )
    }

    fn phase_limit(&self) -> (limit: u64)
        ensures
            limit == phase_limit(self@.phase, self.bounds().0),
    {
        match self.phase {
            ProtocolPhase::Marker => 13,
            ProtocolPhase::ExpectMarker => 13,
            ProtocolPhase::Timestamp => 32,
            ProtocolPhase::Author => self.limits.max_contributor_bytes,
            ProtocolPhase::HeaderLf => 0,
            ProtocolPhase::PostHeader => self.limits.max_record_bytes,
            ProtocolPhase::PostRecord => self.limits.max_record_bytes,
            ProtocolPhase::Path => self.limits.max_path_bytes,
        }
    }

    fn field_limit_error(&self, offset: u64) -> (error: GitError)
        ensures
            error@ == field_limit_fault(self@, offset),
    {
        match self.phase {
            ProtocolPhase::Author => self.record_fault(
                ErrorCode::ContributorTooLong,
                self.pending.as_slice(),
                offset,
                "contributor exceeds configured byte limit",
            ),
            ProtocolPhase::PostHeader => self.record_fault(
                ErrorCode::RecordTooLarge,
                self.pending.as_slice(),
                offset,
                "Git raw metadata exceeds configured record byte limit",
            ),
            ProtocolPhase::PostRecord => self.record_fault(
                ErrorCode::RecordTooLarge,
                self.pending.as_slice(),
                offset,
                "Git raw metadata exceeds configured record byte limit",
            ),
            ProtocolPhase::Path => self.record_fault(
                ErrorCode::PathTooLong,
                self.pending.as_slice(),
                offset,
                "path exceeds configured byte limit",
            ),
            _ => malformed(offset, "Git protocol field exceeds its fixed bound"),
        }
    }

    /// Takes in the path field of a change.
    fn consume_path(&mut self, path: Vec<u8>, offset: u64) -> (result: Result<(), GitError>)
        requires
            old(self).wf(),
            old(self)@.pending.len() == 0,
        ensures
            final(self).bounds() == old(self).bounds(),
            ({
                let outcome = path_consumed(
                    old(self)@,
                    path@,
                    offset,
                    old(self).bounds().0,
                    old(self).bounds().1,
                );
                match result {
                    Ok(()) => final(self).wf() && outcome == Ok::<ProtocolView, GitErrorView>(
                        final(self)@,
                    ),
                    Err(e) => outcome == Err::<ProtocolView, GitErrorView>(e@),
                }
            }),
    {
        let ghost start = self@;
        let action = match self.check_path(path.as_slice(), offset) {
            Ok(action) => action,
            Err(e) => return Err(e),
        };
        let text = match text::string_from_bytes(path.as_slice()) {
            Some(text) => text,
            None => {
                assert(false);
                return Err(GitError::InvalidUtf8 { stream: "path", offset });
            },
        };
        let mut metadata: Vec<u8> = Vec::new();
        core::mem::swap(&mut metadata, &mut self.metadata);
        let record = NormalizedRecord {
            timestamp: self.timestamp,
            username: text::copy_string(&self.username),
            action,
            path: text,
            is_directory: false,
            colour: None,
            source_sequence: self.records.len() as u64,
            line: self.line(),
            byte_offset: offset,
        };
        let ghost after = self@;
        let ghost taken = record@;
        assert(after =~= (ProtocolView { metadata: Seq::empty(), ..start }));
        assert(self.records.len() == self.records@.len());
        assert(taken == path_record(start, path@, action, offset));
        let extra: u64 = (metadata.len() as u64).saturating_add(
            merge::text_bytes(&record),
        ).saturating_add(RECORD_SLOT_BYTES).saturating_add(RECORD_SLOT_BYTES);
        let ghost wanted = start.metadata.len() + runs::text_size(taken) + 2 * RECORD_SLOT_BYTES;
        match self.check_extra(extra, offset) {
            Ok(()) => {},
            Err(e) => {
                assert(after.extra_fault(wanted, offset, self.bounds().1) == Some(e@));
                return Err(e);
            },
        }
        assert(after.extra_fault(wanted, offset, self.bounds().1) is None);
        let ghost before = order::views(self.records@);
        proof {
            sorting::texts_size_is_nonnegative(before);
        }
        self.records_bytes = self.records_bytes.saturating_add(merge::text_bytes(&record));
        self.records.push(record);
        self.phase = ProtocolPhase::PostRecord;
        proof {
            let now = order::views(self.records@);
            assert(now =~= before.push(taken));
            assert(now.drop_last() =~= before);
        }
        Ok(())
    }

    /// Checks a path field and gives the action of its change.
    fn check_path(&self, path: &[u8], offset: u64) -> (result: Result<ParsedAction, GitError>)
        ensures
            match result {
                Ok(action) => path_checked(self@, path@, offset, self.bounds().0) == Ok::<
                    ParsedAction,
                    GitErrorView,
                >(action),
                Err(e) => path_checked(self@, path@, offset, self.bounds().0) == Err::<
                    ParsedAction,
                    GitErrorView,
                >(e@),
            },
    {
        let wire_bytes: u128 = self.metadata.len() as u128 + path.len() as u128 + 2;
        if wire_bytes > self.limits.max_record_bytes as u128 {
            return Err(
                self.record_fault(
                    ErrorCode::RecordTooLarge,
                    path,
                    offset,
                    "Git raw record exceeds configured byte limit",
                ),
            );
        }
        let action = match parse_action(self.metadata.as_slice(), offset) {
            Ok(action) => action,
            Err(e) => return Err(e),
        };
        if text::utf8_text(path).is_none() {
            return Err(GitError::InvalidUtf8 { stream: "path", offset });
        }
        if path.len() == 0 {
            return Err(
                GitError::Ingest(
                    IngestError::plain(
                        ErrorCode::InvalidPath,
                        self.line(),
                        offset,
                        "Git path cannot be empty",
                    ),
                ),
            );
        }
        if path.len() as u64 > self.limits.max_path_bytes {
            return Err(
                self.record_fault(
                    ErrorCode::PathTooLong,
                    path,
                    offset,
                    "path exceeds configured byte limit",
                ),
            );
        }
        if has_forbidden(path) {
            return Err(
                self.record_fault(
                    ErrorCode::InvalidPath,
                    path,
                    offset,
                    "Git path contains a byte forbidden by the common index format",
                ),
            );
        }
        if charges::count_slashes(path) as u64 >= self.limits.max_path_components {
            return Err(
                self.record_fault(
                    ErrorCode::PathTooDeep,
                    path,
                    offset,
                    "path exceeds configured component limit",
                ),
            );
        }
        assert(self.records.len() == self.records@.len());
        if self.records.len() as u64 >= self.limits.max_events {
            return Err(GitError::EventCountLimit { limit: self.limits.max_events });
        }
        Ok(action)
    }

    /// Takes in the author field of a commit.
    fn consume_author(&mut self, token: Vec<u8>, offset: u64) -> (result: Result<(), GitError>)
        requires
            old(self).wf(),
        ensures
            final(self).bounds() == old(self).bounds(),
            match result {
                Ok(()) => final(self).wf() && author_consumed(
                    old(self)@,
                    token@,
                    offset,
                    old(self).bounds().1,
                ) == Ok::<ProtocolView, GitErrorView>(final(self)@),
                Err(e) => author_consumed(old(self)@, token@, offset, old(self).bounds().1)
                    == Err::<ProtocolView, GitErrorView>(e@),
            },
    {
        let ghost start = self@;
        let username = if token.len() == 0 {
            assert(token@ =~= Seq::<u8>::empty());
            assert(valid_utf8(token@));
            "Unknown".to_owned()
        } else {
            match text::string_from_bytes(token.as_slice()) {
                Some(username) => username,
                None => {
                    return Err(GitError::InvalidUtf8 { stream: "contributor", offset });
                },
            }
        };
        let ghost name = text::string_bytes(username);
        assert(name == record::contributor_of(token@));
        let extra: u64 = username.as_str().as_bytes().len() as u64;
        match self.check_extra(extra, offset) {
            Ok(()) => {},
            Err(e) => {
                assert(start.extra_fault(name.len() as int, offset, self.bounds().1) == Some(e@));
                return Err(e);
            },
        }
        assert(start.extra_fault(name.len() as int, offset, self.bounds().1) is None);
        self.username = username;
        self.phase = ProtocolPhase::HeaderLf;
        Ok(())
    }

    /// Takes in a field that ended with a NUL.
    fn consume_token(&mut self, token: Vec<u8>, offset: u64) -> (result: Result<(), GitError>)
        requires
            old(self).wf(),
            old(self)@.pending.len() == 0,
        ensures
            final(self).bounds() == old(self).bounds(),
            ({
                let outcome = token_consumed(
                    old(self)@,
                    token@,
                    offset,
                    old(self).bounds().0,
                    old(self).bounds().1,
                );
                match result {
                    Ok(()) => final(self).wf() && outcome == Ok::<ProtocolView, GitErrorView>(
                        final(self)@,
                    ),
                    Err(e) => outcome == Err::<ProtocolView, GitErrorView>(e@),
                }
            }),
    {
        match self.phase {
            ProtocolPhase::Marker => self.consume_marker(token.as_slice(), offset),
            ProtocolPhase::ExpectMarker => self.consume_marker(token.as_slice(), offset),
            ProtocolPhase::Timestamp => {
                if text::utf8_text(token.as_slice()).is_none() {
                    return Err(GitError::InvalidUtf8 { stream: "timestamp", offset });
                }
                if token.len() == 0 {
                    return Err(malformed(offset, "commit timestamp is empty"));
                }
                match timestamp::parse_signed_number(token.as_slice()) {
                    None => Err(malformed(offset, "commit timestamp is not a signed epoch")),
                    Some(timestamp) => {
                        self.timestamp = timestamp;
                        self.phase = ProtocolPhase::Author;
                        Ok(())
                    },
                }
            },
            ProtocolPhase::Author => self.consume_author(token, offset),
            ProtocolPhase::PostHeader => {
                if token.len() == 0 || token[0] != 0x3a {
                    return Err(malformed(offset, "expected raw metadata after commit header LF"));
                }
                self.metadata = token;
                self.phase = ProtocolPhase::Path;
                Ok(())
            },
            ProtocolPhase::Path => self.consume_path(token, offset),
            ProtocolPhase::PostRecord => {
                if token.len() == 0 {
                    self.phase = ProtocolPhase::ExpectMarker;
                    return Ok(());
                }
                if token[0] != 0x3a {
                    return Err(malformed(offset, "expected raw metadata or commit separator"));
                }
                self.metadata = token;
                self.phase = ProtocolPhase::Path;
                Ok(())
            },
            ProtocolPhase::HeaderLf => Err(
                malformed(offset, "unexpected NUL before commit header LF"),
            ),
        }
    }

    fn consume_marker(&mut self, token: &[u8], offset: u64) -> (result: Result<(), GitError>)
        requires
            old(self).wf(),
        ensures
            final(self).bounds() == old(self).bounds(),
            match result {
                Ok(()) => final(self).wf() && marker_consumed(old(self)@, token@, offset) == Ok::<
                    ProtocolView,
                    GitErrorView,
                >(final(self)@),
                Err(e) => marker_consumed(old(self)@, token@, offset) == Err::<
                    ProtocolView,
                    GitErrorView,
                >(e@),
            },
    {
        let marker: [u8; 13] = [
            0x47, 0x4f, 0x55, 0x52, 0x43, 0x45, 0x2d, 0x43, 0x4f, 0x4d, 0x4d, 0x49, 0x54,
        ];
        assert(marker@ =~= commit_marker());
        if !text::same_bytes(token, marker.as_slice()) {
            return Err(malformed(offset, "expected GOURCE-COMMIT marker"));
        }
        self.username = String::new();
        self.metadata = Vec::new();
        self.phase = ProtocolPhase::Timestamp;
        proof {
            assert(text::string_bytes(self.username) =~= Seq::<u8>::empty()) by {
                assert(encode_utf8(Seq::<char>::empty()) =~= Seq::<u8>::empty());
            }
        }
        Ok(())
    }

    /// Takes in one byte.
    fn feed_byte(&mut self, byte: u8, offset: u64) -> (result: Result<(), GitError>)
        requires
            old(self).wf(),
        ensures
            final(self).bounds() == old(self).bounds(),
            ({
                let outcome = byte_fed(
                    old(self)@,
                    byte,
                    offset,
                    old(self).bounds().0,
                    old(self).bounds().1,
                );
                match result {
                    Ok(()) => final(self).wf() && outcome == Ok::<ProtocolView, GitErrorView>(
                        final(self)@,
                    ),
                    Err(e) => outcome == Err::<ProtocolView, GitErrorView>(e@),
                }
            }),
    {
        let ghost start = self@;
        if self.phase == ProtocolPhase::HeaderLf {
            if byte == 0x0a {
                self.phase = ProtocolPhase::PostHeader;
                return Ok(());
            }
            if byte == 0 {
                self.phase = ProtocolPhase::ExpectMarker;
                return Ok(());
            }
            return Err(
                malformed(
                    offset,
                    "commit header is not terminated by LF or empty-commit separator",
                ),
            );
        }
        if byte != 0 {
            assert(self.pending.len() == self.pending@.len());
            if self.pending.len() as u64 >= self.phase_limit() {
                return Err(self.field_limit_error(offset));
            }
            match self.check_extra(1, offset) {
                Ok(()) => {},
                Err(e) => {
                    assert(start.extra_fault(1, offset, self.bounds().1) == Some(e@));
                    return Err(e);
                },
            }
            assert(start.extra_fault(1, offset, self.bounds().1) is None);
            self.pending.push(byte);
            return Ok(());
        }
        let mut token: Vec<u8> = Vec::new();
        core::mem::swap(&mut token, &mut self.pending);
        assert(self@ =~= (ProtocolView { pending: Seq::empty(), ..start }));
        self.consume_token(token, offset)
    }

    /// Takes in a chunk of output that starts at an offset.
    pub fn feed(&mut self, bytes: &[u8], base_offset: u64) -> (result: Result<(), GitError>)
        requires
            old(self).wf(),
        ensures
            final(self).bounds() == old(self).bounds(),
            ({
                let outcome = fed(
                    old(self)@,
                    bytes@,
                    base_offset as int,
                    old(self).bounds().0,
                    old(self).bounds().1,
                );
                match result {
                    Ok(()) => final(self).wf() && outcome == Ok::<ProtocolView, GitErrorView>(
                        final(self)@,
                    ),
                    Err(e) => outcome == Err::<ProtocolView, GitErrorView>(e@),
                }
            }),
    {
        let ghost start = self@;
        let ghost bounds = self.bounds();
        let mut index: usize = 0;
        assert(bytes@.take(0) =~= Seq::<u8>::empty());
        while index < bytes.len()
            invariant
                index <= bytes@.len(),
                self.wf(),
                start == old(self)@,
                bounds == old(self).bounds(),
                self.bounds() == bounds,
                fed(start, bytes@.take(index as int), base_offset as int, bounds.0, bounds.1) == Ok::<
                    ProtocolView,
                    GitErrorView,
                >(self@),
            decreases bytes@.len() - index,
        {
            let offset: u64 = base_offset.saturating_add(index as u64);
            proof {
                let next = bytes@.take(index + 1);
                assert(next.drop_last() =~= bytes@.take(index as int));
                assert(next.last() == bytes@[index as int]);
            }
            match self.feed_byte(bytes[index], offset) {
                Ok(()) => {},
                Err(e) => {
                    proof {
                        fed_prefix_fails(
                            start,
                            bytes@,
                            index + 1,
                            base_offset as int,
                            bounds.0,
                            bounds.1,
                        );
                    }
                    return Err(e);
                },
            }
            index = index + 1;
        }
        assert(bytes@.take(index as int) =~= bytes@);
        Ok(())
    }

    /// Ends the output.
    pub fn finish(self, input_bytes: u64, input_hash: [u8; 32]) -> (result: Result<
        ParsedInput,
        GitError,
    >)
        requires
            self.wf(),
        ensures
            match result {
                Ok(parsed) => {
                    &&& end_fault(self@, input_bytes) is None
                    &&& order::views(parsed.records@) == self@.records
                    &&& parsed.accepted@ == self@.records
                    &&& parsed.runs is None
                    &&& parsed.input_bytes == input_bytes
                    &&& parsed.input_hash == input_hash
                    &&& parsed.record_count == self@.records.len()
                    &&& parsed.wf(self.bounds().0)
                },
                Err(e) => end_fault(self@, input_bytes) == Some(e@),
            },
    {
        if self.pending.len() > 0 {
            return Err(
                malformed(input_bytes, "Git output ended in an unterminated NUL field"),
            );
        }
        match self.phase {
            ProtocolPhase::Marker => {
                return Err(malformed(input_bytes, "Git output ended before a commit marker"));
            },
            ProtocolPhase::Timestamp => {
                return Err(malformed(input_bytes, "Git output ended after a commit marker"));
            },
            ProtocolPhase::Author => {
                return Err(malformed(input_bytes, "Git output ended before a contributor field"));
            },
            ProtocolPhase::PostHeader => {
                return Err(malformed(input_bytes, "Git output ended before raw metadata"));
            },
            ProtocolPhase::Path => {
                return Err(malformed(input_bytes, "Git output ended before a raw path field"));
            },
            ProtocolPhase::ExpectMarker => {
                return Err(malformed(input_bytes, "Git output ended after a commit separator"));
            },
            ProtocolPhase::HeaderLf => {},
            ProtocolPhase::PostRecord => {},
        }
        let ghost accepted = order::views(self.records@);
        assert(self.records.len() == self.records@.len());
        let record_count: u64 = self.records.len() as u64;
        Ok(
            ParsedInput {
                records: self.records,
                input_bytes,
                input_hash,
                record_count,
                runs: None,
                accepted: Ghost(accepted),
            },
        )
    }
}

proof fn fed_prefix_fails(
    p: ProtocolView,
    bytes: Seq<u8>,
    count: int,
    base: int,
    limits: IngestLimits,
    limit: u64,
)
    requires
        0 <= count <= bytes.len(),
        fed(p, bytes.take(count), base, limits, limit) is Err,
    ensures
        fed(p, bytes, base, limits, limit) == fed(p, bytes.take(count), base, limits, limit),
{
    assert(bytes.take(count) + bytes.skip(count) =~= bytes);
    chunks_do_not_matter(p, bytes.take(count), bytes.skip(count), base, limits, limit);
}

} // verus!
