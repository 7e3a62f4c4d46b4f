//! From a repository to an index: which Git commands are run in which order,
//! and what their output becomes.

use vstd::prelude::*;

use crate::digest;
use crate::error::ErrorView;
use crate::git_options::{validate_git_options, GitError, GitErrorView, GitOptions};
use crate::git_process;
use crate::git_process::{
    bounded_stderr_text, branch_state, commit_selector, resolved_revision, symbolic_branch,
    BranchState,
};
use crate::git_protocol;
use crate::git_protocol::{GitProtocolParser, ProtocolView};
use crate::history::IndexedHistory;
use crate::index;
use crate::index::{IndexBuilder, IndexView};
use crate::ingest;
use crate::ingest::build_index;
use crate::limits;
use crate::limits::{parser_working_memory_bytes, IngestLimits};
use crate::lines::LogView;
use crate::options;
use crate::options::IngestOptions;
use crate::order;
use crate::parser::ParsedInput;
use crate::record::NormalizedRecord;
use crate::record::RecordView;
use crate::text;

verus! {

/// A Git command that an ingest runs.
pub enum GitRequest {
    /// Asks for the object identity of a selector.
    Resolve { selector: String },
    /// Asks which reference `HEAD` names.
    Head,
    /// Asks whether a branch name is well formed.
    CheckBranch { branch: String },
    /// Asks whether a branch exists.
    ShowBranch { branch: String },
    /// Asks for the history of an object.
    Log { revision: String },
}

/// What a request asks.
#[verifier::ext_equal]
pub enum RequestView {
    Resolve(Seq<char>),
    Head,
    CheckBranch(Seq<char>),
    ShowBranch(Seq<char>),
    Log(Seq<char>),
}

impl View for GitRequest {
    type V = RequestView;

    open spec fn view(&self) -> RequestView {
        match self {
            GitRequest::Resolve { selector } => RequestView::Resolve(selector@),
            GitRequest::Head => RequestView::Head,
            GitRequest::CheckBranch { branch } => RequestView::CheckBranch(branch@),
            GitRequest::ShowBranch { branch } => RequestView::ShowBranch(branch@),
            GitRequest::Log { revision } => RequestView::Log(revision@),
        }
    }
}

pub open spec fn texts(list: Seq<String>) -> Seq<Seq<char>> {
    Seq::new(list.len(), |i: int| list[i]@)
}

/// The arguments of a request, after those that every command has.
pub open spec fn request_words(
    request: RequestView,
    author_time: bool,
    null_device: Seq<char>,
) -> Seq<Seq<char>> {
    match request {
        RequestView::Resolve(selector) => seq![
            "rev-parse"@,
            "--verify"@,
            "--end-of-options"@,
            selector,
        ],
        RequestView::Head => seq!["symbolic-ref"@, "--quiet"@, "HEAD"@],
        RequestView::CheckBranch(branch) => seq!["check-ref-format"@, "--branch"@, branch],
        RequestView::ShowBranch(branch) => seq![
            "show-ref"@,
            "--verify"@,
            "--quiet"@,
            "--end-of-options"@,
            "refs/heads/"@ + branch,
        ],
        RequestView::Log(revision) => seq![
            "log"@,
            "--reverse"@,
            "--root"@,
            "--raw"@,
            "-z"@,
            "--no-renames"@,
            "--no-ext-diff"@,
            "--no-textconv"@,
            "--no-color"@,
            "--no-show-signature"@,
            "--no-notes"@,
            "--no-diff-merges"@,
            "--ignore-submodules=none"@,
            "-O"@,
            null_device,
            "--encoding=UTF-8"@,
            if author_time {
                "--pretty=format:GOURCE-COMMIT%x00%at%x00%an%x00"@
            } else {
                "--pretty=format:GOURCE-COMMIT%x00%ct%x00%an%x00"@
            },
            "--end-of-options"@,
            revision,
        ],
    }
}

fn push_word(words: &mut Vec<String>, word: &str)
    ensures
        texts(final(words)@) == texts(old(words)@).push(word@),
{
    let ghost before = words@;
    words.push(word.to_owned());
    assert(texts(words@) =~= texts(before).push(word@));
}

/// The arguments of a request.
pub fn request_arguments(request: &GitRequest, author_time: bool, null_device: &str) -> (words: Vec<
    String,
>)
    ensures
        texts(words@) == request_words(request@, author_time, null_device@),
{
    let mut words: Vec<String> = Vec::new();
    assert(texts(words@) =~= Seq::<Seq<char>>::empty());
    match request {
        GitRequest::Resolve { selector } => {
            push_word(&mut words, "rev-parse");
            push_word(&mut words, "--verify");
            push_word(&mut words, "--end-of-options");
            push_word(&mut words, selector.as_str());
        },
        GitRequest::Head => {
            push_word(&mut words, "symbolic-ref");
            push_word(&mut words, "--quiet");
            push_word(&mut words, "HEAD");
        },
        GitRequest::CheckBranch { branch } => {
            push_word(&mut words, "check-ref-format");
            push_word(&mut words, "--branch");
            push_word(&mut words, branch.as_str());
        },
        GitRequest::ShowBranch { branch } => {
            push_word(&mut words, "show-ref");
            push_word(&mut words, "--verify");
            push_word(&mut words, "--quiet");
            push_word(&mut words, "--end-of-options");
            let mut reference = "refs/heads/".to_owned();
            reference.append(branch.as_str());
            push_word(&mut words, reference.as_str());
        },
        GitRequest::Log { revision } => {
            push_word(&mut words, "log");
            push_word(&mut words, "--reverse");
            push_word(&mut words, "--root");
            push_word(&mut words, "--raw");
            push_word(&mut words, "-z");
            push_word(&mut words, "--no-renames");
            push_word(&mut words, "--no-ext-diff");
            push_word(&mut words, "--no-textconv");
            push_word(&mut words, "--no-color");
            push_word(&mut words, "--no-show-signature");
            push_word(&mut words, "--no-notes");
            push_word(&mut words, "--no-diff-merges");
            push_word(&mut words, "--ignore-submodules=none");
            push_word(&mut words, "-O");
            push_word(&mut words, null_device);
            push_word(&mut words, "--encoding=UTF-8");
            if author_time {
                push_word(&mut words, "--pretty=format:GOURCE-COMMIT%x00%at%x00%an%x00");
            } else {
                push_word(&mut words, "--pretty=format:GOURCE-COMMIT%x00%ct%x00%an%x00");
            }
            push_word(&mut words, "--end-of-options");
            push_word(&mut words, revision.as_str());
        },
    }
    assert(texts(words@) =~= request_words(request@, author_time, null_device@));
    words
}

/// The environment of every command besides the search path: names and
/// values.
pub open spec fn environment_words(null_device: Seq<char>) -> Seq<Seq<char>> {
    seq![
        "LC_ALL"@,
        "C"@,
        "LANG"@,
        "C"@,
        "GIT_PAGER"@,
        "cat"@,
        "GIT_TERMINAL_PROMPT"@,
        "0"@,
        "GIT_OPTIONAL_LOCKS"@,
        "0"@,
        "GIT_NO_REPLACE_OBJECTS"@,
        "1"@,
        "GIT_NO_LAZY_FETCH"@,
        "1"@,
        "GIT_CONFIG_NOSYSTEM"@,
        "1"@,
        "GIT_CONFIG_GLOBAL"@,
        null_device,
        "GIT_CONFIG_SYSTEM"@,
        null_device,
    ]
}

/// The environment of every command, each name followed by its value.
pub fn git_environment(null_device: &str) -> (words: Vec<String>)
    ensures
        texts(words@) == environment_words(null_device@),
{
    let mut words: Vec<String> = Vec::new();
    assert(texts(words@) =~= Seq::<Seq<char>>::empty());
    push_word(&mut words, "LC_ALL");
    push_word(&mut words, "C");
    push_word(&mut words, "LANG");
    push_word(&mut words, "C");
    push_word(&mut words, "GIT_PAGER");
    push_word(&mut words, "cat");
    push_word(&mut words, "GIT_TERMINAL_PROMPT");
    push_word(&mut words, "0");
    push_word(&mut words, "GIT_OPTIONAL_LOCKS");
    push_word(&mut words, "0");
    push_word(&mut words, "GIT_NO_REPLACE_OBJECTS");
    push_word(&mut words, "1");
    push_word(&mut words, "GIT_NO_LAZY_FETCH");
    push_word(&mut words, "1");
    push_word(&mut words, "GIT_CONFIG_NOSYSTEM");
    push_word(&mut words, "1");
    push_word(&mut words, "GIT_CONFIG_GLOBAL");
    push_word(&mut words, null_device);
    push_word(&mut words, "GIT_CONFIG_SYSTEM");
    push_word(&mut words, null_device);
    assert(texts(words@) =~= environment_words(null_device@));
    words
}

/// How a command ended.
pub struct GitExit {
    pub success: bool,
    pub code: Option<i32>,
    pub status: String,
    pub stderr: Vec<u8>,
    pub stdout: Vec<u8>,
}

impl GitExit {
    /// The error of a command that failed.
    pub open spec fn failure(&self) -> GitErrorView {
        GitErrorView::Nonzero(self.status@, git_process::lossy_chars(self.stderr@))
    }

    /// Reports a command that failed.
    pub fn nonzero(&self) -> (error: GitError)
        ensures
            error@ == self.failure(),
    {
        GitError::Nonzero {
            status: text::copy_string(&self.status),
            stderr: bounded_stderr_text(self.stderr.as_slice()),
        }
    }
}

/// What an ingest does after a command.
pub enum GitStep {
    /// Runs a further command.
    Run(GitRequest),
    /// Reports an empty history.
    Empty,
    /// Fails.
    Fail(GitError),
}

/// What a step is.
#[verifier::ext_equal]
pub enum GitStepView {
    Run(RequestView),
    Empty,
    Fail(GitErrorView),
}

impl View for GitStep {
    type V = GitStepView;

    open spec fn view(&self) -> GitStepView {
        match self {
            GitStep::Run(request) => GitStepView::Run(request@),
            GitStep::Empty => GitStepView::Empty,
            GitStep::Fail(e) => GitStepView::Fail(e@),
        }
    }
}

/// Resolves the revision of a history.  A failed resolution of a default
/// `HEAD` is forgiven when `HEAD` is found to name a branch that does not
/// exist yet.
pub struct RevisionQuest {
    allow_unborn_head: bool,
    refusal: Option<GitError>,
}

/// The state of a quest: whether an unborn `HEAD` is forgiven, and the failed
/// resolution that it would be forgiven for.
#[verifier::ext_equal]
pub struct QuestView {
    pub allow_unborn_head: bool,
    pub refusal: Option<GitErrorView>,
}

impl View for RevisionQuest {
    type V = QuestView;

    closed spec fn view(&self) -> QuestView {
        QuestView {
            allow_unborn_head: self.allow_unborn_head,
            refusal: match self.refusal {
                Some(e) => Some(e@),
                None => None,
            },
        }
    }
}

/// The error of a revision that stays unresolved.
pub open spec fn unresolved(q: QuestView, exit: GitExit) -> GitErrorView {
    match q.refusal {
        Some(e) => e,
        None => exit.failure(),
    }
}

/// What a step of the quest may be.
pub open spec fn quest_step(q: QuestView, request: RequestView, exit: GitExit, step: GitStepView) -> bool {
    match request {
        RequestView::Resolve(_) => if exit.success {
            match step {
                GitStepView::Run(RequestView::Log(id)) => git_process::names_object(
                    exit.stdout@,
                    id,
                ),
                GitStepView::Fail(e) => git_process::revision_fault(exit.stdout@) == Some(e),
                _ => false,
            }
        } else if q.allow_unborn_head {
            step == GitStepView::Run(RequestView::Head)
        } else {
            step == GitStepView::Fail(exit.failure())
        },
        RequestView::Head => if !exit.success {
            step == GitStepView::Fail(unresolved(q, exit))
        } else {
            match step {
                GitStepView::Run(RequestView::CheckBranch(branch)) => git_process::names_branch(
                    exit.stdout@,
                    branch,
                ),
                GitStepView::Fail(e) => git_process::head_fault(exit.stdout@, unresolved(q, exit))
                    == Some(e),
                _ => false,
            }
        },
        RequestView::CheckBranch(branch) => step == if exit.success {
            GitStepView::Run(RequestView::ShowBranch(branch))
        } else {
            GitStepView::Fail(unresolved(q, exit))
        },
        RequestView::ShowBranch(_) => step == if exit.success {
            GitStepView::Fail(unresolved(q, exit))
        } else if exit.code == Some(1i32) {
            GitStepView::Empty
        } else {
            GitStepView::Fail(exit.failure())
        },
        RequestView::Log(_) => step == GitStepView::Fail(exit.failure()),
    }
}

impl RevisionQuest {
    /// Starts with the first command: the resolution of the revision that the
    /// options name, or of `HEAD`.
    pub fn begin(options: &GitOptions, limits: &IngestLimits) -> (result: Result<
        (RevisionQuest, GitRequest),
        GitError,
    >)
        ensures
            ({
                let revision = match options.revision {
                    Some(revision) => revision@,
                    None => "HEAD"@,
                };
                match result {
                    Ok((quest, request)) => {
                        &&& git_process::selector_fault(revision, *limits) is None
                        &&& quest@ == (QuestView {
                            allow_unborn_head: options.revision is None,
                            refusal: None,
                        })
                        &&& request@ == RequestView::Resolve(revision + "^{commit}"@)
                    },
                    Err(e) => git_process::selector_fault(revision, *limits) == Some(e@),
                }
            }),
    {
        let selector = match &options.revision {
            Some(revision) => commit_selector(revision.as_str(), limits),
            None => commit_selector("HEAD", limits),
        };
        match selector {
            Ok(selector) => Ok(
                (
                    RevisionQuest { allow_unborn_head: options.revision.is_none(), refusal: None },
                    GitRequest::Resolve { selector },
                ),
            ),
            Err(e) => Err(e),
        }
    }

    fn give_up(&mut self, exit: &GitExit) -> (step: GitStep)
        ensures
            step@ == GitStepView::Fail(unresolved(old(self)@, *exit)),
            final(self)@.allow_unborn_head == old(self)@.allow_unborn_head,
    {
        match self.refusal.take() {
            Some(e) => GitStep::Fail(e),
            None => GitStep::Fail(exit.nonzero()),
        }
    }

    /// Decides what follows a command.
    pub fn proceed(&mut self, request: &GitRequest, exit: &GitExit) -> (step: GitStep)
        ensures
            quest_step(old(self)@, request@, *exit, step@),
            final(self)@.allow_unborn_head == old(self)@.allow_unborn_head,
            step is Run ==> final(self)@.refusal == if request is Resolve && !exit.success {
                Some(exit.failure())
            } else {
                old(self)@.refusal
            },
    {
        match request {
            GitRequest::Resolve { selector: _ } => {
                if !exit.success {
                    if !self.allow_unborn_head {
                        return GitStep::Fail(exit.nonzero());
                    }
                    self.refusal = Some(exit.nonzero());
                    return GitStep::Run(GitRequest::Head);
                }
                match resolved_revision(exit.stdout.as_slice()) {
                    Ok(revision) => GitStep::Run(GitRequest::Log { revision }),
                    Err(e) => GitStep::Fail(e),
                }
            },
            GitRequest::Head => {
                if !exit.success {
                    return self.give_up(exit);
                }
                match symbolic_branch(exit.stdout.as_slice()) {
                    Ok(Some(branch)) => GitStep::Run(GitRequest::CheckBranch { branch }),
                    Ok(None) => self.give_up(exit),
                    Err(e) => GitStep::Fail(e),
                }
            },
            GitRequest::CheckBranch { branch } => {
                if exit.success {
                    GitStep::Run(GitRequest::ShowBranch { branch: text::copy_string(branch) })
                } else {
                    self.give_up(exit)
                }
            },
            GitRequest::ShowBranch { branch: _ } => {
                match branch_state(exit.success, exit.code) {
                    BranchState::Born => self.give_up(exit),
                    BranchState::Unborn => GitStep::Empty,
                    BranchState::Unknown => GitStep::Fail(exit.nonzero()),
                }
            },
            GitRequest::Log { revision: _ } => GitStep::Fail(exit.nonzero()),
        }
    }
}

/// An empty history is reported only for a default `HEAD` whose branch is
/// missing: no command but the last question for the branch leads to it.
pub proof fn only_a_missing_branch_is_empty(q: QuestView, request: RequestView, exit: GitExit)
    ensures
        quest_step(q, request, exit, GitStepView::Empty) ==> request is ShowBranch && !exit.success
            && exit.code == Some(1i32),
{
}

/// Refuses options before anything is run.
pub fn check_git_options(ingest_options: &IngestOptions, options: &GitOptions) -> (result: Result<
    (),
    GitError,
>)
    ensures
        match result {
            Ok(()) => options.fault() is None && ingest_options.limits.usable(),
            Err(e) => if options.fault() is Some {
                options.fault() == Some(e@)
            } else if !ingest_options.limits.usable() {
                e@ == GitErrorView::Ingest(ingest_options.limits.zero_bound())
            } else {
                &&& ingest_options.cancellation is Some
                &&& e@ == GitErrorView::Ingest(options::cancelled_error(0, 0))
            },
        },
{
    match validate_git_options(options) {
        Ok(()) => {},
        Err(e) => return Err(e),
    }
    match ingest_options.limits.validate() {
        Ok(()) => {},
        Err(e) => return Err(GitError::Ingest(e)),
    }
    match ingest_options.check_cancelled(0, 0) {
        Ok(()) => Ok(()),
        Err(e) => Err(GitError::Ingest(e)),
    }
}

/// The output of `git log` while it is read.
pub struct GitLog {
    protocol: GitProtocolParser,
    hasher: blake3::Hasher,
    bytes: u64,
    taken: Ghost<Seq<u8>>,
}

/// What the protocol makes of output under limits.
pub open spec fn log_fed(output: Seq<u8>, limits: IngestLimits) -> Result<
    ProtocolView,
    GitErrorView,
> {
    git_protocol::fed(
        git_protocol::initial_protocol(),
        output,
        0,
        limits,
        limits::parser_share(limits.working_memory_bytes),
    )
}

/// The log that a list of records in memory makes.
pub open spec fn log_of(records: Seq<RecordView>, input_bytes: u64) -> LogView {
    LogView {
        partial: Seq::empty(),
        line: 0,
        byte_offset: 0,
        input_bytes,
        count: records.len() as u64,
        chunk: records,
        directory: 0,
        runs: None,
    }
}

/// The index of the complete output of `git log`.
pub open spec fn git_outcome(output: Seq<u8>, limits: IngestLimits) -> Result<
    IndexView,
    GitErrorView,
> {
    match log_fed(output, limits) {
        Err(e) => Err(e),
        Ok(p) => match git_protocol::end_fault(p, output.len() as u64) {
            Some(e) => Err(e),
            None => match ingest::build_outcome(
                log_of(p.records, output.len() as u64),
                index::empty_index(limits),
                limits,
            ) {
                Ok(index) => Ok(index),
                Err(e) => Err(GitErrorView::Ingest(e)),
            },
        },
    }
}

/// A history is that of the output.
pub open spec fn git_history_is(
    history: IndexedHistory,
    output: Seq<u8>,
    index: IndexView,
) -> bool {
    &&& history.wf()
    &&& history.catalog_view() == index.catalog
    &&& history.events_view() == index.events
    &&& history.input().digest_view() == digest::blake3_digest(output)
    &&& history.input().length() == output.len()
}

impl GitLog {
    /// The output taken in so far.
    pub closed spec fn taken(&self) -> Seq<u8> {
        self.taken@
    }

    /// The limits that the output is read under.
    pub closed spec fn limits(&self) -> IngestLimits {
        self.protocol.bounds().0
    }

    pub closed spec fn wf(&self) -> bool {
        &&& self.protocol.wf()
        &&& self.protocol.bounds().1 == limits::parser_share(self.limits().working_memory_bytes)
        &&& self.bytes == self.taken@.len()
        &&& digest::hashed_bytes(self.hasher) == self.taken@
        &&& log_fed(self.taken@, self.limits()) == Ok::<ProtocolView, GitErrorView>(self.protocol@)
    }

    /// Starts reading.
    pub fn new(options: &IngestOptions) -> (log: Self)
        ensures
            log.wf(),
            log.taken() == Seq::<u8>::empty(),
            log.limits() == options.limits,
    {
        GitLog {
            protocol: GitProtocolParser::new(
                options,
                parser_working_memory_bytes(options.limits.working_memory_bytes),
            ),
            hasher: digest::hasher_new(),
            bytes: 0,
            taken: Ghost(Seq::empty()),
        }
    }

    /// Takes in the next chunk.
    pub fn take(&mut self, chunk: &[u8]) -> (result: Result<(), GitError>)
        requires
            old(self).wf(),
            old(self).taken().len() + chunk@.len() <= u64::MAX,
        ensures
            match result {
                Ok(()) => {
                    &&& final(self).wf()
                    &&& final(self).taken() == old(self).taken() + chunk@
                    &&& final(self).limits() == old(self).limits()
                },
                Err(e) => log_fed(old(self).taken() + chunk@, old(self).limits()) == Err::<
                    ProtocolView,
                    GitErrorView,
                >(e@),
            },
    {
        proof {
            git_protocol::chunks_do_not_matter(
                git_protocol::initial_protocol(),
                self.taken@,
                chunk@,
                0,
                self.limits(),
                self.protocol.bounds().1,
            );
        }
        let base: u64 = self.bytes;
        digest::hasher_update(&mut self.hasher, chunk);
        match self.protocol.feed(chunk, base) {
            Ok(()) => {},
            Err(e) => return Err(e),
        }
        self.bytes = base + chunk.len() as u64;
        self.taken = Ghost(old(self).taken@ + chunk@);
        Ok(())
    }

    /// Builds the index of the complete output.
    pub fn finish(self, options: &IngestOptions) -> (result: Result<IndexedHistory, GitError>)
        requires
            self.wf(),
            self.limits() == options.limits,
        ensures
            ({
                let outcome = git_outcome(self.taken(), options.limits);
                match result {
                    Ok(history) => outcome is Ok && git_history_is(
                        history,
                        self.taken(),
                        outcome->Ok_0,
                    ),
                    Err(e) => {
                        ||| outcome == Err::<IndexView, GitErrorView>(e@)
                        ||| (e@ matches GitErrorView::Ingest(inner) && options::may_cancel(
                            *options,
                            inner,
                        ))
                    },
                }
            }),
    {
        let parsed = match self.protocol.finish(
            self.bytes,
            digest::hasher_finalize(&self.hasher),
        ) {
            Ok(parsed) => parsed,
            Err(e) => return Err(e),
        };
        assert(parsed@ =~= log_of(parsed.accepted@, parsed.input_bytes));
        match build_index(parsed, IndexBuilder::new(&options.limits), options) {
            Ok(history) => Ok(history),
            Err(e) => Err(GitError::Ingest(e)),
        }
    }
}

/// Parses the complete output of `git log`.
pub fn parse_git_log(output: &[u8], options: &IngestOptions) -> (result: Result<
    IndexedHistory,
    GitError,
>)
    ensures
        ({
            let outcome = git_outcome(output@, options.limits);
            match result {
                Ok(history) => outcome is Ok && git_history_is(history, output@, outcome->Ok_0),
                Err(e) => {
                    ||| outcome == Err::<IndexView, GitErrorView>(e@)
                    ||| (e@ matches GitErrorView::Ingest(inner) && options::may_cancel(
                        *options,
                        inner,
                    ))
                },
            }
        }),
{
    let mut log = GitLog::new(options);
    assert(output.len() == output@.len());
    assert(log.taken() + output@ =~= output@);
    match log.take(output) {
        Ok(()) => log.finish(options),
        Err(e) => Err(e),
    }
}

/// The history of a repository without commits.
pub fn empty_history(options: &IngestOptions) -> (result: Result<IndexedHistory, GitError>)
    ensures
        ({
            let outcome = ingest::build_outcome(
                log_of(Seq::empty(), 0),
                index::empty_index(options.limits),
                options.limits,
            );
            match result {
                Ok(history) => outcome is Ok && git_history_is(
                    history,
                    Seq::empty(),
                    outcome->Ok_0,
                ),
                Err(e) => {
                    &&& e@ is Ingest
                    &&& options::may_cancel(*options, e@->Ingest_0) || outcome == Err::<
                        IndexView,
                        ErrorView,
                    >(e@->Ingest_0)
                },
            }
        }),
{
    let none: Vec<NormalizedRecord> = Vec::new();
    let hasher = digest::hasher_new();
    let parsed = ParsedInput {
        records: none,
        input_bytes: 0,
        input_hash: digest::hasher_finalize(&hasher),
        record_count: 0,
        runs: None,
        accepted: Ghost(Seq::empty()),
    };
    proof {
        assert(order::views(parsed.records@) =~= Seq::<RecordView>::empty());
        assert(parsed@ =~= log_of(Seq::empty(), 0));
    }
    match build_index(parsed, IndexBuilder::new(&options.limits), options) {
        Ok(history) => Ok(history),
        Err(e) => Err(GitError::Ingest(e)),
    }
}

} // verus!
