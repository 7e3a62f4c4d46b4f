//! What is asked of Git and how its answers are read.

use vstd::prelude::*;
use vstd::string::*;
use vstd::utf8::*;

use crate::git_history;
use crate::git_history::{GitExit, GitStepView, QuestView, RequestView};
use crate::git_options;
use crate::git_options::GitErrorView;
use crate::git_process;
use crate::git_process::{ProcessEvent, StepView, StreamKind, SupervisorView};
use crate::limits::IngestLimits;

verus! {

/// A revision that was asked for stands last and after the end of the options,
/// so that none is taken for an option.
pub proof fn revisions_are_never_options(
    asked: Seq<char>,
    author_time: bool,
    null_device: Seq<char>,
)
    ensures
        ({
            let log = git_history::request_words(
                RequestView::Log(asked),
                author_time,
                null_device,
            );
            let resolve = git_history::request_words(
                RequestView::Resolve(asked),
                author_time,
                null_device,
            );
            let show = git_history::request_words(
                RequestView::ShowBranch(asked),
                author_time,
                null_device,
            );
            &&& log.last() == asked
            &&& log[log.len() - 2] == "--end-of-options"@
            &&& log[0] == "log"@
            &&& resolve.last() == asked
            &&& resolve[resolve.len() - 2] == "--end-of-options"@
            &&& resolve[0] == "rev-parse"@
            &&& show.last() == "refs/heads/"@ + asked
            &&& show[show.len() - 2] == "--end-of-options"@
            &&& show[0] == "show-ref"@
        }),
{
}

/// A log is asked for in the form that the protocol has, from the oldest commit
/// on, by the time of the author or of the commit as wanted and the same in
/// everything else.
pub proof fn logs_differ_by_time_only(asked: Seq<char>, null_device: Seq<char>)
    ensures
        ({
            let author = git_history::request_words(RequestView::Log(asked), true, null_device);
            let commit = git_history::request_words(RequestView::Log(asked), false, null_device);
            &&& author.len() == commit.len()
            &&& author.contains("--pretty=format:GOURCE-COMMIT%x00%at%x00%an%x00"@)
            &&& commit.contains("--pretty=format:GOURCE-COMMIT%x00%ct%x00%an%x00"@)
            &&& author.contains("--reverse"@)
            &&& author.contains("--raw"@)
            &&& author.contains("-z"@)
            &&& author.contains("--no-renames"@)
            &&& exists|at: int|
                0 <= at < author.len() && author == #[trigger] commit.update(at, author[at])
        }),
{
    let author = git_history::request_words(RequestView::Log(asked), true, null_device);
    let commit = git_history::request_words(RequestView::Log(asked), false, null_device);
    assert(author[16] == "--pretty=format:GOURCE-COMMIT%x00%at%x00%an%x00"@);
    assert(commit[16] == "--pretty=format:GOURCE-COMMIT%x00%ct%x00%an%x00"@);
    assert(author[1] == "--reverse"@);
    assert(author[3] == "--raw"@);
    assert(author[4] == "-z"@);
    assert(author[5] == "--no-renames"@);
    assert(author =~= commit.update(16, author[16]));
}

/// An object identity of forty or of sixty-four hexadecimal digits and a line
/// feed names that object.
pub proof fn object_identities_are_read(id: Seq<u8>, chars: Seq<char>)
    requires
        id.len() == 40 || id.len() == 64,
        forall|i: int|
            0 <= i < id.len() ==> {
                let byte = #[trigger] id[i];
                0x30 <= byte <= 0x39 || 0x41 <= byte <= 0x46 || 0x61 <= byte <= 0x66
            },
        valid_utf8(id.push(0x0a)),
    ensures
        git_process::revision_fault(id.push(0x0a)) is None,
        git_process::names_object(id.push(0x0a), chars) <==> encode_utf8(chars) == id,
{
    assert(id.push(0x0a).drop_last() =~= id);
}

/// An answer without a line feed, of another length or with anything but
/// hexadecimal digits names nothing.
pub proof fn other_answers_name_nothing(output: Seq<u8>, at: int)
    ensures
        output.len() == 0 ==> git_process::revision_fault(output) is Some,
        output.len() > 0 && output.last() != 0x0a ==> git_process::revision_fault(output) is Some,
        output.len() != 41 && output.len() != 65 ==> git_process::revision_fault(output) is Some,
        0 <= at < output.len() - 1 && !(0x30 <= output[at] <= 0x39 || 0x41 <= output[at] <= 0x46
            || 0x61 <= output[at] <= 0x66) ==> git_process::revision_fault(output) is Some,
{
    if 0 <= at < output.len() - 1 {
        assert(output.drop_last()[at] == output[at]);
    }
}

/// `refs/heads/`, a name and a line feed name that branch; a reference of
/// another kind names none.
pub proof fn head_names_its_branch(name: Seq<u8>, output: Seq<u8>, at: int)
    requires
        name.len() > 0,
    ensures
        ({
            let heads = seq![114u8, 101, 102, 115, 47, 104, 101, 97, 100, 115, 47];
            &&& git_process::head_branch(heads + name + seq![0x0au8]) == Some(name)
            &&& 0 <= at < 11 && at < output.len() && output[at] != heads[at]
                ==> git_process::head_branch(output) is None
            &&& output.len() > 0 && output.last() != 0x0a ==> git_process::head_branch(
                output,
            ) is None
            &&& output.len() <= 12 ==> git_process::head_branch(output) is None
        }),
{
    let heads = seq![114u8, 101, 102, 115, 47, 104, 101, 97, 100, 115, 47];
    let whole = heads + name + seq![0x0au8];
    assert(heads =~= git_process::heads_prefix());
    assert(whole.take(11) =~= heads);
    assert(whole.drop_last().skip(11) =~= name);
    if 0 <= at < 11 && output.len() > 12 {
        assert(output.take(11)[at] == output[at]);
    }
}

/// A revision of letters, digits, slashes, underscores and inner dashes is
/// accepted; one that starts like an option, names a range or a path, or holds
/// white space is not.
pub proof fn revisions_are_single_commits(revision: Seq<char>, at: int)
    ensures
        revision.len() == 0 ==> !git_options::is_commitish(revision),
        revision.len() > 0 && revision[0] == '-' ==> !git_options::is_commitish(revision),
        0 <= at < revision.len() && (revision[at] == ':' || revision[at] == ' ' || revision[at]
            == '\n' || revision[at] == '\t' || revision[at] == '\0')
            ==> !git_options::is_commitish(revision),
        0 <= at < revision.len() - 1 && revision[at] == '.' && revision[at + 1] == '.'
            ==> !git_options::is_commitish(revision),
        revision.len() > 0 && revision[0] != '-' && (forall|i: int|
            0 <= i < revision.len() ==> {
                let c = #[trigger] revision[i];
                'a' <= c <= 'z' || 'A' <= c <= 'Z' || '0' <= c <= '9' || c == '/' || c == '_' || c
                    == '-'
            }) ==> git_options::is_commitish(revision),
{
    if 0 <= at < revision.len() && (revision[at] == ':' || revision[at] == ' ' || revision[at]
        == '\n' || revision[at] == '\t' || revision[at] == '\0') {
        assert(git_options::refused_at(revision, at));
    }
    if 0 <= at < revision.len() - 1 && revision[at] == '.' && revision[at + 1] == '.' {
        assert(git_options::refused_at(revision, at));
    }
    if revision.len() > 0 && revision[0] != '-' && (forall|i: int|
        0 <= i < revision.len() ==> {
            let c = #[trigger] revision[i];
            'a' <= c <= 'z' || 'A' <= c <= 'Z' || '0' <= c <= '9' || c == '/' || c == '_' || c
                == '-'
        }) {
        assert forall|i: int| 0 <= i < revision.len() implies !git_options::refused_at(
            revision,
            i,
        ) by {
            let c = revision[i];
        }
    }
}

/// A process that is cancelled or out of time fails at once, whatever it did.
/// It finishes exactly when both its streams have ended and it has exited.
pub proof fn processes_finish_when_all_is_done(
    s: SupervisorView,
    cancelled: bool,
    expired: bool,
    exited: bool,
)
    ensures
        ({
            let step = git_process::supervisor_step(s, cancelled, expired, exited);
            &&& cancelled ==> (step matches StepView::Fail(e) && e is Cancelled)
            &&& !cancelled && expired ==> (step matches StepView::Fail(e) && e is Timeout)
            &&& step is Finish <==> !cancelled && !expired && s.stdout_done && s.stderr_done
                && exited
            &&& !cancelled && !expired && s.readers_gone && !(s.stdout_done && s.stderr_done)
                ==> step is Fail
            &&& !cancelled && !expired && !s.readers_gone && !(step is Finish) ==> step
                is AwaitEvent
            &&& !cancelled && !expired && s.readers_gone && s.stdout_done && s.stderr_done
                && !exited ==> step is AwaitExit
        }),
{
}

/// Output is taken as long as all of it fits; diagnostics are kept in their
/// order.  What is over a limit fails with that limit.
pub proof fn streams_are_bounded(
    s: SupervisorView,
    bytes: Vec<u8>,
    stdout_limit: u64,
    stderr_limit: u64,
)
    ensures
        match git_process::event_heard(
            s,
            ProcessEvent::Data(StreamKind::Stdout, bytes),
            stdout_limit,
            stderr_limit,
        ) {
            Ok(next) => s.stdout_bytes + bytes@.len() <= stdout_limit && next.stdout_bytes
                == s.stdout_bytes + bytes@.len() && next.stderr == s.stderr,
            Err(e) => s.stdout_bytes + bytes@.len() > stdout_limit && e
                == GitErrorView::StdoutLimit(stdout_limit),
        },
        match git_process::event_heard(
            s,
            ProcessEvent::Data(StreamKind::Stderr, bytes),
            stdout_limit,
            stderr_limit,
        ) {
            Ok(next) => s.stderr.len() + bytes@.len() <= stderr_limit && next.stderr == s.stderr
                + bytes@ && next.stdout_bytes == s.stdout_bytes,
            Err(e) => s.stderr.len() + bytes@.len() > stderr_limit && e
                == GitErrorView::StderrLimit(stderr_limit),
        },
{
}

/// The end of a stream is remembered and changes nothing else; a stream that
/// was silent changes nothing.
pub proof fn ends_of_streams_are_remembered(
    s: SupervisorView,
    stdout_limit: u64,
    stderr_limit: u64,
)
    ensures
        git_process::event_heard(
            s,
            ProcessEvent::Eof(StreamKind::Stdout),
            stdout_limit,
            stderr_limit,
        ) matches Ok(next) && next.stdout_done && next.stderr_done == s.stderr_done
            && next.readers_gone == s.readers_gone && next.stderr == s.stderr && next.stdout_bytes
            == s.stdout_bytes,
        git_process::event_heard(
            s,
            ProcessEvent::Eof(StreamKind::Stderr),
            stdout_limit,
            stderr_limit,
        ) matches Ok(next) && next.stderr_done && next.stdout_done == s.stdout_done
            && next.readers_gone == s.readers_gone && next.stderr == s.stderr && next.stdout_bytes
            == s.stdout_bytes,
        git_process::event_heard(s, ProcessEvent::Disconnected, stdout_limit, stderr_limit)
            matches Ok(next) && next.readers_gone && next.stdout_done == s.stdout_done
            && next.stderr_done == s.stderr_done,
        git_process::event_heard(s, ProcessEvent::Quiet, stdout_limit, stderr_limit) == Ok::<
            SupervisorView,
            GitErrorView,
        >(s),
{
}

/// A revision is asked for where its selector fits: nine bytes more than its
/// text within 4096 bytes and within half of the memory.
pub proof fn selectors_are_bounded(revision: Seq<char>, limits: IngestLimits)
    ensures
        git_process::selector_fault(revision, limits) is None <==> encode_utf8(revision).len() + 9
            <= 4096 && encode_utf8(revision).len() + 9 <= limits.working_memory_bytes / 2,
{
}

/// An object that was resolved is logged.
pub proof fn resolved_objects_are_logged(
    q: QuestView,
    asked: Seq<char>,
    exit: GitExit,
    step: GitStepView,
)
    requires
        exit.success,
        git_process::revision_fault(exit.stdout@) is None,
        git_history::quest_step(q, RequestView::Resolve(asked), exit, step),
    ensures
        step matches GitStepView::Run(RequestView::Log(id)) && encode_utf8(id)
            == exit.stdout@.drop_last(),
{
}

/// Where a revision was asked for by name and does not resolve, that is the end.
/// Where `HEAD` does not resolve, the branch that it names is looked at: only
/// where that is well formed and not there is the history empty.
pub proof fn an_unborn_branch_is_looked_at(
    q: QuestView,
    branch: Seq<char>,
    exit: GitExit,
    step: GitStepView,
)
    requires
        !exit.success,
    ensures
        git_history::quest_step(q, RequestView::Resolve(branch), exit, step) ==> {
            &&& q.allow_unborn_head ==> step == GitStepView::Run(RequestView::Head)
            &&& !q.allow_unborn_head ==> step is Fail
        },
        git_history::quest_step(q, RequestView::Head, exit, step) ==> step is Fail,
        git_history::quest_step(q, RequestView::CheckBranch(branch), exit, step) ==> step is Fail,
        git_history::quest_step(q, RequestView::ShowBranch(branch), exit, step) ==> {
            &&& exit.code == Some(1i32) ==> step is Empty
            &&& exit.code != Some(1i32) ==> step is Fail
        },
        git_history::quest_step(q, RequestView::Log(branch), exit, step) ==> step is Fail,
{
}

} // verus!
