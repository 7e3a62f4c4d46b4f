//! Reading the history of a Git repository.

use gource::git_history::{
    check_git_options, empty_history, git_environment, parse_git_log, request_arguments, GitExit,
    GitLog, GitRequest, GitStep, RevisionQuest,
};
use gource::git_options::{validate_git_options, GitError, GitOptions};
use gource::git_process::{
    bounded_stderr_text, commit_selector, effective_stderr_limit, probe_output_limit,
    reader_total, resolved_revision, symbolic_branch, ProcessEvent, StreamKind, Supervisor,
    SupervisorStep,
};
use gource::git_protocol::GitProtocolParser;
use gource::limits::{parser_working_memory_bytes, IngestLimits};
use gource::model::Action;
use gource::options::{CancellationToken, IngestOptions};

fn parser(options: &IngestOptions) -> GitProtocolParser {
    GitProtocolParser::new(
        options,
        parser_working_memory_bytes(options.limits.working_memory_bytes),
    )
}

#[test]
fn malformed_protocol_is_typed_and_does_not_publish() {
    let options = IngestOptions::default();
    let mut parser = parser(&options);
    let error = parser
        .feed(b"GOURCE-COMMIT\0not-a-timestamp\0user\0\n", 0)
        .expect_err("malformed timestamp");
    assert!(matches!(error, GitError::MalformedOutput { .. }));
}

#[test]
fn malformed_header_terminator_is_typed() {
    let options = IngestOptions::default();
    let mut parser = parser(&options);
    let data = [b"GOURCE-COMMIT\0".as_slice(), b"100\0user\0x".as_slice()].concat();
    let error = parser
        .feed(&data, 0)
        .expect_err("malformed header terminator");
    assert!(matches!(error, GitError::MalformedOutput { .. }));
}

fn framed() -> Vec<u8> {
    [
        b"GOURCE-COMMIT\0".as_slice(),
        b"100\0first\0\n:000000 100644 0000000 1111111 A\0one\0\0".as_slice(),
        b"GOURCE-COMMIT\0".as_slice(),
        b"150\0middle\0\0".as_slice(),
        b"GOURCE-COMMIT\0".as_slice(),
        b"200\0second\0\n:100644 100644 1111111 2222222 M\0two\0\0".as_slice(),
        b"GOURCE-COMMIT\0".as_slice(),
        b"250\0final\0".as_slice(),
    ]
    .concat()
}

#[test]
fn empty_commit_framing_survives_every_chunk_boundary() {
    let options = IngestOptions::default();
    let data = framed();
    let input_hash = *blake3::hash(&data).as_bytes();

    for split in 0..=data.len() {
        let mut parser = parser(&options);
        parser
            .feed(&data[..split], 0)
            .expect("first protocol chunk");
        parser
            .feed(&data[split..], split as u64)
            .expect("second protocol chunk");
        let parsed = match parser.finish(data.len() as u64, input_hash) {
            Ok(parsed) => parsed,
            Err(error) => panic!("valid protocol at every chunk boundary: {error:?}"),
        };

        assert_eq!(parsed.input_bytes, data.len() as u64);
        assert_eq!(parsed.input_hash, input_hash);
        assert_eq!(parsed.records.len(), 2);
        assert_eq!(parsed.records[0].timestamp, 100);
        assert_eq!(parsed.records[0].username, "first");
        assert_eq!(parsed.records[0].path, "one");
        assert_eq!(parsed.records[1].timestamp, 200);
        assert_eq!(parsed.records[1].username, "second");
        assert_eq!(parsed.records[1].path, "two");
        assert_eq!(parsed.records[0].source_sequence, 0);
        assert_eq!(parsed.records[1].source_sequence, 1);
    }
}

#[test]
fn raw_newline_path_is_rejected_without_becoming_records() {
    let options = IngestOptions::default();
    let mut parser = parser(&options);
    let data = [
        b"GOURCE-COMMIT\0".as_slice(),
        b"100\0user\0\n:000000 100644 0000000 1111111 A\0".as_slice(),
        b"safe\nname\0".as_slice(),
    ]
    .concat();
    let error = parser
        .feed(&data, 0)
        .expect_err("common path contract rejects newline");
    assert!(matches!(error, GitError::Ingest(_)));
}

#[test]
fn whole_output_becomes_a_history() {
    let options = IngestOptions::default();
    let data = framed();
    let history = parse_git_log(&data, &options).expect("history");
    assert_eq!(history.len(), 2);
    assert_eq!(history.events()[0].timestamp(), 100);
    assert_eq!(history.events()[1].action, Action::Modify);
    assert_eq!(history.catalog().paths()[1].canonical(), "two");
    assert_eq!(history.input_identity().digest(), blake3::hash(&data).as_bytes());

    let mut log = GitLog::new(&options);
    for chunk in data.chunks(7) {
        log.take(chunk).expect("chunk");
    }
    assert_eq!(log.finish(&options).expect("history"), history);
    assert!(matches!(
        parse_git_log(&data[..20], &options),
        Err(GitError::MalformedOutput { .. })
    ));
}

#[test]
fn ingests_reverse_chronology_and_spaces_without_record_injection() {
    let output = [
        b"GOURCE-COMMIT\0".as_slice(),
        b"200\0user\0\n:000000 100644 0000000 2222222 A\0second\0\0".as_slice(),
        b"GOURCE-COMMIT\0".as_slice(),
        b"100\0user\0\n:000000 100644 0000000 1111111 A\0space name\0".as_slice(),
    ]
    .concat();
    let history = parse_git_log(&output, &IngestOptions::default()).expect("history");
    assert_eq!(history.len(), 2);
    assert_eq!(history.events()[0].key.timestamp, 100);
    assert_eq!(history.events()[1].key.timestamp, 200);
    assert!(history
        .catalog()
        .paths()
        .iter()
        .any(|path| path.canonical() == "space name"));
}

#[test]
fn ignores_empty_commits_between_changed_commits() {
    let output = [
        b"GOURCE-COMMIT\0".as_slice(),
        b"200\0user\0\n:000000 100644 0000000 2222222 A\0second\0\0".as_slice(),
        b"GOURCE-COMMIT\0".as_slice(),
        b"175\0user\0\0".as_slice(),
        b"GOURCE-COMMIT\0".as_slice(),
        b"150\0user\0\0".as_slice(),
        b"GOURCE-COMMIT\0".as_slice(),
        b"100\0user\0\n:000000 100644 0000000 1111111 A\0first\0".as_slice(),
    ]
    .concat();
    let history =
        parse_git_log(&output, &IngestOptions::default()).expect("history with empty commits");
    assert_eq!(history.len(), 2);
    assert_eq!(history.events()[0].key.timestamp, 100);
    assert_eq!(history.events()[1].key.timestamp, 200);
    assert!(history.catalog().paths().iter().any(|path| path.canonical() == "first"));
    assert!(history.catalog().paths().iter().any(|path| path.canonical() == "second"));
}

#[test]
fn unborn_repositories_have_empty_histories() {
    let history = empty_history(&IngestOptions::default()).expect("empty history");
    assert!(history.is_empty());
    assert_eq!(history.input_identity().digest(), blake3::hash(&[]).as_bytes());
}

fn exit(success: bool, code: i32, stdout: &[u8]) -> GitExit {
    GitExit {
        success,
        code: Some(code),
        status: format!("exit status: {code}"),
        stderr: b"why".to_vec(),
        stdout: stdout.to_vec(),
    }
}

fn words(request: &GitRequest) -> Vec<String> {
    request_arguments(request, false, "/dev/null")
}

#[test]
fn revisions_resolve_to_one_object() {
    let limits = IngestLimits::default();
    let options = GitOptions::default().with_revision("main".to_owned());
    let (mut quest, request) = RevisionQuest::begin(&options, &limits).expect("begin");
    assert_eq!(
        words(&request),
        vec!["rev-parse", "--verify", "--end-of-options", "main^{commit}"]
    );
    let id = "0123456789abcdef0123456789abcdef01234567";
    let step = quest.proceed(&request, &exit(true, 0, format!("{id}\n").as_bytes()));
    match step {
        GitStep::Run(request) => {
            let words = words(&request);
            assert_eq!(words[0], "log");
            assert_eq!(words[words.len() - 1], id);
            assert!(words.contains(&"--pretty=format:GOURCE-COMMIT%x00%ct%x00%an%x00".to_owned()));
            assert!(request_arguments(&request, true, "/dev/null")
                .contains(&"--pretty=format:GOURCE-COMMIT%x00%at%x00%an%x00".to_owned()));
        }
        _ => panic!("a log follows"),
    }
    let (mut quest, request) = RevisionQuest::begin(&options, &limits).expect("begin");
    match quest.proceed(&request, &exit(false, 128, b"")) {
        GitStep::Fail(GitError::Nonzero { status, stderr }) => {
            assert_eq!(status, "exit status: 128");
            assert_eq!(stderr, "why");
        }
        _ => panic!("a named revision is not forgiven"),
    }
}

#[test]
fn unborn_heads_are_found_by_asking_for_their_branch() {
    let limits = IngestLimits::default();
    let (mut quest, request) =
        RevisionQuest::begin(&GitOptions::default(), &limits).expect("begin");
    let head = match quest.proceed(&request, &exit(false, 128, b"")) {
        GitStep::Run(request) => request,
        _ => panic!("the head is asked for"),
    };
    assert_eq!(words(&head), vec!["symbolic-ref", "--quiet", "HEAD"]);
    let check = match quest.proceed(&head, &exit(true, 0, b"refs/heads/main\n")) {
        GitStep::Run(request) => request,
        _ => panic!("the branch is checked"),
    };
    assert_eq!(words(&check), vec!["check-ref-format", "--branch", "main"]);
    let show = match quest.proceed(&check, &exit(true, 0, b"main\n")) {
        GitStep::Run(request) => request,
        _ => panic!("the branch is asked for"),
    };
    assert_eq!(
        words(&show),
        vec!["show-ref", "--verify", "--quiet", "--end-of-options", "refs/heads/main"]
    );
    assert!(matches!(quest.proceed(&show, &exit(false, 1, b"")), GitStep::Empty));
    assert!(matches!(
        quest.proceed(&show, &exit(true, 0, b"")),
        GitStep::Fail(GitError::Nonzero { .. })
    ));
    match quest.proceed(&show, &exit(false, 128, b"")) {
        GitStep::Fail(GitError::Nonzero { status, .. }) => assert_eq!(status, "exit status: 128"),
        _ => panic!("an unknown answer fails"),
    }
}

#[test]
fn revision_output_is_strict() {
    assert!(matches!(
        resolved_revision(b"\xff"),
        Err(GitError::InvalidUtf8 { stream: "revision", offset: 0 })
    ));
    assert!(matches!(
        resolved_revision(b"abc"),
        Err(GitError::MalformedOutput { offset: 3, .. })
    ));
    assert!(matches!(
        resolved_revision(b"abc\n"),
        Err(GitError::MalformedOutput { offset: 0, .. })
    ));
    assert_eq!(symbolic_branch(b"refs/heads/x/y\n").unwrap(), Some("x/y".to_owned()));
    assert_eq!(symbolic_branch(b"refs/heads/\n").unwrap(), None);
    assert_eq!(symbolic_branch(b"refs/tags/x\n").unwrap(), None);
    assert_eq!(symbolic_branch(b"refs/heads/main").unwrap(), None);
    assert!(symbolic_branch(b"refs/heads/\xff\n").is_err());
}

#[test]
fn selectors_are_bounded() {
    let limits = IngestLimits::default();
    assert_eq!(commit_selector("HEAD", &limits).unwrap(), "HEAD^{commit}");
    let long = "r".repeat(4088);
    assert!(matches!(
        commit_selector(&long, &limits),
        Err(GitError::WorkingMemoryLimit { requested: 4097, .. })
    ));
}

#[test]
fn options_are_validated_before_anything_runs() {
    let ingest = IngestOptions::default();
    assert!(check_git_options(&ingest, &GitOptions::default()).is_ok());
    let bad = GitOptions::default().with_revision("-x".to_owned());
    assert!(matches!(validate_git_options(&bad), Err(GitError::InvalidOptions(_))));
    let none = GitOptions::default().with_timeout(0);
    assert!(validate_git_options(&none).is_err());
    let token = CancellationToken::new();
    token.cancel();
    let cancelled = IngestOptions::default().with_cancellation(token);
    let error = check_git_options(&cancelled, &GitOptions::default()).expect_err("cancelled");
    assert!(error.is_cancelled());
    let zero = IngestOptions::from(IngestLimits::default().with_max_input_bytes(0));
    assert!(matches!(
        check_git_options(&zero, &GitOptions::default()),
        Err(GitError::Ingest(_))
    ));
}

#[test]
fn limits_of_probes_and_diagnostics() {
    let limits = IngestLimits::default();
    assert_eq!(probe_output_limit(&limits), 4096);
    assert_eq!(probe_output_limit(&limits.with_max_input_bytes(9)), 9);
    let options = GitOptions::default().with_max_stderr_bytes(77);
    assert_eq!(effective_stderr_limit(&options, &IngestLimits::default()).unwrap(), 77);
    let none = GitOptions::default().with_max_stderr_bytes(0);
    assert!(matches!(
        effective_stderr_limit(&none, &IngestLimits::default()),
        Err(GitError::InvalidOptions(_))
    ));
    assert_eq!(reader_total(3, 4, 7), Some(7));
    assert_eq!(reader_total(3, 5, 7), None);
}

#[test]
fn environments_leave_nothing_to_chance() {
    let words = git_environment("/dev/null");
    assert_eq!(words.len(), 20);
    assert_eq!(words[0..2], ["LC_ALL".to_owned(), "C".to_owned()]);
    assert_eq!(words[18..20], ["GIT_CONFIG_SYSTEM".to_owned(), "/dev/null".to_owned()]);
}

#[test]
fn diagnostics_replace_what_is_not_text() {
    assert_eq!(bounded_stderr_text(b"plain"), "plain");
    assert_eq!(bounded_stderr_text(b"a\xffb"), "a\u{fffd}b");
}

#[test]
fn fast_zero_output_process_is_successful() {
    let mut supervisor = Supervisor::new(100, 100);
    assert!(matches!(supervisor.step(false, false, false), SupervisorStep::AwaitEvent));
    supervisor.hear(&ProcessEvent::Eof(StreamKind::Stdout)).expect("end of output");
    supervisor.hear(&ProcessEvent::Eof(StreamKind::Stderr)).expect("end of diagnostics");
    assert!(matches!(supervisor.step(false, false, true), SupervisorStep::Finish));
    assert_eq!(supervisor.stdout_bytes(), 0);
    assert!(supervisor.stderr().is_empty());
}

#[test]
fn stderr_only_process_drains_diagnostics_before_success() {
    let mut supervisor = Supervisor::new(100, 100);
    supervisor.hear(&ProcessEvent::Eof(StreamKind::Stdout)).expect("end of output");
    assert!(matches!(supervisor.step(false, false, true), SupervisorStep::AwaitEvent));
    let chunk = ProcessEvent::Data(StreamKind::Stderr, b"diagnostic".to_vec());
    supervisor.hear(&chunk).expect("diagnostics");
    supervisor.hear(&ProcessEvent::Eof(StreamKind::Stderr)).expect("end of diagnostics");
    assert!(matches!(supervisor.step(false, false, true), SupervisorStep::Finish));
    assert_eq!(supervisor.stderr(), b"diagnostic");
}

#[test]
fn supervision_fails_in_order_of_urgency() {
    let mut supervisor = Supervisor::new(4, 4);
    supervisor
        .hear(&ProcessEvent::Data(StreamKind::Stderr, b"oops".to_vec()))
        .expect("diagnostics");
    match supervisor.step(true, true, true) {
        SupervisorStep::Fail(GitError::Cancelled { stderr }) => assert_eq!(stderr, "oops"),
        _ => panic!("cancellation comes first"),
    }
    match supervisor.step(false, true, true) {
        SupervisorStep::Fail(GitError::Timeout { stderr }) => assert_eq!(stderr, "oops"),
        _ => panic!("then the deadline"),
    }
    assert!(matches!(
        supervisor.hear(&ProcessEvent::Data(StreamKind::Stderr, b"!".to_vec())),
        Err(GitError::StderrLimit { limit: 4 })
    ));
    assert!(matches!(
        supervisor.hear(&ProcessEvent::Data(StreamKind::Stdout, vec![0; 5])),
        Err(GitError::StdoutLimit { limit: 4 })
    ));
    assert!(matches!(
        supervisor.hear(&ProcessEvent::Limit(StreamKind::Stdout, 9)),
        Err(GitError::StdoutLimit { limit: 9 })
    ));
    assert!(matches!(
        supervisor.hear(&ProcessEvent::Failed("gone".to_owned())),
        Err(GitError::Io(_))
    ));
    supervisor.hear(&ProcessEvent::Quiet).expect("nothing");
    supervisor.hear(&ProcessEvent::Disconnected).expect("disconnection");
    assert!(matches!(
        supervisor.step(false, false, false),
        SupervisorStep::Fail(GitError::Io(_))
    ));
    supervisor.hear(&ProcessEvent::Eof(StreamKind::Stdout)).expect("end");
    supervisor.hear(&ProcessEvent::Eof(StreamKind::Stderr)).expect("end");
    assert!(matches!(supervisor.step(false, false, false), SupervisorStep::AwaitExit));
}

#[test]
fn git_errors_render_what_happened() {
    let error = GitError::Nonzero {
        status: "exit status: 23".to_owned(),
        stderr: "bad".to_owned(),
    };
    assert_eq!(
        error.render(),
        "Git process exited unsuccessfully (exit status: 23); stderr: bad"
    );
    assert_eq!(
        GitError::StdoutLimit { limit: 8 }.render(),
        "Git stdout exceeded the configured 8-byte limit"
    );
}
