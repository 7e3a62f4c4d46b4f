//! Parsing custom logs.

use gource::error::IngestError;
use gource::limits::IngestLimits;
use gource::options::{CancellationToken, IngestOptions};
use gource::parser::ParsedInput;
use gource::reader::parse_log;
use gource::record::{parse_colour, parse_path, ParsedAction, ParsedColour};
use gource::sorting::spill_records;
use gource::timestamp::{days_from_civil, days_in_month, parse_timestamp};

fn parse_reader(input: &[u8], options: &IngestOptions) -> Result<ParsedInput, IngestError> {
    parse_log(input, options)
}

fn parse(input: &[u8]) -> ParsedInput {
    match parse_reader(input, &IngestOptions::default()) {
        Ok(parsed) => parsed,
        Err(error) => panic!("valid input: {}", error.render()),
    }
}

fn refuse(input: &[u8], options: &IngestOptions) -> IngestError {
    match parse_reader(input, options) {
        Ok(_) => panic!("refused input"),
        Err(error) => error,
    }
}

#[test]
fn parses_defaults_bom_and_crlf() {
    let parsed = parse("\u{feff}0||A|/src/main.rs|#80c0ff\r\n1|||docs/readme.md\n".as_bytes());
    assert_eq!(parsed.records.len(), 2);
    assert_eq!(parsed.records[0].username, "Unknown");
    assert_eq!(parsed.records[0].path, "src/main.rs");
    assert_eq!(
        parsed.records[0].colour,
        Some(ParsedColour([0x80, 0xc0, 0xff]))
    );
    assert_eq!(parsed.records[1].action, ParsedAction::Add);
}

#[test]
fn sorts_are_left_to_caller_and_sequence_is_physical() {
    let parsed = parse(b"2|a|A|b\n1|a|A|a\n2|a|A|c\n");
    assert_eq!(parsed.records[0].source_sequence, 0);
    assert_eq!(parsed.records[1].source_sequence, 1);
    assert_eq!(parsed.records[2].source_sequence, 2);
}

#[test]
fn strict_record_and_path_errors_have_location() {
    let error = refuse(b"1|a|A|a|\n".as_slice(), &IngestOptions::default());
    assert_eq!(error.code(), "wrong-field-count");
    assert_eq!(error.line, 1);
    assert_eq!(error.byte_offset, 0);
}

#[test]
fn dates_are_utc_and_offsets_are_applied() {
    let utc = parse("1970-01-01T00:00:00Z|a|A|a\n".as_bytes());
    let shifted = parse("1970-01-01 02:00:00 +02:00|a|A|b\n".as_bytes());
    assert_eq!(utc.records[0].timestamp, 0);
    assert_eq!(shifted.records[0].timestamp, 0);
}

#[test]
fn rejects_late_bom_and_lone_cr() {
    let late_bom = refuse(
        b"0|a|A|a\n\xef\xbb\xbf1|a|A|b\n".as_slice(),
        &IngestOptions::default(),
    );
    assert_eq!(late_bom.code(), "bom-not-at-start");
    let lone_cr = refuse(b"0|a|A|a\r1|a|A|b\n".as_slice(), &IngestOptions::default());
    assert_eq!(lone_cr.code(), "lone-carriage-return");
}

#[test]
fn rejects_limits_without_publishing_prefix() {
    let options = IngestOptions {
        limits: IngestLimits::default().with_max_events(1),
        ..IngestOptions::default()
    };
    let error = refuse(b"0|a|A|a\n1|a|A|b\n".as_slice(), &options);
    assert_eq!(error.code(), "event-count-limit");
    let options = IngestOptions {
        limits: IngestLimits::default().with_max_record_bytes(7),
        ..IngestOptions::default()
    };
    let error = refuse(b"0|a|A|a\n".as_slice(), &options);
    assert_eq!(error.code(), "record-too-large");
}

#[test]
fn cancellation_is_not_eof() {
    let token = CancellationToken::new();
    token.cancel();
    let options = IngestOptions::default().with_cancellation(token);
    let error = refuse(b"".as_slice(), &options);
    assert_eq!(error.code(), "cancelled");
    assert!(error.line > 0);
}

#[test]
fn lexical_path_rules_keep_backslashes_and_reject_traversal() {
    let parsed = parse(br#"0|a|A|dir\name/file"#);
    assert_eq!(parsed.records[0].path, r#"dir\name/file"#);
    let error = refuse(b"0|a|A|a/../b\n".as_slice(), &IngestOptions::default());
    assert_eq!(error.code(), "invalid-path");
}

#[test]
fn date_forms_reject_fraction_and_trailing_space() {
    let fraction = refuse(
        b"1970-01-01T00:00:00.1Z|a|A|a\n".as_slice(),
        &IngestOptions::default(),
    );
    assert_eq!(fraction.code(), "invalid-timestamp");
    let trailing = refuse(b"1970-01-01 |a|A|a\n".as_slice(), &IngestOptions::default());
    assert_eq!(trailing.code(), "invalid-timestamp");
}

#[test]
fn spilled_records_make_one_ordered_run() {
    let options = IngestOptions::default().with_limits(
        IngestLimits::default()
            .with_working_memory_bytes(8 * 1024)
            .with_working_disk_bytes(1 << 20),
    );
    let parsed = parse(b"2|a|A|b\n1|a|A|a\n");
    let mut runs = None;
    assert!(spill_records(parsed.records, &mut runs, 0, &options).is_ok());
    let state = runs.expect("spill creates run state");
    assert_eq!(state.runs.len(), 1);
    assert_eq!(state.runs[0].records, 2);
    assert_eq!(state.disk_bytes, state.runs[0].data.len() as u64);
}

#[test]
fn calendar_values_are_exact() {
    assert_eq!(days_from_civil(1970, 1, 1), 0);
    assert_eq!(days_from_civil(2000, 3, 1), 11017);
    assert_eq!(days_in_month(2000, 2), 29);
    assert_eq!(days_in_month(1900, 2), 28);
    assert_eq!(parse_timestamp(b"2024-02-29T12:34:56Z"), Ok(1709210096));
    assert_eq!(parse_timestamp(b"-17"), Ok(-17));
    assert!(parse_timestamp(b"2023-02-29T00:00:00Z").is_err());
}

#[test]
fn colours_and_paths_are_parsed_field_by_field() {
    assert_eq!(parse_colour(b"#0aB0ff"), Some(ParsedColour([0x0a, 0xb0, 0xff])));
    assert_eq!(parse_colour(b"0aB0ff"), Some(ParsedColour([0x0a, 0xb0, 0xff])));
    assert_eq!(parse_colour(b"#12345"), None);
    let limits = IngestLimits::default();
    assert_eq!(parse_path(b"/a/b", &limits).unwrap(), (b"a/b".as_slice(), false));
    assert_eq!(parse_path(b"a/b/", &limits).unwrap(), (b"a/b".as_slice(), true));
    assert!(parse_path(b"", &limits).is_err());
    assert!(parse_path(b"a//b", &limits).is_err());
}

#[test]
fn each_record_error_has_its_code() {
    let defaults = IngestOptions::default();
    let codes = [
        (b"0|a|X|a\n".as_slice(), "invalid-action"),
        (b"x|a|A|a\n".as_slice(), "invalid-timestamp"),
        (b"0|a|A|a|#zzzzzz\n".as_slice(), "invalid-colour"),
        (b"0|a|A\n".as_slice(), "wrong-field-count"),
        (b"0|a|A|\xff\n".as_slice(), "invalid-utf8"),
        (b"0|a|A|a\0b\n".as_slice(), "nul-byte"),
        (b"0|a|A|a\rb\n".as_slice(), "lone-carriage-return"),
        (b"0|a|A|\xef\xbb\xbfa\n".as_slice(), "bom-not-at-start"),
        (b"0|a|M|dir/\n".as_slice(), "directory-action-unsupported"),
        (b"0|a|A|../a\n".as_slice(), "invalid-path"),
    ];
    for (input, code) in codes {
        let error = refuse(input, &defaults);
        assert_eq!(error.code(), code, "{}", error.render());
        assert_eq!(error.line, 1);
    }
    let narrow = IngestOptions::from(IngestLimits::default().with_max_input_bytes(4));
    assert_eq!(refuse(b"0|a|A|a\n", &narrow).code(), "input-too-large");
    let short = IngestOptions::from(IngestLimits::default().with_max_path_bytes(1));
    assert_eq!(refuse(b"0|a|A|ab\n", &short).code(), "path-too-long");
    let nameless = IngestOptions::from(IngestLimits::default().with_max_contributor_bytes(1));
    assert_eq!(refuse(b"0|ab|A|a\n", &nameless).code(), "contributor-too-long");
    let flat = IngestOptions::from(IngestLimits::default().with_max_path_components(1));
    assert_eq!(refuse(b"0|a|A|a/b\n", &flat).code(), "path-too-deep");
    let cramped = IngestOptions::from(IngestLimits::default().with_max_record_bytes(4));
    assert_eq!(refuse(b"0|a|A|a\n", &cramped).code(), "record-too-large");
    let few = IngestOptions::from(IngestLimits::default().with_max_events(1));
    assert_eq!(refuse(b"0|a|A|a\n1|a|M|a\n", &few).code(), "event-count-limit");
}
