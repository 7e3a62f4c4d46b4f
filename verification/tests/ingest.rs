//! Indexing whole histories.

use std::fmt::Write;

use gource::error::ErrorCode;
use gource::history::IndexedHistory;
use gource::ingest::parse_bytes;
use gource::input::{input_identity_bytes, input_path_context, InputSpec};
use gource::limits::{index_working_memory_bytes, parser_working_memory_bytes, IngestLimits};
use gource::model::{Action, EventIndex, Rgb8};
use gource::options::{CancellationToken, IngestOptions};

fn ingest(input: &[u8], limits: IngestLimits) -> IndexedHistory {
    match parse_bytes(input, &IngestOptions::from(limits)) {
        Ok(history) => history,
        Err(error) => panic!("{}", error.render()),
    }
}

#[test]
fn parse_path_keeps_regular_custom_log_behavior() {
    let bytes = b"42|custom-user|A|src/main.rs\n";
    let history = ingest(bytes, IngestLimits::default());
    assert_eq!(history.len(), 1);
    assert_eq!(history.events()[0].timestamp(), 42);
    let repository_path = history
        .catalog()
        .path(history.events()[0].path_id())
        .expect("catalog path");
    assert_eq!(repository_path.canonical(), "src/main.rs");
}

#[test]
fn input_identity_path_hashes_exact_file_bytes() {
    let bytes = b"42|custom-user|A|src/main.rs\n";
    let identity = input_identity_bytes(bytes, "custom.log", &IngestOptions::default())
        .expect("file identity");
    assert_eq!(identity.bytes(), bytes.len() as u64);
    assert_eq!(identity.digest(), blake3::hash(bytes).as_bytes());
}

#[test]
fn input_identity_path_rejects_bytes_beyond_the_configured_limit() {
    let options =
        IngestOptions::default().with_limits(IngestLimits::default().with_max_input_bytes(5));
    let error = input_identity_bytes(b"012345", "custom.log", &options).expect_err("input limit");
    assert_eq!(error.code(), "input-too-large");
    assert_eq!(error.byte_offset, 5);
}

#[test]
fn input_identity_path_checks_cancellation_between_chunks() {
    let token = CancellationToken::new();
    token.cancel();
    let options = IngestOptions::default().with_cancellation(token);
    let error = input_identity_bytes(b"012345", "custom.log", &options)
        .expect_err("cancelled input");
    assert!(error.is_cancelled());
    assert_eq!(error.byte_offset, 0);
}

#[test]
fn external_runs_preserve_payload_associations_for_duplicates_and_equal_timestamps() {
    const PAIR_COUNT: usize = 15_000;
    const VARIANT_COUNT: usize = 1_024;
    let mut input = String::new();
    for pair in 0..PAIR_COUNT {
        let timestamp = PAIR_COUNT - pair;
        let path_variant = (pair * 7 + 3) % VARIANT_COUNT;
        let contributor_variant = (pair * 11 + 5) % VARIANT_COUNT;
        let action = match pair % 3 {
            0 => 'A',
            1 => 'M',
            _ => 'D',
        };
        let record = if pair % 2 == 0 {
            format!(
                "{timestamp}|user-{contributor_variant}|{action}|payload/path-{path_variant}|#{:02x}{:02x}{:02x}",
                pair % 256,
                pair.wrapping_mul(3) % 256,
                pair.wrapping_mul(7) % 256,
            )
        } else {
            format!("{timestamp}|user-{contributor_variant}|{action}|payload/path-{path_variant}")
        };
        // Each pair is an exact duplicate, while the payload varies with
        // its source sequence.
        input.write_str(&format!("{record}\n{record}\n")).expect("format input");
    }
    let base_limits = IngestLimits::default().with_working_memory_bytes(6 * 1024 * 1024);
    let history = ingest(input.as_bytes(), base_limits.clone().with_run_fan_in(2));
    let alternate = ingest(input.as_bytes(), base_limits.with_run_fan_in(3));

    assert_eq!(history.len(), PAIR_COUNT * 2);
    assert_eq!(history.events(), alternate.events());
    assert!(history
        .events()
        .windows(2)
        .all(|events| events[0].key <= events[1].key));
    for (index, event) in history.events().iter().enumerate() {
        let expected_source_sequence = ((PAIR_COUNT - 1 - index / 2) * 2) + index % 2;
        assert_eq!(
            event.source_sequence().get() as usize,
            expected_source_sequence
        );
        let pair = expected_source_sequence / 2;
        assert_eq!(event.timestamp(), (PAIR_COUNT - pair) as i64);

        let path_variant = (pair * 7 + 3) % VARIANT_COUNT;
        let expected_path = format!("payload/path-{path_variant}");
        assert_eq!(
            history
                .catalog()
                .path(event.path_id())
                .expect("catalog path")
                .canonical(),
            expected_path
        );
        let contributor_variant = (pair * 11 + 5) % VARIANT_COUNT;
        let expected_contributor = format!("user-{contributor_variant}");
        assert_eq!(
            history.catalog().contributor(event.contributor),
            Some(expected_contributor.as_str())
        );
        let expected_action = match pair % 3 {
            0 => Action::Add,
            1 => Action::Modify,
            _ => Action::Delete,
        };
        assert_eq!(event.action, expected_action);
        let expected_color = if pair % 2 == 0 {
            Some(Rgb8::new(
                (pair % 256) as u8,
                (pair.wrapping_mul(3) % 256) as u8,
                (pair.wrapping_mul(7) % 256) as u8,
            ))
        } else {
            None
        };
        assert_eq!(event.color, expected_color);
    }
    for duplicate in history.events().chunks(2) {
        assert_eq!(duplicate[0].timestamp(), duplicate[1].timestamp());
        assert_eq!(duplicate[0].path_id(), duplicate[1].path_id());
        assert_eq!(duplicate[0].contributor, duplicate[1].contributor);
        assert_eq!(duplicate[0].action, duplicate[1].action);
        assert_eq!(duplicate[0].color, duplicate[1].color);
    }
}

#[test]
fn file_and_directory_targets_keep_distinct_catalog_paths() {
    let history = ingest(
        b"0|user|A|dir\n1|user|D|dir/\n",
        IngestLimits::default()
            .with_max_record_bytes(256)
            .with_working_memory_bytes(64 * 1024),
    );
    assert_eq!(history.catalog().path_count(), 2);
    let file_event = &history.events()[0];
    let directory_event = &history.events()[1];
    assert!(!file_event.is_directory());
    assert!(directory_event.is_directory());
    let file_path = history
        .catalog()
        .path(file_event.path_id())
        .expect("file path");
    let directory_path = history
        .catalog()
        .path(directory_event.path_id())
        .expect("directory path");
    assert_eq!(file_path.canonical(), "dir");
    assert!(!file_path.is_directory());
    assert_eq!(directory_path.canonical(), "dir/");
    assert!(directory_path.is_directory());
}

#[test]
fn external_merge_event_reservation_respects_index_share() {
    let mut input = String::new();
    for index in 0..3_000u64 {
        input.write_str(&format!("{}|user|A|path\n", 3_000 - index)).expect("format input");
    }
    let limits = IngestLimits::default()
        .with_max_record_bytes(256)
        .with_working_memory_bytes(128 * 1024)
        .with_run_fan_in(2);
    let error = parse_bytes(input.as_bytes(), &IngestOptions::from(limits))
        .expect_err("index memory limit");
    assert_eq!(error.code(), "working-memory-limit");
    assert!(error
        .message
        .contains(&index_working_memory_bytes(128 * 1024).to_string()));
}

#[test]
fn working_memory_limit_is_typed_and_no_prefix_is_published() {
    let mut input = String::new();
    for index in 0..128u64 {
        input.write_str(&format!("{index}|user|A|path-{index}\n")).expect("format input");
    }
    let limits = IngestLimits::default()
        .with_working_memory_bytes(16 * 1024)
        .with_working_disk_bytes(1 << 20);
    let error =
        parse_bytes(input.as_bytes(), &IngestOptions::from(limits)).expect_err("memory limit");
    assert_eq!(error.code(), "working-memory-limit");
    assert!(error.message.contains("working_memory_bytes"));
    assert!(error.message.contains("8192"));
}

#[test]
fn working_disk_limit_is_typed_during_spill() {
    let mut input = String::new();
    for index in 0..5_000u64 {
        input.write_str(&format!("{index}|user|A|path\n")).expect("format input");
    }
    let limits = IngestLimits::default()
        .with_max_record_bytes(256)
        .with_working_memory_bytes(16 * 1024)
        .with_working_disk_bytes(64);
    let error =
        parse_bytes(input.as_bytes(), &IngestOptions::from(limits)).expect_err("disk limit");
    assert_eq!(error.code(), "working-disk-limit");
    assert!(error.message.contains("working_disk_bytes"));
    assert!(error.message.contains("64"));
}

#[test]
fn identities_hash_the_input_and_everything_indexed() {
    let bytes = b"0|alice|A|src/a.rs\n1|bob|M|src/a.rs|#010203\n";
    let history = ingest(bytes, IngestLimits::default());
    assert_eq!(history.input_identity().digest(), blake3::hash(bytes).as_bytes());
    assert_eq!(history.input_bytes(), bytes.len() as u64);
    let same = ingest(bytes, IngestLimits::default().with_working_memory_bytes(64 * 1024 * 1024));
    assert_eq!(history.dataset_identity(), same.dataset_identity());
    let other = ingest(b"0|alice|A|src/a.rs\n1|bob|M|src/a.rs|#010204\n", IngestLimits::default());
    assert!(history.dataset_identity() != other.dataset_identity());
    assert_ne!(history.input_identity().render(), other.input_identity().render());
}

#[test]
fn names_are_interned_in_order_of_first_use_and_events_are_sorted() {
    let history = ingest(b"5|zoe|A|b\n3|amy|A|a\n5|zoe|M|b\n", IngestLimits::default());
    let catalog = history.catalog();
    assert_eq!(catalog.paths()[0].canonical(), "b");
    assert_eq!(catalog.paths()[1].canonical(), "a");
    assert_eq!(catalog.contributors()[0], "zoe");
    let sequences: Vec<u64> =
        history.events().iter().map(|event| event.source_sequence().get()).collect();
    assert_eq!(sequences, vec![1, 0, 2]);
    assert_eq!(history.event(EventIndex::new(0)).expect("event").timestamp(), 3);
    assert!(history.event(EventIndex::new(3)).is_none());
}

#[test]
fn empty_inputs_give_empty_histories() {
    let history = ingest(b"", IngestLimits::default());
    assert!(history.is_empty());
    assert_eq!(history.catalog().path_count(), 0);
    let marked = ingest(b"\xef\xbb\xbf", IngestLimits::default());
    assert!(marked.is_empty());
}

#[test]
fn zero_limits_are_refused_by_name() {
    let error = parse_bytes(b"", &IngestOptions::from(IngestLimits::default().with_max_events(0)))
        .expect_err("zero limit");
    assert!(error.render().contains("max_events"), "{}", error.render());
    assert_eq!(error.code, ErrorCode::EventCountLimit);
}

#[test]
fn budget_shares_add_up() {
    assert_eq!(parser_working_memory_bytes(9) + index_working_memory_bytes(9), 9);
}

#[test]
fn input_specs_tell_files_from_standard_input() {
    assert_eq!(InputSpec::parse("-"), InputSpec::Stdin);
    assert_eq!(InputSpec::from("log".to_owned()), InputSpec::file("log".to_owned()));
    let long = "é".repeat(200);
    let context = input_path_context(&long);
    assert!(context.len() < long.len());
}
