//! Inputs that are refused.

use gource::cache_encode::encode_entry;
use gource::cache_key::{CacheError, CacheKey};
use gource::catalog::{Catalog, CatalogError, CatalogLimits};
use gource::ingest::parse_bytes;
use gource::limits::IngestLimits;
use gource::model::RepositoryPath;
use gource::options::IngestOptions;
use gource::runs::{MergeMemory, RunReader};

fn path(text: &str) -> RepositoryPath {
    RepositoryPath::parse_with_limits(text, 1024, 16).expect("path")
}

#[test]
fn catalogs_refuse_what_exceeds_their_limits() {
    let mut catalog = Catalog::with_limits(CatalogLimits {
        path_bytes: 8,
        contributor_bytes: 4,
        path_components: 2,
        max_paths: 1,
        max_contributors: 1,
    });
    assert_eq!(catalog.intern_path(&path("too/long/a")), Err(CatalogError::PathRejected));
    assert_eq!(catalog.intern_path(&path("a/b/c")), Err(CatalogError::PathRejected));
    let id = catalog.intern_path(&path("a/b")).expect("first path");
    assert_eq!(id.value, 1);
    assert_eq!(catalog.intern_path(&path("a/b")), Ok(id));
    assert_eq!(catalog.intern_path(&path("a/c")), Err(CatalogError::PathLimit));
    assert_eq!(
        catalog.intern_contributor(&"alice".to_owned()),
        Err(CatalogError::ContributorTooLong)
    );
    let id = catalog.intern_contributor(&"bob".to_owned()).expect("first contributor");
    assert_eq!(id.value, 1);
    assert_eq!(catalog.intern_contributor(&"bob".to_owned()), Ok(id));
    assert_eq!(
        catalog.intern_contributor(&"eve".to_owned()),
        Err(CatalogError::ContributorLimit)
    );
}

#[test]
fn damaged_sort_runs_are_read_errors() {
    let limits = IngestLimits::default();
    let refuse = |data: &[u8]| match RunReader::open(data, 1) {
        Ok(_) => panic!("a damaged run was opened"),
        Err(error) => error,
    };
    let error = refuse(b"GIRUN");
    assert_eq!((error.code(), error.message.as_str()), ("io-error", "failed to fill whole buffer"));
    let error = refuse(b"GIRUN\0\0\x02");
    assert_eq!(
        (error.code(), error.message.as_str()),
        ("io-error", "temporary sort run has an unsupported version")
    );

    let mut data = b"GIRUN\0\0\x01".to_vec();
    data.extend_from_slice(&7_i64.to_le_bytes());
    data.extend_from_slice(&0_u64.to_le_bytes());
    data.extend_from_slice(&3_u64.to_le_bytes());
    data.extend_from_slice(&20_u64.to_le_bytes());
    data.extend_from_slice(&2_u32.to_le_bytes());
    data.extend_from_slice(&1_u32.to_le_bytes());
    data.extend_from_slice(b"A\0\0mef");
    let read = |data: &[u8], limit: u64| {
        let mut memory = MergeMemory { limit, used: 0 };
        let mut reader = RunReader::open(data, 1).expect("run");
        reader.next_record(&limits, &mut memory)
    };
    let record = read(&data, 100).expect("record").expect("one record");
    assert_eq!((record.timestamp, record.line, record.byte_offset), (7, 3, 20));
    assert_eq!((record.username.as_str(), record.path.as_str()), ("me", "f"));
    assert_eq!(read(&data, 2).expect_err("memory").code(), "working-memory-limit");

    let fixed = 8 + 40;
    for (place, value, message) in [
        (fixed, b'X', "temporary sort run contains an invalid action"),
        (fixed + 1, 2, "temporary sort run violates configured field bounds"),
        (fixed + 2, 2, "temporary sort run contains an invalid colour marker"),
        (fixed + 3, 0xff, "temporary sort run contains invalid UTF-8"),
    ] {
        let mut damaged = data.clone();
        damaged[place] = value;
        let error = read(&damaged, 100).expect_err("damaged record");
        assert_eq!((error.code(), error.message.as_str()), ("io-error", message));
        assert_eq!((error.line, error.byte_offset), (3, 20));
    }
    data.pop();
    let error = read(&data, 100).expect_err("short record");
    assert_eq!(error.message, "failed to fill whole buffer");
}

#[test]
fn many_runs_need_a_fan_in_of_two() {
    let mut input = String::new();
    let user = "contributor ".repeat(16);
    for record in 0..2_000 {
        input.push_str(&format!("{}|{user}|A|some/path-{}\n", 2_000 - record, record % 10));
    }
    let limits = IngestLimits::default()
        .with_max_record_bytes(256)
        .with_working_memory_bytes(600 * 1024);
    let options = IngestOptions::default().with_limits(limits.clone().with_run_fan_in(1));
    let error = parse_bytes(input.as_bytes(), &options).expect_err("one run at a time");
    assert_eq!(error.code(), "run-fan-in-limit");
    assert_eq!(error.message, "run_fan_in configured bound is 1");

    let merged = parse_bytes(
        input.as_bytes(),
        &IngestOptions::default().with_limits(limits.with_run_fan_in(2)),
    )
    .expect("two runs at a time");
    assert_eq!(merged.len(), 2_000);
    let roomy = parse_bytes(input.as_bytes(), &IngestOptions::default()).expect("no runs");
    assert_eq!(merged.events(), roomy.events());
}

#[test]
fn histories_beyond_the_limits_of_a_key_are_not_encoded() {
    let options = IngestOptions::default();
    let history = parse_bytes(b"1|me|A|a\n2|me|A|b\n", &options).expect("history");
    let narrow = IngestOptions::default().with_limits(IngestLimits::default().with_max_events(1));
    let key = CacheKey::new(history.input_identity().clone(), &narrow);
    assert_eq!(
        encode_entry(&key, &history, 1 << 20),
        Err(CacheError::InvalidHistory("cache entry exceeds caller ingest limits"))
    );
}
