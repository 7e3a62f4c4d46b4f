//! Sort runs that are kept outside.

use std::collections::BTreeMap;

use gource::error::{ErrorCode, IngestError};
use gource::history::IndexedHistory;
use gource::ingest::{build_index, parse_bytes, LogIngest};
use gource::limits::IngestLimits;
use gource::options::{CancellationToken, IngestOptions};
use gource::parser::LogParser;
use gource::reader::parse_log;
use gource::sorting::spill_records;
use gource::stored_index::{StoreAction, StoredIndex, OUTPUT_BYTES};
use gource::stored_reader::ReadRequest;

/// Runs in a map, with a count of what was done to them.
struct Shelf {
    runs: BTreeMap<u64, Vec<u8>>,
    written: usize,
    continued: usize,
    removed: usize,
    damage: fn(&ReadRequest, Vec<u8>) -> Vec<u8>,
}

impl Shelf {
    fn new(damage: fn(&ReadRequest, Vec<u8>) -> Vec<u8>) -> Self {
        Shelf {
            runs: BTreeMap::new(),
            written: 0,
            continued: 0,
            removed: 0,
            damage,
        }
    }

    fn write(&mut self, run: u64, fresh: bool, bytes: Vec<u8>) {
        assert_eq!(fresh, !self.runs.contains_key(&run));
        if fresh {
            assert_eq!(run, self.written as u64);
            self.written += 1;
        } else {
            assert!(bytes.len() <= OUTPUT_BYTES + 100);
            self.continued += 1;
        }
        self.runs.entry(run).or_default().extend(bytes);
    }

    fn read(&self, request: &ReadRequest) -> Vec<u8> {
        let run = &self.runs[&request.run];
        let from = (request.offset as usize).min(run.len());
        let to = (from + request.length).min(run.len());
        (self.damage)(request, run[from..to].to_vec())
    }
}

fn keep(_: &ReadRequest, bytes: Vec<u8>) -> Vec<u8> {
    bytes
}

/// Ingests an input whose runs go to a shelf, and tells how many were written
/// while it was read.
fn ingest_shelved(
    input: &[u8],
    shelf: &mut Shelf,
    options: &IngestOptions,
) -> Result<(IndexedHistory, usize), IngestError> {
    let mut ingest = LogIngest::new(options)?;
    let mut position = 0;
    while ingest.parser.next(input, &mut position, options)? {
        ingest.intern_last(options)?;
        while let Some((run, bytes)) = ingest.parser.take_run(options) {
            shelf.write(run, true, bytes);
        }
    }
    let LogIngest { parser, names } = ingest;
    let mut parsed = parser.finish(options)?;
    if parsed.runs.is_none() {
        return Ok((build_index(parsed, names, options)?, 0));
    }
    while let Some((run, bytes)) = parsed.take_run(options) {
        shelf.write(run, true, bytes);
    }
    let spilled = shelf.written;
    let mut index = StoredIndex::begin(parsed, names, options)?;
    loop {
        match index.step(options)? {
            StoreAction::Nothing => {}
            StoreAction::Read(request) => index.supply(&shelf.read(&request), options)?,
            StoreAction::Write { run, fresh, bytes } => shelf.write(run, fresh, bytes),
            StoreAction::Remove(runs) => {
                for run in runs {
                    assert!(shelf.runs.remove(&run).is_some());
                    shelf.removed += 1;
                }
            }
            StoreAction::Done => {
                assert!(index.finished());
                return Ok((index.publish(options), spilled));
            }
        }
    }
}

fn sample(records: usize) -> String {
    let mut input = String::new();
    for number in 0..records {
        let timestamp = records - number / 2;
        let line = if number % 3 == 0 {
            format!("{timestamp}|user-{}|A|dir/file-{}|#0102ff\n", number % 19, number % 211)
        } else {
            format!("{timestamp}|user-{}|M|dir/file-{}\n", number % 19, number % 211)
        };
        input.push_str(&line);
    }
    input
}

fn small(fan_in: u64) -> IngestLimits {
    IngestLimits::default()
        .with_working_memory_bytes(3 * 1024 * 1024)
        .with_max_record_bytes(600_000)
        .with_run_fan_in(fan_in)
}

#[test]
fn runs_kept_outside_give_the_history_of_the_log() {
    let input = sample(20_000);
    let whole = parse_bytes(input.as_bytes(), &IngestOptions::default()).expect("history");
    for fan_in in [2, 3, 64] {
        let options = IngestOptions::from(small(fan_in));
        let mut shelf = Shelf::new(keep);
        let (history, spilled) =
            ingest_shelved(input.as_bytes(), &mut shelf, &options).expect("history");
        assert!(spilled > 3);
        assert_eq!(history.events(), whole.events());
        assert_eq!(
            history.dataset_identity().as_bytes(),
            whole.dataset_identity().as_bytes()
        );
        assert_eq!(shelf.written - shelf.removed, shelf.runs.len());
        assert!(shelf.runs.len() <= fan_in as usize);
        assert_eq!(fan_in == 64, shelf.removed == 0);
        assert_eq!(fan_in == 64, shelf.continued == 0);
    }
}

#[test]
fn logs_that_fit_the_memory_share_hand_out_no_run() {
    let input = sample(100);
    let options = IngestOptions::default();
    let mut shelf = Shelf::new(keep);
    let (history, spilled) =
        ingest_shelved(input.as_bytes(), &mut shelf, &options).expect("history");
    assert_eq!(spilled, 0);
    assert_eq!(shelf.written, 0);
    assert_eq!(history.len(), 100);
}

#[test]
fn paths_of_runs_are_charged_with_their_directory() {
    let input = sample(20_000);
    let options = IngestOptions::from(small(64));
    // A record of two one-byte texts, the state, and a slot and a name for each
    // run; a directory is charged itself and, with a separator, in every path.
    for (directory, state_bytes, run_bytes) in [(0_u32, 72, 67), (15, 87, 83)] {
        let mut parser = LogParser::new(&options).expect("parser");
        parser.set_run_directory(directory, &options);
        let mut position = 0;
        while parser.next(input.as_bytes(), &mut position, &options).expect("record") {}
        let parsed = parser.finish(&options).expect("parsed");
        let state = parsed.runs.expect("runs");
        assert_eq!(state.directory, directory);
        let count = state.runs.len();
        assert!(count > 3);
        let tight = IngestOptions::from(small(64).with_working_memory_bytes(400));
        let records = parse_log(b"1|a|A|b\n", &options).expect("record").records;
        let mut runs = Some(state);
        let error = spill_records(records, &mut runs, 0, &tight).expect_err("memory");
        let bytes = 88 + 2 + state_bytes + count * run_bytes;
        assert_eq!(
            error.message,
            format!("working_memory_bytes requested {bytes} bytes exceeds configured bound 200")
        );
    }
}

#[test]
fn a_run_of_another_version_is_refused() {
    let input = sample(20_000);
    let mut shelf = Shelf::new(|request, mut bytes| {
        if request.offset == 0 {
            bytes[0] ^= 1;
        }
        bytes
    });
    let options = IngestOptions::from(small(64));
    let error = ingest_shelved(input.as_bytes(), &mut shelf, &options).expect_err("version");
    assert_eq!(error.code, ErrorCode::Io);
    assert_eq!(error.message, "temporary sort run has an unsupported version");
}

#[test]
fn a_run_that_ends_early_is_refused() {
    let input = sample(20_000);
    let mut shelf = Shelf::new(|request, mut bytes| {
        if request.offset > 100 {
            bytes.pop();
        }
        bytes
    });
    let options = IngestOptions::from(small(64));
    let error = ingest_shelved(input.as_bytes(), &mut shelf, &options).expect_err("short run");
    assert_eq!(error.code, ErrorCode::Io);
}

#[test]
fn a_run_out_of_order_is_refused() {
    let input = sample(20_000);
    // Every record after the first of a run claims to be the oldest.
    let mut shelf = Shelf::new(|request, mut bytes| {
        if request.offset > 8 && bytes.len() >= 8 && request.length >= 40 {
            bytes[..8].copy_from_slice(&0_i64.to_le_bytes());
        }
        bytes
    });
    let options = IngestOptions::from(small(64));
    let error = ingest_shelved(input.as_bytes(), &mut shelf, &options).expect_err("order");
    assert_eq!(error.code, ErrorCode::Io);
    assert_eq!(error.message, "temporary sort run is out of order");
}

#[test]
fn the_disk_budget_bounds_runs_kept_outside() {
    let input = sample(20_000);
    let options = IngestOptions::from(small(2).with_working_disk_bytes(100_000));
    let mut shelf = Shelf::new(keep);
    let error = ingest_shelved(input.as_bytes(), &mut shelf, &options).expect_err("disk");
    assert_eq!(error.code, ErrorCode::WorkingDiskLimit);
}

#[test]
fn a_single_open_run_cannot_be_merged() {
    let input = sample(20_000);
    let options = IngestOptions::from(small(1));
    let mut shelf = Shelf::new(keep);
    let error = ingest_shelved(input.as_bytes(), &mut shelf, &options).expect_err("fan-in");
    assert_eq!(error.code, ErrorCode::RunFanInLimit);
}

#[test]
fn cancelling_stops_an_index_of_runs_kept_outside() {
    let input = sample(10);
    let token = CancellationToken::new();
    token.cancel();
    let options = IngestOptions::default().with_cancellation(token);
    let mut shelf = Shelf::new(keep);
    let error = ingest_shelved(input.as_bytes(), &mut shelf, &options).expect_err("cancelled");
    assert!(error.is_cancelled());
}
