//! Cache entries and the room that they take.

use std::collections::BTreeMap;

use gource::cache_decode::{decode_entry, load_entry};
use gource::cache_encode::prepare_entry;
use gource::cache_evict::{
    classify_name, eviction_metadata_cost, inspect_entry, quota_incoming,
    unix_directory_is_private, windows_owner_rights_sid, windows_owner_rights_sid_matches,
    EntryName, EvictionScan, FileKind, LoadStep,
};
use gource::cache_key::{entry_name, CacheConfig, CacheError, CacheKey};
use gource::history::IndexedHistory;
use gource::ingest::parse_bytes;
use gource::limits::IngestLimits;
use gource::options::IngestOptions;

const FIXED_COST: u64 = 64;

fn options() -> IngestOptions {
    IngestOptions::default()
        .with_limits(IngestOptions::default().limits.with_max_record_bytes(256))
}

fn history(bytes: &[u8]) -> IndexedHistory {
    parse_bytes(bytes, &options()).expect("test history")
}

fn config(max_bytes: u64, max_entry_bytes: u64) -> CacheConfig {
    CacheConfig::new("cache".to_owned())
        .with_max_bytes(max_bytes)
        .with_max_entry_bytes(max_entry_bytes)
}

/// A cache directory held in memory.
struct MemoryCache {
    config: CacheConfig,
    files: BTreeMap<String, (Vec<u8>, i128)>,
    clock: i128,
}

impl MemoryCache {
    fn open(config: CacheConfig) -> Self {
        config.validate().expect("cache open");
        let mut files = BTreeMap::new();
        files.insert(".cache.lock".to_owned(), (Vec::new(), 0));
        MemoryCache {
            config,
            files,
            clock: 0,
        }
    }

    fn kind(&self, name: &str) -> FileKind {
        match self.files.get(name) {
            Some((bytes, modified)) => FileKind::File {
                size: bytes.len() as u64,
                modified: *modified,
            },
            None => FileKind::Missing,
        }
    }

    fn load(&mut self, key: &CacheKey) -> Option<IndexedHistory> {
        let name = entry_name(key);
        match inspect_entry(self.kind(&name), self.config.max_entry_bytes()) {
            LoadStep::Miss => load_entry(None, key, &self.config),
            LoadStep::Discard => {
                self.files.remove(&name);
                None
            }
            LoadStep::Read(size) => {
                let bytes = self.files[&name].0.clone();
                assert_eq!(bytes.len(), size);
                match load_entry(Some(&bytes), key, &self.config) {
                    Some(history) => Some(history),
                    None => {
                        self.files.remove(&name);
                        None
                    }
                }
            }
        }
    }

    fn store(&mut self, key: &CacheKey, history: &IndexedHistory) -> Result<(), CacheError> {
        let bytes = prepare_entry(key, history, &self.config)?;
        let target = entry_name(key);
        let replaced = match self.kind(&target) {
            FileKind::File { size, .. } => size,
            _ => 0,
        };
        let incoming = quota_incoming(bytes.len() as u64, replaced, &self.config)?;
        let mut scan = EvictionScan::new(&self.config, incoming, Some(target.clone()), FIXED_COST);
        let mut removed = Vec::new();
        for name in self.files.keys() {
            if scan.admit_name(name)? == EntryName::Lock {
                continue;
            }
            if scan.inspect(name, self.kind(name))? {
                removed.push(name.clone());
            }
        }
        for name in removed {
            self.files.remove(&name);
        }
        let plan = scan.plan();
        for victim in &plan.victims {
            self.files.remove(&victim.name);
        }
        if !plan.enforced {
            return Err(CacheError::InvalidConfig("cache quota could not be enforced"));
        }
        self.clock += 1;
        self.files.insert(target, (bytes, self.clock));
        Ok(())
    }
}

#[test]
fn hit_and_miss_round_trip() {
    let mut cache = MemoryCache::open(config(1 << 20, 1 << 20));
    let options = options();
    let value = history(b"0|alice|A|src/a.rs\n1|alice|M|src/a.rs\n");
    let key = CacheKey::from_options(value.input_identity(), &options);
    assert!(cache.load(&key).is_none());
    cache.store(&key, &value).expect("store");
    assert_eq!(cache.load(&key), Some(value));
}

#[test]
fn corruption_and_truncation_are_removed_misses() {
    let mut cache = MemoryCache::open(config(1 << 20, 1 << 20));
    let options = options();
    let value = history(b"0|alice|A|src/a.rs\n");
    let key = CacheKey::from_options(value.input_identity(), &options);
    cache.store(&key, &value).expect("store");
    let path = entry_name(&key);
    let last = cache.files[&path].0.len() - 1;
    cache.files.get_mut(&path).expect("entry").0[last] ^= 0x80;
    assert!(cache.load(&key).is_none());
    cache.store(&key, &value).expect("restore");
    cache.files.get_mut(&path).expect("entry").0.pop();
    assert!(cache.load(&key).is_none());
    assert!(!cache.files.contains_key(&path));
}

#[test]
fn every_changed_byte_is_a_miss() {
    let value = history(b"0|alice|A|src/a.rs\n");
    let key = CacheKey::from_options(value.input_identity(), &options());
    let bytes = prepare_entry(&key, &value, &config(1 << 20, 1 << 20)).expect("entry");
    for at in 0..bytes.len() {
        let mut changed = bytes.clone();
        changed[at] ^= 1;
        assert!(decode_entry(&changed, &key, 1 << 20).is_err(), "byte {at}");
    }
    let other = CacheKey::from_options(
        value.input_identity(),
        &IngestOptions::from(IngestLimits::default()),
    );
    assert!(decode_entry(&bytes, &other, 1 << 20).is_err());
    assert!(decode_entry(&bytes, &key, 64).is_err());
}

#[test]
fn oversized_entry_is_removed_before_allocation() {
    let mut cache = MemoryCache::open(config(256, 256));
    let value = history(b"0|alice|A|src/a.rs\n");
    let key = CacheKey::from_options(value.input_identity(), &options());
    let path = entry_name(&key);
    cache.files.insert(path.clone(), (vec![0_u8; 257], 0));
    assert!(cache.load(&key).is_none());
    assert!(!cache.files.contains_key(&path));
}

#[test]
fn failed_store_preserves_prior_valid_entry() {
    let value = history(b"0|alice|A|src/a-long-name.rs\n");
    let key = CacheKey::from_options(value.input_identity(), &options());
    let mut roomy = MemoryCache::open(config(1 << 20, 1 << 20));
    roomy.store(&key, &value).expect("initial store");
    roomy.config.max_entry_bytes = 64;
    assert!(roomy.store(&key, &value).is_err());
    roomy.config.max_entry_bytes = 1 << 20;
    assert_eq!(roomy.load(&key), Some(value));
}

#[test]
fn replacement_quota_counts_old_target_before_staging() {
    let value = history(b"0|alice|A|src/a-long-name.rs\n");
    let key = CacheKey::from_options(value.input_identity(), &options());
    let mut cache = MemoryCache::open(config(1 << 20, 1 << 20));
    cache.store(&key, &value).expect("initial store");
    let old_size = cache.files[&entry_name(&key)].0.len() as u64;
    cache.config = config(old_size + 1, old_size + 1);
    assert!(cache.store(&key, &value).is_err());
    assert_eq!(cache.load(&key), Some(value));
}

#[test]
fn deterministic_oldest_eviction_obeys_total_cap() {
    let first = history(b"0|alice|A|src/first.rs\n");
    let second = history(b"0|bob|A|src/second.rs\n");
    let mut cache = MemoryCache::open(config(1 << 20, 1 << 20));
    let key1 = CacheKey::from_options(first.input_identity(), &options());
    cache.store(&key1, &first).expect("first store");
    let size = cache.files[&entry_name(&key1)].0.len() as u64;
    cache.config = config(size + 1, size + 1);
    let key2 = CacheKey::from_options(second.input_identity(), &options());
    cache.store(&key2, &second).expect("second store");
    assert!(cache.load(&key1).is_none());
    assert_eq!(cache.load(&key2), Some(second));
}

#[test]
fn eviction_scan_bounds_adversarial_zero_byte_entries() {
    let mut cache = MemoryCache::open(
        config(1 << 20, 1 << 20)
            .with_max_directory_entries(8)
            .with_max_metadata_bytes(4096),
    );
    for index in 0..32 {
        cache.files.insert(format!("adversary-{index}.bin"), (Vec::new(), 0));
    }
    let value = history(b"0|alice|A|src/a.rs\n");
    let key = CacheKey::from_options(value.input_identity(), &options());
    let error = cache.store(&key, &value).expect_err("entry cap");
    assert!(
        matches!(error, CacheError::DirectoryEntryLimit { limit: 8 }),
        "unexpected eviction error: {error:?}"
    );
}

#[test]
fn valid_cache_works_at_directory_entry_limit() {
    let mut cache = MemoryCache::open(
        config(1 << 20, 1 << 20)
            .with_max_directory_entries(2)
            .with_max_metadata_bytes(4096),
    );
    let value = history(b"0|alice|A|src/a.rs\n");
    let key = CacheKey::from_options(value.input_identity(), &options());
    cache.store(&key, &value).expect("store");
    assert_eq!(cache.load(&key), Some(value));
}

#[test]
fn owner_rights_sid_encoding_is_stable() {
    assert_eq!(
        windows_owner_rights_sid().0,
        [1, 1, 0, 0, 0, 0, 0, 3, 4, 0, 0, 0],
    );
    assert!(windows_owner_rights_sid_matches(&[1, 1, 0, 0, 0, 0, 0, 3, 4, 0, 0, 0]));
    assert!(!windows_owner_rights_sid_matches(&[1, 1, 0, 0, 0, 0, 0, 3, 5, 0, 0, 0]));
}

#[test]
fn keys_are_named_by_their_digest() {
    let value = history(b"0|alice|A|src/a.rs\n");
    let key = CacheKey::from_history(&value, &options());
    let same = CacheKey::from_input_bytes(b"0|alice|A|src/a.rs\n", &options());
    assert_eq!(key.file_stem(), same.file_stem());
    assert_eq!(key.file_stem().len(), 64);
    assert_eq!(entry_name(&key), format!("{}.bin", key.file_stem()));
    let digest = CacheKey::from_input_digest(
        *value.input_identity().digest(),
        value.input_bytes(),
        &options(),
    );
    assert_eq!(digest.digest(), key.digest());
    let wider = CacheKey::from_history(&value, &IngestOptions::default());
    assert!(wider.digest() != key.digest());
}

#[test]
fn stores_refuse_foreign_keys_and_small_entries() {
    let value = history(b"0|alice|A|src/a.rs\n");
    let other = history(b"0|alice|A|src/b.rs\n");
    let key = CacheKey::from_history(&other, &options());
    assert_eq!(
        prepare_entry(&key, &value, &config(1 << 20, 1 << 20)),
        Err(CacheError::KeyMismatch)
    );
    let key = CacheKey::from_history(&value, &options());
    assert!(matches!(
        prepare_entry(&key, &value, &config(1 << 20, 300)),
        Err(CacheError::EntryTooLarge { .. })
    ));
}

#[test]
fn configurations_are_checked() {
    assert!(config(1 << 20, 1 << 20).validate().is_ok());
    assert!(config(0, 1 << 20).validate().is_err());
    assert!(config(1 << 20, 0).validate().is_err());
    assert!(config(1, 1).with_max_directory_entries(0).validate().is_err());
    assert!(config(1, 1).with_max_metadata_bytes(0).validate().is_err());
}

#[test]
fn names_and_metadata_are_accounted_for() {
    assert_eq!(classify_name(".cache.lock"), Some(EntryName::Lock));
    assert_eq!(classify_name(".x.1.2.tmp"), Some(EntryName::Temporary));
    assert_eq!(classify_name("x.bin"), Some(EntryName::Entry));
    assert_eq!(classify_name("x.txt"), None);
    assert_eq!(eviction_metadata_cost(5, 64, 100), Ok(69));
    assert_eq!(
        eviction_metadata_cost(usize::MAX, u64::MAX, 100),
        Err(CacheError::DirectoryMetadataLimit { limit: 100 })
    );
    let config = config(1 << 20, 1 << 20);
    let mut scan = EvictionScan::new(&config, 0, None, FIXED_COST);
    assert_eq!(
        scan.admit_name("notes.txt"),
        Err(CacheError::UnknownEntry { name: "notes.txt".to_owned() })
    );
    let mut scan = EvictionScan::new(&config.with_max_metadata_bytes(66), 0, None, FIXED_COST);
    assert!(matches!(
        scan.admit_name("x.bin"),
        Err(CacheError::DirectoryMetadataLimit { limit: 66 })
    ));
}

#[test]
fn oldest_entries_leave_first_and_ties_by_name() {
    let config = config(1000, 1000);
    let mut scan = EvictionScan::new(&config, 400, None, FIXED_COST);
    for (name, modified) in [("b.bin", 7), ("a.bin", 7), ("c.bin", 3)] {
        assert_eq!(scan.inspect(name, FileKind::File { size: 300, modified }), Ok(false));
    }
    assert_eq!(scan.inspect("d.tmp", FileKind::File { size: 1, modified: 0 }), Ok(true));
    assert_eq!(scan.inspect("e.bin", FileKind::Other), Ok(true));
    let plan = scan.plan();
    let victims: Vec<&str> = plan.victims.iter().map(|entry| entry.name.as_str()).collect();
    assert_eq!(victims, vec!["c.bin"]);
    assert!(plan.enforced);
    assert_eq!(plan.stays.len(), 2);
}

#[test]
fn the_order_of_a_directory_does_not_change_who_leaves() {
    let config = config(1000, 1000);
    let entries = [("b.bin", 7), ("a.bin", 7), ("c.bin", 3)];
    for order in [[0, 1, 2], [2, 1, 0], [1, 0, 2], [1, 2, 0]] {
        let mut scan = EvictionScan::new(&config, 600, None, FIXED_COST);
        for at in order {
            let (name, modified) = entries[at];
            let kind = FileKind::File { size: 300, modified };
            assert_eq!(scan.inspect(name, kind), Ok(false));
        }
        let plan = scan.plan();
        let victims: Vec<&str> = plan.victims.iter().map(|entry| entry.name.as_str()).collect();
        assert_eq!(victims, vec!["c.bin", "a.bin"]);
    }
}

#[test]
fn only_the_owner_may_enter_a_private_directory() {
    assert!(unix_directory_is_private(0o700, 5, 5));
    assert!(!unix_directory_is_private(0o755, 5, 5));
    assert!(!unix_directory_is_private(0o700, 5, 6));
}

#[test]
fn cache_errors_render_their_numbers() {
    let text = CacheError::EntryTooLarge { size: 300, maximum: 256 }.render();
    assert!(text.contains("300") && text.contains("256"), "{text}");
    assert!(!CacheError::LockTimeout.render().is_empty());
}
