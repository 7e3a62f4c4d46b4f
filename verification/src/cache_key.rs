//! Configuration, keys and errors of the history cache.

use vstd::bytes::*;
use vstd::prelude::*;

use crate::digest;
use crate::history::{IndexedHistory, InputIdentity};
use crate::limits::IngestLimits;
use crate::model::{CATALOG_SCHEMA_VERSION, EVENT_SCHEMA_VERSION, HISTORY_SCHEMA_VERSION};
use crate::options::IngestOptions;
use crate::text;

verus! {

/// Current on-disk cache format version.
pub const CACHE_SCHEMA_VERSION: u16 = 1;

/// Default aggregate cache capacity (4 GiB).
pub const DEFAULT_CACHE_BYTES: u64 = 4294967296;

/// Default maximum size of one cache entry.
pub const DEFAULT_CACHE_ENTRY_BYTES: u64 = 4294967296;

/// Default maximum number of directory entries inspected during eviction.
pub const DEFAULT_CACHE_DIRECTORY_ENTRIES: u64 = 4096;

/// Default aggregate metadata budget for a cache directory scan.
pub const DEFAULT_CACHE_METADATA_BYTES: u64 = 16777216;

/// Why a cache cannot be opened or an entry cannot be published.
#[derive(Clone, Debug, PartialEq, Eq)]
pub enum CacheError {
    Io(String),
    InvalidConfig(&'static str),
    InsecureDirectory(&'static str),
    LockTimeout,
    UnknownEntry { name: String },
    DirectoryEntryLimit { limit: u64 },
    DirectoryMetadataLimit { limit: u64 },
    EntryTooLarge { size: u64, maximum: u64 },
    Allocation,
    KeyMismatch,
    InvalidHistory(&'static str),
}

/// What a cache error says.
#[verifier::ext_equal]
pub enum CacheErrorView {
    Io(Seq<char>),
    InvalidConfig(Seq<char>),
    InsecureDirectory(Seq<char>),
    LockTimeout,
    UnknownEntry(Seq<char>),
    DirectoryEntryLimit(u64),
    DirectoryMetadataLimit(u64),
    EntryTooLarge(u64, u64),
    Allocation,
    KeyMismatch,
    InvalidHistory(Seq<char>),
}

impl View for CacheError {
    type V = CacheErrorView;

    open spec fn view(&self) -> CacheErrorView {
        match self {
            CacheError::Io(text) => CacheErrorView::Io(text@),
            CacheError::InvalidConfig(text) => CacheErrorView::InvalidConfig(text@),
            CacheError::InsecureDirectory(text) => CacheErrorView::InsecureDirectory(text@),
            CacheError::LockTimeout => CacheErrorView::LockTimeout,
            CacheError::UnknownEntry { name } => CacheErrorView::UnknownEntry(name@),
            CacheError::DirectoryEntryLimit { limit } => CacheErrorView::DirectoryEntryLimit(
                *limit,
            ),
            CacheError::DirectoryMetadataLimit { limit } => CacheErrorView::DirectoryMetadataLimit(
                *limit,
            ),
            CacheError::EntryTooLarge { size, maximum } => CacheErrorView::EntryTooLarge(
                *size,
                *maximum,
            ),
            CacheError::Allocation => CacheErrorView::Allocation,
            CacheError::KeyMismatch => CacheErrorView::KeyMismatch,
            CacheError::InvalidHistory(text) => CacheErrorView::InvalidHistory(text@),
        }
    }
}

/// The text of a cache error.
pub open spec fn cache_error_text(e: CacheErrorView) -> Seq<char> {
    match e {
        CacheErrorView::Io(text) => "cache I/O error: "@ + text,
        CacheErrorView::InvalidConfig(text) => "invalid cache configuration: "@ + text,
        CacheErrorView::InsecureDirectory(text) => "cache directory is not private: "@ + text,
        CacheErrorView::LockTimeout => "cache lock was busy until the bounded wait expired"@,
        CacheErrorView::UnknownEntry(name) => "cache directory contains an unknown entry "@ + name,
        CacheErrorView::DirectoryEntryLimit(limit) =>
            "cache directory entry count exceeds configured "@ + text::decimal(limit as nat),
        CacheErrorView::DirectoryMetadataLimit(limit) =>
            "cache directory metadata exceeds configured "@ + text::decimal(limit as nat)
                + " bytes"@,
        CacheErrorView::EntryTooLarge(size, maximum) => "cache entry is "@ + text::decimal(
            size as nat,
        ) + " bytes, exceeding the configured "@ + text::decimal(maximum as nat) + "-byte limit"@,
        CacheErrorView::Allocation => "cache allocation failed within configured bounds"@,
        CacheErrorView::KeyMismatch => "cache key input identity does not match the history"@,
        CacheErrorView::InvalidHistory(text) => "history is not valid for cache publication: "@
            + text,
    }
}

impl CacheError {
    /// The error as a message.
    pub fn render(&self) -> (text: String)
        ensures
            text@ == cache_error_text(self@),
    {
        let mut out = String::new();
        match self {
            CacheError::Io(text) => {
                out.append("cache I/O error: ");
                out.append(text.as_str());
            },
            CacheError::InvalidConfig(text) => {
                out.append("invalid cache configuration: ");
                out.append(text);
            },
            CacheError::InsecureDirectory(text) => {
                out.append("cache directory is not private: ");
                out.append(text);
            },
            CacheError::LockTimeout => {
                out.append("cache lock was busy until the bounded wait expired");
            },
            CacheError::UnknownEntry { name } => {
                out.append("cache directory contains an unknown entry ");
                out.append(name.as_str());
            },
            CacheError::DirectoryEntryLimit { limit } => {
                out.append("cache directory entry count exceeds configured ");
                text::push_decimal(&mut out, *limit);
            },
            CacheError::DirectoryMetadataLimit { limit } => {
                out.append("cache directory metadata exceeds configured ");
                text::push_decimal(&mut out, *limit);
                out.append(" bytes");
            },
            CacheError::EntryTooLarge { size, maximum } => {
                out.append("cache entry is ");
                text::push_decimal(&mut out, *size);
                out.append(" bytes, exceeding the configured ");
                text::push_decimal(&mut out, *maximum);
                out.append("-byte limit");
            },
            CacheError::Allocation => {
                out.append("cache allocation failed within configured bounds");
            },
            CacheError::KeyMismatch => {
                out.append("cache key input identity does not match the history");
            },
            CacheError::InvalidHistory(text) => {
                out.append("history is not valid for cache publication: ");
                out.append(text);
            },
        }
        assert(out@ =~= cache_error_text(self@));
        out
    }
}

/// Cache configuration.  All resource limits are finite.
#[derive(Clone, Debug, PartialEq, Eq)]
pub struct CacheConfig {
    /// Private directory containing cache entries.
    pub directory: String,
    /// Maximum aggregate size of published entry files.
    pub max_bytes: u64,
    /// Maximum size of one published entry file.
    pub max_entry_bytes: u64,
    /// Maximum number of directory entries inspected during eviction.
    pub max_directory_entries: u64,
    /// Maximum metadata bytes accounted for during an eviction scan.
    pub max_metadata_bytes: u64,
}

/// A bound that is neither zero nor the unbounded sentinel.
pub open spec fn is_finite(bound: u64) -> bool {
    bound != 0 && bound != u64::MAX
}

impl CacheConfig {
    /// A configuration with the default byte, entry and metadata limits.
    pub fn new(directory: String) -> (config: Self)
        ensures
            config == (CacheConfig {
                directory,
                max_bytes: DEFAULT_CACHE_BYTES,
                max_entry_bytes: DEFAULT_CACHE_ENTRY_BYTES,
                max_directory_entries: DEFAULT_CACHE_DIRECTORY_ENTRIES,
                max_metadata_bytes: DEFAULT_CACHE_METADATA_BYTES,
            }),
    {
        CacheConfig {
            directory,
            max_bytes: DEFAULT_CACHE_BYTES,
            max_entry_bytes: DEFAULT_CACHE_ENTRY_BYTES,
            max_directory_entries: DEFAULT_CACHE_DIRECTORY_ENTRIES,
            max_metadata_bytes: DEFAULT_CACHE_METADATA_BYTES,
        }
    }

    pub fn with_max_bytes(self, max_bytes: u64) -> (config: Self)
        ensures
            config == (CacheConfig { max_bytes, ..self }),
    {
        CacheConfig { max_bytes, ..self }
    }

    pub fn with_max_entry_bytes(self, max_entry_bytes: u64) -> (config: Self)
        ensures
            config == (CacheConfig { max_entry_bytes, ..self }),
    {
        CacheConfig { max_entry_bytes, ..self }
    }

    pub fn with_max_directory_entries(self, max_directory_entries: u64) -> (config: Self)
        ensures
            config == (CacheConfig { max_directory_entries, ..self }),
    {
        CacheConfig { max_directory_entries, ..self }
    }

    pub fn with_max_metadata_bytes(self, max_metadata_bytes: u64) -> (config: Self)
        ensures
            config == (CacheConfig { max_metadata_bytes, ..self }),
    {
        CacheConfig { max_metadata_bytes, ..self }
    }

    /// Alias for callers that describe the aggregate limit as a capacity.
    pub fn with_capacity(self, max_bytes: u64) -> (config: Self)
        ensures
            config == (CacheConfig { max_bytes, ..self }),
    {
        self.with_max_bytes(max_bytes)
    }

    pub fn directory(&self) -> (directory: &str)
        ensures
            directory@ == self.directory@,
    {
        self.directory.as_str()
    }

    pub fn max_bytes(&self) -> (bytes: u64)
        ensures
            bytes == self.max_bytes,
    {
        self.max_bytes
    }

    pub fn max_entry_bytes(&self) -> (bytes: u64)
        ensures
            bytes == self.max_entry_bytes,
    {
        self.max_entry_bytes
    }

    pub fn max_directory_entries(&self) -> (entries: u64)
        ensures
            entries == self.max_directory_entries,
    {
        self.max_directory_entries
    }

    pub fn max_metadata_bytes(&self) -> (bytes: u64)
        ensures
            bytes == self.max_metadata_bytes,
    {
        self.max_metadata_bytes
    }

    /// Why a configuration is refused.
    pub open spec fn fault(&self) -> Option<CacheErrorView> {
        if self.directory@.len() == 0 {
            Some(CacheErrorView::InvalidConfig("cache directory is empty"@))
        } else if !is_finite(self.max_bytes) {
            Some(CacheErrorView::InvalidConfig("max_bytes must be finite and non-zero"@))
        } else if !is_finite(self.max_entry_bytes) {
            Some(CacheErrorView::InvalidConfig("max_entry_bytes must be finite and non-zero"@))
        } else if self.max_entry_bytes > self.max_bytes {
            Some(CacheErrorView::InvalidConfig("max_entry_bytes must not exceed max_bytes"@))
        } else if !is_finite(self.max_directory_entries) {
            Some(
                CacheErrorView::InvalidConfig("max_directory_entries must be finite and non-zero"@),
            )
        } else if !is_finite(self.max_metadata_bytes) {
            Some(CacheErrorView::InvalidConfig("max_metadata_bytes must be finite and non-zero"@))
        } else {
            None
        }
    }

    pub fn validate(&self) -> (result: Result<(), CacheError>)
        ensures
            match result {
                Ok(()) => self.fault() is None,
                Err(e) => self.fault() == Some(e@),
            },
    {
        if self.directory.as_str().unicode_len() == 0 {
            return Err(CacheError::InvalidConfig("cache directory is empty"));
        }
        if self.max_bytes == 0 || self.max_bytes == u64::MAX {
            return Err(CacheError::InvalidConfig("max_bytes must be finite and non-zero"));
        }
        if self.max_entry_bytes == 0 || self.max_entry_bytes == u64::MAX {
            return Err(CacheError::InvalidConfig("max_entry_bytes must be finite and non-zero"));
        }
        if self.max_entry_bytes > self.max_bytes {
            return Err(CacheError::InvalidConfig("max_entry_bytes must not exceed max_bytes"));
        }
        if self.max_directory_entries == 0 || self.max_directory_entries == u64::MAX {
            return Err(
                CacheError::InvalidConfig("max_directory_entries must be finite and non-zero"),
            );
        }
        if self.max_metadata_bytes == 0 || self.max_metadata_bytes == u64::MAX {
            return Err(
                CacheError::InvalidConfig("max_metadata_bytes must be finite and non-zero"),
            );
        }
        Ok(())
    }
}

impl Default for CacheConfig {
    fn default() -> (config: Self)
        ensures
            config.directory@ == ".gource-cache"@,
            config.max_bytes == DEFAULT_CACHE_BYTES,
            config.max_entry_bytes == DEFAULT_CACHE_ENTRY_BYTES,
            config.max_directory_entries == DEFAULT_CACHE_DIRECTORY_ENTRIES,
            config.max_metadata_bytes == DEFAULT_CACHE_METADATA_BYTES,
    {
        CacheConfig::new(".gource-cache".to_owned())
    }
}

/// The limits that a decoded history must stay within.
#[derive(Clone, Copy, Debug, PartialEq, Eq, Structural, Hash)]
pub struct CacheLimitEnvelope {
    pub max_path_bytes: u64,
    pub max_contributor_bytes: u64,
    pub max_path_components: u64,
    pub max_events: u64,
    pub working_memory_bytes: u64,
}

/// The envelope of ingest limits.
pub open spec fn envelope_of(limits: IngestLimits) -> CacheLimitEnvelope {
    CacheLimitEnvelope {
        max_path_bytes: limits.max_path_bytes,
        max_contributor_bytes: limits.max_contributor_bytes,
        max_path_components: limits.max_path_components,
        max_events: limits.max_events,
        working_memory_bytes: limits.working_memory_bytes,
    }
}

pub fn cache_limit_envelope(limits: &IngestLimits) -> (envelope: CacheLimitEnvelope)
    ensures
        envelope == envelope_of(*limits),
{
    CacheLimitEnvelope {
        max_path_bytes: limits.max_path_bytes,
        max_contributor_bytes: limits.max_contributor_bytes,
        max_path_components: limits.max_path_components,
        max_events: limits.max_events,
        working_memory_bytes: limits.working_memory_bytes,
    }
}

/// The bytes whose digest is the fingerprint of ingest limits.
pub open spec fn fingerprint_bytes(limits: IngestLimits) -> Seq<u8> {
    options_prefix() + spec_u16_to_le_bytes(CATALOG_SCHEMA_VERSION) + spec_u16_to_le_bytes(
        EVENT_SCHEMA_VERSION,
    ) + spec_u16_to_le_bytes(HISTORY_SCHEMA_VERSION) + spec_u64_to_le_bytes(limits.max_record_bytes)
        + spec_u64_to_le_bytes(limits.max_input_bytes) + spec_u64_to_le_bytes(limits.max_path_bytes)
        + spec_u64_to_le_bytes(limits.max_contributor_bytes) + spec_u64_to_le_bytes(
        limits.max_path_components,
    ) + spec_u64_to_le_bytes(limits.max_events) + spec_u64_to_le_bytes(limits.working_memory_bytes)
        + spec_u64_to_le_bytes(limits.run_fan_in) + spec_u64_to_le_bytes(limits.working_disk_bytes)
}

/// `gource-cache-options-v1` and a NUL.
pub open spec fn options_prefix() -> Seq<u8> {
    seq![
        0x67u8, 0x6fu8, 0x75u8, 0x72u8, 0x63u8, 0x65u8, 0x2du8, 0x63u8, 0x61u8, 0x63u8, 0x68u8,
        0x65u8, 0x2du8, 0x6fu8, 0x70u8, 0x74u8, 0x69u8, 0x6fu8, 0x6eu8, 0x73u8, 0x2du8, 0x76u8,
        0x31u8, 0u8,
    ]
}

/// `gource-cache-key-v1` and a NUL.
pub open spec fn key_prefix() -> Seq<u8> {
    seq![
        0x67u8, 0x6fu8, 0x75u8, 0x72u8, 0x63u8, 0x65u8, 0x2du8, 0x63u8, 0x61u8, 0x63u8, 0x68u8,
        0x65u8, 0x2du8, 0x6bu8, 0x65u8, 0x79u8, 0x2du8, 0x76u8, 0x31u8, 0u8,
    ]
}

fn hash_u64(hasher: &mut blake3::Hasher, value: u64)
    ensures
        digest::hashed_bytes(*final(hasher)) == digest::hashed_bytes(*old(hasher))
            + spec_u64_to_le_bytes(value),
{
    let bytes = u64_to_le_bytes(value);
    digest::hasher_update(hasher, bytes.as_slice());
}

fn hash_u16(hasher: &mut blake3::Hasher, value: u16)
    ensures
        digest::hashed_bytes(*final(hasher)) == digest::hashed_bytes(*old(hasher))
            + spec_u16_to_le_bytes(value),
{
    let bytes = u16_to_le_bytes(value);
    digest::hasher_update(hasher, bytes.as_slice());
}

/// The fingerprint of everything in the limits that affects a dataset.
pub fn options_fingerprint(limits: &IngestLimits) -> (fingerprint: [u8; 32])
    ensures
        fingerprint@ == digest::blake3_digest(fingerprint_bytes(*limits)),
{
    let mut hasher = digest::hasher_new();
    let prefix: [u8; 24] = [
        0x67, 0x6f, 0x75, 0x72, 0x63, 0x65, 0x2d, 0x63, 0x61, 0x63, 0x68, 0x65, 0x2d, 0x6f, 0x70,
        0x74, 0x69, 0x6f, 0x6e, 0x73, 0x2d, 0x76, 0x31, 0,
    ];
    digest::hasher_update(&mut hasher, prefix.as_slice());
    assert(prefix@ =~= options_prefix());
    assert(digest::hashed_bytes(hasher) =~= options_prefix());
    hash_u16(&mut hasher, CATALOG_SCHEMA_VERSION);
    hash_u16(&mut hasher, EVENT_SCHEMA_VERSION);
    hash_u16(&mut hasher, HISTORY_SCHEMA_VERSION);
    hash_u64(&mut hasher, limits.max_record_bytes);
    hash_u64(&mut hasher, limits.max_input_bytes);
    hash_u64(&mut hasher, limits.max_path_bytes);
    hash_u64(&mut hasher, limits.max_contributor_bytes);
    hash_u64(&mut hasher, limits.max_path_components);
    hash_u64(&mut hasher, limits.max_events);
    hash_u64(&mut hasher, limits.working_memory_bytes);
    hash_u64(&mut hasher, limits.run_fan_in);
    hash_u64(&mut hasher, limits.working_disk_bytes);
    digest::hasher_finalize(&hasher)
}

/// The bytes whose digest is a key.
pub open spec fn key_bytes(input: InputIdentity, fingerprint: Seq<u8>) -> Seq<u8> {
    key_prefix() + spec_u16_to_le_bytes(CACHE_SCHEMA_VERSION) + input.digest_view()
        + spec_u64_to_le_bytes(input.length()) + fingerprint
}

pub fn key_digest(input: InputIdentity, fingerprint: &[u8; 32]) -> (digest: [u8; 32])
    ensures
        digest@ == digest::blake3_digest(key_bytes(input, fingerprint@)),
{
    let mut hasher = digest::hasher_new();
    let prefix: [u8; 20] = [
        0x67, 0x6f, 0x75, 0x72, 0x63, 0x65, 0x2d, 0x63, 0x61, 0x63, 0x68, 0x65, 0x2d, 0x6b, 0x65,
        0x79, 0x2d, 0x76, 0x31, 0,
    ];
    digest::hasher_update(&mut hasher, prefix.as_slice());
    assert(prefix@ =~= key_prefix());
    assert(digest::hashed_bytes(hasher) =~= key_prefix());
    hash_u16(&mut hasher, CACHE_SCHEMA_VERSION);
    digest::hasher_update(&mut hasher, input.digest().as_slice());
    hash_u64(&mut hasher, input.bytes());
    digest::hasher_update(&mut hasher, fingerprint.as_slice());
    digest::hasher_finalize(&hasher)
}

/// A content-addressed cache key.
///
/// The key covers the exact finite input, the dataset-affecting limits and
/// the format version; cancellation and progress are not part of it.
#[derive(Clone, Copy, Debug, PartialEq, Eq, Hash)]
pub struct CacheKey {
    input_identity: InputIdentity,
    options_fingerprint: [u8; 32],
    digest: [u8; 32],
    limits: CacheLimitEnvelope,
}

/// What a key stands for.
#[verifier::ext_equal]
pub struct KeyView {
    pub input: InputIdentity,
    pub fingerprint: Seq<u8>,
    pub digest: Seq<u8>,
    pub limits: CacheLimitEnvelope,
}

impl View for CacheKey {
    type V = KeyView;

    closed spec fn view(&self) -> KeyView {
        KeyView {
            input: self.input_identity,
            fingerprint: self.options_fingerprint@,
            digest: self.digest@,
            limits: self.limits,
        }
    }
}

/// The key of an input under limits.
pub open spec fn key_of(input: InputIdentity, limits: IngestLimits) -> KeyView {
    let fingerprint = digest::blake3_digest(fingerprint_bytes(limits));
    KeyView {
        input,
        fingerprint,
        digest: digest::blake3_digest(key_bytes(input, fingerprint)),
        limits: envelope_of(limits),
    }
}

impl CacheKey {
    /// The key of an input under all dataset-affecting limits.
    pub fn new(input_identity: InputIdentity, options: &IngestOptions) -> (key: Self)
        ensures
            key@ == key_of(input_identity, options.limits),
    {
        let options_fingerprint = options_fingerprint(&options.limits);
        let digest = key_digest(input_identity, &options_fingerprint);
        CacheKey {
            input_identity,
            options_fingerprint,
            digest,
            limits: cache_limit_envelope(&options.limits),
        }
    }

    /// Alias for [`Self::new`].
    pub fn from_options(input_identity: InputIdentity, options: &IngestOptions) -> (key: Self)
        ensures
            key@ == key_of(input_identity, options.limits),
    {
        Self::new(input_identity, options)
    }

    /// The key of a history that has already been indexed.
    pub fn from_history(history: &IndexedHistory, options: &IngestOptions) -> (key: Self)
        ensures
            key@ == key_of(history.input(), options.limits),
    {
        Self::new(history.input_identity(), options)
    }

    /// The key of raw input bytes.
    pub fn from_input_bytes(bytes: &[u8], options: &IngestOptions) -> (key: Self)
        ensures
            key@.input.digest_view() == digest::blake3_digest(bytes@),
            key@.input.length() == bytes@.len(),
            key@ == key_of(key@.input, options.limits),
    {
        let digest = digest::digest_bytes(bytes);
        assert(bytes.len() == bytes@.len());
        Self::new(InputIdentity::from_parts(digest, bytes.len() as u64), options)
    }

    /// The key of an input whose digest and size are known.
    pub fn from_input_digest(digest: [u8; 32], bytes: u64, options: &IngestOptions) -> (key: Self)
        ensures
            key@.input.digest_view() == digest@,
            key@.input.length() == bytes,
            key@ == key_of(key@.input, options.limits),
    {
        Self::new(InputIdentity::from_parts(digest, bytes), options)
    }

    pub fn input_identity(self) -> (input: InputIdentity)
        ensures
            input == self@.input,
    {
        self.input_identity
    }

    pub fn options_fingerprint(self) -> (fingerprint: [u8; 32])
        ensures
            fingerprint@ == self@.fingerprint,
    {
        self.options_fingerprint
    }

    pub fn digest(&self) -> (digest: &[u8; 32])
        ensures
            digest@ == self@.digest,
    {
        &self.digest
    }

    /// Digests and fingerprints are 32 bytes long.
    pub proof fn has_full_digests(&self)
        ensures
            self@.digest.len() == 32,
            self@.fingerprint.len() == 32,
    {
    }

    pub fn limits(&self) -> (limits: CacheLimitEnvelope)
        ensures
            limits == self@.limits,
    {
        self.limits
    }

    /// The stable hexadecimal file name stem of this key.
    pub fn file_stem(&self) -> (stem: String)
        ensures
            stem@ == text::hex_of(self@.digest),
    {
        let mut out = String::new();
        text::push_hex(&mut out, self.digest.as_slice());
        out
    }
}

/// The file name of the entry of a key.
pub fn entry_name(key: &CacheKey) -> (name: String)
    ensures
        name@ == text::hex_of(key@.digest) + ".bin"@,
{
    let mut name = key.file_stem();
    name.append(".bin");
    name
}

/// Cancellation and progress are not part of a key: options with the same
/// limits give the same key.
pub proof fn keys_depend_on_limits_only(
    input: InputIdentity,
    one: IngestOptions,
    other: IngestOptions,
)
    requires
        one.limits == other.limits,
    ensures
        key_of(input, one.limits) == key_of(input, other.limits),
{
}

/// Every limit takes part in the fingerprint: limits that differ anywhere
/// are fingerprinted from different bytes.
pub proof fn fingerprints_cover_every_limit(one: IngestLimits, other: IngestLimits)
    requires
        fingerprint_bytes(one) == fingerprint_bytes(other),
    ensures
        one == other,
{
    lemma_auto_spec_u64_to_from_le_bytes();
    fingerprint_fields(one);
    fingerprint_fields(other);
}

proof fn fingerprint_fields(limits: IngestLimits)
    ensures
        ({
            let bytes = fingerprint_bytes(limits);
            let field = |i: int| spec_u64_from_le_bytes(bytes.subrange(30 + 8 * i, 38 + 8 * i));
            &&& field(0) == limits.max_record_bytes
            &&& field(1) == limits.max_input_bytes
            &&& field(2) == limits.max_path_bytes
            &&& field(3) == limits.max_contributor_bytes
            &&& field(4) == limits.max_path_components
            &&& field(5) == limits.max_events
            &&& field(6) == limits.working_memory_bytes
            &&& field(7) == limits.run_fan_in
            &&& field(8) == limits.working_disk_bytes
        }),
{
    lemma_auto_spec_u64_to_from_le_bytes();
    let bytes = fingerprint_bytes(limits);
    lemma_auto_spec_u16_to_from_le_bytes();
    assert(options_prefix().len() == 24);
    assert(spec_u16_to_le_bytes(CATALOG_SCHEMA_VERSION).len() == 2);
    assert(spec_u16_to_le_bytes(EVENT_SCHEMA_VERSION).len() == 2);
    assert(spec_u16_to_le_bytes(HISTORY_SCHEMA_VERSION).len() == 2);
    assert(bytes.subrange(30, 38) =~= spec_u64_to_le_bytes(limits.max_record_bytes));
    assert(bytes.subrange(38, 46) =~= spec_u64_to_le_bytes(limits.max_input_bytes));
    assert(bytes.subrange(46, 54) =~= spec_u64_to_le_bytes(limits.max_path_bytes));
    assert(bytes.subrange(54, 62) =~= spec_u64_to_le_bytes(limits.max_contributor_bytes));
    assert(bytes.subrange(62, 70) =~= spec_u64_to_le_bytes(limits.max_path_components));
    assert(bytes.subrange(70, 78) =~= spec_u64_to_le_bytes(limits.max_events));
    assert(bytes.subrange(78, 86) =~= spec_u64_to_le_bytes(limits.working_memory_bytes));
    assert(bytes.subrange(86, 94) =~= spec_u64_to_le_bytes(limits.run_fan_in));
    assert(bytes.subrange(94, 102) =~= spec_u64_to_le_bytes(limits.working_disk_bytes));
}

} // verus!
