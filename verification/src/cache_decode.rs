//! Decoding of cache entries.
//!
//! Cache files are untrusted: every length is checked before it is used, and
//! a complete history is built before anything is returned.

use vstd::bytes::*;
use vstd::prelude::*;
use vstd::slice::slice_subrange;
use vstd::string::*;
use vstd::utf8::*;

use crate::cache_events::{events_are_ordered, events_fit_catalog, source_sequence_bitmap};
use crate::cache_format;
use crate::cache_format::{EntryView, HeaderView, CHECKSUM_BYTES, EVENT_BYTES, HEADER_BYTES};
use crate::cache_key::{CacheConfig, CacheKey, CACHE_SCHEMA_VERSION};
use crate::cache_memory;
use crate::cache_memory::{
    bitmap_storage_bytes, decoded_memory_minimum_bound, decoded_path_temporary_bound,
};
use crate::catalog;
use crate::catalog::{Catalog, CatalogLimits};
use crate::charges;
use crate::charges::{
    catalog_contributor_bytes, catalog_path_bytes, growth_after, plus, vector_capacity_bytes,
    CATALOG_MEMORY_BASE, EVENTS_MEMORY_BASE, EVENT_SLOT_BYTES, PATH_SLOT_BYTES, TEXT_SLOT_BYTES,
};
use crate::digest;
use crate::history;
use crate::history::IndexedHistory;
use crate::model;
use crate::model::{
    Action, ContributorId, Event, EventKey, EventTarget, Generation, PathId, RepositoryPath, Rgb8,
    SourceSeq,
};
use crate::record;
use crate::runs;
use crate::text;

verus! {

/// An entry that is not acceptable.
#[derive(Clone, Copy, Debug, PartialEq, Eq, Structural)]
pub enum DecodeError {
    Malformed,
}

/// The fields of an accepted header that decoding needs.
#[derive(Clone, Copy, Debug, PartialEq, Eq, Structural)]
pub struct HeaderMetadata {
    pub limits: CatalogLimits,
    pub path_count: u64,
    pub contributor_count: u64,
    pub event_count: u64,
}

impl HeaderMetadata {
    /// The metadata is that of a header.
    pub open spec fn is_of(self, h: HeaderView) -> bool {
        &&& self.limits.path_bytes == h.path_bytes
        &&& self.limits.contributor_bytes == h.contributor_bytes
        &&& self.limits.path_components == h.path_components
        &&& self.limits.max_paths == h.max_paths
        &&& self.limits.max_contributors == h.max_contributors
        &&& self.path_count == h.path_count
        &&& self.contributor_count == h.contributor_count
        &&& self.event_count == h.event_count
    }
}

fn u64_from(bytes: &[u8], position: usize) -> (value: u64)
    requires
        position + 8 <= bytes@.len(),
    ensures
        value == runs::u64_at(bytes@, position as int),
{
    assert(bytes.len() == bytes@.len());
    u64_from_le_bytes(slice_subrange(bytes, position, position + 8))
}

fn u32_from(bytes: &[u8], position: usize) -> (value: u32)
    requires
        position + 4 <= bytes@.len(),
    ensures
        value == runs::u32_at(bytes@, position as int),
{
    assert(bytes.len() == bytes@.len());
    u32_from_le_bytes(slice_subrange(bytes, position, position + 4))
}

fn u16_from(bytes: &[u8], position: usize) -> (value: u16)
    requires
        position + 2 <= bytes@.len(),
    ensures
        value == cache_format::u16_at(bytes@, position as int),
{
    assert(bytes.len() == bytes@.len());
    u16_from_le_bytes(slice_subrange(bytes, position, position + 2))
}

/// Whether a part of a slice holds exactly some bytes.
fn holds(bytes: &[u8], from: usize, to: usize, expected: &[u8]) -> (same: bool)
    requires
        from <= to <= bytes@.len(),
    ensures
        same == (bytes@.subrange(from as int, to as int) == expected@),
{
    text::same_bytes(slice_subrange(bytes, from, to), expected)
}

/// Whether a header is one of this format, for this key and this size.
fn header_matches(bytes: &[u8], key: &CacheKey, total_bytes: u64) -> (matches: bool)
    requires
        bytes@.len() == HEADER_BYTES,
    ensures
        matches == cache_format::header_matches(
            cache_format::header_at(bytes@),
            key@,
            total_bytes as int,
        ),
{
    let magic: [u8; 8] = [0x47, 0x52, 0x43, 0x41, 0x43, 0x48, 0x45, 0];
    assert(magic@ =~= cache_format::cache_magic());
    let payload: u64 = u64_from(bytes, 16);
    let expected_total = plus(
        plus(Some(HEADER_BYTES as u64), Some(payload)),
        Some(CHECKSUM_BYTES as u64),
    );
    let input = key.input_identity();
    let fingerprint = key.options_fingerprint();
    holds(bytes, 0, 8, magic.as_slice()) && u16_from(bytes, 8) == CACHE_SCHEMA_VERSION && u16_from(
        bytes,
        10,
    ) == 0 && u32_from(bytes, 12) == HEADER_BYTES as u32 && expected_total == Some(total_bytes)
        && holds(bytes, 24, 56, key.digest().as_slice()) && holds(
        bytes,
        56,
        88,
        input.digest().as_slice(),
    ) && u64_from(bytes, 88) == input.bytes() && holds(bytes, 96, 128, fingerprint.as_slice())
}

/// Checks a header before anything else of an entry is read.
pub fn parse_header(header: &[u8], key: &CacheKey, total_bytes: u64, maximum: u64) -> (result:
    Result<HeaderMetadata, DecodeError>)
    ensures
        ({
            let h = cache_format::header_at(header@);
            match result {
                Ok(metadata) => header@.len() == HEADER_BYTES && cache_format::header_accepted(
                    h,
                    key@,
                    total_bytes as int,
                    maximum,
                ) && metadata.is_of(h),
                Err(_) => header@.len() != HEADER_BYTES || !cache_format::header_accepted(
                    h,
                    key@,
                    total_bytes as int,
                    maximum,
                ),
            }
        }),
{
    if header.len() != HEADER_BYTES || total_bytes < (HEADER_BYTES + CHECKSUM_BYTES) as u64
        || total_bytes > maximum {
        return Err(DecodeError::Malformed);
    }
    if !header_matches(header, key, total_bytes) {
        return Err(DecodeError::Malformed);
    }
    let path_bytes: u64 = u64_from(header, 160);
    let contributor_bytes: u64 = u64_from(header, 168);
    let path_components: u64 = u64_from(header, 176);
    let max_paths: u64 = u64_from(header, 184);
    let max_contributors: u64 = u64_from(header, 192);
    let path_count: u64 = u64_from(header, 200);
    let contributor_count: u64 = u64_from(header, 208);
    let event_count: u64 = u64_from(header, 216);
    let largest: u64 = usize::MAX as u64;
    if path_bytes > largest || contributor_bytes > largest || path_components > largest || max_paths
        > largest || max_contributors > largest || path_bytes == 0 || contributor_bytes == 0
        || path_components == 0 || max_paths == 0 || max_contributors == 0 || path_count > max_paths
        || contributor_count > max_contributors || event_count > largest {
        return Err(DecodeError::Malformed);
    }
    let envelope = key.limits();
    if path_bytes > envelope.max_path_bytes || contributor_bytes > envelope.max_contributor_bytes
        || path_components > envelope.max_path_components || max_paths > envelope.max_events
        || max_contributors > envelope.max_events || event_count > envelope.max_events {
        return Err(DecodeError::Malformed);
    }
    match decoded_memory_minimum_bound(total_bytes, path_count, contributor_count, event_count) {
        Some(bound) => {
            if bound > envelope.working_memory_bytes {
                return Err(DecodeError::Malformed);
            }
        },
        None => {
            return Err(DecodeError::Malformed);
        },
    }
    Ok(
        HeaderMetadata {
            limits: CatalogLimits {
                path_bytes: path_bytes as usize,
                contributor_bytes: contributor_bytes as usize,
                path_components: path_components as usize,
                max_paths: max_paths as usize,
                max_contributors: max_contributors as usize,
            },
            path_count,
            contributor_count,
            event_count,
        },
    )
}

/// Reads the text whose entry starts at a position.
fn bounded_bytes<'a>(payload: &'a [u8], position: usize, maximum: usize) -> (result: Result<
    (&'a [u8], usize),
    DecodeError,
>)
    requires
        position <= payload@.len(),
    ensures
        match result {
            Ok((text, next)) => cache_format::text_at(payload@, position as int) == Some(
                (text@, next as int),
            ) && text@.len() <= maximum && next <= payload@.len(),
            Err(_) => match cache_format::text_at(payload@, position as int) {
                Some((text, _)) => text.len() > maximum,
                None => true,
            },
        },
{
    assert(payload.len() == payload@.len());
    if payload.len() - position < 8 {
        return Err(DecodeError::Malformed);
    }
    let length: u64 = u64_from(payload, position);
    let start: usize = position + 8;
    if length > maximum as u64 || length > (payload.len() - start) as u64 {
        return Err(DecodeError::Malformed);
    }
    let end: usize = start + length as usize;
    Ok((slice_subrange(payload, start, end), end))
}

/// The texts of a prefix are a prefix of the texts.
proof fn texts_of_prefix(payload: Seq<u8>, position: int, count: int, total: int)
    requires
        0 <= count <= total,
    ensures
        cache_format::texts_at(payload, position, count) is None ==> cache_format::texts_at(
            payload,
            position,
            total,
        ) is None,
        cache_format::texts_at(payload, position, total) matches Some((texts, _)) ==> {
            &&& texts.len() == total
            &&& cache_format::texts_at(payload, position, count) is Some
            &&& (cache_format::texts_at(payload, position, count)->0).0 == texts.take(count)
        },
    decreases total,
{
    if count < total {
        texts_of_prefix(payload, position, count, total - 1);
        if cache_format::texts_at(payload, position, total) is Some {
            let (texts, _) = cache_format::texts_at(payload, position, total)->0;
            let (before, _) = cache_format::texts_at(payload, position, total - 1)->0;
            assert(texts.take(count) =~= before.take(count));
        }
    } else if total > 0 {
        texts_of_prefix(payload, position, count - 1, total - 1);
        if cache_format::texts_at(payload, position, total) is Some {
            let (texts, _) = cache_format::texts_at(payload, position, total)->0;
            assert(texts.take(count) =~= texts);
        }
    } else {
        assert(Seq::<Seq<u8>>::empty().take(0) =~= Seq::<Seq<u8>>::empty());
    }
}

/// Checks that decoding stays within memory.
fn decode_memory_check(
    catalog_bytes: Option<u64>,
    storage: u64,
    encoded_bytes: u64,
    temporary_bytes: Option<u64>,
    maximum: u64,
) -> (fits: bool)
    ensures
        fits == (catalog_bytes is Some && temporary_bytes is Some && catalog_bytes->0
            + EVENTS_MEMORY_BASE + storage + encoded_bytes + temporary_bytes->0 <= maximum),
{
    let requested = plus(
        plus(
            plus(plus(catalog_bytes, Some(EVENTS_MEMORY_BASE)), Some(storage)),
            Some(encoded_bytes),
        ),
        temporary_bytes,
    );
    match requested {
        Some(bytes) => bytes <= maximum,
        None => false,
    }
}

/// How many components a stored path value has.
fn raw_component_count(raw: &[u8]) -> (components: Option<u64>)
    ensures
        components is Some <==> cache_memory::raw_components(raw@) <= u64::MAX,
        components matches Some(count) ==> count == cache_memory::raw_components(raw@),
{
    let length: usize = raw.len();
    let from: usize = if length > 0 && raw[0] == 0x2f {
        1
    } else {
        0
    };
    let to: usize = if from < length && raw[length - 1] == 0x2f {
        length - 1
    } else {
        length
    };
    let path = slice_subrange(raw, from, to);
    proof {
        let below = record::below_root(raw@);
        assert(below =~= raw@.subrange(from as int, length as int));
        assert(record::normalized_path(raw@) =~= path@);
    }
    if path.len() == 0 {
        Some(0)
    } else {
        (charges::count_slashes(path) as u64).checked_add(1)
    }
}

/// A path has one part more than slashes.
proof fn parts_are_slashes_and_one(s: Seq<u8>)
    ensures
        record::split(s, 0x2f).len() == charges::slashes(s) + 1,
    decreases s.len(),
{
    if s.len() > 0 {
        parts_are_slashes_and_one(s.drop_last());
        charges::slashes_bounds(s.drop_last());
    }
}

/// Accepted paths stay within the component limit.
proof fn accepted_components(raw: Seq<u8>, limits: CatalogLimits)
    requires
        cache_format::path_accepted(raw, limits),
    ensures
        cache_memory::raw_components(raw) <= limits.path_components,
        raw.len() <= limits.path_bytes,
{
    parts_are_slashes_and_one(record::normalized_path(raw));
}

/// Canonical forms of a longer list.
proof fn canonical_push(paths: Seq<Seq<u8>>, raw: Seq<u8>)
    ensures
        cache_format::canonical_paths(paths.push(raw)) == cache_format::canonical_paths(paths).push(
            model::canonical_path(raw),
        ),
{
    assert(cache_format::canonical_paths(paths.push(raw)) =~= cache_format::canonical_paths(
        paths,
    ).push(model::canonical_path(raw)));
}

/// Paths of an accepted list stay accepted in a shorter one.
proof fn accepted_prefix(
    paths: Seq<Seq<u8>>,
    count: int,
    limits: CatalogLimits,
    events: int,
    total: int,
    memory: u64,
)
    requires
        0 <= count <= paths.len(),
        cache_format::paths_accepted(paths, limits, events, total, memory),
    ensures
        cache_format::paths_accepted(paths.take(count), limits, events, total, memory),
{
    let front = paths.take(count);
    let canonical = cache_format::canonical_paths(paths);
    assert(cache_format::canonical_paths(front) =~= canonical.take(count));
    assert forall|k: int| 0 <= k < front.len() implies #[trigger] cache_format::path_fits(
        front,
        k,
        events,
        total,
        memory,
    ) by {
        assert(front.take(k + 1) =~= paths.take(k + 1));
        assert(cache_format::path_fits(paths, k, events, total, memory));
    }
}

/// What the payload holds of paths, as far as it is acceptable.
pub open spec fn paths_refused(
    payload: Seq<u8>,
    h: HeaderMetadata,
    total: int,
    memory: u64,
) -> bool {
    match cache_format::texts_at(payload, 0, h.path_count as int) {
        None => true,
        Some((paths, _)) => !cache_format::paths_accepted(
            paths,
            h.limits,
            h.event_count as int,
            total,
            memory,
        ),
    }
}

/// Nothing acceptable starts with an unacceptable path.
proof fn refused_at(
    payload: Seq<u8>,
    h: HeaderMetadata,
    total: int,
    memory: u64,
    count: int,
)
    requires
        0 <= count <= h.path_count,
        match cache_format::texts_at(payload, 0, count) {
            None => true,
            Some((paths, _)) => !cache_format::paths_accepted(
                paths,
                h.limits,
                h.event_count as int,
                total,
                memory,
            ),
        },
    ensures
        paths_refused(payload, h, total, memory),
{
    texts_of_prefix(payload, 0, count, h.path_count as int);
    if let Some((paths, _)) = cache_format::texts_at(payload, 0, h.path_count as int) {
        if cache_format::paths_accepted(paths, h.limits, h.event_count as int, total, memory) {
            accepted_prefix(paths, count, h.limits, h.event_count as int, total, memory);
        }
    }
}

/// Reads the paths of an entry into a catalog.
fn decode_paths(
    payload: &[u8],
    h: &HeaderMetadata,
    storage: u64,
    encoded_bytes: u64,
    memory: u64,
) -> (result: Result<(Catalog, u64, usize), DecodeError>)
    requires
        h.path_count <= h.limits.max_paths,
        storage == cache_memory::event_storage(h.event_count as int) + cache_memory::bitmap_storage(
            h.event_count as int,
        ),
    ensures
        match result {
            Ok((catalog, bytes, position)) => {
                &&& cache_format::texts_at(payload@, 0, h.path_count as int) matches Some((paths, end))
                &&& end == position <= payload@.len()
                &&& cache_format::paths_accepted(
                    paths,
                    h.limits,
                    h.event_count as int,
                    encoded_bytes as int,
                    memory,
                )
                &&& catalog.wf()
                &&& catalog@ == (catalog::CatalogView {
                    limits: h.limits,
                    paths: cache_format::canonical_paths(paths),
                    contributors: Seq::empty(),
                })
                &&& bytes == CATALOG_MEMORY_BASE + cache_memory::paths_charge(
                    cache_format::canonical_paths(paths),
                )
            },
            Err(_) => paths_refused(payload@, *h, encoded_bytes as int, memory),
        },
{
    let mut catalog = Catalog::with_limits(h.limits);
    let mut catalog_bytes: u64 = CATALOG_MEMORY_BASE;
    let mut position: usize = 0;
    let mut index: u64 = 0;
    let ghost events = h.event_count as int;
    let ghost total = encoded_bytes as int;
    let ghost mut paths: Seq<Seq<u8>> = Seq::empty();
    assert(cache_format::canonical_paths(paths) =~= Seq::<Seq<u8>>::empty());
    while index < h.path_count
        invariant
            index <= h.path_count <= h.limits.max_paths,
            storage == cache_memory::event_storage(h.event_count as int)
                + cache_memory::bitmap_storage(h.event_count as int),
            events == h.event_count,
            total == encoded_bytes,
            paths.len() == index,
            position <= payload@.len(),
            cache_format::texts_at(payload@, 0, index as int) == Some((paths, position as int)),
            cache_format::paths_accepted(paths, h.limits, events, total, memory),
            catalog.wf(),
            catalog@ == (catalog::CatalogView {
                limits: h.limits,
                paths: cache_format::canonical_paths(paths),
                contributors: Seq::empty(),
            }),
            catalog_bytes == CATALOG_MEMORY_BASE + cache_memory::paths_charge(
                cache_format::canonical_paths(paths),
            ),
        decreases h.path_count - index,
    {
        match decode_path(
            payload,
            position,
            &mut catalog,
            catalog_bytes,
            h,
            storage,
            encoded_bytes,
            memory,
            Ghost(paths),
        ) {
            Ok((next_bytes, next)) => {
                proof {
                    let raw = (cache_format::text_at(payload@, position as int)->0).0;
                    paths = paths.push(raw);
                }
                catalog_bytes = next_bytes;
                position = next;
            },
            Err(e) => {
                proof {
                    refused_at(payload@, *h, total, memory, index + 1);
                }
                return Err(e);
            },
        }
        index = index + 1;
    }
    Ok((catalog, catalog_bytes, position))
}

/// Reads one path of an entry into a catalog.
fn decode_path(
    payload: &[u8],
    position: usize,
    catalog: &mut Catalog,
    catalog_bytes: u64,
    h: &HeaderMetadata,
    storage: u64,
    encoded_bytes: u64,
    memory: u64,
    before: Ghost<Seq<Seq<u8>>>,
) -> (result: Result<(u64, usize), DecodeError>)
    requires
        position <= payload@.len(),
        old(catalog).wf(),
        old(catalog)@ == (catalog::CatalogView {
            limits: h.limits,
            paths: cache_format::canonical_paths(before@),
            contributors: Seq::empty(),
        }),
        before@.len() < h.limits.max_paths,
        cache_format::paths_accepted(
            before@,
            h.limits,
            h.event_count as int,
            encoded_bytes as int,
            memory,
        ),
        catalog_bytes == CATALOG_MEMORY_BASE + cache_memory::paths_charge(
            cache_format::canonical_paths(before@),
        ),
        storage == cache_memory::event_storage(h.event_count as int) + cache_memory::bitmap_storage(
            h.event_count as int,
        ),
    ensures
        match result {
            Ok((bytes, next)) => {
                &&& cache_format::text_at(payload@, position as int) matches Some((raw, end))
                &&& end == next <= payload@.len()
                &&& cache_format::paths_accepted(
                    before@.push(raw),
                    h.limits,
                    h.event_count as int,
                    encoded_bytes as int,
                    memory,
                )
                &&& final(catalog).wf()
                &&& final(catalog)@ == (catalog::CatalogView {
                    limits: h.limits,
                    paths: cache_format::canonical_paths(before@.push(raw)),
                    contributors: Seq::empty(),
                })
                &&& bytes == CATALOG_MEMORY_BASE + cache_memory::paths_charge(
                    cache_format::canonical_paths(before@.push(raw)),
                )
            },
            Err(_) => match cache_format::text_at(payload@, position as int) {
                None => true,
                Some((raw, _)) => !cache_format::paths_accepted(
                    before@.push(raw),
                    h.limits,
                    h.event_count as int,
                    encoded_bytes as int,
                    memory,
                ),
            },
        },
{
    let ghost events = h.event_count as int;
    let ghost total = encoded_bytes as int;
    let (raw, next) = match bounded_bytes(payload, position, h.limits.path_bytes) {
        Ok(found) => found,
        Err(e) => {
            proof {
                if let Some((raw, _)) = cache_format::text_at(payload@, position as int) {
                    let longer = before@.push(raw);
                    assert(longer[before@.len() as int] == raw);
                    if cache_format::paths_accepted(longer, h.limits, events, total, memory) {
                        accepted_components(raw, h.limits);
                    }
                }
            }
            return Err(e);
        },
    };
    let ghost longer = before@.push(raw@);
    let ghost canonical = cache_format::canonical_paths(before@);
    proof {
        canonical_push(before@, raw@);
        assert(longer[before@.len() as int] == raw@);
        assert(longer.take(longer.len() as int) =~= longer);
        if cache_format::paths_accepted(longer, h.limits, events, total, memory) {
            accepted_components(raw@, h.limits);
            assert(cache_format::path_fits(longer, before@.len() as int, events, total, memory));
        }
        assert(canonical.push(model::canonical_path(raw@)).drop_last() =~= canonical);
    }
    let components: u64 = match raw_component_count(raw) {
        Some(components) => components,
        None => {
            return Err(DecodeError::Malformed);
        },
    };
    if components > h.limits.path_components as u64 {
        return Err(DecodeError::Malformed);
    }
    let temporary_bytes = decoded_path_temporary_bound(raw, components);
    let value = match text::utf8_text(raw) {
        Some(value) => value,
        None => {
            return Err(DecodeError::Malformed);
        },
    };
    let path = match RepositoryPath::parse_with_limits(
        value,
        h.limits.path_bytes,
        h.limits.path_components,
    ) {
        Ok(path) => path,
        Err(_) => {
            return Err(DecodeError::Malformed);
        },
    };
    assert(path.bytes() == model::canonical_path(raw@));
    let count: usize = catalog.path_count();
    proof {
        cache_memory::path_charge_is_positive(path.bytes());
        charges::capacity_grows(count + 1, PATH_SLOT_BYTES as int);
    }
    let next_bytes = plus(
        plus(Some(catalog_bytes), catalog_path_bytes(&path)),
        growth_after(count, PATH_SLOT_BYTES),
    );
    if !decode_memory_check(next_bytes, storage, encoded_bytes, temporary_bytes, memory) {
        return Err(DecodeError::Malformed);
    }
    if catalog.find_path(&path).is_some() {
        proof {
            let k = canonical.index_of(path.bytes());
            let all = cache_format::canonical_paths(longer);
            assert(all[k] == all[canonical.len() as int]);
        }
        return Err(DecodeError::Malformed);
    }
    proof {
        let limits = model::path_bounds(h.limits.path_bytes, h.limits.path_components);
        model::canonical_path_is_canonical(raw@, limits);
    }
    match catalog.intern_path(&path) {
        Ok(_) => {},
        Err(_) => {
            return Err(DecodeError::Malformed);
        },
    }
    proof {
        let all = cache_format::canonical_paths(longer);
        assert(all.no_duplicates()) by {
            assert forall|i: int, j: int|
                0 <= i < all.len() && 0 <= j < all.len() && i != j implies all[i] != all[j] by {
                if i < canonical.len() {
                    assert(canonical.contains(canonical[i]));
                }
                if j < canonical.len() {
                    assert(canonical.contains(canonical[j]));
                }
            }
        }
        assert forall|k: int| 0 <= k < longer.len() implies #[trigger] cache_format::path_fits(
            longer,
            k,
            events,
            total,
            memory,
        ) by {
            if k < before@.len() {
                assert(longer.take(k + 1) =~= before@.take(k + 1));
                assert(cache_format::path_fits(before@, k, events, total, memory));
            }
        }
    }
    match next_bytes {
        Some(bytes) => Ok((bytes, next)),
        None => Err(DecodeError::Malformed),
    }
}

/// The contributors that follow the paths are not acceptable.
pub open spec fn contributors_refused(
    payload: Seq<u8>,
    start: int,
    paths: Seq<Seq<u8>>,
    h: HeaderMetadata,
    total: int,
    memory: u64,
) -> bool {
    match cache_format::texts_at(payload, start, h.contributor_count as int) {
        None => true,
        Some((contributors, _)) => {
            ||| !cache_format::contributors_accepted(contributors, h.limits)
            ||| cache_format::catalog_memory(paths, contributors, h.event_count as int, total)
                > memory
        },
    }
}

/// Nothing acceptable starts with an unacceptable contributor.
proof fn contributors_refused_at(
    payload: Seq<u8>,
    start: int,
    paths: Seq<Seq<u8>>,
    h: HeaderMetadata,
    total: int,
    memory: u64,
    count: int,
)
    requires
        0 <= count <= h.contributor_count,
        match cache_format::texts_at(payload, start, count) {
            None => true,
            Some((contributors, _)) => {
                ||| !cache_format::contributors_accepted(contributors, h.limits)
                ||| cache_format::catalog_memory(
                    paths,
                    contributors,
                    h.event_count as int,
                    total,
                ) > memory
            },
        },
    ensures
        contributors_refused(payload, start, paths, h, total, memory),
{
    texts_of_prefix(payload, start, count, h.contributor_count as int);
    if let Some((all, _)) = cache_format::texts_at(payload, start, h.contributor_count as int) {
        let front = all.take(count);
        cache_memory::charges_grow(all, count);
        if cache_format::contributors_accepted(all, h.limits) {
            assert(cache_format::contributors_accepted(front, h.limits));
        }
    }
}

/// Reads the contributors of an entry into a catalog.
fn decode_contributors(
    payload: &[u8],
    start: usize,
    catalog: &mut Catalog,
    start_bytes: u64,
    h: &HeaderMetadata,
    storage: u64,
    encoded_bytes: u64,
    memory: u64,
    paths: Ghost<Seq<Seq<u8>>>,
) -> (result: Result<usize, DecodeError>)
    requires
        start <= payload@.len(),
        h.contributor_count <= h.limits.max_contributors,
        old(catalog).wf(),
        old(catalog)@ == (catalog::CatalogView {
            limits: h.limits,
            paths: cache_format::canonical_paths(paths@),
            contributors: Seq::empty(),
        }),
        start_bytes == CATALOG_MEMORY_BASE + cache_memory::paths_charge(
            cache_format::canonical_paths(paths@),
        ),
        storage == cache_memory::event_storage(h.event_count as int) + cache_memory::bitmap_storage(
            h.event_count as int,
        ),
    ensures
        match result {
            Ok(position) => {
                &&& cache_format::texts_at(
                    payload@,
                    start as int,
                    h.contributor_count as int,
                ) matches Some((contributors, end))
                &&& end == position <= payload@.len()
                &&& cache_format::contributors_accepted(contributors, h.limits)
                &&& cache_format::catalog_memory(
                    paths@,
                    contributors,
                    h.event_count as int,
                    encoded_bytes as int,
                ) <= memory
                &&& final(catalog).wf()
                &&& final(catalog)@ == (catalog::CatalogView {
                    limits: h.limits,
                    paths: cache_format::canonical_paths(paths@),
                    contributors,
                })
            },
            Err(_) => contributors_refused(
                payload@,
                start as int,
                paths@,
                *h,
                encoded_bytes as int,
                memory,
            ),
        },
{
    let mut catalog_bytes: u64 = start_bytes;
    let mut position: usize = start;
    let mut index: u64 = 0;
    let ghost events = h.event_count as int;
    let ghost total = encoded_bytes as int;
    let ghost mut contributors: Seq<Seq<u8>> = Seq::empty();
    while index < h.contributor_count
        invariant
            index <= h.contributor_count <= h.limits.max_contributors,
            storage == cache_memory::event_storage(h.event_count as int)
                + cache_memory::bitmap_storage(h.event_count as int),
            events == h.event_count,
            total == encoded_bytes,
            contributors.len() == index,
            position <= payload@.len(),
            cache_format::texts_at(payload@, start as int, index as int) == Some(
                (contributors, position as int),
            ),
            cache_format::contributors_accepted(contributors, h.limits),
            catalog.wf(),
            catalog@ == (catalog::CatalogView {
                limits: h.limits,
                paths: cache_format::canonical_paths(paths@),
                contributors,
            }),
            start_bytes == CATALOG_MEMORY_BASE + cache_memory::paths_charge(
                cache_format::canonical_paths(paths@),
            ),
            catalog_bytes == start_bytes + cache_memory::contributors_charge(contributors),
        decreases h.contributor_count - index,
    {
        let (raw, next) = match bounded_bytes(payload, position, h.limits.contributor_bytes) {
            Ok(found) => found,
            Err(e) => {
                proof {
                    if let Some((raw, _)) = cache_format::text_at(payload@, position as int) {
                        let longer = contributors.push(raw);
                        assert(longer[index as int] == raw);
                    }
                    contributors_refused_at(
                        payload@,
                        start as int,
                        paths@,
                        *h,
                        total,
                        memory,
                        index + 1,
                    );
                }
                return Err(e);
            },
        };
        let ghost longer = contributors.push(raw@);
        proof {
            assert(longer[index as int] == raw@);
            assert(longer.drop_last() =~= contributors);
            charges::capacity_grows(index + 1, TEXT_SLOT_BYTES as int);
        }
        let value = match text::string_from_bytes(raw) {
            Some(value) => value,
            None => {
                proof {
                    contributors_refused_at(
                        payload@,
                        start as int,
                        paths@,
                        *h,
                        total,
                        memory,
                        index + 1,
                    );
                }
                return Err(DecodeError::Malformed);
            },
        };
        let next_bytes = plus(
            plus(Some(catalog_bytes), catalog_contributor_bytes(value.as_str())),
            growth_after(catalog.contributor_count(), TEXT_SLOT_BYTES),
        );
        let fits = decode_memory_check(next_bytes, storage, encoded_bytes, Some(0), memory);
        let known = catalog.find_contributor(&value).is_some();
        if !fits || known || catalog.contributor_count() >= 0xffff_ffff {
            proof {
                if known {
                    let k = contributors.index_of(raw@);
                    assert(longer[k] == longer[index as int]);
                }
                contributors_refused_at(
                    payload@,
                    start as int,
                    paths@,
                    *h,
                    total,
                    memory,
                    index + 1,
                );
            }
            return Err(DecodeError::Malformed);
        }
        match catalog.intern_contributor(&value) {
            Ok(_) => {},
            Err(_) => {
                assert(false);
                return Err(DecodeError::Malformed);
            },
        }
        proof {
            assert(longer.no_duplicates()) by {
                assert forall|i: int, j: int|
                    0 <= i < longer.len() && 0 <= j < longer.len() && i != j implies longer[i]
                    != longer[j] by {
                    if i < contributors.len() {
                        assert(contributors.contains(contributors[i]));
                    }
                    if j < contributors.len() {
                        assert(contributors.contains(contributors[j]));
                    }
                }
            }
            contributors = longer;
        }
        catalog_bytes = match next_bytes {
            Some(bytes) => bytes,
            None => {
                assert(false);
                return Err(DecodeError::Malformed);
            },
        };
        position = next;
        index = index + 1;
    }
    if !decode_memory_check(Some(catalog_bytes), storage, encoded_bytes, Some(0), memory) {
        return Err(DecodeError::Malformed);
    }
    Ok(position)
}

/// Reads one event.
fn decode_event(payload: &[u8], position: usize) -> (event: Option<Event>)
    requires
        position + EVENT_BYTES <= payload@.len(),
    ensures
        event == cache_format::event_at(payload@, position as int),
{
    assert(payload.len() == payload@.len());
    let timestamp: u64 = u64_from(payload, position);
    let source_sequence = match SourceSeq::new(u64_from(payload, position + 8)) {
        Some(sequence) => sequence,
        None => return None,
    };
    if u64_from(payload, position + 16) != 0 {
        return None;
    }
    let contributor = match ContributorId::try_from_u64(u64_from(payload, position + 24)) {
        Some(contributor) => contributor,
        None => return None,
    };
    let kind: u8 = payload[position + 32];
    let path = match PathId::try_from_u64(u64_from(payload, position + 33)) {
        Some(path) => path,
        None => return None,
    };
    let target = if kind == 0 {
        EventTarget::File(path)
    } else if kind == 1 {
        EventTarget::Directory(path)
    } else {
        return None;
    };
    let action_byte: u8 = payload[position + 41];
    let action = if action_byte == 0x41 {
        Action::Add
    } else if action_byte == 0x4d {
        Action::Modify
    } else if action_byte == 0x44 {
        Action::Delete
    } else {
        return None;
    };
    let flag: u8 = payload[position + 42];
    let red: u8 = payload[position + 43];
    let green: u8 = payload[position + 44];
    let blue: u8 = payload[position + 45];
    let color = if flag == 1 {
        Some(Rgb8::new(red, green, blue))
    } else if flag == 0 && red == 0 && green == 0 && blue == 0 {
        None
    } else {
        return None;
    };
    Some(
        Event::new(
            EventKey::new(timestamp as i64, source_sequence),
            Generation::zero(),
            contributor,
            target,
            action,
            color,
        ),
    )
}

proof fn events_of_prefix(payload: Seq<u8>, position: int, count: int, total: int)
    requires
        0 <= count <= total,
        cache_format::events_at(payload, position, count) is None,
    ensures
        cache_format::events_at(payload, position, total) is None,
    decreases total,
{
    if count < total {
        events_of_prefix(payload, position, count, total - 1);
    }
}

/// Reads the events of an entry.
fn decode_events(payload: &[u8], start: usize, count: u64) -> (result: Option<Vec<Event>>)
    requires
        start + count * EVENT_BYTES == payload@.len(),
    ensures
        match result {
            Some(events) => cache_format::events_at(payload@, start as int, count as int) == Some(
                events@,
            ),
            None => cache_format::events_at(payload@, start as int, count as int) is None,
        },
{
    assert(payload.len() == payload@.len());
    let mut events: Vec<Event> = Vec::new();
    let mut position: usize = start;
    let mut index: u64 = 0;
    while index < count
        invariant
            index <= count,
            payload@.len() <= usize::MAX,
            start + count * EVENT_BYTES == payload@.len(),
            position == start + index * EVENT_BYTES,
            cache_format::events_at(payload@, start as int, index as int) == Some(events@),
        decreases count - index,
    {
        match decode_event(payload, position) {
            Some(event) => {
                events.push(event);
            },
            None => {
                proof {
                    events_of_prefix(payload@, start as int, index + 1, count as int);
                }
                return None;
            },
        }
        position = position + EVENT_BYTES;
        index = index + 1;
    }
    Some(events)
}

/// The header is read from the first bytes alone.
proof fn header_of_prefix(bytes: Seq<u8>)
    requires
        bytes.len() >= HEADER_BYTES,
    ensures
        cache_format::header_at(bytes.subrange(0, HEADER_BYTES as int)) == cache_format::header_at(
            bytes,
        ),
{
    let front = bytes.subrange(0, HEADER_BYTES as int);
    assert(front.subrange(0, 8) =~= bytes.subrange(0, 8));
    assert(front.subrange(8, 10) =~= bytes.subrange(8, 10));
    assert(front.subrange(10, 12) =~= bytes.subrange(10, 12));
    assert(front.subrange(12, 16) =~= bytes.subrange(12, 16));
    assert(front.subrange(16, 24) =~= bytes.subrange(16, 24));
    assert(front.subrange(24, 56) =~= bytes.subrange(24, 56));
    assert(front.subrange(56, 88) =~= bytes.subrange(56, 88));
    assert(front.subrange(88, 96) =~= bytes.subrange(88, 96));
    assert(front.subrange(96, 128) =~= bytes.subrange(96, 128));
    assert(front.subrange(128, 160) =~= bytes.subrange(128, 160));
    assert(front.subrange(160, 168) =~= bytes.subrange(160, 168));
    assert(front.subrange(168, 176) =~= bytes.subrange(168, 176));
    assert(front.subrange(176, 184) =~= bytes.subrange(176, 184));
    assert(front.subrange(184, 192) =~= bytes.subrange(184, 192));
    assert(front.subrange(192, 200) =~= bytes.subrange(192, 200));
    assert(front.subrange(200, 208) =~= bytes.subrange(200, 208));
    assert(front.subrange(208, 216) =~= bytes.subrange(208, 216));
    assert(front.subrange(216, 224) =~= bytes.subrange(216, 224));
}

/// Reads catalog and events of an entry under its header.
fn decode_payload(
    payload: &[u8],
    h: &HeaderMetadata,
    encoded_bytes: u64,
    memory: u64,
    header: Ghost<HeaderView>,
) -> (result: Option<(Catalog, Vec<Event>)>)
    requires
        h.is_of(header@),
        cache_format::header_usable(header@),
        cache_memory::minimum_memory(
            encoded_bytes as int,
            h.path_count as int,
            h.contributor_count as int,
            h.event_count as int,
        ) <= memory,
    ensures
        ({
            let accepted = |entry: EntryView|
                {
                    &&& cache_format::paths_accepted(
                        entry.paths,
                        entry.limits,
                        entry.events.len() as int,
                        encoded_bytes as int,
                        memory,
                    )
                    &&& cache_format::contributors_accepted(entry.contributors, entry.limits)
                    &&& cache_format::catalog_memory(
                        entry.paths,
                        entry.contributors,
                        entry.events.len() as int,
                        encoded_bytes as int,
                    ) <= memory
                    &&& cache_format::events_accepted(
                        cache_format::entry_catalog(entry),
                        entry.events,
                    )
                };
            match result {
                Some((catalog, events)) => {
                    &&& cache_format::payload_at(header@, payload@) matches Some(entry)
                    &&& accepted(entry)
                    &&& catalog.wf()
                    &&& catalog@ == cache_format::entry_catalog(entry)
                    &&& events@ == entry.events
                },
                None => match cache_format::payload_at(header@, payload@) {
                    None => true,
                    Some(entry) => !accepted(entry),
                },
            }
        }),
{
    proof {
        charges::capacity_grows(h.event_count as int, EVENT_SLOT_BYTES as int);
        charges::capacity_grows(h.path_count as int, PATH_SLOT_BYTES as int);
        charges::capacity_grows(h.contributor_count as int, TEXT_SLOT_BYTES as int);
        assert(cache_memory::path_bound(1, 1) == 314);
        assert(cache_memory::contributor_bound(1) == 158);
        events_at_length(
            payload@,
            after_texts(header@, payload@),
            h.event_count as int,
        );
    }
    let storage: u64 = match plus(
        vector_capacity_bytes(h.event_count, EVENT_SLOT_BYTES),
        bitmap_storage_bytes(h.event_count),
    ) {
        Some(storage) => storage,
        None => {
            assert(false);
            return None;
        },
    };
    let (mut catalog, catalog_bytes, after_paths) = match decode_paths(
        payload,
        h,
        storage,
        encoded_bytes,
        memory,
    ) {
        Ok(found) => found,
        Err(_) => return None,
    };
    let ghost paths = (cache_format::texts_at(payload@, 0, h.path_count as int)->0).0;
    let after: usize = match decode_contributors(
        payload,
        after_paths,
        &mut catalog,
        catalog_bytes,
        h,
        storage,
        encoded_bytes,
        memory,
        Ghost(paths),
    ) {
        Ok(position) => position,
        Err(_) => return None,
    };
    assert(payload.len() == payload@.len());
    assert(after == after_texts(header@, payload@));
    match h.event_count.checked_mul(EVENT_BYTES as u64) {
        Some(required) => {
            if required != (payload.len() - after) as u64 {
                return None;
            }
        },
        None => return None,
    }
    let events = match decode_events(payload, after, h.event_count) {
        Some(events) => events,
        None => return None,
    };
    let ghost entry = cache_format::payload_at(header@, payload@)->0;
    assert(cache_format::entry_catalog(entry) =~= catalog@);
    if source_sequence_bitmap(events.as_slice()).is_none() {
        return None;
    }
    if !events_fit_catalog(&catalog, events.as_slice()) {
        return None;
    }
    if !events_are_ordered(events.as_slice()) {
        return None;
    }
    Some((catalog, events))
}

/// Where the events of a payload start.
spec fn after_texts(h: HeaderView, payload: Seq<u8>) -> int {
    let after_paths = (cache_format::texts_at(payload, 0, h.path_count as int)->0).1;
    (cache_format::texts_at(payload, after_paths, h.contributor_count as int)->0).1
}

proof fn events_at_length(payload: Seq<u8>, position: int, count: int)
    requires
        count >= 0,
    ensures
        cache_format::events_at(payload, position, count) matches Some(events) ==> events.len()
            == count,
    decreases count,
{
    if count > 0 {
        events_at_length(payload, position, count - 1);
    }
}

/// A history is what an entry holds.
pub open spec fn history_is(history: IndexedHistory, entry: EntryView) -> bool {
    &&& history.catalog_view() == cache_format::entry_catalog(entry)
    &&& history.events_view() == entry.events
    &&& history.input().digest_view() == entry.input_digest
    &&& history.input().length() == entry.input_length
    &&& history.dataset().digest_view() == entry.dataset
}

/// Decodes an entry for a key.
pub fn decode_entry(bytes: &[u8], key: &CacheKey, maximum: u64) -> (result: Result<
    IndexedHistory,
    DecodeError,
>)
    ensures
        match result {
            Ok(history) => {
                &&& cache_format::decoded(bytes@, key@, maximum) matches Some(entry)
                &&& history_is(history, entry)
                &&& history.input() == key@.input
                &&& history.wf()
            },
            Err(_) => cache_format::decoded(bytes@, key@, maximum) is None,
        },
{
    assert(bytes.len() == bytes@.len());
    if bytes.len() < HEADER_BYTES + CHECKSUM_BYTES || bytes.len() as u64 > maximum {
        return Err(DecodeError::Malformed);
    }
    let body: usize = bytes.len() - CHECKSUM_BYTES;
    let checksum = digest::digest_bytes(slice_subrange(bytes, 0, body));
    proof {
        assert(bytes@.subrange(0, body as int) =~= bytes@.take(body as int));
        assert(bytes@.subrange(body as int, bytes@.len() as int) =~= bytes@.skip(body as int));
        header_of_prefix(bytes@);
    }
    if !holds(bytes, body, bytes.len(), checksum.as_slice()) {
        return Err(DecodeError::Malformed);
    }
    let h = match parse_header(
        slice_subrange(bytes, 0, HEADER_BYTES),
        key,
        bytes.len() as u64,
        maximum,
    ) {
        Ok(h) => h,
        Err(e) => return Err(e),
    };
    let ghost header = cache_format::header_at(bytes@);
    let (catalog, events) = match decode_payload(
        slice_subrange(bytes, HEADER_BYTES, body),
        &h,
        bytes.len() as u64,
        key.limits().working_memory_bytes,
        Ghost(header),
    ) {
        Some(found) => found,
        None => {
            return Err(DecodeError::Malformed);
        },
    };
    proof {
        assert(history::events_in_catalog(catalog@, events@)) by {
            assert forall|i: int|
                0 <= i < events@.len() implies #[trigger] history::event_in_catalog(
                catalog@,
                events@[i],
            ) by {
                assert(cache_format::event_fits(catalog@, events@[i]));
            }
        }
    }
    let history = IndexedHistory::publish(catalog, events, key.input_identity());
    proof {
        history.is_consistent();
    }
    if !holds(bytes, 128, 160, history.dataset_identity().digest().as_slice()) {
        return Err(DecodeError::Malformed);
    }
    Ok(history)
}

/// What a cache gives for the file that it holds under the name of a key: a
/// history where the file is an entry of the key, and nothing otherwise.
pub fn load_entry(found: Option<&[u8]>, key: &CacheKey, config: &CacheConfig) -> (loaded: Option<
    IndexedHistory,
>)
    ensures
        match loaded {
            Some(history) => {
                &&& found matches Some(bytes)
                &&& cache_format::decoded(bytes@, key@, config.max_entry_bytes) matches Some(entry)
                &&& history_is(history, entry)
                &&& history.input() == key@.input
                &&& history.wf()
            },
            None => found matches Some(bytes) ==> cache_format::decoded(
                bytes@,
                key@,
                config.max_entry_bytes,
            ) is None,
        },
{
    match found {
        Some(bytes) => match decode_entry(bytes, key, config.max_entry_bytes) {
            Ok(history) => Some(history),
            Err(_) => None,
        },
        None => None,
    }
}

} // verus!
