//! The format of cache entries.
//!
//! An entry is a fixed header, the texts of the catalog, the events and a
//! checksum over everything before it.

use vstd::bytes::*;
use vstd::prelude::*;
use vstd::utf8::*;

use crate::cache_key::{CacheLimitEnvelope, KeyView, CACHE_SCHEMA_VERSION};
use crate::cache_memory;
use crate::catalog;
use crate::catalog::{CatalogLimits, CatalogView};
use crate::charges;
use crate::digest;
use crate::history;
use crate::model;
use crate::model::{
    Action, ContributorId, Event, EventKey, EventTarget, Generation, PathId, Rgb8, SourceSeq,
    EVENT_SCHEMA_VERSION,
};
use crate::record;
use crate::runs;

verus! {

pub const HEADER_BYTES: usize = 224;

pub const CHECKSUM_BYTES: usize = 32;

pub const EVENT_BYTES: usize = 46;

/// `GRCACHE` and a NUL.
pub open spec fn cache_magic() -> Seq<u8> {
    seq![0x47u8, 0x52u8, 0x43u8, 0x41u8, 0x43u8, 0x48u8, 0x45u8, 0u8]
}

/// What an entry holds.
#[verifier::ext_equal]
pub struct EntryView {
    pub limits: CatalogLimits,
    /// Path values as they are stored.
    pub paths: Seq<Seq<u8>>,
    pub contributors: Seq<Seq<u8>>,
    pub events: Seq<Event>,
    pub input_digest: Seq<u8>,
    pub input_length: u64,
    pub dataset: Seq<u8>,
}

/// A text with its length before it.
pub open spec fn text_entry(text: Seq<u8>) -> Seq<u8> {
    spec_u64_to_le_bytes(text.len() as u64) + text
}

pub open spec fn texts_entry(texts: Seq<Seq<u8>>) -> Seq<u8>
    decreases texts.len(),
{
    if texts.len() == 0 {
        Seq::empty()
    } else {
        texts_entry(texts.drop_last()) + text_entry(texts.last())
    }
}

pub open spec fn colour_entry(colour: Option<Rgb8>) -> Seq<u8> {
    match colour {
        Some(c) => seq![1u8, c.r, c.g, c.b],
        None => seq![0u8, 0u8, 0u8, 0u8],
    }
}

pub open spec fn target_kind(target: EventTarget) -> u8 {
    if target is Directory {
        1
    } else {
        0
    }
}

pub open spec fn event_entry(event: Event) -> Seq<u8> {
    spec_u64_to_le_bytes(event.key.timestamp as u64) + spec_u64_to_le_bytes(
        event.key.source_sequence.value,
    ) + spec_u64_to_le_bytes(event.generation.value) + spec_u64_to_le_bytes(
        event.contributor.value as u64,
    ) + seq![target_kind(event.target)] + spec_u64_to_le_bytes(event.target.path().value as u64)
        + seq![model::action_byte(event.action)] + colour_entry(event.color)
}

pub open spec fn events_entry(events: Seq<Event>) -> Seq<u8>
    decreases events.len(),
{
    if events.len() == 0 {
        Seq::empty()
    } else {
        events_entry(events.drop_last()) + event_entry(events.last())
    }
}

/// Texts and events of an entry.
pub open spec fn payload_entry(entry: EntryView) -> Seq<u8> {
    texts_entry(entry.paths) + texts_entry(entry.contributors) + events_entry(entry.events)
}

/// The part of the header that says which entry this is.
pub open spec fn header_identity(entry: EntryView, key: KeyView, payload: u64) -> Seq<u8> {
    cache_magic() + spec_u16_to_le_bytes(CACHE_SCHEMA_VERSION) + spec_u16_to_le_bytes(0)
        + spec_u32_to_le_bytes(HEADER_BYTES as u32) + spec_u64_to_le_bytes(payload) + key.digest
        + entry.input_digest + spec_u64_to_le_bytes(entry.input_length) + key.fingerprint
        + entry.dataset
}

/// The part of the header that gives limits and counts.
pub open spec fn header_counts(entry: EntryView) -> Seq<u8> {
    spec_u64_to_le_bytes(entry.limits.path_bytes as u64) + spec_u64_to_le_bytes(
        entry.limits.contributor_bytes as u64,
    ) + spec_u64_to_le_bytes(entry.limits.path_components as u64) + spec_u64_to_le_bytes(
        entry.limits.max_paths as u64,
    ) + spec_u64_to_le_bytes(entry.limits.max_contributors as u64) + spec_u64_to_le_bytes(
        entry.paths.len() as u64,
    ) + spec_u64_to_le_bytes(entry.contributors.len() as u64) + spec_u64_to_le_bytes(
        entry.events.len() as u64,
    )
}

/// Everything that the checksum covers.
pub open spec fn entry_body(entry: EntryView, key: KeyView) -> Seq<u8> {
    header_identity(entry, key, payload_entry(entry).len() as u64) + header_counts(entry)
        + payload_entry(entry)
}

/// The bytes of an entry.
pub open spec fn entry_bytes(entry: EntryView, key: KeyView) -> Seq<u8> {
    entry_body(entry, key) + digest::blake3_digest(entry_body(entry, key))
}

/// The fields of a header, by their places.
#[verifier::ext_equal]
pub struct HeaderView {
    pub magic: Seq<u8>,
    pub version: u16,
    pub flags: u16,
    pub size: u32,
    pub payload: u64,
    pub key: Seq<u8>,
    pub input_digest: Seq<u8>,
    pub input_length: u64,
    pub fingerprint: Seq<u8>,
    pub dataset: Seq<u8>,
    pub path_bytes: u64,
    pub contributor_bytes: u64,
    pub path_components: u64,
    pub max_paths: u64,
    pub max_contributors: u64,
    pub path_count: u64,
    pub contributor_count: u64,
    pub event_count: u64,
}

pub open spec fn u16_at(data: Seq<u8>, position: int) -> u16 {
    spec_u16_from_le_bytes(data.subrange(position, position + 2))
}

pub open spec fn header_at(bytes: Seq<u8>) -> HeaderView {
    HeaderView {
        magic: bytes.subrange(0, 8),
        version: u16_at(bytes, 8),
        flags: u16_at(bytes, 10),
        size: runs::u32_at(bytes, 12),
        payload: runs::u64_at(bytes, 16),
        key: bytes.subrange(24, 56),
        input_digest: bytes.subrange(56, 88),
        input_length: runs::u64_at(bytes, 88),
        fingerprint: bytes.subrange(96, 128),
        dataset: bytes.subrange(128, 160),
        path_bytes: runs::u64_at(bytes, 160),
        contributor_bytes: runs::u64_at(bytes, 168),
        path_components: runs::u64_at(bytes, 176),
        max_paths: runs::u64_at(bytes, 184),
        max_contributors: runs::u64_at(bytes, 192),
        path_count: runs::u64_at(bytes, 200),
        contributor_count: runs::u64_at(bytes, 208),
        event_count: runs::u64_at(bytes, 216),
    }
}

/// The header is one of this format, for this key and this size.
pub open spec fn header_matches(h: HeaderView, key: KeyView, total: int) -> bool {
    &&& h.magic == cache_magic()
    &&& h.version == CACHE_SCHEMA_VERSION
    &&& h.flags == 0
    &&& h.size == HEADER_BYTES
    &&& HEADER_BYTES + h.payload + CHECKSUM_BYTES == total
    &&& h.key == key.digest
    &&& h.input_digest == key.input.digest_view()
    &&& h.input_length == key.input.length()
    &&& h.fingerprint == key.fingerprint
}

/// The limits and counts of a header are usable.
pub open spec fn header_usable(h: HeaderView) -> bool {
    &&& 0 < h.path_bytes <= usize::MAX
    &&& 0 < h.contributor_bytes <= usize::MAX
    &&& 0 < h.path_components <= usize::MAX
    &&& 0 < h.max_paths <= usize::MAX
    &&& 0 < h.max_contributors <= usize::MAX
    &&& h.path_count <= h.max_paths
    &&& h.contributor_count <= h.max_contributors
    &&& h.event_count <= usize::MAX
}

/// The limits and counts of a header stay within an envelope.
pub open spec fn header_within(h: HeaderView, envelope: CacheLimitEnvelope, total: int) -> bool {
    &&& h.path_bytes <= envelope.max_path_bytes
    &&& h.contributor_bytes <= envelope.max_contributor_bytes
    &&& h.path_components <= envelope.max_path_components
    &&& h.max_paths <= envelope.max_events
    &&& h.max_contributors <= envelope.max_events
    &&& h.event_count <= envelope.max_events
    &&& cache_memory::minimum_memory(
        total,
        h.path_count as int,
        h.contributor_count as int,
        h.event_count as int,
    ) <= envelope.working_memory_bytes
}

/// A header is accepted for a key.
pub open spec fn header_accepted(h: HeaderView, key: KeyView, total: int, maximum: u64) -> bool {
    &&& HEADER_BYTES + CHECKSUM_BYTES <= total <= maximum
    &&& header_matches(h, key, total)
    &&& header_usable(h)
    &&& header_within(h, key.limits, total)
}

/// The text whose entry starts at a position, and where it ends.
pub open spec fn text_at(payload: Seq<u8>, position: int) -> Option<(Seq<u8>, int)> {
    if position + 8 > payload.len() {
        None
    } else {
        let length = runs::u64_at(payload, position);
        if position + 8 + length > payload.len() {
            None
        } else {
            Some(
                (
                    payload.subrange(position + 8, position + 8 + length),
                    position + 8 + length,
                ),
            )
        }
    }
}

/// Some texts whose entries follow each other, and where they end.
pub open spec fn texts_at(payload: Seq<u8>, position: int, count: int) -> Option<
    (Seq<Seq<u8>>, int),
>
    decreases count,
{
    if count <= 0 {
        Some((Seq::empty(), position))
    } else {
        match texts_at(payload, position, count - 1) {
            None => None,
            Some((texts, end)) => match text_at(payload, end) {
                None => None,
                Some((text, next)) => Some((texts.push(text), next)),
            },
        }
    }
}

/// The event whose entry starts at a position.
pub open spec fn event_at(payload: Seq<u8>, position: int) -> Option<Event> {
    let sequence = runs::u64_at(payload, position + 8);
    let generation = runs::u64_at(payload, position + 16);
    let contributor = runs::u64_at(payload, position + 24);
    let kind = payload[position + 32];
    let path = runs::u64_at(payload, position + 33);
    let action = payload[position + 41];
    let flag = payload[position + 42];
    let red = payload[position + 43];
    let green = payload[position + 44];
    let blue = payload[position + 45];
    if sequence == u64::MAX || generation != 0 || contributor == 0 || contributor > u32::MAX || path
        == 0 || path > u32::MAX || kind > 1 || flag > 1 || (flag == 0 && !(red == 0 && green == 0
        && blue == 0)) || !(action == 0x41 || action == 0x4d || action == 0x44) {
        None
    } else {
        let id = PathId { value: path as u32 };
        Some(
            Event {
                version: EVENT_SCHEMA_VERSION,
                key: EventKey {
                    timestamp: runs::u64_at(payload, position) as i64,
                    source_sequence: SourceSeq { value: sequence },
                },
                generation: Generation { value: 0 },
                contributor: ContributorId { value: contributor as u32 },
                target: if kind == 1 {
                    EventTarget::Directory(id)
                } else {
                    EventTarget::File(id)
                },
                action: if action == 0x41 {
                    Action::Add
                } else if action == 0x4d {
                    Action::Modify
                } else {
                    Action::Delete
                },
                color: if flag == 1 {
                    Some(Rgb8 { r: red, g: green, b: blue })
                } else {
                    None
                },
            },
        )
    }
}

/// Some events whose entries follow each other.
pub open spec fn events_at(payload: Seq<u8>, position: int, count: int) -> Option<Seq<Event>>
    decreases count,
{
    if count <= 0 {
        Some(Seq::empty())
    } else {
        match events_at(payload, position, count - 1) {
            None => None,
            Some(events) => match event_at(payload, position + (count - 1) * EVENT_BYTES) {
                None => None,
                Some(event) => Some(events.push(event)),
            },
        }
    }
}

/// What the payload under a header holds.
pub open spec fn payload_at(h: HeaderView, payload: Seq<u8>) -> Option<EntryView> {
    match texts_at(payload, 0, h.path_count as int) {
        None => None,
        Some((paths, after_paths)) => match texts_at(
            payload,
            after_paths,
            h.contributor_count as int,
        ) {
            None => None,
            Some((contributors, after_texts)) => if after_texts + h.event_count * EVENT_BYTES
                != payload.len() {
                None
            } else {
                match events_at(payload, after_texts, h.event_count as int) {
                    None => None,
                    Some(events) => Some(
                        EntryView {
                            limits: CatalogLimits {
                                path_bytes: h.path_bytes as usize,
                                contributor_bytes: h.contributor_bytes as usize,
                                path_components: h.path_components as usize,
                                max_paths: h.max_paths as usize,
                                max_contributors: h.max_contributors as usize,
                            },
                            paths,
                            contributors,
                            events,
                            input_digest: h.input_digest,
                            input_length: h.input_length,
                            dataset: h.dataset,
                        },
                    ),
                }
            },
        },
    }
}

/// The canonical forms of stored path values.
pub open spec fn canonical_paths(paths: Seq<Seq<u8>>) -> Seq<Seq<u8>> {
    paths.map_values(|raw: Seq<u8>| model::canonical_path(raw))
}

/// The catalog of an entry.
pub open spec fn entry_catalog(entry: EntryView) -> CatalogView {
    CatalogView {
        limits: entry.limits,
        paths: canonical_paths(entry.paths),
        contributors: entry.contributors,
    }
}

/// A stored path value is a path within the limits.
pub open spec fn path_accepted(raw: Seq<u8>, limits: CatalogLimits) -> bool {
    valid_utf8(raw) && catalog::admits_path(limits, raw)
}

/// A stored contributor is within the limits.
pub open spec fn contributor_accepted(raw: Seq<u8>, limits: CatalogLimits) -> bool {
    valid_utf8(raw) && raw.len() <= limits.contributor_bytes
}

/// Source sequences are exactly the numbers below the count.
pub open spec fn sequences_are_permutation(events: Seq<Event>) -> bool {
    &&& forall|i: int|
        0 <= i < events.len() ==> (#[trigger] events[i]).key.source_sequence.value < events.len()
    &&& forall|i: int, j: int|
        0 <= i < j < events.len() ==> (#[trigger] events[i]).key.source_sequence.value != (
        #[trigger] events[j]).key.source_sequence.value
}

/// The target of an event is of the kind that its path says.
pub open spec fn kind_matches(catalog: CatalogView, event: Event) -> bool {
    record::names_directory(catalog.paths[event.target.path().value - 1]) == (
    event.target is Directory)
}

/// Every event names a contributor and a path of its kind.
pub open spec fn events_fit(catalog: CatalogView, events: Seq<Event>) -> bool {
    forall|i: int| 0 <= i < events.len() ==> #[trigger] event_fits(catalog, events[i])
}

pub open spec fn event_fits(catalog: CatalogView, event: Event) -> bool {
    history::event_in_catalog(catalog, event) && kind_matches(catalog, event)
}

/// Decoding stays within memory while one path is added.
pub open spec fn path_fits(
    paths: Seq<Seq<u8>>,
    k: int,
    events: int,
    total: int,
    memory: u64,
) -> bool {
    cache_memory::decode_memory(
        charges::CATALOG_MEMORY_BASE + cache_memory::paths_charge(canonical_paths(paths.take(k + 1))),
        events,
        total,
        cache_memory::parse_charge(paths[k]),
    ) <= memory
}

/// The paths of an entry are distinct paths within the limits, and memory
/// suffices to add them.
pub open spec fn paths_accepted(
    paths: Seq<Seq<u8>>,
    limits: CatalogLimits,
    events: int,
    total: int,
    memory: u64,
) -> bool {
    &&& forall|i: int| 0 <= i < paths.len() ==> path_accepted(#[trigger] paths[i], limits)
    &&& canonical_paths(paths).no_duplicates()
    &&& paths.len() <= u32::MAX
    &&& forall|k: int|
        0 <= k < paths.len() ==> #[trigger] path_fits(paths, k, events, total, memory)
}

/// The contributors of an entry are distinct and within the limits.
pub open spec fn contributors_accepted(contributors: Seq<Seq<u8>>, limits: CatalogLimits) -> bool {
    &&& forall|i: int|
        0 <= i < contributors.len() ==> contributor_accepted(#[trigger] contributors[i], limits)
    &&& contributors.no_duplicates()
    &&& contributors.len() <= u32::MAX
}

/// Memory that decoding holds once the whole catalog is there.
pub open spec fn catalog_memory(
    paths: Seq<Seq<u8>>,
    contributors: Seq<Seq<u8>>,
    events: int,
    total: int,
) -> int {
    cache_memory::decode_memory(
        charges::CATALOG_MEMORY_BASE + cache_memory::paths_charge(canonical_paths(paths))
            + cache_memory::contributors_charge(contributors),
        events,
        total,
        0,
    )
}

/// The events of an entry are canonical events of its catalog.
pub open spec fn events_accepted(catalog: CatalogView, events: Seq<Event>) -> bool {
    &&& sequences_are_permutation(events)
    &&& events_fit(catalog, events)
    &&& model::canonical_order(events)
}

/// The contents of an entry are accepted for a key.
pub open spec fn entry_accepted(entry: EntryView, key: KeyView, total: int) -> bool {
    let catalog = entry_catalog(entry);
    let memory = key.limits.working_memory_bytes;
    let count = entry.events.len() as int;
    &&& paths_accepted(entry.paths, entry.limits, count, total, memory)
    &&& contributors_accepted(entry.contributors, entry.limits)
    &&& catalog_memory(entry.paths, entry.contributors, count, total) <= memory
    &&& events_accepted(catalog, entry.events)
    &&& entry.dataset == digest::blake3_digest(
        history::dataset_bytes(catalog, entry.events, entry.input_digest),
    )
}

/// The last bytes of an entry are the checksum of everything before them.
pub open spec fn checksum_holds(bytes: Seq<u8>) -> bool {
    let body = bytes.len() - CHECKSUM_BYTES;
    bytes.skip(body) == digest::blake3_digest(bytes.take(body))
}

/// The payload between header and checksum.
pub open spec fn payload_of(bytes: Seq<u8>) -> Seq<u8> {
    bytes.subrange(HEADER_BYTES as int, bytes.len() - CHECKSUM_BYTES)
}

/// What an entry decodes to for a key; nothing if it is not acceptable.
pub open spec fn decoded(bytes: Seq<u8>, key: KeyView, maximum: u64) -> Option<EntryView> {
    let total = bytes.len() as int;
    if total < HEADER_BYTES + CHECKSUM_BYTES || total > maximum || !checksum_holds(bytes) {
        None
    } else if !header_accepted(header_at(bytes), key, total, maximum) {
        None
    } else {
        match payload_at(header_at(bytes), payload_of(bytes)) {
            None => None,
            Some(entry) => if entry_accepted(entry, key, total) {
                Some(entry)
            } else {
                None
            },
        }
    }
}

} // verus!
