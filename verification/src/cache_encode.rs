//! Encoding of cache entries.

use vstd::prelude::*;
use vstd::string::*;

use crate::cache_events::{events_are_ordered, source_sequence_bitmap};
use crate::cache_format;
use crate::cache_format::{EntryView, CHECKSUM_BYTES, EVENT_BYTES, HEADER_BYTES};
use crate::cache_key::{
    CacheConfig, CacheError, CacheErrorView, CacheKey, CacheLimitEnvelope, KeyView,
    CACHE_SCHEMA_VERSION,
};
use crate::cache_memory;
use crate::cache_memory::indexed_history_memory_bound;
use crate::catalog::{Catalog, CatalogLimits, CatalogView};
use crate::charges::plus;
use crate::digest;
use crate::history;
use crate::history::{IndexedHistory, InputIdentity};
use crate::model;
use crate::model::{Event, EventTarget, EVENT_SCHEMA_VERSION};
use crate::runs::{put_bytes, put_u16, put_u32, put_u64};
use crate::text;

verus! {

/// Why an event cannot be published in a cache.
pub open spec fn event_fault(catalog: CatalogView, event: Event) -> Option<CacheErrorView> {
    if event.version != EVENT_SCHEMA_VERSION {
        Some(CacheErrorView::InvalidHistory("unsupported event schema"@))
    } else if event.generation.value != 0 {
        Some(CacheErrorView::InvalidHistory("event generation is not the ingest generation"@))
    } else if !(1 <= event.contributor.value <= catalog.contributors.len()) {
        Some(CacheErrorView::InvalidHistory("event contributor is unknown"@))
    } else if !(1 <= event.target.path().value <= catalog.paths.len()) {
        Some(CacheErrorView::InvalidHistory("event path is unknown"@))
    } else if !cache_format::kind_matches(catalog, event) {
        Some(CacheErrorView::InvalidHistory("event target kind mismatches path"@))
    } else {
        None
    }
}

/// Why the first unpublishable event cannot be published.
pub open spec fn events_fault(catalog: CatalogView, events: Seq<Event>) -> Option<CacheErrorView>
    decreases events.len(),
{
    if events.len() == 0 {
        None
    } else {
        match events_fault(catalog, events.drop_last()) {
            Some(e) => Some(e),
            None => event_fault(catalog, events.last()),
        }
    }
}

/// No bound of a catalog is zero.
pub open spec fn limits_usable(limits: CatalogLimits) -> bool {
    &&& limits.path_bytes > 0
    &&& limits.contributor_bytes > 0
    &&& limits.path_components > 0
    &&& limits.max_paths > 0
    &&& limits.max_contributors > 0
}

/// Why a history cannot be published in a cache.
pub open spec fn history_fault(catalog: CatalogView, events: Seq<Event>) -> Option<CacheErrorView> {
    if !limits_usable(catalog.limits) {
        Some(CacheErrorView::InvalidHistory("catalog limits are invalid"@))
    } else if !model::canonical_order(events) {
        Some(CacheErrorView::InvalidHistory("event order is not canonical"@))
    } else if events_fault(catalog, events) is Some {
        events_fault(catalog, events)
    } else if !cache_format::sequences_are_permutation(events) {
        Some(CacheErrorView::InvalidHistory("event source sequences are not a permutation"@))
    } else {
        None
    }
}

fn check_event(catalog: &Catalog, event: &Event) -> (result: Result<(), CacheError>)
    requires
        catalog.wf(),
    ensures
        match result {
            Ok(()) => event_fault(catalog@, *event) is None,
            Err(e) => event_fault(catalog@, *event) == Some(e@),
        },
{
    if event.version != EVENT_SCHEMA_VERSION {
        return Err(CacheError::InvalidHistory("unsupported event schema"));
    }
    if event.generation.get() != 0 {
        return Err(CacheError::InvalidHistory("event generation is not the ingest generation"));
    }
    if catalog.contributor(event.contributor).is_none() {
        return Err(CacheError::InvalidHistory("event contributor is unknown"));
    }
    match catalog.path(event.target.path_id()) {
        None => Err(CacheError::InvalidHistory("event path is unknown")),
        Some(path) => {
            assert(catalog.path_list@[event.target.path().value - 1].wf());
            if path.is_directory() != event.target.is_directory() {
                return Err(CacheError::InvalidHistory("event target kind mismatches path"));
            }
            Ok(())
        },
    }
}

proof fn events_fault_of_prefix(catalog: CatalogView, events: Seq<Event>, count: int)
    requires
        0 <= count <= events.len(),
        events_fault(catalog, events.take(count)) is Some,
    ensures
        events_fault(catalog, events) == events_fault(catalog, events.take(count)),
    decreases events.len() - count,
{
    if count < events.len() {
        assert(events.take(count + 1).drop_last() =~= events.take(count));
        events_fault_of_prefix(catalog, events, count + 1);
    } else {
        assert(events.take(count) =~= events);
    }
}

/// Checks that a history can be published in a cache.
pub fn validate_history(history: &IndexedHistory) -> (result: Result<(), CacheError>)
    requires
        history.wf(),
    ensures
        match result {
            Ok(()) => history_fault(history.catalog_view(), history.events_view()) is None,
            Err(e) => history_fault(history.catalog_view(), history.events_view()) == Some(e@),
        },
{
    let catalog = history.catalog();
    let events = history.events();
    let limits = &catalog.limits;
    if limits.path_bytes == 0 || limits.contributor_bytes == 0 || limits.path_components == 0
        || limits.max_paths == 0 || limits.max_contributors == 0 {
        return Err(CacheError::InvalidHistory("catalog limits are invalid"));
    }
    if !events_are_ordered(events) {
        return Err(CacheError::InvalidHistory("event order is not canonical"));
    }
    let mut index: usize = 0;
    while index < events.len()
        invariant
            catalog.wf(),
            index <= events@.len(),
            catalog@ == history.catalog_view(),
            events@ == history.events_view(),
            limits_usable(catalog@.limits),
            model::canonical_order(events@),
            events_fault(catalog@, events@.take(index as int)) is None,
        decreases events@.len() - index,
    {
        assert(events@.take(index + 1).drop_last() =~= events@.take(index as int));
        match check_event(catalog, &events[index]) {
            Ok(()) => {},
            Err(e) => {
                proof {
                    events_fault_of_prefix(catalog@, events@, index + 1);
                }
                return Err(e);
            },
        }
        index = index + 1;
    }
    assert(events@.take(index as int) =~= events@);
    if source_sequence_bitmap(events).is_none() {
        return Err(CacheError::InvalidHistory("event source sequences are not a permutation"));
    }
    Ok(())
}

/// What a history holds, as an entry.
pub open spec fn entry_of(history: IndexedHistory) -> EntryView {
    EntryView {
        limits: history.catalog_view().limits,
        paths: history.catalog_view().paths,
        contributors: history.catalog_view().contributors,
        events: history.events_view(),
        input_digest: history.input().digest_view(),
        input_length: history.input().length(),
        dataset: history.dataset().digest_view(),
    }
}

/// Why a history does not stay within the limits of a key.
pub open spec fn key_limits_fault(
    envelope: CacheLimitEnvelope,
    catalog: CatalogView,
    events: int,
) -> Option<CacheErrorView> {
    let limits = catalog.limits;
    let memory = cache_memory::history_memory(catalog, events);
    if envelope.max_path_bytes == 0 || envelope.max_contributor_bytes == 0
        || envelope.max_path_components == 0 || envelope.max_events == 0
        || envelope.working_memory_bytes == 0 || limits.path_bytes > envelope.max_path_bytes
        || limits.contributor_bytes > envelope.max_contributor_bytes || limits.path_components
        > envelope.max_path_components || limits.max_paths > envelope.max_events
        || limits.max_contributors > envelope.max_events || catalog.paths.len()
        > envelope.max_events || catalog.contributors.len() > envelope.max_events || events
        > envelope.max_events {
        Some(CacheErrorView::InvalidHistory("cache entry exceeds caller ingest limits"@))
    } else if memory > u64::MAX {
        Some(CacheErrorView::InvalidHistory("decoded size arithmetic overflow"@))
    } else if memory > envelope.working_memory_bytes {
        Some(
            CacheErrorView::InvalidHistory(
                "decoded cache entry exceeds caller working-memory limit"@,
            ),
        )
    } else {
        None
    }
}

pub fn validate_key_limits(key: &CacheKey, catalog: &Catalog, event_count: u64) -> (result: Result<
    (),
    CacheError,
>)
    requires
        catalog.wf(),
    ensures
        match result {
            Ok(()) => key_limits_fault(key@.limits, catalog@, event_count as int) is None,
            Err(e) => key_limits_fault(key@.limits, catalog@, event_count as int) == Some(e@),
        },
{
    let envelope = key.limits();
    let limits = &catalog.limits;
    if envelope.max_path_bytes == 0 || envelope.max_contributor_bytes == 0
        || envelope.max_path_components == 0 || envelope.max_events == 0
        || envelope.working_memory_bytes == 0 || limits.path_bytes as u64 > envelope.max_path_bytes
        || limits.contributor_bytes as u64 > envelope.max_contributor_bytes
        || limits.path_components as u64 > envelope.max_path_components || limits.max_paths as u64
        > envelope.max_events || limits.max_contributors as u64 > envelope.max_events
        || catalog.path_count() as u64 > envelope.max_events || catalog.contributor_count() as u64
        > envelope.max_events || event_count > envelope.max_events {
        return Err(CacheError::InvalidHistory("cache entry exceeds caller ingest limits"));
    }
    match indexed_history_memory_bound(catalog, event_count) {
        None => Err(CacheError::InvalidHistory("decoded size arithmetic overflow")),
        Some(bound) => {
            if bound > envelope.working_memory_bytes {
                return Err(
                    CacheError::InvalidHistory(
                        "decoded cache entry exceeds caller working-memory limit",
                    ),
                );
            }
            Ok(())
        },
    }
}

/// The size of texts with their lengths.
pub open spec fn texts_size(texts: Seq<Seq<u8>>) -> int
    decreases texts.len(),
{
    if texts.len() == 0 {
        0
    } else {
        texts_size(texts.drop_last()) + texts.last().len() + 8
    }
}

/// The size of the texts and events of an entry.
pub open spec fn payload_size(entry: EntryView) -> int {
    texts_size(entry.paths) + texts_size(entry.contributors) + entry.events.len() * EVENT_BYTES
}

proof fn texts_size_is_length(texts: Seq<Seq<u8>>)
    ensures
        cache_format::texts_entry(texts).len() == texts_size(texts),
        texts_size(texts) >= 0,
    decreases texts.len(),
{
    if texts.len() > 0 {
        texts_size_is_length(texts.drop_last());
        vstd::bytes::lemma_auto_spec_u64_to_from_le_bytes();
    }
}

pub proof fn event_entry_length(event: Event)
    ensures
        cache_format::event_entry(event).len() == EVENT_BYTES,
{
    vstd::bytes::lemma_auto_spec_u64_to_from_le_bytes();
}

proof fn events_size_is_length(events: Seq<Event>)
    ensures
        cache_format::events_entry(events).len() == events.len() * EVENT_BYTES,
    decreases events.len(),
{
    if events.len() > 0 {
        events_size_is_length(events.drop_last());
        event_entry_length(events.last());
    }
}

/// The charged size of a payload is its encoded size.
pub proof fn payload_size_is_length(entry: EntryView)
    ensures
        cache_format::payload_entry(entry).len() == payload_size(entry),
        payload_size(entry) >= 0,
{
    texts_size_is_length(entry.paths);
    texts_size_is_length(entry.contributors);
    events_size_is_length(entry.events);
}

pub fn encoded_payload_size(catalog: &Catalog, events: &[Event]) -> (size: Option<u64>)
    ensures
        ({
            let exact = texts_size(catalog@.paths) + texts_size(catalog@.contributors)
                + events@.len() * EVENT_BYTES;
            &&& size is Some <==> exact <= u64::MAX
            &&& size matches Some(s) ==> s == exact
        }),
{
    let ghost paths = catalog@.paths;
    let ghost contributors = catalog@.contributors;
    let mut size: Option<u64> = Some(0);
    let mut index: usize = 0;
    assert(paths.take(0) =~= Seq::<Seq<u8>>::empty());
    while index < catalog.path_list.len()
        invariant
            paths == catalog@.paths,
            index <= paths.len(),
            size is Some <==> texts_size(paths.take(index as int)) <= u64::MAX,
            size matches Some(s) ==> s == texts_size(paths.take(index as int)),
        decreases paths.len() - index,
    {
        proof {
            let next = paths.take(index + 1);
            assert(next.drop_last() =~= paths.take(index as int));
            assert(next.last() == catalog.path_list@[index as int].bytes());
            texts_size_is_length(next.drop_last());
        }
        let length: u64 = catalog.path_list[index].as_bytes().len() as u64;
        size = plus(size, length.checked_add(8));
        index = index + 1;
    }
    assert(paths.take(index as int) =~= paths);
    let mut index: usize = 0;
    assert(contributors.take(0) =~= Seq::<Seq<u8>>::empty());
    proof {
        texts_size_is_length(paths);
    }
    while index < catalog.contributor_list.len()
        invariant
            paths == catalog@.paths,
            contributors == catalog@.contributors,
            index <= contributors.len(),
            size is Some <==> texts_size(paths) + texts_size(contributors.take(index as int))
                <= u64::MAX,
            size matches Some(s) ==> s == texts_size(paths) + texts_size(
                contributors.take(index as int),
            ),
        decreases contributors.len() - index,
    {
        proof {
            let next = contributors.take(index + 1);
            assert(next.drop_last() =~= contributors.take(index as int));
            assert(next.last() == text::string_bytes(
                catalog.contributor_list@[index as int],
            ));
            texts_size_is_length(next.drop_last());
            texts_size_is_length(paths);
        }
        let length: u64 = catalog.contributor_list[index].as_str().as_bytes().len() as u64;
        size = plus(size, length.checked_add(8));
        index = index + 1;
    }
    assert(contributors.take(index as int) =~= contributors);
    proof {
        texts_size_is_length(paths);
        texts_size_is_length(contributors);
    }
    plus(size, (events.len() as u64).checked_mul(EVENT_BYTES as u64))
}

/// Why a history cannot be encoded for a key.
pub open spec fn encode_fault(history: IndexedHistory, key: KeyView, maximum: u64) -> Option<
    CacheErrorView,
> {
    let entry = entry_of(history);
    let payload = payload_size(entry);
    let total = HEADER_BYTES + payload + CHECKSUM_BYTES;
    let limits_fault = key_limits_fault(
        key.limits,
        history.catalog_view(),
        entry.events.len() as int,
    );
    if payload > u64::MAX {
        Some(CacheErrorView::EntryTooLarge(u64::MAX, u64::MAX))
    } else if total > u64::MAX {
        Some(CacheErrorView::EntryTooLarge(u64::MAX, maximum))
    } else if limits_fault is Some {
        limits_fault
    } else if total > maximum {
        Some(CacheErrorView::EntryTooLarge(total as u64, maximum))
    } else if total > usize::MAX {
        Some(CacheErrorView::Allocation)
    } else {
        None
    }
}

fn put_text(output: &mut Vec<u8>, text: &[u8])
    ensures
        final(output)@ == old(output)@ + cache_format::text_entry(text@),
{
    let ghost before = output@;
    assert(text.len() == text@.len());
    put_u64(output, text.len() as u64);
    put_bytes(output, text);
    assert(output@ =~= before + cache_format::text_entry(text@));
}

fn put_event(output: &mut Vec<u8>, event: &Event)
    ensures
        final(output)@ == old(output)@ + cache_format::event_entry(*event),
{
    let ghost before = output@;
    put_u64(output, event.key.timestamp as u64);
    put_u64(output, event.key.source_sequence.get());
    put_u64(output, event.generation.get());
    put_u64(output, event.contributor.as_u64());
    match event.target {
        EventTarget::File(path) => {
            output.push(0);
            put_u64(output, path.as_u64());
        },
        EventTarget::Directory(path) => {
            output.push(1);
            put_u64(output, path.as_u64());
        },
    }
    output.push(event.action.as_byte());
    match event.color {
        Some(colour) => {
            output.push(1);
            output.push(colour.r);
            output.push(colour.g);
            output.push(colour.b);
        },
        None => {
            output.push(0);
            output.push(0);
            output.push(0);
            output.push(0);
        },
    }
    assert(output@ =~= before + cache_format::event_entry(*event));
}

fn put_paths(output: &mut Vec<u8>, catalog: &Catalog)
    ensures
        final(output)@ == old(output)@ + cache_format::texts_entry(catalog@.paths),
{
    let ghost before = output@;
    let ghost paths = catalog@.paths;
    let mut index: usize = 0;
    assert(before + cache_format::texts_entry(paths.take(0)) =~= before);
    while index < catalog.path_list.len()
        invariant
            paths == catalog@.paths,
            index <= paths.len(),
            output@ == before + cache_format::texts_entry(paths.take(index as int)),
        decreases paths.len() - index,
    {
        let ghost next = paths.take(index + 1);
        assert(next.drop_last() =~= paths.take(index as int));
        assert(next.last() == catalog.path_list@[index as int].bytes());
        put_text(output, catalog.path_list[index].as_bytes());
        assert(output@ =~= before + cache_format::texts_entry(next));
        index = index + 1;
    }
    assert(paths.take(index as int) =~= paths);
}

fn put_contributors(output: &mut Vec<u8>, catalog: &Catalog)
    ensures
        final(output)@ == old(output)@ + cache_format::texts_entry(catalog@.contributors),
{
    let ghost before = output@;
    let ghost contributors = catalog@.contributors;
    let mut index: usize = 0;
    assert(before + cache_format::texts_entry(contributors.take(0)) =~= before);
    while index < catalog.contributor_list.len()
        invariant
            contributors == catalog@.contributors,
            index <= contributors.len(),
            output@ == before + cache_format::texts_entry(contributors.take(index as int)),
        decreases contributors.len() - index,
    {
        let ghost next = contributors.take(index + 1);
        assert(next.drop_last() =~= contributors.take(index as int));
        assert(next.last() == text::string_bytes(catalog.contributor_list@[index as int]));
        put_text(output, catalog.contributor_list[index].as_str().as_bytes());
        assert(output@ =~= before + cache_format::texts_entry(next));
        index = index + 1;
    }
    assert(contributors.take(index as int) =~= contributors);
}

fn put_events(output: &mut Vec<u8>, events: &[Event])
    ensures
        final(output)@ == old(output)@ + cache_format::events_entry(events@),
{
    let ghost before = output@;
    let mut index: usize = 0;
    assert(before + cache_format::events_entry(events@.take(0)) =~= before);
    while index < events.len()
        invariant
            index <= events@.len(),
            output@ == before + cache_format::events_entry(events@.take(index as int)),
        decreases events@.len() - index,
    {
        let ghost next = events@.take(index + 1);
        assert(next.drop_last() =~= events@.take(index as int));
        put_event(output, &events[index]);
        assert(output@ =~= before + cache_format::events_entry(next));
        index = index + 1;
    }
    assert(events@.take(index as int) =~= events@);
}

/// Writes the header of an entry.
fn put_header(output: &mut Vec<u8>, key: &CacheKey, history: &IndexedHistory, payload: u64)
    requires
        old(output)@.len() == 0,
        history.wf(),
    ensures
        final(output)@ == cache_format::header_identity(entry_of(*history), key@, payload)
            + cache_format::header_counts(entry_of(*history)),
{
    let ghost entry = entry_of(*history);
    let catalog = history.catalog();
    let limits = &catalog.limits;
    let magic: [u8; 8] = [0x47, 0x52, 0x43, 0x41, 0x43, 0x48, 0x45, 0];
    put_bytes(output, magic.as_slice());
    assert(magic@ =~= cache_format::cache_magic());
    put_u16(output, CACHE_SCHEMA_VERSION);
    put_u16(output, 0);
    put_u32(output, HEADER_BYTES as u32);
    put_u64(output, payload);
    put_bytes(output, key.digest().as_slice());
    let input = history.input_identity();
    put_bytes(output, input.digest().as_slice());
    put_u64(output, input.bytes());
    let fingerprint = key.options_fingerprint();
    put_bytes(output, fingerprint.as_slice());
    let dataset = history.dataset_identity();
    put_bytes(output, dataset.as_bytes().as_slice());
    let ghost identity = cache_format::header_identity(entry, key@, payload);
    assert(output@ =~= identity);
    put_u64(output, limits.path_bytes as u64);
    put_u64(output, limits.contributor_bytes as u64);
    put_u64(output, limits.path_components as u64);
    put_u64(output, limits.max_paths as u64);
    put_u64(output, limits.max_contributors as u64);
    put_u64(output, catalog.path_count() as u64);
    put_u64(output, catalog.contributor_count() as u64);
    put_u64(output, history.len() as u64);
    assert(output@ =~= identity + cache_format::header_counts(entry));
}

/// Headers are always of one size.
pub proof fn header_length(entry: EntryView, key: KeyView, payload: u64)
    requires
        key.digest.len() == 32,
        key.fingerprint.len() == 32,
        entry.input_digest.len() == 32,
        entry.dataset.len() == 32,
    ensures
        cache_format::header_identity(entry, key, payload).len() + cache_format::header_counts(
            entry,
        ).len() == HEADER_BYTES,
{
    vstd::bytes::lemma_auto_spec_u64_to_from_le_bytes();
    vstd::bytes::lemma_auto_spec_u32_to_from_le_bytes();
    vstd::bytes::lemma_auto_spec_u16_to_from_le_bytes();
}

/// Encodes a history for a key.
pub fn encode_entry(key: &CacheKey, history: &IndexedHistory, maximum: u64) -> (result: Result<
    Vec<u8>,
    CacheError,
>)
    requires
        history.wf(),
    ensures
        match result {
            Ok(bytes) => encode_fault(*history, key@, maximum) is None && bytes@
                == cache_format::entry_bytes(entry_of(*history), key@) && bytes@.len()
                == HEADER_BYTES + payload_size(entry_of(*history)) + CHECKSUM_BYTES,
            Err(e) => encode_fault(*history, key@, maximum) == Some(e@),
        },
{
    let ghost entry = entry_of(*history);
    proof {
        payload_size_is_length(entry);
    }
    let catalog = history.catalog();
    let payload: u64 = match encoded_payload_size(catalog, history.events()) {
        Some(payload) => payload,
        None => {
            return Err(CacheError::EntryTooLarge { size: u64::MAX, maximum: u64::MAX });
        },
    };
    let total: u64 = match plus(
        plus(Some(HEADER_BYTES as u64), Some(payload)),
        Some(CHECKSUM_BYTES as u64),
    ) {
        Some(total) => total,
        None => {
            return Err(CacheError::EntryTooLarge { size: u64::MAX, maximum });
        },
    };
    match validate_key_limits(key, catalog, history.len() as u64) {
        Ok(()) => {},
        Err(e) => return Err(e),
    }
    if total > maximum {
        return Err(CacheError::EntryTooLarge { size: total, maximum });
    }
    if total > usize::MAX as u64 {
        return Err(CacheError::Allocation);
    }
    let mut output: Vec<u8> = Vec::new();
    put_header(&mut output, key, history, payload);
    put_paths(&mut output, catalog);
    put_contributors(&mut output, catalog);
    put_events(&mut output, history.events());
    assert(output@ =~= cache_format::entry_body(entry, key@));
    proof {
        history.is_consistent();
        key.has_full_digests();
        header_length(entry, key@, payload);
    }
    let checksum = digest::digest_bytes(output.as_slice());
    put_bytes(&mut output, checksum.as_slice());
    Ok(output)
}

/// Whether two input identities are the same.
pub fn same_input(a: &InputIdentity, b: &InputIdentity) -> (same: bool)
    ensures
        same == (*a == *b),
{
    let same = a.bytes() == b.bytes() && text::same_bytes(
        a.digest().as_slice(),
        b.digest().as_slice(),
    );
    proof {
        if same {
            InputIdentity::identity_is_digest_and_length(*a, *b);
        }
    }
    same
}

/// Why a history cannot be stored under a key.
pub open spec fn store_fault(history: IndexedHistory, key: KeyView, maximum: u64) -> Option<
    CacheErrorView,
> {
    if key.input != history.input() {
        Some(CacheErrorView::KeyMismatch)
    } else if history_fault(history.catalog_view(), history.events_view()) is Some {
        history_fault(history.catalog_view(), history.events_view())
    } else {
        encode_fault(history, key, maximum)
    }
}

/// Checks a history and encodes it for publication under a key.
pub fn prepare_entry(key: &CacheKey, history: &IndexedHistory, config: &CacheConfig) -> (result:
    Result<Vec<u8>, CacheError>)
    requires
        history.wf(),
    ensures
        match result {
            Ok(bytes) => store_fault(*history, key@, config.max_entry_bytes) is None && bytes@
                == cache_format::entry_bytes(entry_of(*history), key@) && bytes@.len()
                == HEADER_BYTES + payload_size(entry_of(*history)) + CHECKSUM_BYTES,
            Err(e) => store_fault(*history, key@, config.max_entry_bytes) == Some(e@),
        },
{
    if !same_input(&key.input_identity(), &history.input_identity()) {
        return Err(CacheError::KeyMismatch);
    }
    match validate_history(history) {
        Ok(()) => {},
        Err(e) => return Err(e),
    }
    encode_entry(key, history, config.max_entry_bytes)
}

} // verus!
