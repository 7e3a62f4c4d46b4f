//! What the cache promises of stored histories.

use vstd::bytes::*;
use vstd::prelude::*;

use crate::cache_decode;
use crate::cache_encode;
use crate::cache_format;
use crate::cache_format::{EntryView, CHECKSUM_BYTES, EVENT_BYTES, HEADER_BYTES};
use crate::cache_key::{CacheKey, KeyView, CACHE_SCHEMA_VERSION};
use crate::cache_memory;
use crate::catalog::CatalogView;
use crate::digest;
use crate::history;
use crate::history::IndexedHistory;
use crate::model;
use crate::model::{Event, EVENT_SCHEMA_VERSION};
use crate::text;

verus! {

/// Reading the entry of a text gives the text.
proof fn text_round_trip(before: Seq<u8>, text: Seq<u8>, after: Seq<u8>)
    requires
        text.len() <= u64::MAX,
    ensures
        cache_format::text_at(
            before + cache_format::text_entry(text) + after,
            before.len() as int,
        ) == Some((text, (before.len() + 8 + text.len()) as int)),
{
    lemma_auto_spec_u64_to_from_le_bytes();
    let payload = before + cache_format::text_entry(text) + after;
    let p = before.len() as int;
    assert(payload.subrange(p, p + 8) =~= spec_u64_to_le_bytes(text.len() as u64));
    assert(payload.subrange(p + 8, p + 8 + text.len()) =~= text);
}

/// Reading the entries of texts gives the texts.
proof fn texts_round_trip(before: Seq<u8>, texts: Seq<Seq<u8>>, after: Seq<u8>)
    requires
        forall|i: int| 0 <= i < texts.len() ==> (#[trigger] texts[i]).len() <= u64::MAX,
    ensures
        cache_format::texts_at(
            before + cache_format::texts_entry(texts) + after,
            before.len() as int,
            texts.len() as int,
        ) == Some((texts, (before.len() + cache_format::texts_entry(texts).len()) as int)),
    decreases texts.len(),
{
    if texts.len() > 0 {
        let front = texts.drop_last();
        let last = texts.last();
        let rest = cache_format::text_entry(last) + after;
        let payload = before + cache_format::texts_entry(texts) + after;
        lemma_auto_spec_u64_to_from_le_bytes();
        assert forall|i: int| 0 <= i < front.len() implies (#[trigger] front[i]).len() <= u64::MAX by {
            assert(front[i] == texts[i]);
        }
        texts_round_trip(before, front, rest);
        assert(payload =~= before + cache_format::texts_entry(front) + rest);
        text_round_trip(before + cache_format::texts_entry(front), last, after);
        assert(payload =~= before + cache_format::texts_entry(front) + cache_format::text_entry(last)
            + after);
        assert(front.push(last) =~= texts);
    }
}

/// An event that entries can hold.
pub open spec fn event_storable(event: Event) -> bool {
    &&& event.version == EVENT_SCHEMA_VERSION
    &&& event.generation.value == 0
    &&& event.key.source_sequence.value < u64::MAX
    &&& event.contributor.value > 0
    &&& event.target.path().value > 0
}

/// Reading the entry of an event gives the event.
proof fn event_round_trip(before: Seq<u8>, event: Event, after: Seq<u8>)
    requires
        event_storable(event),
    ensures
        cache_format::event_at(
            before + cache_format::event_entry(event) + after,
            before.len() as int,
        ) == Some(event),
{
    lemma_auto_spec_u64_to_from_le_bytes();
    cache_encode::event_entry_length(event);
    let entry = cache_format::event_entry(event);
    let payload = before + entry + after;
    let p = before.len() as int;
    let time = event.key.timestamp;
    assert((time as u64) as i64 == time) by (bit_vector);
    assert(payload.subrange(p, p + 8) =~= spec_u64_to_le_bytes(time as u64));
    assert(payload.subrange(p + 8, p + 16) =~= spec_u64_to_le_bytes(
        event.key.source_sequence.value,
    ));
    assert(payload.subrange(p + 16, p + 24) =~= spec_u64_to_le_bytes(event.generation.value));
    assert(payload.subrange(p + 24, p + 32) =~= spec_u64_to_le_bytes(
        event.contributor.value as u64,
    ));
    assert(payload[p + 32] == cache_format::target_kind(event.target));
    assert(payload.subrange(p + 33, p + 41) =~= spec_u64_to_le_bytes(
        event.target.path().value as u64,
    ));
    assert(payload[p + 41] == model::action_byte(event.action));
    let colour = cache_format::colour_entry(event.color);
    assert(payload[p + 42] == colour[0]);
    assert(payload[p + 43] == colour[1]);
    assert(payload[p + 44] == colour[2]);
    assert(payload[p + 45] == colour[3]);
}

/// Reading the entries of events gives the events.
proof fn events_round_trip(before: Seq<u8>, events: Seq<Event>, after: Seq<u8>)
    requires
        forall|i: int| 0 <= i < events.len() ==> event_storable(#[trigger] events[i]),
    ensures
        cache_format::events_at(
            before + cache_format::events_entry(events) + after,
            before.len() as int,
            events.len() as int,
        ) == Some(events),
        cache_format::events_entry(events).len() == events.len() * EVENT_BYTES,
    decreases events.len(),
{
    if events.len() > 0 {
        let front = events.drop_last();
        let last = events.last();
        let rest = cache_format::event_entry(last) + after;
        let payload = before + cache_format::events_entry(events) + after;
        assert forall|i: int| 0 <= i < front.len() implies event_storable(#[trigger] front[i]) by {
            assert(front[i] == events[i]);
        }
        events_round_trip(before, front, rest);
        assert(payload =~= before + cache_format::events_entry(front) + rest);
        event_round_trip(before + cache_format::events_entry(front), last, after);
        cache_encode::event_entry_length(last);
        assert(payload =~= before + cache_format::events_entry(front) + cache_format::event_entry(
            last,
        ) + after);
        assert(front.push(last) =~= events);
    }
}

/// Decoding an entry stays within the working memory of a key.
pub open spec fn memory_suffices(entry: EntryView, total: int, memory: u64) -> bool {
    let events = entry.events.len() as int;
    &&& cache_memory::minimum_memory(
        total,
        entry.paths.len() as int,
        entry.contributors.len() as int,
        events,
    ) <= memory
    &&& forall|k: int|
        0 <= k < entry.paths.len() ==> #[trigger] cache_format::path_fits(
            entry.paths,
            k,
            events,
            total,
            memory,
        )
    &&& cache_format::catalog_memory(entry.paths, entry.contributors, events, total) <= memory
}

proof fn events_are_storable(catalog: CatalogView, events: Seq<Event>)
    requires
        cache_encode::events_fault(catalog, events) is None,
        cache_format::sequences_are_permutation(events),
        events.len() <= usize::MAX,
    ensures
        forall|i: int| 0 <= i < events.len() ==> event_storable(#[trigger] events[i]),
        cache_format::events_fit(catalog, events),
{
    assert forall|i: int| 0 <= i < events.len() implies event_storable(#[trigger] events[i])
        && cache_format::event_fits(catalog, events[i]) by {
        no_event_fault(catalog, events, i);
        assert(events[i].key.source_sequence.value < events.len());
    }
}

proof fn no_event_fault(catalog: CatalogView, events: Seq<Event>, at: int)
    requires
        cache_encode::events_fault(catalog, events) is None,
        0 <= at < events.len(),
    ensures
        cache_encode::event_fault(catalog, events[at]) is None,
    decreases events.len(),
{
    if at < events.len() - 1 {
        no_event_fault(catalog, events.drop_last(), at);
        assert(events.drop_last()[at] == events[at]);
    }
}

/// The header of an entry is read back.
proof fn header_round_trip(entry: EntryView, key: KeyView, payload: u64, rest: Seq<u8>)
    requires
        key.digest.len() == 32,
        key.fingerprint.len() == 32,
        entry.input_digest.len() == 32,
        entry.dataset.len() == 32,
    ensures
        ({
            let bytes = cache_format::header_identity(entry, key, payload)
                + cache_format::header_counts(entry) + rest;
            let h = cache_format::header_at(bytes);
            &&& h.magic == cache_format::cache_magic()
            &&& h.version == CACHE_SCHEMA_VERSION
            &&& h.flags == 0
            &&& h.size == HEADER_BYTES
            &&& h.payload == payload
            &&& h.key == key.digest
            &&& h.input_digest == entry.input_digest
            &&& h.input_length == entry.input_length
            &&& h.fingerprint == key.fingerprint
            &&& h.dataset == entry.dataset
            &&& h.path_bytes == entry.limits.path_bytes as u64
            &&& h.contributor_bytes == entry.limits.contributor_bytes as u64
            &&& h.path_components == entry.limits.path_components as u64
            &&& h.max_paths == entry.limits.max_paths as u64
            &&& h.max_contributors == entry.limits.max_contributors as u64
            &&& h.path_count == entry.paths.len() as u64
            &&& h.contributor_count == entry.contributors.len() as u64
            &&& h.event_count == entry.events.len() as u64
            &&& cache_format::header_identity(entry, key, payload).len() == 160
            &&& cache_format::header_counts(entry).len() == 64
        }),
{
    lemma_auto_spec_u64_to_from_le_bytes();
    lemma_auto_spec_u32_to_from_le_bytes();
    lemma_auto_spec_u16_to_from_le_bytes();
    let identity = cache_format::header_identity(entry, key, payload);
    let counts = cache_format::header_counts(entry);
    let bytes = identity + counts + rest;
    assert(identity.len() == 160);
    assert(counts.len() == 64);
    assert(bytes.subrange(0, 8) =~= cache_format::cache_magic());
    assert(bytes.subrange(8, 10) =~= spec_u16_to_le_bytes(CACHE_SCHEMA_VERSION));
    assert(bytes.subrange(10, 12) =~= spec_u16_to_le_bytes(0));
    assert(bytes.subrange(12, 16) =~= spec_u32_to_le_bytes(HEADER_BYTES as u32));
    assert(bytes.subrange(16, 24) =~= spec_u64_to_le_bytes(payload));
    assert(bytes.subrange(24, 56) =~= key.digest);
    assert(bytes.subrange(56, 88) =~= entry.input_digest);
    assert(bytes.subrange(88, 96) =~= spec_u64_to_le_bytes(entry.input_length));
    assert(bytes.subrange(96, 128) =~= key.fingerprint);
    assert(bytes.subrange(128, 160) =~= entry.dataset);
    assert(bytes.subrange(160, 168) =~= spec_u64_to_le_bytes(entry.limits.path_bytes as u64));
    assert(bytes.subrange(168, 176) =~= spec_u64_to_le_bytes(
        entry.limits.contributor_bytes as u64,
    ));
    assert(bytes.subrange(176, 184) =~= spec_u64_to_le_bytes(
        entry.limits.path_components as u64,
    ));
    assert(bytes.subrange(184, 192) =~= spec_u64_to_le_bytes(entry.limits.max_paths as u64));
    assert(bytes.subrange(192, 200) =~= spec_u64_to_le_bytes(
        entry.limits.max_contributors as u64,
    ));
    assert(bytes.subrange(200, 208) =~= spec_u64_to_le_bytes(entry.paths.len() as u64));
    assert(bytes.subrange(208, 216) =~= spec_u64_to_le_bytes(entry.contributors.len() as u64));
    assert(bytes.subrange(216, 224) =~= spec_u64_to_le_bytes(entry.events.len() as u64));
}

/// The payload of an entry is read back.
proof fn payload_round_trip(entry: EntryView)
    requires
        forall|i: int| 0 <= i < entry.paths.len() ==> (#[trigger] entry.paths[i]).len() <= u64::MAX,
        forall|i: int|
            0 <= i < entry.contributors.len() ==> (#[trigger] entry.contributors[i]).len()
                <= u64::MAX,
        forall|i: int| 0 <= i < entry.events.len() ==> event_storable(#[trigger] entry.events[i]),
    ensures
        ({
            let payload = cache_format::payload_entry(entry);
            let paths = entry.paths.len() as int;
            let contributors = entry.contributors.len() as int;
            let after_paths = cache_format::texts_entry(entry.paths).len() as int;
            let after_texts = after_paths + cache_format::texts_entry(entry.contributors).len();
            &&& cache_format::texts_at(payload, 0, paths) == Some((entry.paths, after_paths))
            &&& cache_format::texts_at(payload, after_paths, contributors) == Some(
                (entry.contributors, after_texts),
            )
            &&& after_texts + entry.events.len() * EVENT_BYTES == payload.len()
            &&& cache_format::events_at(payload, after_texts, entry.events.len() as int) == Some(
                entry.events,
            )
        }),
{
    let paths = cache_format::texts_entry(entry.paths);
    let contributors = cache_format::texts_entry(entry.contributors);
    let events = cache_format::events_entry(entry.events);
    let payload = cache_format::payload_entry(entry);
    let nothing = Seq::<u8>::empty();
    texts_round_trip(nothing, entry.paths, contributors + events);
    assert(payload =~= nothing + paths + (contributors + events));
    texts_round_trip(paths, entry.contributors, events);
    events_round_trip(paths + contributors, entry.events, nothing);
    assert(payload =~= paths + contributors + events + nothing);
}

/// Loading gives back what was stored: the entry that is published for a
/// history under a key decodes to that history, wherever the working memory
/// of the key suffices to decode it.
#[verifier::spinoff_prover]
#[verifier::rlimit(60)]
pub proof fn loading_gives_back_what_was_stored(
    history: IndexedHistory,
    key: CacheKey,
    maximum: u64,
    bytes: Seq<u8>,
)
    requires
        history.wf(),
        cache_encode::store_fault(history, key@, maximum) is None,
        bytes == cache_format::entry_bytes(cache_encode::entry_of(history), key@),
        bytes.len() == HEADER_BYTES + cache_encode::payload_size(cache_encode::entry_of(history))
            + CHECKSUM_BYTES,
        memory_suffices(
            cache_encode::entry_of(history),
            bytes.len() as int,
            key@.limits.working_memory_bytes,
        ),
    ensures
        cache_format::decoded(bytes, key@, maximum) == Some(cache_encode::entry_of(history)),
        cache_decode::history_is(history, cache_encode::entry_of(history)),
{
    let entry = cache_encode::entry_of(history);
    let catalog = history.catalog_view();
    let payload = cache_format::payload_entry(entry);
    let body = cache_format::entry_body(entry, key@);
    let checksum = bytes.skip(body.len() as int);
    history.is_consistent();
    key.has_full_digests();
    cache_encode::payload_size_is_length(entry);
    header_round_trip(entry, key@, payload.len() as u64, payload + checksum);
    let identity = cache_format::header_identity(entry, key@, payload.len() as u64);
    let counts = cache_format::header_counts(entry);
    assert(bytes =~= identity + counts + (payload + checksum));
    assert(bytes.take(body.len() as int) =~= body);
    assert(checksum =~= digest::blake3_digest(body));
    assert(cache_format::checksum_holds(bytes));
    assert(cache_format::payload_of(bytes) =~= payload);
    events_are_storable(catalog, entry.events);
    payload_round_trip(entry);
    let h = cache_format::header_at(bytes);
    assert(cache_format::header_accepted(h, key@, bytes.len() as int, maximum));
    assert(cache_format::payload_at(h, payload) == Some(entry));
    assert(cache_format::canonical_paths(entry.paths) =~= entry.paths) by {
        assert forall|i: int| 0 <= i < entry.paths.len() implies model::canonical_path(
            #[trigger] entry.paths[i],
        ) == entry.paths[i] by {
            assert(history::text_is_canonical(entry.paths[i]));
        }
    }
    assert(cache_format::entry_catalog(entry) =~= catalog);
    assert forall|i: int| 0 <= i < entry.paths.len() implies cache_format::path_accepted(
        #[trigger] entry.paths[i],
        entry.limits,
    ) by {
        assert(history::text_is_canonical(entry.paths[i]));
    }
    assert(cache_format::entry_accepted(entry, key@, bytes.len() as int));
}

/// What a cache that holds files finds under a key.
pub open spec fn found(files: Map<Seq<char>, Seq<u8>>, key: KeyView, maximum: u64) -> Option<
    EntryView,
> {
    let name = text::hex_of(key.digest) + ".bin"@;
    if files.dom().contains(name) {
        cache_format::decoded(files[name], key, maximum)
    } else {
        None
    }
}

/// A cache hits what was stored in it and misses what was not: after an entry
/// was published under the name of its key, the key finds the history that was
/// stored, and a key whose name no file has finds nothing.
pub proof fn stores_are_hits_and_the_rest_misses(
    files: Map<Seq<char>, Seq<u8>>,
    history: IndexedHistory,
    key: CacheKey,
    maximum: u64,
    bytes: Seq<u8>,
    other: KeyView,
)
    requires
        history.wf(),
        cache_encode::store_fault(history, key@, maximum) is None,
        bytes == cache_format::entry_bytes(cache_encode::entry_of(history), key@),
        bytes.len() == HEADER_BYTES + cache_encode::payload_size(cache_encode::entry_of(history))
            + CHECKSUM_BYTES,
        memory_suffices(
            cache_encode::entry_of(history),
            bytes.len() as int,
            key@.limits.working_memory_bytes,
        ),
        !files.dom().contains(text::hex_of(other.digest) + ".bin"@),
    ensures
        found(files.insert(text::hex_of(key@.digest) + ".bin"@, bytes), key@, maximum) == Some(
            cache_encode::entry_of(history),
        ),
        cache_decode::history_is(history, cache_encode::entry_of(history)),
        found(files, other, maximum) is None,
{
    loading_gives_back_what_was_stored(history, key, maximum, bytes);
}

/// An entry that was cut short is a miss, whatever the key is: its header says
/// how long it was.
pub proof fn cut_entries_are_misses(
    bytes: Seq<u8>,
    length: int,
    key: KeyView,
    maximum: u64,
    other_key: KeyView,
    other_maximum: u64,
)
    requires
        cache_format::decoded(bytes, key, maximum) is Some,
        0 <= length < bytes.len(),
    ensures
        cache_format::decoded(bytes.take(length), other_key, other_maximum) is None,
{
    let cut = bytes.take(length);
    if length >= HEADER_BYTES {
        assert(cut.subrange(16, 24) =~= bytes.subrange(16, 24));
    }
}

/// An entry is accepted for one input and one set of options only: keys that
/// both accept it have the same digest, the same fingerprint and the same input.
pub proof fn entries_belong_to_one_key(
    bytes: Seq<u8>,
    one: KeyView,
    other: KeyView,
    maximum: u64,
)
    requires
        cache_format::decoded(bytes, one, maximum) is Some,
        cache_format::decoded(bytes, other, maximum) is Some,
    ensures
        one.digest == other.digest,
        one.fingerprint == other.fingerprint,
        one.input == other.input,
{
    history::InputIdentity::identity_is_digest_and_length(one.input, other.input);
}

/// Whatever is accepted ends with the checksum of everything before it, so
/// that a changed byte is accepted only with a checksum to match.
pub proof fn accepted_entries_carry_their_checksum(bytes: Seq<u8>, key: KeyView, maximum: u64)
    requires
        cache_format::decoded(bytes, key, maximum) is Some,
    ensures
        bytes.len() >= HEADER_BYTES + CHECKSUM_BYTES,
        bytes.skip(bytes.len() - CHECKSUM_BYTES) == digest::blake3_digest(
            bytes.take(bytes.len() - CHECKSUM_BYTES),
        ),
{
}

/// An entry starts with `GRCACHE` and a NUL and ends with the digest of all that
/// stands before it.
pub proof fn entries_are_framed(entry: EntryView, key: KeyView)
    ensures
        ({
            let bytes = cache_format::entry_bytes(entry, key);
            let digest_length = digest::blake3_digest(cache_format::entry_body(entry, key)).len();
            let body = bytes.take(bytes.len() - digest_length);
            &&& bytes.take(8) == seq![71u8, 82, 67, 65, 67, 72, 69, 0]
            &&& bytes.skip(bytes.len() - digest_length) == digest::blake3_digest(body)
        }),
{
    let body = cache_format::entry_body(entry, key);
    let bytes = cache_format::entry_bytes(entry, key);
    assert(bytes.take(8) =~= cache_format::cache_magic());
    assert(cache_format::cache_magic() =~= seq![71u8, 82, 67, 65, 67, 72, 69, 0]);
    assert(bytes.take(body.len() as int) =~= body);
    assert(bytes.skip(body.len() as int) =~= digest::blake3_digest(body));
}

} // verus!
