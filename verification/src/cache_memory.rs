//! What a decoded cache entry takes of the caller's working memory.

use vstd::prelude::*;

use crate::catalog::{Catalog, CatalogView};
use crate::charges;
use crate::charges::{
    catalog_contributor_bytes, catalog_path_bytes, growth_after, plus, vector_capacity_bytes,
    CATALOG_MAP_NODE_BYTES, CATALOG_MEMORY_BASE, EVENTS_MEMORY_BASE, EVENT_SLOT_BYTES, ID_BYTES,
    PATH_SLOT_BYTES, TEXT_SLOT_BYTES,
};
use crate::record;
use crate::text;

verus! {

pub(crate) fn times(a: Option<u64>, b: u64) -> (product: Option<u64>)
    ensures
        product is Some <==> a is Some && a->0 * b <= u64::MAX,
        product matches Some(p) ==> p == a->0 * b,
{
    match a {
        Some(a) => a.checked_mul(b),
        None => None,
    }
}

/// Storage for some number of events.
pub open spec fn event_storage(count: int) -> int {
    charges::capacity(count, EVENT_SLOT_BYTES as int)
}

/// Storage for the set of source sequences of some number of events.
pub open spec fn bitmap_storage(count: int) -> int {
    (count + 63) / 64 * 8
}

pub(crate) fn bitmap_storage_bytes(count: u64) -> (bytes: Option<u64>)
    ensures
        bytes is Some <==> count + 63 <= u64::MAX,
        bytes matches Some(b) ==> b == bitmap_storage(count as int),
{
    match count.checked_add(63) {
        Some(padded) => Some(padded / 64 * 8),
        None => None,
    }
}

/// The most that one path within bounds is charged.
pub open spec fn path_bound(max_path_bytes: int, max_path_components: int) -> int {
    PATH_SLOT_BYTES + 2 * max_path_bytes + 2 * max_path_bytes + charges::capacity(
        max_path_components,
        TEXT_SLOT_BYTES as int,
    ) + 2 * max_path_bytes + (TEXT_SLOT_BYTES + ID_BYTES + CATALOG_MAP_NODE_BYTES)
}

pub fn conservative_catalog_path_bytes(max_path_bytes: u64, max_path_components: u64) -> (bytes:
    Option<u64>)
    ensures
        bytes is Some <==> path_bound(max_path_bytes as int, max_path_components as int)
            <= u64::MAX,
        bytes matches Some(b) ==> b == path_bound(
            max_path_bytes as int,
            max_path_components as int,
        ),
{
    proof {
        charges::capacity_grows(max_path_components as int, TEXT_SLOT_BYTES as int);
    }
    let texts = max_path_bytes.checked_mul(2);
    let fixed: Option<u64> = Some(PATH_SLOT_BYTES);
    plus(
        plus(
            plus(
                plus(plus(fixed, texts), texts),
                vector_capacity_bytes(max_path_components, TEXT_SLOT_BYTES),
            ),
            texts,
        ),
        Some(TEXT_SLOT_BYTES + ID_BYTES + CATALOG_MAP_NODE_BYTES),
    )
}

/// The most that one contributor within a bound is charged.
pub open spec fn contributor_bound(max_contributor_bytes: int) -> int {
    2 * max_contributor_bytes + TEXT_SLOT_BYTES + ID_BYTES + CATALOG_MAP_NODE_BYTES
}

pub fn conservative_catalog_contributor_bytes(max_contributor_bytes: u64) -> (bytes: Option<u64>)
    ensures
        bytes is Some <==> contributor_bound(max_contributor_bytes as int) <= u64::MAX,
        bytes matches Some(b) ==> b == contributor_bound(max_contributor_bytes as int),
{
    plus(
        max_contributor_bytes.checked_mul(2),
        Some(TEXT_SLOT_BYTES + ID_BYTES + CATALOG_MAP_NODE_BYTES),
    )
}

/// How many components a stored path value has.
pub open spec fn raw_components(raw: Seq<u8>) -> int {
    let path = record::normalized_path(raw);
    if path.len() == 0 {
        0
    } else {
        charges::slashes(path) + 1
    }
}

/// Charged while a stored path value is parsed.
pub open spec fn parse_charge(raw: Seq<u8>) -> int {
    PATH_SLOT_BYTES + 2 * (raw.len() + 1) + 2 * raw.len() + charges::capacity(
        raw_components(raw),
        TEXT_SLOT_BYTES as int,
    )
}

pub(crate) fn decoded_path_temporary_bound(raw: &[u8], components: u64) -> (bytes: Option<u64>)
    requires
        components == raw_components(raw@),
    ensures
        bytes is Some <==> parse_charge(raw@) <= u64::MAX,
        bytes matches Some(b) ==> b == parse_charge(raw@),
{
    proof {
        charges::slashes_bounds(record::normalized_path(raw@));
        charges::capacity_grows(components as int, TEXT_SLOT_BYTES as int);
    }
    let length: u64 = raw.len() as u64;
    let canonical = match length.checked_add(1) {
        Some(longer) => longer.checked_mul(2),
        None => None,
    };
    let fixed: Option<u64> = Some(PATH_SLOT_BYTES);
    plus(
        plus(plus(fixed, canonical), length.checked_mul(2)),
        vector_capacity_bytes(components, TEXT_SLOT_BYTES),
    )
}

/// Everything that decoding holds at one moment.
pub open spec fn decode_memory(catalog_bytes: int, events: int, encoded: int, temporary: int) -> int {
    catalog_bytes + EVENTS_MEMORY_BASE + event_storage(events) + bitmap_storage(events) + encoded
        + temporary
}

/// What a decoded entry takes at least: fixed costs of all its items.
pub open spec fn minimum_memory(encoded: int, paths: int, contributors: int, events: int) -> int {
    CATALOG_MEMORY_BASE + charges::capacity(paths, PATH_SLOT_BYTES as int) + charges::capacity(
        contributors,
        TEXT_SLOT_BYTES as int,
    ) + path_bound(1, 1) * paths + contributor_bound(1) * contributors + EVENTS_MEMORY_BASE
        + event_storage(events) + bitmap_storage(events) + encoded
}

pub fn decoded_memory_minimum_bound(
    encoded_bytes: u64,
    path_count: u64,
    contributor_count: u64,
    event_count: u64,
) -> (bytes: Option<u64>)
    ensures
        bytes is Some <==> minimum_memory(
            encoded_bytes as int,
            path_count as int,
            contributor_count as int,
            event_count as int,
        ) <= u64::MAX,
        bytes matches Some(b) ==> b == minimum_memory(
            encoded_bytes as int,
            path_count as int,
            contributor_count as int,
            event_count as int,
        ),
{
    proof {
        charges::capacity_grows(path_count as int, PATH_SLOT_BYTES as int);
        charges::capacity_grows(contributor_count as int, TEXT_SLOT_BYTES as int);
        charges::capacity_grows(event_count as int, EVENT_SLOT_BYTES as int);
        assert(path_bound(1, 1) == 314);
        assert(contributor_bound(1) == 158);
    }
    let path_storage = vector_capacity_bytes(path_count, PATH_SLOT_BYTES);
    let contributor_storage = vector_capacity_bytes(contributor_count, TEXT_SLOT_BYTES);
    let path_items = times(conservative_catalog_path_bytes(1, 1), path_count);
    let contributor_items = times(conservative_catalog_contributor_bytes(1), contributor_count);
    let events = vector_capacity_bytes(event_count, EVENT_SLOT_BYTES);
    let fixed: Option<u64> = Some(CATALOG_MEMORY_BASE);
    plus(
        plus(
            plus(
                plus(
                    plus(
                        plus(plus(plus(fixed, path_storage), contributor_storage), path_items),
                        contributor_items,
                    ),
                    Some(EVENTS_MEMORY_BASE),
                ),
                events,
            ),
            bitmap_storage_bytes(event_count),
        ),
        Some(encoded_bytes),
    )
}

/// Charged for some paths in a catalog, in the order of their identities.
pub open spec fn paths_charge(paths: Seq<Seq<u8>>) -> int
    decreases paths.len(),
{
    if paths.len() == 0 {
        0
    } else {
        let count = paths.len() as int;
        paths_charge(paths.drop_last()) + charges::path_charge(paths.last()) + (charges::capacity(
            count + 1,
            PATH_SLOT_BYTES as int,
        ) - charges::capacity(count, PATH_SLOT_BYTES as int))
    }
}

/// Charged for some contributors in a catalog.
pub open spec fn contributors_charge(contributors: Seq<Seq<u8>>) -> int
    decreases contributors.len(),
{
    if contributors.len() == 0 {
        0
    } else {
        let count = contributors.len() as int;
        contributors_charge(contributors.drop_last()) + charges::contributor_charge(
            contributors.last(),
        ) + (charges::capacity(count + 1, TEXT_SLOT_BYTES as int) - charges::capacity(
            count,
            TEXT_SLOT_BYTES as int,
        ))
    }
}

pub proof fn charges_grow(texts: Seq<Seq<u8>>, count: int)
    requires
        0 <= count <= texts.len(),
    ensures
        0 <= paths_charge(texts.take(count)) <= paths_charge(texts),
        0 <= contributors_charge(texts.take(count)) <= contributors_charge(texts),
    decreases texts.len(),
{
    if count < texts.len() {
        charges_grow(texts.drop_last(), count);
        assert(texts.drop_last().take(count) =~= texts.take(count));
        let length = texts.len() as int;
        charges::capacity_grows(length, PATH_SLOT_BYTES as int);
        charges::capacity_grows(length, TEXT_SLOT_BYTES as int);
        path_charge_is_positive(texts.last());
    } else {
        assert(texts.take(count) =~= texts);
        if count > 0 {
            charges_grow(texts.drop_last(), count - 1);
            assert(texts.drop_last().take(count - 1) =~= texts.drop_last());
            charges::capacity_grows(count, PATH_SLOT_BYTES as int);
            charges::capacity_grows(count, TEXT_SLOT_BYTES as int);
            path_charge_is_positive(texts.last());
        }
    }
}

pub proof fn path_charge_is_positive(path: Seq<u8>)
    ensures
        charges::path_charge(path) > 0,
{
    charges::slashes_bounds(charges::path_body(path));
    charges::capacity_grows(
        charges::slashes(charges::path_body(path)) + 1,
        TEXT_SLOT_BYTES as int,
    );
}

/// What a history takes when it is held.
pub open spec fn history_memory(catalog: CatalogView, events: int) -> int {
    CATALOG_MEMORY_BASE + paths_charge(catalog.paths) + contributors_charge(catalog.contributors)
        + EVENTS_MEMORY_BASE + event_storage(events) + bitmap_storage(events)
}

pub fn indexed_history_memory_bound(catalog: &Catalog, event_count: u64) -> (bytes: Option<u64>)
    requires
        catalog.wf(),
    ensures
        bytes is Some <==> history_memory(catalog@, event_count as int) <= u64::MAX,
        bytes matches Some(b) ==> b == history_memory(catalog@, event_count as int),
{
    let ghost paths = catalog@.paths;
    let ghost contributors = catalog@.contributors;
    let mut bytes = Some(CATALOG_MEMORY_BASE);
    let mut index: usize = 0;
    assert(paths.take(0) =~= Seq::<Seq<u8>>::empty());
    while index < catalog.path_list.len()
        invariant
            catalog.wf(),
            paths == catalog@.paths,
            index <= paths.len(),
            bytes is Some <==> CATALOG_MEMORY_BASE + paths_charge(paths.take(index as int))
                <= u64::MAX,
            bytes matches Some(b) ==> b == CATALOG_MEMORY_BASE + paths_charge(
                paths.take(index as int),
            ),
        decreases paths.len() - index,
    {
        proof {
            let next = paths.take(index + 1);
            assert(next.drop_last() =~= paths.take(index as int));
            assert(next.last() == catalog.path_list@[index as int].bytes());
            charges_grow(next, index as int);
            assert(next.take(index as int) =~= paths.take(index as int));
            path_charge_is_positive(next.last());
            charges::capacity_grows(index + 1, PATH_SLOT_BYTES as int);
        }
        bytes = plus(
            plus(bytes, catalog_path_bytes(&catalog.path_list[index])),
            growth_after(index, PATH_SLOT_BYTES),
        );
        index = index + 1;
    }
    assert(paths.take(index as int) =~= paths);
    let ghost named = CATALOG_MEMORY_BASE + paths_charge(paths);
    let mut index: usize = 0;
    assert(contributors.take(0) =~= Seq::<Seq<u8>>::empty());
    while index < catalog.contributor_list.len()
        invariant
            catalog.wf(),
            contributors == catalog@.contributors,
            index <= contributors.len(),
            bytes is Some <==> named + contributors_charge(contributors.take(index as int))
                <= u64::MAX,
            bytes matches Some(b) ==> b == named + contributors_charge(
                contributors.take(index as int),
            ),
        decreases contributors.len() - index,
    {
        proof {
            let next = contributors.take(index + 1);
            assert(next.drop_last() =~= contributors.take(index as int));
            assert(next.last() == text::string_bytes(
                catalog.contributor_list@[index as int],
            ));
            charges_grow(next, index as int);
            assert(next.take(index as int) =~= contributors.take(index as int));
            charges::capacity_grows(index + 1, TEXT_SLOT_BYTES as int);
        }
        bytes = plus(
            plus(bytes, catalog_contributor_bytes(catalog.contributor_list[index].as_str())),
            growth_after(index, TEXT_SLOT_BYTES),
        );
        index = index + 1;
    }
    assert(contributors.take(index as int) =~= contributors);
    proof {
        charges::capacity_grows(event_count as int, EVENT_SLOT_BYTES as int);
    }
    plus(
        plus(
            plus(bytes, Some(EVENTS_MEMORY_BASE)),
            vector_capacity_bytes(event_count, EVENT_SLOT_BYTES),
        ),
        bitmap_storage_bytes(event_count),
    )
}

} // verus!
