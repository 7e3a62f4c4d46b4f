//! What the index charges against its share of the working memory.

use vstd::prelude::*;
use vstd::string::*;

use crate::catalog::{Catalog, CatalogView};
use crate::error;
use crate::error::{working_memory_error, IngestError};
use crate::model::RepositoryPath;
use crate::record::{NormalizedRecord, RecordView};
use crate::sorting;
use crate::text;

verus! {

/// Charged for an empty catalog.
pub const CATALOG_MEMORY_BASE: u64 = 4096;

/// Charged for one node of a catalog's lookup map.
pub const CATALOG_MAP_NODE_BYTES: u64 = 128;

/// Charged for an empty event list.
pub const EVENTS_MEMORY_BASE: u64 = 24;

/// Charged for the fixed part of one path.
pub const PATH_SLOT_BYTES: u64 = 56;

/// Charged for the fixed part of one text.
pub const TEXT_SLOT_BYTES: u64 = 24;

/// Charged for one identity.
pub const ID_BYTES: u64 = 4;

/// Charged for one event.
pub const EVENT_SLOT_BYTES: u64 = 48;

/// What a growing list of some length may take.
pub open spec fn capacity(length: int, element_size: int) -> int {
    if length == 0 {
        0
    } else if 2 * length < 4 {
        4 * element_size
    } else {
        2 * length * element_size
    }
}

pub fn vector_capacity_bytes(length: u64, element_size: u64) -> (bytes: Option<u64>)
    requires
        element_size > 0,
    ensures
        bytes is Some <==> capacity(length as int, element_size as int) <= u64::MAX,
        bytes matches Some(b) ==> b == capacity(length as int, element_size as int),
{
    if length == 0 {
        return Some(0);
    }
    let doubled: u64 = match length.checked_mul(2) {
        Some(doubled) => doubled,
        None => {
            assert(2 * length * element_size >= 2 * length) by (nonlinear_arith)
                requires
                    element_size > 0,
            ;
            return None;
        },
    };
    let slots: u64 = if doubled < 4 {
        4
    } else {
        doubled
    };
    slots.checked_mul(element_size)
}

/// What a list takes more when it grows by one element.
pub fn vector_growth_bytes(current_len: u64, element_size: u64) -> (bytes: Option<u64>)
    requires
        element_size > 0,
    ensures
        bytes is Some <==> current_len < u64::MAX && capacity(current_len + 1, element_size as int)
            <= u64::MAX,
        bytes matches Some(b) ==> b == capacity(current_len + 1, element_size as int) - capacity(
            current_len as int,
            element_size as int,
        ),
{
    proof {
        capacity_grows(current_len as int, element_size as int);
    }
    let old_capacity: u64 = match vector_capacity_bytes(current_len, element_size) {
        Some(bytes) => bytes,
        None => return None,
    };
    let longer: u64 = match current_len.checked_add(1) {
        Some(longer) => longer,
        None => return None,
    };
    match vector_capacity_bytes(longer, element_size) {
        Some(new_capacity) => Some(new_capacity - old_capacity),
        None => None,
    }
}

pub proof fn capacity_grows(length: int, element_size: int)
    requires
        0 <= length,
        0 < element_size,
    ensures
        0 <= capacity(length, element_size) <= capacity(length + 1, element_size),
{
    assert(0 <= 2 * length * element_size <= 2 * (length + 1) * element_size) by (nonlinear_arith)
        requires
            0 <= length,
            0 < element_size,
    ;
    if length == 1 {
        assert(2 * (length + 1) * element_size == 4 * element_size) by (nonlinear_arith)
            requires
                length == 1,
        ;
    }
}

/// How many slashes a text holds.
pub open spec fn slashes(s: Seq<u8>) -> int
    decreases s.len(),
{
    if s.len() == 0 {
        0
    } else {
        slashes(s.drop_last()) + if s.last() == 0x2f {
            1int
        } else {
            0
        }
    }
}

pub proof fn slashes_bounds(s: Seq<u8>)
    ensures
        0 <= slashes(s) <= s.len(),
    decreases s.len(),
{
    if s.len() > 0 {
        slashes_bounds(s.drop_last());
    }
}

pub(crate) fn count_slashes(s: &[u8]) -> (count: usize)
    ensures
        count == slashes(s@),
{
    let mut count: usize = 0;
    let mut index: usize = 0;
    assert(s@.take(0) =~= Seq::<u8>::empty());
    while index < s.len()
        invariant
            index <= s@.len(),
            count == slashes(s@.take(index as int)),
            count <= index,
        decreases s@.len() - index,
    {
        let ghost next = s@.take(index + 1);
        assert(next.drop_last() =~= s@.take(index as int));
        if s[index] == 0x2f {
            count = count + 1;
        }
        index = index + 1;
    }
    assert(s@.take(index as int) =~= s@);
    count
}

/// The text of a path before its directory marker.
pub open spec fn path_body(canonical: Seq<u8>) -> Seq<u8> {
    if canonical.len() > 0 && canonical.last() == 0x2f {
        canonical.drop_last()
    } else {
        canonical
    }
}

/// Charged for a new path in the catalog: the path, its components and its
/// lookup entry.
pub open spec fn path_charge(canonical: Seq<u8>) -> int {
    let body = path_body(canonical);
    let components = slashes(body) + 1;
    PATH_SLOT_BYTES + 2 * canonical.len() + (body.len() - slashes(body)) + capacity(
        components,
        TEXT_SLOT_BYTES as int,
    ) + 2 * canonical.len() + (TEXT_SLOT_BYTES + ID_BYTES + CATALOG_MAP_NODE_BYTES)
}

/// Charged for a new contributor in the catalog.
pub open spec fn contributor_charge(contributor: Seq<u8>) -> int {
    2 * contributor.len() + TEXT_SLOT_BYTES + ID_BYTES + CATALOG_MAP_NODE_BYTES
}

pub(crate) fn plus(a: Option<u64>, b: Option<u64>) -> (sum: Option<u64>)
    ensures
        sum is Some <==> a is Some && b is Some && a->0 + b->0 <= u64::MAX,
        sum matches Some(s) ==> s == a->0 + b->0,
{
    match (a, b) {
        (Some(a), Some(b)) => a.checked_add(b),
        _ => None,
    }
}

pub(crate) fn twice(length: usize) -> (bytes: Option<u64>)
    ensures
        bytes is Some <==> 2 * length <= u64::MAX,
        bytes matches Some(b) ==> b == 2 * length,
{
    (length as u64).checked_mul(2)
}

pub fn catalog_path_bytes(path: &RepositoryPath) -> (bytes: Option<u64>)
    ensures
        bytes is Some <==> path_charge(path.bytes()) <= u64::MAX,
        bytes matches Some(b) ==> b == path_charge(path.bytes()),
{
    let canonical = path.as_bytes();
    let length: usize = canonical.len();
    let body_length: usize = if length > 0 && canonical[length - 1] == 0x2f {
        length - 1
    } else {
        length
    };
    let body = vstd::slice::slice_subrange(canonical, 0, body_length);
    assert(body@ =~= path_body(canonical@));
    let separators: usize = count_slashes(body);
    proof {
        slashes_bounds(body@);
        capacity_grows(separators as int, TEXT_SLOT_BYTES as int);
    }
    let components: u64 = match (separators as u64).checked_add(1) {
        Some(components) => components,
        None => {
            return None;
        },
    };
    let fixed: Option<u64> = Some(PATH_SLOT_BYTES);
    let texts = plus(plus(fixed, twice(length)), Some((body_length - separators) as u64));
    let listed = plus(texts, vector_capacity_bytes(components, TEXT_SLOT_BYTES));
    plus(
        plus(listed, twice(length)),
        Some(TEXT_SLOT_BYTES + ID_BYTES + CATALOG_MAP_NODE_BYTES),
    )
}

pub fn catalog_contributor_bytes(contributor: &str) -> (bytes: Option<u64>)
    ensures
        bytes is Some <==> contributor_charge(contributor.spec_bytes()) <= u64::MAX,
        bytes matches Some(b) ==> b == contributor_charge(contributor.spec_bytes()),
{
    plus(
        twice(contributor.as_bytes().len()),
        Some(TEXT_SLOT_BYTES + ID_BYTES + CATALOG_MAP_NODE_BYTES),
    )
}

/// Charged while the path of a record is parsed.
pub open spec fn record_path_charge(r: RecordView) -> int {
    let canonical = r.path.len() + if r.is_directory {
        1int
    } else {
        0
    };
    PATH_SLOT_BYTES + 2 * canonical + 2 * r.path.len() + capacity(
        slashes(r.path) + 1,
        TEXT_SLOT_BYTES as int,
    ) + if r.is_directory {
        TEXT_SLOT_BYTES + 2 * canonical
    } else {
        0
    }
}

pub fn record_path_memory_bytes(record: &NormalizedRecord) -> (bytes: Option<u64>)
    ensures
        bytes is Some <==> record_path_charge(record@) <= u64::MAX,
        bytes matches Some(b) ==> b == record_path_charge(record@),
{
    let path = record.path.as_str().as_bytes();
    let separators: usize = count_slashes(path);
    proof {
        slashes_bounds(path@);
        capacity_grows(separators as int, TEXT_SLOT_BYTES as int);
    }
    let components: u64 = match (separators as u64).checked_add(1) {
        Some(components) => components,
        None => {
            return None;
        },
    };
    let marker: u64 = if record.is_directory {
        2
    } else {
        0
    };
    let canonical = plus(twice(path.len()), Some(marker));
    let fixed: Option<u64> = Some(PATH_SLOT_BYTES);
    let parsed = plus(
        plus(plus(fixed, canonical), twice(path.len())),
        vector_capacity_bytes(components, TEXT_SLOT_BYTES),
    );
    if record.is_directory {
        plus(plus(parsed, Some(TEXT_SLOT_BYTES)), canonical)
    } else {
        parsed
    }
}

/// Everything that the index holds at one moment.
pub open spec fn index_memory(catalog_bytes: int, event_bytes: int, temporary_bytes: int) -> int {
    catalog_bytes + EVENTS_MEMORY_BASE + event_bytes + temporary_bytes
}

pub fn check_index_memory(
    catalog_bytes: u64,
    event_bytes: u64,
    temporary_bytes: u64,
    maximum: u64,
    line: u64,
    byte_offset: u64,
) -> (result: Result<(), IngestError>)
    ensures
        ({
            let fault = sorting::memory_fault(
                index_memory(catalog_bytes as int, event_bytes as int, temporary_bytes as int),
                maximum,
                line,
                byte_offset,
            );
            match result {
                Ok(()) => fault is None,
                Err(e) => fault == Some(e@),
            }
        }),
{
    let requested: u64 = catalog_bytes.saturating_add(EVENTS_MEMORY_BASE).saturating_add(
        event_bytes,
    ).saturating_add(temporary_bytes);
    let total = plus(
        plus(plus(Some(catalog_bytes), Some(EVENTS_MEMORY_BASE)), Some(event_bytes)),
        Some(temporary_bytes),
    );
    if total.is_none() || requested > maximum {
        return Err(working_memory_error(requested, maximum, line, byte_offset));
    }
    Ok(())
}

/// What the catalog takes after a path and a contributor were interned.
pub open spec fn catalog_charge(
    catalog: CatalogView,
    catalog_bytes: int,
    path: Seq<u8>,
    contributor: Seq<u8>,
) -> int {
    let paths = catalog.paths.len() as int;
    let contributors = catalog.contributors.len() as int;
    catalog_bytes + (if catalog.paths.contains(path) {
        0
    } else {
        path_charge(path) + (capacity(paths + 2, PATH_SLOT_BYTES as int) - capacity(
            paths + 1,
            PATH_SLOT_BYTES as int,
        ))
    }) + (if catalog.contributors.contains(contributor) {
        0
    } else {
        contributor_charge(contributor) + (capacity(contributors + 2, TEXT_SLOT_BYTES as int)
            - capacity(contributors + 1, TEXT_SLOT_BYTES as int))
    })
}

pub fn catalog_memory_after_intern(
    catalog: &Catalog,
    catalog_bytes: u64,
    path: &RepositoryPath,
    contributor: &String,
    maximum: u64,
    line: u64,
    byte_offset: u64,
) -> (result: Result<u64, IngestError>)
    requires
        catalog.wf(),
    ensures
        ({
            let charge = catalog_charge(
                catalog@,
                catalog_bytes as int,
                path.bytes(),
                text::string_bytes(*contributor),
            );
            match result {
                Ok(bytes) => bytes == charge,
                Err(e) => charge > u64::MAX && e@ == error::memory_error(
                    u64::MAX,
                    maximum,
                    line,
                    byte_offset,
                ),
            }
        }),
{
    let mut bytes = Some(catalog_bytes);
    proof {
        let paths = catalog@.paths.len() as int;
        let contributors = catalog@.contributors.len() as int;
        capacity_grows(paths + 1, PATH_SLOT_BYTES as int);
        capacity_grows(contributors + 1, TEXT_SLOT_BYTES as int);
        slashes_bounds(path_body(path.bytes()));
        capacity_grows(slashes(path_body(path.bytes())) + 1, TEXT_SLOT_BYTES as int);
    }
    if catalog.find_path(path).is_none() {
        bytes = plus(
            plus(bytes, catalog_path_bytes(path)),
            growth_after(catalog.path_count(), PATH_SLOT_BYTES),
        );
    }
    if catalog.find_contributor(contributor).is_none() {
        bytes = plus(
            plus(bytes, catalog_contributor_bytes(contributor.as_str())),
            growth_after(catalog.contributor_count(), TEXT_SLOT_BYTES),
        );
    }
    match bytes {
        Some(bytes) => Ok(bytes),
        None => Err(working_memory_error(u64::MAX, maximum, line, byte_offset)),
    }
}

/// What the list of a catalog takes more with one more element.
pub(crate) fn growth_after(count: usize, element_size: u64) -> (bytes: Option<u64>)
    requires
        0 < element_size <= 64,
        count <= u32::MAX,
    ensures
        bytes is Some,
        bytes->0 == capacity(count + 2, element_size as int) - capacity(
            count + 1,
            element_size as int,
        ),
{
    assert(2 * (count + 2) * element_size <= 2 * (u32::MAX + 2) * 64) by (nonlinear_arith)
        requires
            0 < element_size <= 64,
            count <= u32::MAX,
    ;
    vector_growth_bytes(count as u64 + 1, element_size)
}

pub fn usize_limit(value: u64) -> (limit: usize)
    ensures
        limit == if value > usize::MAX {
            usize::MAX as int
        } else {
            value as int
        },
{
    if value > usize::MAX as u64 {
        usize::MAX
    } else {
        value as usize
    }
}

} // verus!
