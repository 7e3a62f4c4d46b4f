//! What ingesting promises of histories.

use vstd::prelude::*;

use crate::cache_encode;
use crate::cache_format;
use crate::catalog::CatalogView;
use crate::history;
use crate::history::IndexedHistory;
use crate::index;
use crate::index::IndexView;
use crate::ingest;
use crate::limits::IngestLimits;
use crate::lines;
use crate::model;
use crate::model::{Event, EVENT_SCHEMA_VERSION};
use crate::order;
use crate::record;
use crate::record::RecordView;

verus! {

/// An event says of a record everything that the record says.
pub open spec fn describes(event: Event, r: RecordView, catalog: CatalogView) -> bool {
    &&& event.key.timestamp == r.timestamp
    &&& event.key.source_sequence.value == r.source_sequence
    &&& 1 <= event.contributor.value <= catalog.contributors.len()
    &&& catalog.contributors[event.contributor.value - 1] == r.username
    &&& 1 <= event.target.path().value <= catalog.paths.len()
    &&& catalog.paths[event.target.path().value - 1] == model::canonical_path(index::path_value(r))
    &&& event.target is Directory == r.is_directory
    &&& event.action is Add <==> r.action is Add
    &&& event.action is Modify <==> r.action is Modify
    &&& event.action is Delete <==> r.action is Delete
    &&& event.color is Some <==> r.colour is Some
    &&& event.color matches Some(color) ==> {
        &&& color.r == (r.colour->0).0[0]
        &&& color.g == (r.colour->0).0[1]
        &&& color.b == (r.colour->0).0[2]
    }
    &&& event.version == EVENT_SCHEMA_VERSION
    &&& event.generation.value == 0
}

/// A catalog has room for 32-bit identities.
pub open spec fn within_identities(catalog: CatalogView) -> bool {
    catalog.paths.len() <= u32::MAX && catalog.contributors.len() <= u32::MAX
}

proof fn interning_extends(index: IndexView, r: RecordView, limits: IngestLimits)
    requires
        within_identities(index.catalog),
        index::interned(index, r, limits) is Ok,
    ensures
        ({
            let named = index::interned(index, r, limits)->Ok_0;
            &&& within_identities(named.catalog)
            &&& index.catalog.paths.is_prefix_of(named.catalog.paths)
            &&& index.catalog.contributors.is_prefix_of(named.catalog.contributors)
            &&& named.catalog.paths.contains(model::canonical_path(index::path_value(r)))
            &&& named.catalog.contributors.contains(r.username)
            &&& named.events == index.events
        }),
{
    let path = model::canonical_path(index::path_value(r));
    let named = index::interned(index, r, limits)->Ok_0;
    let pathed = index.catalog.with_path(path);
    if !index.catalog.paths.contains(path) {
        assert(pathed.paths[pathed.paths.len() - 1] == path);
    }
    assert(named.catalog.paths == pathed.paths);
    if !pathed.contributors.contains(r.username) {
        assert(named.catalog.contributors[named.catalog.contributors.len() - 1] == r.username);
    }
    assert(named.catalog.paths.take(index.catalog.paths.len() as int) =~= index.catalog.paths);
    assert(named.catalog.contributors.take(index.catalog.contributors.len() as int)
        =~= index.catalog.contributors);
}

proof fn description_survives(event: Event, r: RecordView, old: CatalogView, new: CatalogView)
    requires
        describes(event, r, old),
        old.paths.is_prefix_of(new.paths),
        old.contributors.is_prefix_of(new.contributors),
    ensures
        describes(event, r, new),
{
    let p = event.target.path().value - 1;
    let c = event.contributor.value - 1;
    assert(old.paths[p] == new.paths[p]);
    assert(old.contributors[c] == new.contributors[c]);
}

/// Every event of an index describes its record, whatever was interned
/// before or after it.
pub proof fn events_describe_their_records(
    start: IndexView,
    records: Seq<RecordView>,
    limits: IngestLimits,
)
    requires
        start.events.len() == 0,
        within_identities(start.catalog),
        ingest::index_list(start, records, limits) is Ok,
    ensures
        ({
            let index = ingest::index_list(start, records, limits)->Ok_0;
            &&& within_identities(index.catalog)
            &&& index.events.len() == records.len()
            &&& forall|i: int|
                0 <= i < records.len() ==> #[trigger] describes(
                    index.events[i],
                    records[i],
                    index.catalog,
                )
        }),
    decreases records.len(),
{
    if records.len() > 0 {
        let front = records.drop_last();
        let r = records.last();
        events_describe_their_records(start, front, limits);
        let before = ingest::index_list(start, front, limits)->Ok_0;
        let after = ingest::index_list(start, records, limits)->Ok_0;
        let named = index::interned(before, r, limits)->Ok_0;
        interning_extends(before, r, limits);
        let event = index::event_of(r, named.catalog);
        assert(after.events == before.events.push(event));
        assert(after.catalog == named.catalog);
        let path = model::canonical_path(index::path_value(r));
        assert(named.catalog.paths[named.catalog.paths.index_of(path)] == path);
        assert(named.catalog.contributors[named.catalog.contributors.index_of(r.username)]
            == r.username);
        assert(describes(event, r, after.catalog));
        assert forall|i: int| 0 <= i < records.len() implies #[trigger] describes(
            after.events[i],
            records[i],
            after.catalog,
        ) by {
            if i < front.len() {
                assert(describes(before.events[i], front[i], before.catalog));
                description_survives(before.events[i], front[i], before.catalog, after.catalog);
            }
        }
    }
}

proof fn names_stay_within_identities(
    start: IndexView,
    records: Seq<RecordView>,
    limits: IngestLimits,
)
    requires
        within_identities(start.catalog),
        ingest::names_of(start, records, limits) is Ok,
    ensures
        within_identities((ingest::names_of(start, records, limits)->Ok_0).catalog),
        (ingest::names_of(start, records, limits)->Ok_0).events == start.events,
    decreases records.len(),
{
    if records.len() > 0 {
        names_stay_within_identities(start, records.drop_last(), limits);
        let before = ingest::names_of(start, records.drop_last(), limits)->Ok_0;
        interning_extends(before, records.last(), limits);
    }
}

/// A history holds one event for each record of its input, in canonical
/// order, and each event describes its record.
pub proof fn histories_describe_every_record(
    history: IndexedHistory,
    records: Seq<RecordView>,
    limits: IngestLimits,
)
    requires
        ingest::history_of_records(history, records, limits),
    ensures
        history.events_view().len() == records.len(),
        order::ordering_of(order::in_order(records), records),
        order::in_order(records).len() == records.len(),
        forall|i: int|
            0 <= i < records.len() ==> #[trigger] describes(
                history.events_view()[i],
                order::in_order(records)[i],
                history.catalog_view(),
            ),
{
    let start = index::empty_index(limits);
    let names = ingest::names_of(start, records, limits)->Ok_0;
    names_stay_within_identities(start, records, limits);
    events_describe_their_records(names, order::in_order(records), limits);
    order::in_order_exists(records);
    records.to_multiset_ensures();
    order::in_order(records).to_multiset_ensures();
}

/// The events of a history are in the order of their times; those of one time
/// stay in the order of their source.
pub proof fn histories_are_in_order(history: IndexedHistory, i: int, j: int)
    requires
        history.wf(),
        0 <= i < j < history.events_view().len(),
    ensures
        ({
            let a = history.events_view()[i].key;
            let b = history.events_view()[j].key;
            ||| a.timestamp < b.timestamp
            ||| a.timestamp == b.timestamp && a.source_sequence.value <= b.source_sequence.value
        }),
{
    history.is_consistent();
    let events = history.events_view();
    assert(!events[j].key.before(events[i].key));
}

/// Records are put in the order of their times; those of one time stay in the
/// order of their source.
pub proof fn records_are_put_in_order(records: Seq<RecordView>, i: int, j: int)
    requires
        0 <= i < j < order::in_order(records).len(),
    ensures
        ({
            let a = order::in_order(records)[i];
            let b = order::in_order(records)[j];
            ||| a.timestamp < b.timestamp
            ||| a.timestamp == b.timestamp && a.source_sequence <= b.source_sequence
        }),
        order::in_order(records).to_multiset() == records.to_multiset(),
{
    order::in_order_exists(records);
    let sorted = order::in_order(records);
    assert(!order::before(sorted[j], sorted[i]));
}

/// A file is listed under its path, a directory under its path and a slash.
pub proof fn paths_are_listed_as_written(r: RecordView)
    requires
        r.path.len() > 0,
        r.path[0] != 0x2f,
        r.path.last() != 0x2f,
    ensures
        !r.is_directory ==> model::canonical_path(index::path_value(r)) == r.path,
        r.is_directory ==> model::canonical_path(index::path_value(r)) == r.path.push(0x2f),
{
    assert(r.path.push(0x2f).drop_last() =~= r.path);
}

/// The canonical path of a normalized record path carries its marker.
proof fn canonical_path_is_marked(r: RecordView)
    requires
        lines::is_normalized(r),
    ensures
        model::canonical_path(index::path_value(r)) == index::path_value(r),
        record::names_directory(index::path_value(r)) == r.is_directory,
{
    let path = r.path;
    if path[0] == 0x2f {
        assert(record::below_root(path).len() < path.len());
        assert(false);
    }
    let value = index::path_value(r);
    assert(value[0] == path[0]);
    assert(record::below_root(value) == value);
    if r.is_directory {
        assert(value.drop_last() =~= path);
        assert(value.last() == 0x2f);
        assert(path.push(0x2f) =~= value);
    } else if record::names_directory(path) {
        assert(record::normalized_path(path).len() < path.len());
    }
}

/// Every history that is ingested from normalized records under usable
/// limits can be stored in a cache.
pub proof fn ingested_histories_can_be_cached(
    history: IndexedHistory,
    records: Seq<RecordView>,
    limits: IngestLimits,
)
    requires
        history.wf(),
        limits.usable(),
        lines::all_normalized(records),
        ingest::history_of_records(history, records, limits),
    ensures
        cache_encode::history_fault(history.catalog_view(), history.events_view()) is None,
{
    let events = history.events_view();
    let catalog = history.catalog_view();
    let sorted = order::in_order(records);
    history.is_consistent();
    histories_describe_every_record(history, records, limits);
    ingest::sequenced_are_distinct(records);
    order::permutation_keeps_distinct(records, sorted);
    assert forall|i: int| 0 <= i < events.len() implies {
        &&& (#[trigger] events[i]).key.source_sequence.value < events.len()
        &&& cache_encode::event_fault(catalog, events[i]) is None
    } by {
        assert(describes(events[i], sorted[i], catalog));
        let k = member_of(records, sorted, i);
        assert(lines::is_normalized(records[k]));
        canonical_path_is_marked(records[k]);
    }
    assert(cache_format::sequences_are_permutation(events)) by {
        assert forall|i: int, j: int| 0 <= i < j < events.len() implies (
        #[trigger] events[i]).key.source_sequence.value != (
        #[trigger] events[j]).key.source_sequence.value by {
            assert(describes(events[i], sorted[i], catalog));
            assert(describes(events[j], sorted[j], catalog));
        }
    }
    no_event_is_refused(catalog, events);
    catalog_keeps_limits(history, records, limits);
}

proof fn member_of(records: Seq<RecordView>, sorted: Seq<RecordView>, i: int) -> (k: int)
    requires
        sorted.to_multiset() == records.to_multiset(),
        0 <= i < sorted.len(),
    ensures
        0 <= k < records.len(),
        records[k] == sorted[i],
{
    broadcast use vstd::seq_lib::group_to_multiset_ensures;

    assert(sorted.contains(sorted[i]));
    assert(sorted.to_multiset().count(sorted[i]) > 0);
    assert(records.contains(sorted[i]));
    choose|k: int| 0 <= k < records.len() && records[k] == sorted[i]
}

proof fn no_event_is_refused(catalog: CatalogView, events: Seq<Event>)
    requires
        forall|i: int|
            0 <= i < events.len() ==> cache_encode::event_fault(catalog, #[trigger] events[i])
                is None,
    ensures
        cache_encode::events_fault(catalog, events) is None,
    decreases events.len(),
{
    if events.len() > 0 {
        let front = events.drop_last();
        assert forall|i: int| 0 <= i < front.len() implies cache_encode::event_fault(
            catalog,
            #[trigger] front[i],
        ) is None by {
            assert(front[i] == events[i]);
        }
        no_event_is_refused(catalog, front);
        assert(events.last() == events[events.len() - 1]);
    }
}

proof fn catalog_keeps_limits(
    history: IndexedHistory,
    records: Seq<RecordView>,
    limits: IngestLimits,
)
    requires
        ingest::history_of_records(history, records, limits),
    ensures
        history.catalog_view().limits == index::catalog_limits(limits),
{
    let start = index::empty_index(limits);
    let names = ingest::names_of(start, records, limits)->Ok_0;
    names_keep_limits(start, records, limits);
    index_keeps_limits(names, order::in_order(records), limits);
}

proof fn names_keep_limits(start: IndexView, records: Seq<RecordView>, limits: IngestLimits)
    requires
        ingest::names_of(start, records, limits) is Ok,
    ensures
        (ingest::names_of(start, records, limits)->Ok_0).catalog.limits == start.catalog.limits,
    decreases records.len(),
{
    if records.len() > 0 {
        names_keep_limits(start, records.drop_last(), limits);
    }
}

proof fn index_keeps_limits(start: IndexView, records: Seq<RecordView>, limits: IngestLimits)
    requires
        ingest::index_list(start, records, limits) is Ok,
    ensures
        (ingest::index_list(start, records, limits)->Ok_0).catalog.limits == start.catalog.limits,
    decreases records.len(),
{
    if records.len() > 0 {
        index_keeps_limits(start, records.drop_last(), limits);
    }
}

} // verus!
