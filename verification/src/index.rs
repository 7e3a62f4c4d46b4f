//! The index over normalized records: interned names and canonical events.

use vstd::prelude::*;
use vstd::string::*;

use crate::catalog;
use crate::catalog::{Catalog, CatalogLimits, CatalogView};
use crate::charges;
use crate::charges::{
    check_index_memory, record_path_memory_bytes, usize_limit, CATALOG_MEMORY_BASE, EVENT_SLOT_BYTES,
};
use crate::error;
use crate::error::{working_memory_error, ErrorCode, ErrorView, IngestError};
use crate::history;
use crate::limits;
use crate::limits::{index_working_memory_bytes, IngestLimits};
use crate::model;
use crate::model::{
    Action, ContributorId, Event, EventKey, EventTarget, Generation, PathId, RepositoryPath, Rgb8,
    SourceSeq, EVENT_SCHEMA_VERSION,
};
use crate::options;
use crate::options::IngestOptions;
use crate::record;
use crate::record::{NormalizedRecord, ParsedAction, ParsedColour, RecordView};
use crate::sorting;
use crate::text;

verus! {

/// A bound as a machine count.
pub open spec fn machine_bound(value: u64) -> usize {
    if value > usize::MAX {
        usize::MAX
    } else {
        value as usize
    }
}

/// The catalog limits that ingest limits imply.
pub open spec fn catalog_limits(limits: IngestLimits) -> CatalogLimits {
    CatalogLimits {
        path_bytes: machine_bound(limits.max_path_bytes),
        contributor_bytes: machine_bound(limits.max_contributor_bytes),
        path_components: machine_bound(limits.max_path_components),
        max_paths: machine_bound(limits.max_events),
        max_contributors: machine_bound(limits.max_events),
    }
}

/// An empty catalog for ingest limits.
pub fn new_catalog(limits: &IngestLimits) -> (catalog: Catalog)
    ensures
        catalog.wf(),
        catalog@ == catalog::empty_catalog(catalog_limits(*limits)),
{
    Catalog::with_limits(
        CatalogLimits {
            path_bytes: usize_limit(limits.max_path_bytes),
            contributor_bytes: usize_limit(limits.max_contributor_bytes),
            path_components: usize_limit(limits.max_path_components),
            max_paths: usize_limit(limits.max_events),
            max_contributors: usize_limit(limits.max_events),
        },
    )
}

/// The path value of a record, with the marker of a directory.
pub open spec fn path_value(r: RecordView) -> Seq<u8> {
    if r.is_directory {
        r.path.push(0x2f)
    } else {
        r.path
    }
}

pub fn record_path_text(record: &NormalizedRecord) -> (path: String)
    ensures
        text::string_bytes(path) == path_value(record@),
{
    let mut path = text::copy_string(&record.path);
    if record.is_directory {
        proof {
            model::push_slash_bytes(path@);
        }
        path.push('/');
    }
    path
}

/// Why the path of a record is not a repository path.
pub open spec fn record_path_fault(r: RecordView, limits: IngestLimits) -> Option<ErrorView> {
    let bounds = catalog_limits(limits);
    match record::path_fault(
        path_value(r),
        model::path_bounds(bounds.path_bytes, bounds.path_components),
    ) {
        Some((code, message)) => Some(
            error::plain_error(ErrorCode::InvalidPath, r.line, r.byte_offset, message),
        ),
        None => None,
    }
}

pub fn parse_record_path(record: &NormalizedRecord, limits: &IngestLimits) -> (path: Result<
    RepositoryPath,
    IngestError,
>)
    ensures
        match path {
            Ok(path) => record_path_fault(record@, *limits) is None && path.wf() && path.bytes()
                == model::canonical_path(path_value(record@)),
            Err(e) => record_path_fault(record@, *limits) == Some(e@),
        },
{
    let value = record_path_text(record);
    match RepositoryPath::parse_with_limits(
        value.as_str(),
        usize_limit(limits.max_path_bytes),
        usize_limit(limits.max_path_components),
    ) {
        Ok(path) => Ok(path),
        Err((_, message)) => Err(
            IngestError::plain(ErrorCode::InvalidPath, record.line, record.byte_offset, message),
        ),
    }
}

/// What an index holds.
#[verifier::ext_equal]
pub struct IndexView {
    pub catalog: CatalogView,
    /// Memory charged for the catalog.
    pub bytes: int,
    pub events: Seq<Event>,
}

/// An index with nothing in it.
pub open spec fn empty_index(limits: IngestLimits) -> IndexView {
    IndexView {
        catalog: catalog::empty_catalog(catalog_limits(limits)),
        bytes: CATALOG_MEMORY_BASE as int,
        events: Seq::empty(),
    }
}

/// Memory that events take.
pub open spec fn events_memory(count: int) -> int {
    count * EVENT_SLOT_BYTES
}

/// The index after the names of a record were interned.
pub open spec fn interned(index: IndexView, r: RecordView, limits: IngestLimits) -> Result<
    IndexView,
    ErrorView,
> {
    let maximum = limits::index_share(limits.working_memory_bytes);
    let temporary = charges::record_path_charge(r);
    let event_bytes = events_memory(index.events.len() as int);
    let path = model::canonical_path(path_value(r));
    let bytes = charges::catalog_charge(index.catalog, index.bytes, path, r.username);
    let fault = |requested: int| sorting::memory_fault(requested, maximum, r.line, r.byte_offset);
    if fault(charges::index_memory(index.bytes, event_bytes, temporary)) is Some {
        Err(fault(charges::index_memory(index.bytes, event_bytes, temporary))->0)
    } else if record_path_fault(r, limits) is Some {
        Err(record_path_fault(r, limits)->0)
    } else if fault(charges::index_memory(bytes, event_bytes, temporary)) is Some {
        Err(fault(charges::index_memory(bytes, event_bytes, temporary))->0)
    } else if index.catalog.path_error(path) is Some {
        Err(
            error::plain_error(
                ErrorCode::InvalidPath,
                r.line,
                r.byte_offset,
                catalog::catalog_error_text(index.catalog.path_error(path)->0),
            ),
        )
    } else if index.catalog.with_path(path).contributor_error(r.username) is Some {
        Err(
            error::plain_error(
                ErrorCode::ContributorTooLong,
                r.line,
                r.byte_offset,
                catalog::catalog_error_text(
                    index.catalog.with_path(path).contributor_error(r.username)->0,
                ),
            ),
        )
    } else {
        Ok(
            IndexView {
                catalog: index.catalog.with_path(path).with_contributor(r.username),
                bytes,
                events: index.events,
            },
        )
    }
}

pub open spec fn event_action(action: ParsedAction) -> Action {
    match action {
        ParsedAction::Add => Action::Add,
        ParsedAction::Modify => Action::Modify,
        ParsedAction::Delete => Action::Delete,
    }
}

pub open spec fn event_colour(colour: Option<ParsedColour>) -> Option<Rgb8> {
    match colour {
        Some(c) => Some(Rgb8 { r: c.0[0], g: c.0[1], b: c.0[2] }),
        None => None,
    }
}

/// The event of a record whose names are in a catalog.
pub open spec fn event_of(r: RecordView, catalog: CatalogView) -> Event {
    let path = PathId {
        value: (catalog.paths.index_of(model::canonical_path(path_value(r))) + 1) as u32,
    };
    Event {
        version: EVENT_SCHEMA_VERSION,
        key: EventKey {
            timestamp: r.timestamp,
            source_sequence: SourceSeq { value: r.source_sequence },
        },
        generation: Generation { value: 0 },
        contributor: ContributorId {
            value: (catalog.contributors.index_of(r.username) + 1) as u32,
        },
        target: if r.is_directory {
            EventTarget::Directory(path)
        } else {
            EventTarget::File(path)
        },
        action: event_action(r.action),
        color: event_colour(r.colour),
    }
}

/// The index after a record became an event.
pub open spec fn indexed(index: IndexView, r: RecordView, limits: IngestLimits) -> Result<
    IndexView,
    ErrorView,
> {
    let maximum = limits::index_share(limits.working_memory_bytes);
    let event_bytes = events_memory(index.events.len() as int + 1);
    match interned(index, r, limits) {
        Err(e) => Err(e),
        Ok(named) => {
            let fault = sorting::memory_fault(
                charges::index_memory(named.bytes, event_bytes, charges::record_path_charge(r)),
                maximum,
                r.line,
                r.byte_offset,
            );
            if r.source_sequence == u64::MAX {
                Err(
                    error::plain_error(
                        ErrorCode::EventCountLimit,
                        r.line,
                        r.byte_offset,
                        "source sequence exceeds core identifier range"@,
                    ),
                )
            } else if fault is Some {
                Err(fault->0)
            } else {
                Ok(IndexView { events: named.events.push(event_of(r, named.catalog)), ..named })
            }
        },
    }
}

/// An index under construction.
pub struct IndexBuilder {
    pub catalog: Catalog,
    pub catalog_bytes: u64,
    pub events: Vec<Event>,
}

impl View for IndexBuilder {
    type V = IndexView;

    open spec fn view(&self) -> IndexView {
        IndexView {
            catalog: self.catalog@,
            bytes: self.catalog_bytes as int,
            events: self.events@,
        }
    }
}

impl IndexBuilder {
    pub open spec fn wf(&self, limits: IngestLimits) -> bool {
        &&& self.catalog.wf()
        &&& self.catalog@.limits == catalog_limits(limits)
        &&& history::events_in_catalog(self.catalog@, self.events@)
    }

    /// Starts an index.
    pub fn new(limits: &IngestLimits) -> (builder: Self)
        ensures
            builder.wf(*limits),
            builder@ == empty_index(*limits),
    {
        IndexBuilder {
            catalog: new_catalog(limits),
            catalog_bytes: CATALOG_MEMORY_BASE,
            events: Vec::new(),
        }
    }

    /// Interns the names of a record and gives their identities.
    fn intern(&mut self, record: &NormalizedRecord, temporary_bytes: u64, limits: &IngestLimits) -> (result:
        Result<(PathId, ContributorId), IngestError>)
        requires
            old(self).wf(*limits),
            temporary_bytes == charges::record_path_charge(record@),
        ensures
            match result {
                Ok((path, contributor)) => {
                    &&& final(self).wf(*limits)
                    &&& interned(old(self)@, record@, *limits) == Ok::<IndexView, ErrorView>(
                        final(self)@,
                    )
                    &&& final(self).events == old(self).events
                    &&& 1 <= path.value <= final(self)@.catalog.paths.len()
                    &&& final(self)@.catalog.paths[path.value - 1] == model::canonical_path(
                        path_value(record@),
                    )
                    &&& 1 <= contributor.value <= final(self)@.catalog.contributors.len()
                    &&& final(self)@.catalog.contributors[contributor.value - 1]
                        == record@.username
                },
                Err(e) => interned(old(self)@, record@, *limits) == Err::<IndexView, ErrorView>(
                    e@,
                ),
            },
    {
        let ghost start = self@;
        let maximum: u64 = index_working_memory_bytes(limits.working_memory_bytes);
        let line: u64 = record.line;
        let byte_offset: u64 = record.byte_offset;
        let event_bytes: u64 = sorting::slots(self.events.len(), EVENT_SLOT_BYTES);
        match check_index_memory(
            self.catalog_bytes,
            event_bytes,
            temporary_bytes,
            maximum,
            line,
            byte_offset,
        ) {
            Ok(()) => {},
            Err(e) => return Err(e),
        }
        assert(event_bytes == events_memory(start.events.len() as int));
        let path = match parse_record_path(record, limits) {
            Ok(path) => path,
            Err(e) => return Err(e),
        };
        let ghost charge = charges::catalog_charge(
            start.catalog,
            start.bytes,
            path.bytes(),
            record@.username,
        );
        let next_bytes: u64 = match charges::catalog_memory_after_intern(
            &self.catalog,
            self.catalog_bytes,
            &path,
            &record.username,
            maximum,
            line,
            byte_offset,
        ) {
            Ok(bytes) => bytes,
            Err(e) => {
                return Err(e);
            },
        };
        match check_index_memory(
            next_bytes,
            event_bytes,
            temporary_bytes,
            maximum,
            line,
            byte_offset,
        ) {
            Ok(()) => {},
            Err(e) => return Err(e),
        }
        let path_id = match self.catalog.intern_path(&path) {
            Ok(id) => id,
            Err(error) => {
                return Err(
                    IngestError::plain(ErrorCode::InvalidPath, line, byte_offset, error.as_str()),
                );
            },
        };
        let ghost pathed = self.catalog@;
        let contributor_id = match self.catalog.intern_contributor(&record.username) {
            Ok(id) => id,
            Err(error) => {
                return Err(
                    IngestError::plain(
                        ErrorCode::ContributorTooLong,
                        line,
                        byte_offset,
                        error.as_str(),
                    ),
                );
            },
        };
        self.catalog_bytes = next_bytes;
        proof {
            catalog::interning_keeps_identities(start.catalog, path.bytes(), record@.username);
            catalog::interning_keeps_identities(pathed, path.bytes(), record@.username);
            assert forall|i: int|
                0 <= i < self.events@.len() implies #[trigger] history::event_in_catalog(
                self.catalog@,
                self.events@[i],
            ) by {
                assert(history::event_in_catalog(start.catalog, self.events@[i]));
            }
        }
        Ok((path_id, contributor_id))
    }

    /// Interns the names of a record.
    pub fn intern_record(&mut self, record: &NormalizedRecord, options: &IngestOptions) -> (result:
        Result<(), IngestError>)
        requires
            old(self).wf(options.limits),
        ensures
            match result {
                Ok(()) => {
                    &&& final(self).wf(options.limits)
                    &&& interned(old(self)@, record@, options.limits) == Ok::<
                        IndexView,
                        ErrorView,
                    >(final(self)@)
                },
                Err(e) => options::may_cancel(*options, e@) || interned(
                    old(self)@,
                    record@,
                    options.limits,
                ) == Err::<IndexView, ErrorView>(e@),
            },
    {
        match options.check_cancelled(record.line, record.byte_offset) {
            Ok(()) => {},
            Err(e) => return Err(e),
        }
        let temporary_bytes: u64 = match record_path_memory_bytes(record) {
            Some(bytes) => bytes,
            None => {
                return Err(
                    working_memory_error(
                        u64::MAX,
                        index_working_memory_bytes(options.limits.working_memory_bytes),
                        record.line,
                        record.byte_offset,
                    ),
                );
            },
        };
        match self.intern(record, temporary_bytes, &options.limits) {
            Ok(_) => Ok(()),
            Err(e) => Err(e),
        }
    }

    /// Makes a record an event.
    pub fn add_record(&mut self, record: &NormalizedRecord, options: &IngestOptions) -> (result:
        Result<(), IngestError>)
        requires
            old(self).wf(options.limits),
        ensures
            match result {
                Ok(()) => {
                    &&& final(self).wf(options.limits)
                    &&& indexed(old(self)@, record@, options.limits) == Ok::<
                        IndexView,
                        ErrorView,
                    >(final(self)@)
                },
                Err(e) => options::may_cancel(*options, e@) || indexed(
                    old(self)@,
                    record@,
                    options.limits,
                ) == Err::<IndexView, ErrorView>(e@),
            },
    {
        let ghost start = self@;
        let maximum: u64 = index_working_memory_bytes(options.limits.working_memory_bytes);
        match options.check_cancelled(record.line, record.byte_offset) {
            Ok(()) => {},
            Err(e) => return Err(e),
        }
        let temporary_bytes: u64 = match record_path_memory_bytes(record) {
            Some(bytes) => bytes,
            None => {
                return Err(
                    working_memory_error(u64::MAX, maximum, record.line, record.byte_offset),
                );
            },
        };
        let (path_id, contributor_id) = match self.intern(
            record,
            temporary_bytes,
            &options.limits,
        ) {
            Ok(ids) => ids,
            Err(e) => return Err(e),
        };
        let ghost named = self@;
        let source_sequence = match SourceSeq::new(record.source_sequence) {
            Some(sequence) => sequence,
            None => {
                return Err(
                    IngestError::plain(
                        ErrorCode::EventCountLimit,
                        record.line,
                        record.byte_offset,
                        "source sequence exceeds core identifier range",
                    ),
                );
            },
        };
        let event_bytes: u64 = sorting::slots(self.events.len(), EVENT_SLOT_BYTES).saturating_add(
            EVENT_SLOT_BYTES,
        );
        match check_index_memory(
            self.catalog_bytes,
            event_bytes,
            temporary_bytes,
            maximum,
            record.line,
            record.byte_offset,
        ) {
            Ok(()) => {},
            Err(e) => return Err(e),
        }
        let action = match record.action {
            ParsedAction::Add => Action::Add,
            ParsedAction::Modify => Action::Modify,
            ParsedAction::Delete => Action::Delete,
        };
        let target = if record.is_directory {
            EventTarget::Directory(path_id)
        } else {
            EventTarget::File(path_id)
        };
        let color = match record.colour {
            Some(colour) => Some(Rgb8::new(colour.0[0], colour.0[1], colour.0[2])),
            None => None,
        };
        let event = Event::new(
            EventKey::new(record.timestamp, source_sequence),
            Generation::zero(),
            contributor_id,
            target,
            action,
            color,
        );
        proof {
            let path = model::canonical_path(path_value(record@));
            let at = named.catalog.paths.index_of(path);
            assert(named.catalog.paths.contains(path));
            assert(at == path_id.value - 1);
            let who = named.catalog.contributors.index_of(record@.username);
            assert(named.catalog.contributors.contains(record@.username));
            assert(who == contributor_id.value - 1);
            assert(event == event_of(record@, named.catalog));
            assert forall|i: int|
                0 <= i < self.events@.push(event).len() implies #[trigger] history::event_in_catalog(
                self.catalog@,
                self.events@.push(event)[i],
            ) by {
                if i < self.events@.len() {
                    assert(history::event_in_catalog(self.catalog@, self.events@[i]));
                }
            }
        }
        self.events.push(event);
        Ok(())
    }
}

} // verus!
