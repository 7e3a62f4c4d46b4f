//! Published histories and their identities.

use vstd::bytes::*;
use vstd::prelude::*;
use vstd::string::*;
use vstd::utf8::*;

use crate::catalog::{Catalog, CatalogView};
use crate::digest;
use crate::model;
use crate::model::{Event, EventIndex, EventTarget, Rgb8};
use crate::text;

verus! {

/// Stable digest of the exact bytes of a finite source.
#[derive(Clone, Copy, Debug, PartialEq, Eq, Hash)]
pub struct InputIdentity {
    digest: [u8; 32],
    bytes: u64,
}

impl InputIdentity {
    /// The digest as a sequence.
    pub closed spec fn digest_view(self) -> Seq<u8> {
        self.digest@
    }

    /// The number of bytes of the source.
    pub closed spec fn length(self) -> u64 {
        self.bytes
    }

    /// An identity is its digest and length.
    pub proof fn identity_is_digest_and_length(a: Self, b: Self)
        requires
            a.digest_view() == b.digest_view(),
            a.length() == b.length(),
        ensures
            a == b,
    {
        assert(a.digest =~= b.digest);
    }

    pub(crate) fn from_parts(digest: [u8; 32], bytes: u64) -> (identity: Self)
        ensures
            identity.digest_view() == digest@,
            identity.length() == bytes,
    {
        InputIdentity { digest, bytes }
    }

    pub fn digest(&self) -> (digest: &[u8; 32])
        ensures
            digest@ == self.digest_view(),
    {
        &self.digest
    }

    pub fn bytes(&self) -> (bytes: u64)
        ensures
            bytes == self.length(),
    {
        self.bytes
    }

    pub fn as_bytes(&self) -> (digest: &[u8; 32])
        ensures
            digest@ == self.digest_view(),
    {
        &self.digest
    }

    /// The digest in hexadecimal.
    pub fn render(&self) -> (text: String)
        ensures
            text@ == text::hex_of(self.digest_view()),
    {
        let mut out = String::new();
        text::push_hex(&mut out, self.digest.as_slice());
        out
    }
}

/// Stable digest of normalized catalog and canonical event content.
#[derive(Clone, Copy, Debug, PartialEq, Eq, Hash)]
pub struct DatasetIdentity([u8; 32]);

impl DatasetIdentity {
    /// The digest as a sequence.
    pub closed spec fn digest_view(self) -> Seq<u8> {
        self.0@
    }

    pub fn digest(&self) -> (digest: &[u8; 32])
        ensures
            digest@ == self.digest_view(),
    {
        &self.0
    }

    pub fn as_bytes(&self) -> (digest: &[u8; 32])
        ensures
            digest@ == self.digest_view(),
    {
        &self.0
    }

    /// The digest in hexadecimal.
    pub fn render(&self) -> (text: String)
        ensures
            text@ == text::hex_of(self.digest_view()),
    {
        let mut out = String::new();
        text::push_hex(&mut out, self.0.as_slice());
        out
    }
}

pub type InputId = InputIdentity;

pub type DatasetId = DatasetIdentity;

/// The bytes that start every dataset digest.
pub open spec fn dataset_prefix() -> Seq<u8> {
    seq![
        0x67u8,
        0x6fu8,
        0x75u8,
        0x72u8,
        0x63u8,
        0x65u8,
        0x2du8,
        0x64u8,
        0x61u8,
        0x74u8,
        0x61u8,
        0x73u8,
        0x65u8,
        0x74u8,
        0x2du8,
        0x76u8,
        0x31u8,
        0u8,
    ]
}

/// Texts, each followed by a NUL.
pub open spec fn terminated(texts: Seq<Seq<u8>>) -> Seq<u8>
    decreases texts.len(),
{
    if texts.len() == 0 {
        Seq::empty()
    } else {
        terminated(texts.drop_last()) + texts.last().push(0)
    }
}

pub open spec fn event_colour_bytes(colour: Option<Rgb8>) -> Seq<u8> {
    match colour {
        Some(c) => seq![1u8, c.r, c.g, c.b],
        None => seq![0u8],
    }
}

/// The bytes of one event in a dataset digest.
pub open spec fn event_digest_bytes(event: Event) -> Seq<u8> {
    spec_u64_to_le_bytes(event.key.timestamp as u64) + spec_u64_to_le_bytes(
        event.key.source_sequence.value,
    ) + spec_u32_to_le_bytes(event.contributor.value) + seq![
        model::action_byte(event.action),
        if event.target is Directory {
            0x44u8
        } else {
            0x46u8
        },
    ] + spec_u32_to_le_bytes(event.target.path().value) + event_colour_bytes(event.color)
}

pub open spec fn events_digest_bytes(events: Seq<Event>) -> Seq<u8>
    decreases events.len(),
{
    if events.len() == 0 {
        Seq::empty()
    } else {
        events_digest_bytes(events.drop_last()) + event_digest_bytes(events.last())
    }
}

/// Everything that a dataset identity is the digest of.
pub open spec fn dataset_bytes(catalog: CatalogView, events: Seq<Event>, input: Seq<u8>) -> Seq<u8> {
    dataset_prefix() + input + terminated(catalog.paths) + terminated(catalog.contributors)
        + events_digest_bytes(events)
}

fn hash_text(hasher: &mut blake3::Hasher, text: &[u8])
    ensures
        digest::hashed_bytes(*final(hasher)) == digest::hashed_bytes(*old(hasher)) + text@.push(0),
{
    let ghost before = digest::hashed_bytes(*hasher);
    digest::hasher_update(hasher, text);
    let end: [u8; 1] = [0];
    digest::hasher_update(hasher, end.as_slice());
    assert(end@ =~= seq![0u8]);
    assert(digest::hashed_bytes(*hasher) =~= before + text@.push(0));
}

fn hash_event(hasher: &mut blake3::Hasher, event: &Event)
    ensures
        digest::hashed_bytes(*final(hasher)) == digest::hashed_bytes(*old(hasher))
            + event_digest_bytes(*event),
{
    let ghost before = digest::hashed_bytes(*hasher);
    let timestamp = u64_to_le_bytes(event.key.timestamp as u64);
    digest::hasher_update(hasher, timestamp.as_slice());
    let sequence = u64_to_le_bytes(event.key.source_sequence.get());
    digest::hasher_update(hasher, sequence.as_slice());
    let contributor = u32_to_le_bytes(event.contributor.get());
    digest::hasher_update(hasher, contributor.as_slice());
    let kind: u8 = match event.target {
        EventTarget::File(_) => 0x46,
        EventTarget::Directory(_) => 0x44,
    };
    let marks: [u8; 2] = [event.action.as_byte(), kind];
    digest::hasher_update(hasher, marks.as_slice());
    let path = u32_to_le_bytes(event.target.path_id().get());
    digest::hasher_update(hasher, path.as_slice());
    match event.color {
        Some(colour) => {
            let bytes: [u8; 4] = [1, colour.r, colour.g, colour.b];
            digest::hasher_update(hasher, bytes.as_slice());
            assert(bytes@ =~= event_colour_bytes(event.color));
        },
        None => {
            let bytes: [u8; 1] = [0];
            digest::hasher_update(hasher, bytes.as_slice());
            assert(bytes@ =~= event_colour_bytes(event.color));
        },
    }
    assert(marks@ =~= seq![
        model::action_byte(event.action),
        if event.target is Directory {
            0x44u8
        } else {
            0x46u8
        },
    ]);
    assert(digest::hashed_bytes(*hasher) =~= before + event_digest_bytes(*event));
}

/// The identity of a catalog with events over an input.
pub fn dataset_identity(catalog: &Catalog, events: &[Event], input: InputIdentity) -> (identity:
    DatasetIdentity)
    ensures
        identity.digest_view() == digest::blake3_digest(
            dataset_bytes(catalog@, events@, input.digest_view()),
        ),
{
    let mut hasher = digest::hasher_new();
    let prefix: [u8; 18] = [
        0x67,
        0x6f,
        0x75,
        0x72,
        0x63,
        0x65,
        0x2d,
        0x64,
        0x61,
        0x74,
        0x61,
        0x73,
        0x65,
        0x74,
        0x2d,
        0x76,
        0x31,
        0,
    ];
    digest::hasher_update(&mut hasher, prefix.as_slice());
    digest::hasher_update(&mut hasher, input.digest.as_slice());
    let ghost start = dataset_prefix() + input.digest_view();
    assert(prefix@ =~= dataset_prefix());
    assert(digest::hashed_bytes(hasher) =~= start);
    let ghost paths = catalog@.paths;
    let mut index: usize = 0;
    assert(start + terminated(paths.take(0)) =~= start);
    while index < catalog.path_list.len()
        invariant
            index <= catalog.path_list@.len(),
            paths == catalog@.paths,
            digest::hashed_bytes(hasher) == start + terminated(paths.take(index as int)),
        decreases catalog.path_list@.len() - index,
    {
        let ghost next = paths.take(index + 1);
        assert(next.drop_last() =~= paths.take(index as int));
        assert(next.last() == catalog.path_list@[index as int].bytes());
        hash_text(&mut hasher, catalog.path_list[index].as_bytes());
        assert(digest::hashed_bytes(hasher) =~= start + terminated(next));
        index = index + 1;
    }
    assert(paths.take(index as int) =~= paths);
    let ghost named = start + terminated(paths);
    let ghost contributors = catalog@.contributors;
    let mut index: usize = 0;
    assert(named + terminated(contributors.take(0)) =~= named);
    while index < catalog.contributor_list.len()
        invariant
            index <= catalog.contributor_list@.len(),
            contributors == catalog@.contributors,
            digest::hashed_bytes(hasher) == named + terminated(contributors.take(index as int)),
        decreases catalog.contributor_list@.len() - index,
    {
        let ghost next = contributors.take(index + 1);
        assert(next.drop_last() =~= contributors.take(index as int));
        assert(next.last() == text::string_bytes(catalog.contributor_list@[index as int]));
        hash_text(&mut hasher, catalog.contributor_list[index].as_str().as_bytes());
        assert(digest::hashed_bytes(hasher) =~= named + terminated(next));
        index = index + 1;
    }
    assert(contributors.take(index as int) =~= contributors);
    let ghost signed = named + terminated(contributors);
    let mut index: usize = 0;
    assert(signed + events_digest_bytes(events@.take(0)) =~= signed);
    while index < events.len()
        invariant
            index <= events@.len(),
            digest::hashed_bytes(hasher) == signed + events_digest_bytes(events@.take(index as int)),
        decreases events@.len() - index,
    {
        let ghost next = events@.take(index + 1);
        assert(next.drop_last() =~= events@.take(index as int));
        hash_event(&mut hasher, &events[index]);
        assert(digest::hashed_bytes(hasher) =~= signed + events_digest_bytes(next));
        index = index + 1;
    }
    assert(events@.take(index as int) =~= events@);
    assert(digest::hashed_bytes(hasher) == dataset_bytes(catalog@, events@, input.digest_view()));
    DatasetIdentity(digest::hasher_finalize(&hasher))
}

/// Every event names a path and a contributor of the catalog.
pub open spec fn events_in_catalog(catalog: CatalogView, events: Seq<Event>) -> bool {
    forall|i: int| 0 <= i < events.len() ==> #[trigger] event_in_catalog(catalog, events[i])
}

pub open spec fn event_in_catalog(catalog: CatalogView, event: Event) -> bool {
    &&& 1 <= event.target.path().value <= catalog.paths.len()
    &&& 1 <= event.contributor.value <= catalog.contributors.len()
}

/// A text is a canonical path.
pub open spec fn text_is_canonical(path: Seq<u8>) -> bool {
    valid_utf8(path) && model::canonical_path(path) == path
}

/// Paths and contributors of a catalog are texts, and the paths canonical.
pub open spec fn texts_are_canonical(catalog: CatalogView) -> bool {
    &&& forall|i: int|
        0 <= i < catalog.paths.len() ==> text_is_canonical(#[trigger] catalog.paths[i])
    &&& forall|i: int|
        0 <= i < catalog.contributors.len() ==> valid_utf8(#[trigger] catalog.contributors[i])
}

/// A complete, immutable finite history.
#[derive(Clone, Debug, PartialEq, Eq)]
pub struct IndexedHistory {
    catalog: Catalog,
    events: Vec<Event>,
    input_identity: InputIdentity,
    dataset_identity: DatasetIdentity,
    input_bytes: u64,
}

impl IndexedHistory {
    pub closed spec fn catalog_view(&self) -> CatalogView {
        self.catalog@
    }

    pub closed spec fn events_view(&self) -> Seq<Event> {
        self.events@
    }

    pub closed spec fn input(&self) -> InputIdentity {
        self.input_identity
    }

    pub closed spec fn dataset(&self) -> DatasetIdentity {
        self.dataset_identity
    }

    /// The events are canonical events of the catalog, and the dataset
    /// identity is that of everything held.
    pub closed spec fn wf(&self) -> bool {
        &&& self.catalog.wf()
        &&& self.events@.len() <= usize::MAX
        &&& model::canonical_order(self.events@)
        &&& events_in_catalog(self.catalog@, self.events@)
        &&& self.input_bytes == self.input_identity.length()
        &&& self.dataset_identity.digest_view() == digest::blake3_digest(
            dataset_bytes(self.catalog@, self.events@, self.input_identity.digest_view()),
        )
    }

    /// What every history promises.
    pub proof fn is_consistent(&self)
        requires
            self.wf(),
        ensures
            self.catalog_view().wf(),
            texts_are_canonical(self.catalog_view()),
            self.events_view().len() <= usize::MAX,
            self.input().digest_view().len() == 32,
            self.dataset().digest_view().len() == 32,
            model::canonical_order(self.events_view()),
            events_in_catalog(self.catalog_view(), self.events_view()),
            self.dataset().digest_view() == digest::blake3_digest(
                dataset_bytes(
                    self.catalog_view(),
                    self.events_view(),
                    self.input().digest_view(),
                ),
            ),
    {
        assert forall|i: int| 0 <= i < self.catalog@.paths.len() implies text_is_canonical(
            #[trigger] self.catalog@.paths[i],
        ) by {
            encode_utf8_valid_utf8(self.catalog.path_list@[i].text@);
            assert(self.catalog.path_list@[i].wf());
        }
        assert forall|i: int| 0 <= i < self.catalog@.contributors.len() implies valid_utf8(
            #[trigger] self.catalog@.contributors[i],
        ) by {
            encode_utf8_valid_utf8(self.catalog.contributor_list@[i]@);
        }
    }

    /// Publishes a history over an input.
    pub(crate) fn publish(catalog: Catalog, events: Vec<Event>, input: InputIdentity) -> (history:
        Self)
        requires
            catalog.wf(),
            model::canonical_order(events@),
            events_in_catalog(catalog@, events@),
        ensures
            history.wf(),
            history.catalog_view() == catalog@,
            history.events_view() == events@,
            history.input() == input,
    {
        let dataset_identity = dataset_identity(&catalog, events.as_slice(), input);
        assert(events.len() == events@.len());
        IndexedHistory {
            catalog,
            events,
            input_identity: input,
            dataset_identity,
            input_bytes: input.bytes,
        }
    }

    pub fn catalog(&self) -> (catalog: &Catalog)
        ensures
            catalog@ == self.catalog_view(),
            self.wf() ==> catalog.wf(),
    {
        &self.catalog
    }

    pub fn events(&self) -> (events: &[Event])
        ensures
            events@ == self.events_view(),
    {
        self.events.as_slice()
    }

    /// The event at a place in canonical order.
    pub fn event(&self, index: EventIndex) -> (event: Option<&Event>)
        ensures
            event is Some <==> index.value < self.events_view().len(),
            event matches Some(e) ==> *e == self.events_view()[index.value as int],
    {
        let place: u64 = index.get();
        if place < self.events.len() as u64 {
            Some(&self.events[place as usize])
        } else {
            None
        }
    }

    pub fn len(&self) -> (length: usize)
        ensures
            length == self.events_view().len(),
    {
        self.events.len()
    }

    pub fn is_empty(&self) -> (empty: bool)
        ensures
            empty == (self.events_view().len() == 0),
    {
        self.events.len() == 0
    }

    pub fn input_identity(&self) -> (identity: InputIdentity)
        ensures
            identity == self.input(),
    {
        self.input_identity
    }

    pub fn dataset_identity(&self) -> (identity: DatasetIdentity)
        ensures
            identity == self.dataset(),
    {
        self.dataset_identity
    }

    pub fn input_id(&self) -> (identity: InputIdentity)
        ensures
            identity == self.input(),
    {
        self.input_identity
    }

    pub fn dataset_id(&self) -> (identity: DatasetIdentity)
        ensures
            identity == self.dataset(),
    {
        self.dataset_identity
    }

    pub fn input_bytes(&self) -> (bytes: u64)
        ensures
            self.wf() ==> bytes == self.input().length(),
    {
        self.input_bytes
    }
}

} // verus!
