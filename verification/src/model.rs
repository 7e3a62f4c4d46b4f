//! The presentation-independent history model: identities, paths, the
//! catalog that interns them, and events in canonical order.

use vstd::prelude::*;
use vstd::string::*;
use vstd::utf8::*;

use crate::error::ErrorCode;
use crate::limits::IngestLimits;
use crate::record;
use crate::text;

verus! {

pub const CATALOG_SCHEMA_VERSION: u16 = 1;
pub const EVENT_SCHEMA_VERSION: u16 = 1;
pub const HISTORY_SCHEMA_VERSION: u16 = 1;

/// Identity of an interned path.  Identities count from one in the order in
/// which paths were first seen.
#[derive(Clone, Copy, Debug, PartialEq, Eq, PartialOrd, Ord, Hash, Structural)]
pub struct PathId {
    pub value: u32,
}

impl PathId {
    pub fn new(value: u32) -> (id: Option<Self>)
        ensures
            id == if value == 0 {
                None::<PathId>
            } else {
                Some(PathId { value })
            },
    {
        if value == 0 {
            None
        } else {
            Some(PathId { value })
        }
    }

    pub fn try_from_u64(value: u64) -> (id: Option<Self>)
        ensures
            id == if 1 <= value <= u32::MAX {
                Some(PathId { value: value as u32 })
            } else {
                None
            },
    {
        if 1 <= value && value <= 0xffff_ffff {
            Some(PathId { value: value as u32 })
        } else {
            None
        }
    }

    pub fn get(self) -> (value: u32)
        ensures
            value == self.value,
    {
        self.value
    }

    pub fn as_u64(self) -> (value: u64)
        ensures
            value == self.value,
    {
        self.value as u64
    }
}

/// Identity of an interned contributor, counted like [`PathId`].
#[derive(Clone, Copy, Debug, PartialEq, Eq, PartialOrd, Ord, Hash, Structural)]
pub struct ContributorId {
    pub value: u32,
}

impl ContributorId {
    pub fn new(value: u32) -> (id: Option<Self>)
        ensures
            id == if value == 0 {
                None::<ContributorId>
            } else {
                Some(ContributorId { value })
            },
    {
        if value == 0 {
            None
        } else {
            Some(ContributorId { value })
        }
    }

    pub fn try_from_u64(value: u64) -> (id: Option<Self>)
        ensures
            id == if 1 <= value <= u32::MAX {
                Some(ContributorId { value: value as u32 })
            } else {
                None
            },
    {
        if 1 <= value && value <= 0xffff_ffff {
            Some(ContributorId { value: value as u32 })
        } else {
            None
        }
    }

    pub fn get(self) -> (value: u32)
        ensures
            value == self.value,
    {
        self.value
    }

    pub fn as_u64(self) -> (value: u64)
        ensures
            value == self.value,
    {
        self.value as u64
    }
}

/// Position of an event in its source.  The largest 64-bit value is reserved.
#[derive(Clone, Copy, Debug, PartialEq, Eq, PartialOrd, Ord, Hash, Structural)]
pub struct SourceSeq {
    pub value: u64,
}

impl SourceSeq {
    pub fn new(value: u64) -> (sequence: Option<Self>)
        ensures
            sequence == if value == u64::MAX {
                None::<SourceSeq>
            } else {
                Some(SourceSeq { value })
            },
    {
        if value == u64::MAX {
            None
        } else {
            Some(SourceSeq { value })
        }
    }

    pub fn get(self) -> (value: u64)
        ensures
            value == self.value,
    {
        self.value
    }
}

/// Generation of a history.  Ingest produces generation zero.
#[derive(Clone, Copy, Debug, PartialEq, Eq, PartialOrd, Ord, Hash, Structural)]
pub struct Generation {
    pub value: u64,
}

impl Generation {
    pub fn new(value: u64) -> (generation: Option<Self>)
        ensures
            generation == if value == u64::MAX {
                None::<Generation>
            } else {
                Some(Generation { value })
            },
    {
        if value == u64::MAX {
            None
        } else {
            Some(Generation { value })
        }
    }

    pub fn zero() -> (generation: Self)
        ensures
            generation.value == 0,
    {
        Generation { value: 0 }
    }

    pub fn get(self) -> (value: u64)
        ensures
            value == self.value,
    {
        self.value
    }
}

/// An 8-bit colour.
#[derive(Clone, Copy, Debug, PartialEq, Eq, PartialOrd, Ord, Hash, Structural)]
pub struct Rgb8 {
    pub r: u8,
    pub g: u8,
    pub b: u8,
}

impl Rgb8 {
    pub fn new(r: u8, g: u8, b: u8) -> (colour: Self)
        ensures
            colour == (Rgb8 { r, g, b }),
    {
        Rgb8 { r, g, b }
    }

    pub fn as_array(self) -> (channels: [u8; 3])
        ensures
            channels@ == seq![self.r, self.g, self.b],
    {
        let channels: [u8; 3] = [self.r, self.g, self.b];
        assert(channels@ =~= seq![self.r, self.g, self.b]);
        channels
    }
}

/// What an event does to its target.
#[derive(Clone, Copy, Debug, PartialEq, Eq, PartialOrd, Ord, Hash, Structural)]
pub enum Action {
    Add,
    Modify,
    Delete,
}

/// The byte that stands for an action in encoded forms.
pub open spec fn action_byte(action: Action) -> u8 {
    match action {
        Action::Add => 0x41,
        Action::Modify => 0x4d,
        Action::Delete => 0x44,
    }
}

impl Action {
    pub fn as_byte(self) -> (byte: u8)
        ensures
            byte == action_byte(self),
    {
        match self {
            Action::Add => 0x41,
            Action::Modify => 0x4d,
            Action::Delete => 0x44,
        }
    }
}

/// The file or directory that an event is about.
#[derive(Clone, Copy, Debug, PartialEq, Eq, PartialOrd, Ord, Hash, Structural)]
pub enum EventTarget {
    File(PathId),
    Directory(PathId),
}

impl EventTarget {
    pub open spec fn path(self) -> PathId {
        match self {
            EventTarget::File(path) => path,
            EventTarget::Directory(path) => path,
        }
    }

    pub fn path_id(self) -> (path: PathId)
        ensures
            path == self.path(),
    {
        match self {
            EventTarget::File(path) => path,
            EventTarget::Directory(path) => path,
        }
    }

    pub fn is_directory(self) -> (directory: bool)
        ensures
            directory == (self is Directory),
    {
        match self {
            EventTarget::File(_) => false,
            EventTarget::Directory(_) => true,
        }
    }
}

/// Canonical order of events: by time, then by position in the source.
#[derive(Clone, Copy, Debug, PartialEq, Eq, PartialOrd, Ord, Hash, Structural)]
pub struct EventKey {
    pub timestamp: i64,
    pub source_sequence: SourceSeq,
}

impl EventKey {
    pub fn new(timestamp: i64, source_sequence: SourceSeq) -> (key: Self)
        ensures
            key == (EventKey { timestamp, source_sequence }),
    {
        EventKey { timestamp, source_sequence }
    }

    /// This key comes strictly before another in canonical order.
    pub open spec fn before(self, other: EventKey) -> bool {
        self.timestamp < other.timestamp || (self.timestamp == other.timestamp
            && self.source_sequence.value < other.source_sequence.value)
    }

    pub fn precedes(&self, other: &EventKey) -> (before: bool)
        ensures
            before == self.before(*other),
    {
        self.timestamp < other.timestamp || (self.timestamp == other.timestamp
            && self.source_sequence.value < other.source_sequence.value)
    }
}

/// One change of one path by one contributor.
#[derive(Clone, Copy, Debug, PartialEq, Eq, Hash, Structural)]
pub struct Event {
    pub version: u16,
    pub key: EventKey,
    pub generation: Generation,
    pub contributor: ContributorId,
    pub target: EventTarget,
    pub action: Action,
    pub color: Option<Rgb8>,
}

impl Event {
    pub fn new(
        key: EventKey,
        generation: Generation,
        contributor: ContributorId,
        target: EventTarget,
        action: Action,
        color: Option<Rgb8>,
    ) -> (event: Self)
        ensures
            event == (Event {
                version: EVENT_SCHEMA_VERSION,
                key,
                generation,
                contributor,
                target,
                action,
                color,
            }),
    {
        Event {
            version: EVENT_SCHEMA_VERSION,
            key,
            generation,
            contributor,
            target,
            action,
            color,
        }
    }

    pub fn timestamp(&self) -> (timestamp: i64)
        ensures
            timestamp == self.key.timestamp,
    {
        self.key.timestamp
    }

    pub fn source_sequence(&self) -> (sequence: SourceSeq)
        ensures
            sequence == self.key.source_sequence,
    {
        self.key.source_sequence
    }

    pub fn path_id(&self) -> (path: PathId)
        ensures
            path == self.target.path(),
    {
        self.target.path_id()
    }

    pub fn is_directory(&self) -> (directory: bool)
        ensures
            directory == (self.target is Directory),
    {
        self.target.is_directory()
    }
}

/// The place of an event in canonical order.
#[derive(Clone, Copy, Debug, PartialEq, Eq, Structural, Hash)]
pub struct EventIndex {
    pub value: u64,
}

impl EventIndex {
    pub fn new(value: u64) -> (index: Self)
        ensures
            index.value == value,
    {
        EventIndex { value }
    }

    pub fn get(self) -> (value: u64)
        ensures
            value == self.value,
    {
        self.value
    }
}

/// Events are in canonical order: no event comes before its predecessor.
pub open spec fn canonical_order(events: Seq<Event>) -> bool {
    forall|i: int, j: int|
        0 <= i < j < events.len() ==> !(#[trigger] events[j].key.before(#[trigger] events[i].key))
}

/// A validated lexical repository path.
///
/// The canonical text has no leading slash; a directory ends with one.
#[derive(Clone, Debug, PartialEq, Eq)]
pub struct RepositoryPath {
    pub text: String,
    pub directory: bool,
}

/// The bytes of the canonical text of a path value.
pub open spec fn canonical_path(value: Seq<u8>) -> Seq<u8> {
    if record::names_directory(value) {
        record::normalized_path(value).push(0x2f)
    } else {
        record::normalized_path(value)
    }
}

/// Ingest limits with only the two path bounds set.
pub open spec fn path_bounds(max_bytes: usize, max_components: usize) -> IngestLimits {
    IngestLimits {
        max_path_bytes: max_bytes as u64,
        max_path_components: max_components as u64,
        ..crate::limits::default_limits()
    }
}

/// A path value is a valid path within the bounds.
pub open spec fn acceptable_path(value: Seq<u8>, max_bytes: usize, max_components: usize) -> bool {
    record::path_fault(value, path_bounds(max_bytes, max_components)) is None
}

impl RepositoryPath {
    /// The bytes of the canonical text.
    pub open spec fn bytes(self) -> Seq<u8> {
        text::string_bytes(self.text)
    }

    /// The canonical text is canonical and its marker agrees with the kind.
    pub open spec fn wf(self) -> bool {
        &&& canonical_path(self.bytes()) == self.bytes()
        &&& self.directory == record::names_directory(self.bytes())
    }

    /// Parses a path value within the given bounds.
    pub fn parse_with_limits(
        value: &str,
        max_bytes: usize,
        max_components: usize,
    ) -> (path: Result<RepositoryPath, (ErrorCode, &'static str)>)
        ensures
            match path {
                Ok(p) => acceptable_path(value.spec_bytes(), max_bytes, max_components) && p.bytes()
                    == canonical_path(value.spec_bytes()) && p.wf() && p.directory
                    == record::names_directory(value.spec_bytes()),
                Err((code, message)) => record::path_fault(
                    value.spec_bytes(),
                    path_bounds(max_bytes, max_components),
                ) == Some((code, message@)),
            },
    {
        let limits = IngestLimits::default().with_max_path_bytes(
            max_bytes as u64,
        ).with_max_path_components(max_components as u64);
        let bytes = value.as_bytes();
        match record::parse_path(bytes, &limits) {
            Ok((normalized, directory)) => {
                proof {
                    encode_utf8_valid_utf8(value@);
                    record::normalized_path_keeps_utf8(bytes@);
                    canonical_path_is_canonical(bytes@, limits);
                }
                match text::utf8_text(normalized) {
                    Some(text) => {
                        let mut text = text.to_owned();
                        if directory {
                            proof {
                                push_slash_bytes(text@);
                            }
                            text.push('/');
                        }
                        Ok(RepositoryPath { text, directory })
                    },
                    None => {
                        assert(false);
                        Err((ErrorCode::InvalidPath, "path cannot be empty"))
                    },
                }
            },
            Err(fault) => Err(fault),
        }
    }

    pub fn canonical(&self) -> (text: &str)
        ensures
            text@ == self.text@,
            text.spec_bytes() == self.bytes(),
    {
        self.text.as_str()
    }

    pub fn as_bytes(&self) -> (bytes: &[u8])
        ensures
            bytes@ == self.bytes(),
    {
        self.text.as_str().as_bytes()
    }

    pub fn is_directory(&self) -> (directory: bool)
        ensures
            directory == self.directory,
    {
        self.directory
    }

    /// A copy of this path.
    pub fn copy(&self) -> (path: Self)
        ensures
            path.text@ == self.text@,
            path.directory == self.directory,
    {
        RepositoryPath { text: text::copy_string(&self.text), directory: self.directory }
    }
}

pub proof fn push_slash_bytes(chars: Seq<char>)
    ensures
        encode_utf8(chars.push('/')) == encode_utf8(chars).push(0x2f),
{
    let slash = seq!['/'];
    assert(chars.push('/') =~= chars + slash);
    encode_utf8_valid_utf8(chars);
    encode_utf8_valid_utf8(slash);
    is_ascii_chars_encode_utf8(slash);
    assert(encode_utf8(slash) =~= seq![0x2fu8]);
    encode_utf8_of_concat(chars, slash);
    assert(encode_utf8(chars) + seq![0x2fu8] =~= encode_utf8(chars).push(0x2f));
}

proof fn encode_utf8_of_concat(a: Seq<char>, b: Seq<char>)
    ensures
        encode_utf8(a + b) == encode_utf8(a) + encode_utf8(b),
    decreases a.len(),
{
    if a.len() == 0 {
        assert(a + b =~= b);
        assert(encode_utf8(a) =~= Seq::<u8>::empty());
        assert(encode_utf8(a) + encode_utf8(b) =~= encode_utf8(b));
    } else {
        assert((a + b).drop_first() =~= a.drop_first() + b);
        encode_utf8_of_concat(a.drop_first(), b);
        assert(encode_utf8(a + b) =~= encode_utf8(a) + encode_utf8(b));
    }
}

/// Canonical paths are fixed points: parsing one again gives the same path,
/// and it is still acceptable.
pub proof fn canonical_path_is_canonical(value: Seq<u8>, limits: IngestLimits)
    requires
        record::path_fault(value, limits) is None,
    ensures
        record::path_fault(canonical_path(value), limits) is None,
        canonical_path(canonical_path(value)) == canonical_path(value),
        record::names_directory(canonical_path(value)) == record::names_directory(value),
        canonical_path(value).len() <= value.len(),
{
    let canonical = canonical_path(value);
    let normalized = record::normalized_path(value);
    record::normalization_is_idempotent(value, limits);
    assert(record::below_root(normalized) == normalized);
    assert(canonical[0] == normalized[0]);
    assert(record::below_root(canonical) == canonical);
    if record::names_directory(value) {
        assert(canonical.drop_last() =~= normalized);
        assert(record::normalized_path(canonical) == normalized);
    } else {
        assert(record::normalized_path(canonical) == normalized);
    }
}

} // verus!
