//! The identity of a replay: what it replays and how.

use vstd::prelude::*;

use crate::catalog::{Catalog, CatalogView};
use crate::history::IndexedHistory;
use crate::model;
use crate::model::{Event, EventTarget, RepositoryPath, CATALOG_SCHEMA_VERSION};
use crate::record;
use crate::text;

verus! {

/// Which part of the scene a camera shows.
#[derive(Clone, Copy, Debug, PartialEq, Eq, Structural)]
pub enum CameraMode {
    Overview,
    Track,
}

/// Bounds of a replayed history.
#[derive(Clone, Copy, Debug, PartialEq, Eq, Structural)]
pub struct ReplayLimits {
    pub record_bytes: u64,
    pub input_bytes: u64,
    pub path_bytes: u64,
    pub contributor_bytes: u64,
    pub path_components: u64,
    pub working_memory_bytes: u64,
    pub working_disk_bytes: u64,
    pub max_events: u64,
    pub max_paths: u64,
    pub max_contributors: u64,
}

/// How a history is replayed.  Numbers with a fraction are held as their bits.
#[derive(Clone, Copy, Debug, PartialEq, Eq, Structural)]
pub struct ReplayConfig {
    pub version: u16,
    pub seed: u64,
    pub algorithm_version: u32,
    pub seconds_per_day_bits: u64,
    pub time_scale_bits: u64,
    pub auto_skip_bits: u64,
    pub realtime: bool,
    pub file_idle_bits: Option<u64>,
    pub camera_mode: CameraMode,
    pub limits: ReplayLimits,
}

/// The start value of an identity.
pub const IDENTITY_BASIS: u128 = 0xcbf29ce484222325;

/// The multiplier of an identity.
pub const IDENTITY_PRIME: u128 = 0x100000001b3;

/// The identity of a sequence of numbers.
pub open spec fn identity_of(words: Seq<u128>) -> u128
    decreases words.len(),
{
    if words.len() == 0 {
        IDENTITY_BASIS
    } else {
        identity_of(words.drop_last()).wrapping_mul(IDENTITY_PRIME).wrapping_add(words.last())
    }
}

pub open spec fn flag(set: bool) -> u128 {
    if set {
        1
    } else {
        0
    }
}

/// What a configuration and a history length contribute.
pub open spec fn config_words(config: ReplayConfig, events: nat) -> Seq<u128> {
    let limits = config.limits;
    seq![
        config.version as u128,
        events as u128,
        config.seed as u128,
        config.algorithm_version as u128,
        config.seconds_per_day_bits as u128,
        config.time_scale_bits as u128,
        config.auto_skip_bits as u128,
        flag(config.realtime),
    ] + (match config.file_idle_bits {
        Some(bits) => seq![1u128, bits as u128],
        None => seq![0u128],
    }) + seq![
        match config.camera_mode {
            CameraMode::Overview => 0u128,
            CameraMode::Track => 1u128,
        },
        limits.record_bytes as u128,
        limits.input_bytes as u128,
        limits.path_bytes as u128,
        limits.contributor_bytes as u128,
        limits.path_components as u128,
        limits.working_memory_bytes as u128,
        limits.working_disk_bytes as u128,
        limits.max_events as u128,
        limits.max_paths as u128,
        limits.max_contributors as u128,
    ]
}

/// A text as numbers: its length and its bytes.
pub open spec fn text_words(bytes: Seq<u8>) -> Seq<u128> {
    seq![bytes.len() as u128] + Seq::new(bytes.len(), |i: int| bytes[i] as u128)
}

pub open spec fn path_words(paths: Seq<Seq<u8>>) -> Seq<u128>
    decreases paths.len(),
{
    if paths.len() == 0 {
        Seq::empty()
    } else {
        path_words(paths.drop_last()) + seq![flag(record::names_directory(paths.last()))]
            + text_words(paths.last())
    }
}

pub open spec fn contributor_words(contributors: Seq<Seq<u8>>) -> Seq<u128>
    decreases contributors.len(),
{
    if contributors.len() == 0 {
        Seq::empty()
    } else {
        contributor_words(contributors.drop_last()) + text_words(contributors.last())
    }
}

/// A time stamp in two's complement.
pub open spec fn time_word(timestamp: i64) -> u128 {
    if timestamp < 0 {
        (0x1_0000_0000_0000_0000_0000_0000_0000_0000 + timestamp) as u128
    } else {
        timestamp as u128
    }
}

/// What an event contributes.
pub open spec fn event_words(event: Event) -> Seq<u128> {
    seq![
        event.version as u128,
        time_word(event.key.timestamp),
        event.key.source_sequence.value as u128,
        event.generation.value as u128,
        event.target.path().value as u128,
        match event.target {
            EventTarget::File(_) => 0u128,
            EventTarget::Directory(_) => 1u128,
        },
        event.contributor.value as u128,
        model::action_byte(event.action) as u128,
    ] + match event.color {
        Some(color) => seq![
            1u128,
            (color.r as int * 0x10000 + color.g as int * 0x100 + color.b) as u128,
        ],
        None => seq![0u128],
    }
}

pub open spec fn events_words(events: Seq<Event>) -> Seq<u128>
    decreases events.len(),
{
    if events.len() == 0 {
        Seq::empty()
    } else {
        events_words(events.drop_last()) + event_words(events.last())
    }
}

/// Everything that the identity of a replay depends on.
pub open spec fn replay_words(catalog: CatalogView, events: Seq<Event>, config: ReplayConfig) -> Seq<
    u128,
> {
    config_words(config, events.len()) + seq![
        CATALOG_SCHEMA_VERSION as u128,
        catalog.paths.len() as u128,
    ] + path_words(catalog.paths) + seq![catalog.contributors.len() as u128] + contributor_words(
        catalog.contributors,
    ) + events_words(events)
}

/// Mixes numbers into an identity.
struct Mixer {
    hash: u128,
    words: Ghost<Seq<u128>>,
}

impl Mixer {
    spec fn wf(&self) -> bool {
        self.hash == identity_of(self.words@)
    }

    fn mix_identity(&mut self, value: u128)
        requires
            old(self).wf(),
        ensures
            final(self).wf(),
            final(self).words@ == old(self).words@.push(value),
    {
        self.hash = self.hash.wrapping_mul(IDENTITY_PRIME).wrapping_add(value);
        self.words = Ghost(self.words@.push(value));
        assert(self.words@.drop_last() =~= old(self).words@);
    }

    fn mix_identity_bytes(&mut self, bytes: &[u8])
        requires
            old(self).wf(),
        ensures
            final(self).wf(),
            final(self).words@ == old(self).words@ + text_words(bytes@),
    {
        let ghost before = self.words@;
        assert(bytes.len() == bytes@.len());
        self.mix_identity(bytes.len() as u128);
        let mut index: usize = 0;
        assert(before + text_words(bytes@).take(1) =~= self.words@);
        while index < bytes.len()
            invariant
                index <= bytes@.len(),
                self.wf(),
                self.words@ == before + text_words(bytes@).take(index + 1),
            decreases bytes@.len() - index,
        {
            self.mix_identity(bytes[index] as u128);
            assert(self.words@ =~= before + text_words(bytes@).take(index + 2));
            index = index + 1;
        }
        assert(text_words(bytes@).take(index + 1) =~= text_words(bytes@));
    }

    fn mix_all(&mut self, values: &[u128])
        requires
            old(self).wf(),
        ensures
            final(self).wf(),
            final(self).words@ == old(self).words@ + values@,
    {
        let ghost before = self.words@;
        let mut index: usize = 0;
        assert(before + values@.take(0) =~= before);
        while index < values.len()
            invariant
                index <= values@.len(),
                self.wf(),
                self.words@ == before + values@.take(index as int),
            decreases values@.len() - index,
        {
            self.mix_identity(values[index]);
            assert(self.words@ =~= before + values@.take(index + 1));
            index = index + 1;
        }
        assert(values@.take(index as int) =~= values@);
    }

    fn mix_config(&mut self, config: &ReplayConfig, events: usize)
        requires
            old(self).wf(),
        ensures
            final(self).wf(),
            final(self).words@ == old(self).words@ + config_words(*config, events as nat),
    {
        let ghost before = self.words@;
        let settings: [u128; 8] = [
            config.version as u128,
            events as u128,
            config.seed as u128,
            config.algorithm_version as u128,
            config.seconds_per_day_bits as u128,
            config.time_scale_bits as u128,
            config.auto_skip_bits as u128,
            if config.realtime {
                1
            } else {
                0
            },
        ];
        self.mix_all(settings.as_slice());
        match config.file_idle_bits {
            Some(bits) => {
                self.mix_identity(1);
                self.mix_identity(bits as u128);
            },
            None => self.mix_identity(0),
        }
        let ghost middle = self.words@;
        let limits = config.limits;
        let bounds: [u128; 11] = [
            match config.camera_mode {
                CameraMode::Overview => 0,
                CameraMode::Track => 1,
            },
            limits.record_bytes as u128,
            limits.input_bytes as u128,
            limits.path_bytes as u128,
            limits.contributor_bytes as u128,
            limits.path_components as u128,
            limits.working_memory_bytes as u128,
            limits.working_disk_bytes as u128,
            limits.max_events as u128,
            limits.max_paths as u128,
            limits.max_contributors as u128,
        ];
        self.mix_all(bounds.as_slice());
        proof {
            let words = config_words(*config, events as nat);
            let idle: int = if config.file_idle_bits is Some {
                2
            } else {
                1
            };
            assert(settings@ =~= words.take(8));
            assert(middle =~= before + words.take(8 + idle));
            assert(bounds@ =~= words.skip(8 + idle));
            assert(before + words.take(8 + idle) + words.skip(8 + idle) =~= before + words);
        }
    }

    fn mix_event(&mut self, event: &Event)
        requires
            old(self).wf(),
        ensures
            final(self).wf(),
            final(self).words@ == old(self).words@ + event_words(*event),
    {
        let ghost before = self.words@;
        self.mix_identity(event.version as u128);
        let timestamp: i64 = event.timestamp();
        let time: u128 = if timestamp < 0 {
            u128::MAX - ((-(timestamp + 1)) as u128)
        } else {
            timestamp as u128
        };
        assert(time == time_word(timestamp));
        self.mix_identity(time);
        self.mix_identity(event.source_sequence().get() as u128);
        self.mix_identity(event.generation.get() as u128);
        self.mix_identity(event.path_id().get() as u128);
        self.mix_identity(
            match event.target {
                EventTarget::File(_) => 0,
                EventTarget::Directory(_) => 1,
            },
        );
        self.mix_identity(event.contributor.get() as u128);
        self.mix_identity(event.action.as_byte() as u128);
        match event.color {
            Some(color) => {
                self.mix_identity(1);
                self.mix_identity(
                    color.r as u128 * 0x10000 + color.g as u128 * 0x100 + color.b as u128,
                );
            },
            None => self.mix_identity(0),
        }
        assert(self.words@ =~= before + event_words(*event));
    }

    fn mix_catalog(&mut self, catalog: &Catalog)
        requires
            old(self).wf(),
            catalog.wf(),
        ensures
            final(self).wf(),
            final(self).words@ == old(self).words@ + seq![
                CATALOG_SCHEMA_VERSION as u128,
                catalog@.paths.len() as u128,
            ] + path_words(catalog@.paths) + seq![catalog@.contributors.len() as u128]
                + contributor_words(catalog@.contributors),
    {
        let ghost before = self.words@;
        self.mix_identity(catalog.version() as u128);
        self.mix_identity(catalog.path_count() as u128);
        let ghost start = self.words@;
        assert(start =~= before + seq![
            CATALOG_SCHEMA_VERSION as u128,
            catalog@.paths.len() as u128,
        ]);
        let paths = catalog.paths();
        let mut index: usize = 0;
        assert(catalog@.paths.take(0) =~= Seq::<Seq<u8>>::empty());
        assert(start + path_words(Seq::empty()) =~= start);
        while index < paths.len()
            invariant
                index <= paths@.len(),
                paths@ == catalog.path_list@,
                catalog.wf(),
                self.wf(),
                self.words@ == start + path_words(catalog@.paths.take(index as int)),
            decreases paths@.len() - index,
        {
            let path: &RepositoryPath = &paths[index];
            proof {
                assert(catalog.path_list@[index as int].wf());
                assert(path.bytes() == catalog@.paths[index as int]);
                let next = catalog@.paths.take(index + 1);
                assert(next.drop_last() =~= catalog@.paths.take(index as int));
                assert(next.last() == path.bytes());
            }
            let ghost here = self.words@;
            self.mix_identity(
                if path.is_directory() {
                    1
                } else {
                    0
                },
            );
            self.mix_identity_bytes(path.as_bytes());
            assert(self.words@ =~= start + path_words(catalog@.paths.take(index + 1)));
            index = index + 1;
        }
        assert(catalog@.paths.take(index as int) =~= catalog@.paths);
        self.mix_identity(catalog.contributor_count() as u128);
        let ghost middle = self.words@;
        let contributors = catalog.contributors();
        let mut index: usize = 0;
        assert(catalog@.contributors.take(0) =~= Seq::<Seq<u8>>::empty());
        assert(middle + contributor_words(Seq::empty()) =~= middle);
        while index < contributors.len()
            invariant
                index <= contributors@.len(),
                contributors@ == catalog.contributor_list@,
                self.wf(),
                self.words@ == middle + contributor_words(
                    catalog@.contributors.take(index as int),
                ),
            decreases contributors@.len() - index,
        {
            let contributor: &String = &contributors[index];
            proof {
                assert(text::string_bytes(*contributor) == catalog@.contributors[index as int]);
                let next = catalog@.contributors.take(index + 1);
                assert(next.drop_last() =~= catalog@.contributors.take(index as int));
                assert(next.last() == text::string_bytes(*contributor));
            }
            self.mix_identity_bytes(contributor.as_str().as_bytes());
            assert(self.words@ =~= middle + contributor_words(
                catalog@.contributors.take(index + 1),
            ));
            index = index + 1;
        }
        assert(catalog@.contributors.take(index as int) =~= catalog@.contributors);
        assert(middle =~= before + seq![
            CATALOG_SCHEMA_VERSION as u128,
            catalog@.paths.len() as u128,
        ] + path_words(catalog@.paths) + seq![catalog@.contributors.len() as u128]);
    }
}

/// The identity of a replay of a history.
pub fn replay_identity(history: &IndexedHistory, config: &ReplayConfig) -> (identity: u128)
    requires
        history.wf(),
    ensures
        identity == identity_of(
            replay_words(history.catalog_view(), history.events_view(), *config),
        ),
{
    let mut mixer = Mixer { hash: IDENTITY_BASIS, words: Ghost(Seq::empty()) };
    mixer.mix_config(config, history.len());
    mixer.mix_catalog(history.catalog());
    let ghost start = mixer.words@;
    let events = history.events();
    let mut index: usize = 0;
    assert(events@.take(0) =~= Seq::<Event>::empty());
    assert(start + events_words(Seq::empty()) =~= start);
    while index < events.len()
        invariant
            index <= events@.len(),
            mixer.wf(),
            mixer.words@ == start + events_words(events@.take(index as int)),
        decreases events@.len() - index,
    {
        proof {
            let next = events@.take(index + 1);
            assert(next.drop_last() =~= events@.take(index as int));
            assert(next.last() == events@[index as int]);
        }
        mixer.mix_event(&events[index]);
        assert(mixer.words@ =~= start + events_words(events@.take(index + 1)));
        index = index + 1;
    }
    assert(events@.take(index as int) =~= events@);
    assert(mixer.words@ =~= replay_words(history.catalog_view(), history.events_view(), *config));
    mixer.hash
}

} // verus!
