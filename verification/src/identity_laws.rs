//! What the identities of replays, datasets and cache entries cover.

use vstd::bytes::*;
use vstd::prelude::*;

use crate::cache_key;
use crate::catalog::CatalogView;
use crate::history;
use crate::history::InputIdentity;
use crate::model::{Action, Event};
use crate::replay_identity;
use crate::replay_identity::ReplayConfig;

verus! {

/// The identity of a replay covers every setting and the number of events: two
/// that differ in any of them are told apart by what the identity is made of.
pub proof fn identities_cover_every_setting(
    a: ReplayConfig,
    b: ReplayConfig,
    events_a: nat,
    events_b: nat,
)
    requires
        events_a <= u64::MAX,
        events_b <= u64::MAX,
        replay_identity::config_words(a, events_a) == replay_identity::config_words(b, events_b),
    ensures
        a == b,
        events_a == events_b,
{
    let x = replay_identity::config_words(a, events_a);
    let y = replay_identity::config_words(b, events_b);
    assert(x[0] == y[0] && x[1] == y[1] && x[2] == y[2] && x[3] == y[3] && x[4] == y[4] && x[5]
        == y[5] && x[6] == y[6] && x[7] == y[7] && x[8] == y[8]);
    let n = x.len();
    assert(n == y.len());
    assert(x[n - 1] == y[n - 1] && x[n - 2] == y[n - 2] && x[n - 3] == y[n - 3] && x[n - 4] == y[n
        - 4] && x[n - 5] == y[n - 5] && x[n - 6] == y[n - 6] && x[n - 7] == y[n - 7] && x[n - 8]
        == y[n - 8] && x[n - 9] == y[n - 9] && x[n - 10] == y[n - 10] && x[n - 11] == y[n - 11]);
    assert(x[9] == y[9]);
}

/// An identity is mixed word by word, so that their order counts.
pub proof fn identities_go_word_by_word(words: Seq<u128>, more: u128)
    ensures
        replay_identity::identity_of(Seq::empty()) == 0xcbf29ce484222325u128,
        replay_identity::identity_of(words.push(more)) == replay_identity::identity_of(
            words,
        ).wrapping_mul(0x100000001b3u128).wrapping_add(more),
{
    assert(words.push(more).drop_last() =~= words);
}

/// It covers everything that an event says.
pub proof fn identities_cover_every_event(a: Event, b: Event)
    requires
        replay_identity::event_words(a) == replay_identity::event_words(b),
    ensures
        a.version == b.version,
        a.key.timestamp == b.key.timestamp,
        a.key.source_sequence == b.key.source_sequence,
        a.generation == b.generation,
        a.target == b.target,
        a.contributor == b.contributor,
        a.action == b.action,
        a.color == b.color,
{
    let x = replay_identity::event_words(a);
    let y = replay_identity::event_words(b);
    assert(x[0] == y[0] && x[1] == y[1] && x[2] == y[2] && x[3] == y[3] && x[4] == y[4] && x[5]
        == y[5] && x[6] == y[6] && x[7] == y[7] && x[8] == y[8]);
    assert(x.len() == y.len());
    if x.len() == 10 {
        assert(x[9] == y[9]);
    }
}

/// What the identity of a dataset is made of covers everything that an event
/// says.
pub proof fn datasets_cover_every_event(a: Event, b: Event)
    requires
        history::event_digest_bytes(a) == history::event_digest_bytes(b),
    ensures
        a.key == b.key,
        a.contributor == b.contributor,
        a.target == b.target,
        a.action == b.action,
        a.color == b.color,
{
    digest_fields(a);
    digest_fields(b);
    signed_round_trip(a.key.timestamp);
    signed_round_trip(b.key.timestamp);
}

proof fn signed_round_trip(x: i64)
    ensures
        (x as u64) as i64 == x,
{
    assert((x as u64) as i64 == x) by (bit_vector);
}

proof fn digest_fields(event: Event)
    ensures
        ({
            let bytes = history::event_digest_bytes(event);
            &&& bytes.len() == if event.color is Some {
                30nat
            } else {
                27nat
            }
            &&& spec_u64_from_le_bytes(bytes.subrange(0, 8)) == event.key.timestamp as u64
            &&& spec_u64_from_le_bytes(bytes.subrange(8, 16)) == event.key.source_sequence.value
            &&& spec_u32_from_le_bytes(bytes.subrange(16, 20)) == event.contributor.value
            &&& bytes[20] == match event.action {
                Action::Add => 0x41u8,
                Action::Modify => 0x4du8,
                Action::Delete => 0x44u8,
            }
            &&& bytes[21] == if event.target is Directory {
                0x44u8
            } else {
                0x46u8
            }
            &&& spec_u32_from_le_bytes(bytes.subrange(22, 26)) == event.target.path().value
            &&& event.color matches Some(color) ==> bytes[27] == color.r && bytes[28] == color.g
                && bytes[29] == color.b
        }),
{
    lemma_auto_spec_u64_to_from_le_bytes();
    lemma_auto_spec_u32_to_from_le_bytes();
    let bytes = history::event_digest_bytes(event);
    assert(bytes.subrange(0, 8) =~= spec_u64_to_le_bytes(event.key.timestamp as u64));
    assert(bytes.subrange(8, 16) =~= spec_u64_to_le_bytes(event.key.source_sequence.value));
    assert(bytes.subrange(16, 20) =~= spec_u32_to_le_bytes(event.contributor.value));
    assert(bytes.subrange(22, 26) =~= spec_u32_to_le_bytes(event.target.path().value));
}

/// What the identity of a dataset is made of holds the digest of its input.
pub proof fn datasets_cover_their_input(catalog: CatalogView, events: Seq<Event>, input: Seq<u8>)
    ensures
        ({
            let bytes = history::dataset_bytes(catalog, events, input);
            &&& bytes.len() >= 18 + input.len()
            &&& bytes.subrange(18, 18 + input.len() as int) == input
        }),
{
    let bytes = history::dataset_bytes(catalog, events, input);
    assert(bytes.subrange(18, 18 + input.len() as int) =~= input);
}

/// A key covers the digest and the length of its input and the fingerprint of
/// its limits.
pub proof fn keys_cover_their_input(
    a: InputIdentity,
    x: Seq<u8>,
    b: InputIdentity,
    y: Seq<u8>,
)
    requires
        a.digest_view().len() == 32,
        b.digest_view().len() == 32,
        cache_key::key_bytes(a, x) == cache_key::key_bytes(b, y),
    ensures
        a.digest_view() == b.digest_view(),
        a.length() == b.length(),
        x == y,
{
    key_fields(a, x);
    key_fields(b, y);
}

proof fn key_fields(input: InputIdentity, fingerprint: Seq<u8>)
    requires
        input.digest_view().len() == 32,
    ensures
        ({
            let bytes = cache_key::key_bytes(input, fingerprint);
            &&& bytes.len() == 62 + fingerprint.len()
            &&& bytes.subrange(22, 54) == input.digest_view()
            &&& spec_u64_from_le_bytes(bytes.subrange(54, 62)) == input.length()
            &&& bytes.skip(62) == fingerprint
        }),
{
    lemma_auto_spec_u64_to_from_le_bytes();
    lemma_auto_spec_u16_to_from_le_bytes();
    let bytes = cache_key::key_bytes(input, fingerprint);
    assert(spec_u16_to_le_bytes(1).len() == 2);
    assert(bytes.subrange(22, 54) =~= input.digest_view());
    assert(bytes.subrange(54, 62) =~= spec_u64_to_le_bytes(input.length()));
    assert(bytes.skip(62) =~= fingerprint);
}

} // verus!
