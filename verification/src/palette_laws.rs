//! What decides the colours of files, contributors and actions.

use vstd::bytes::*;
use vstd::prelude::*;

use crate::catalog::CatalogView;
use crate::model::{Action, ContributorId, PathId, Rgb8};
use crate::palette;
use crate::palette::HierarchyNodeId;
use crate::record_laws;

verus! {

proof fn nothing_is_last(s: Seq<u8>, byte: u8)
    requires
        record_laws::lacks(s, byte),
    ensures
        palette::last_place(s, byte) == -1,
    decreases s.len(),
{
    if s.len() > 0 {
        let front = s.drop_last();
        assert forall|i: int| 0 <= i < front.len() implies #[trigger] front[i] != byte by {
            assert(s[i] != byte);
        }
        nothing_is_last(front, byte);
    }
}

/// What follows without the byte does not move its last place.
proof fn last_place_stays(front: Seq<u8>, rest: Seq<u8>, byte: u8)
    requires
        record_laws::lacks(rest, byte),
    ensures
        palette::last_place(front + rest, byte) == palette::last_place(front, byte),
    decreases rest.len(),
{
    if rest.len() == 0 {
        assert(front + rest =~= front);
    } else {
        let shorter = rest.drop_last();
        assert forall|i: int| 0 <= i < shorter.len() implies #[trigger] shorter[i] != byte by {
            assert(rest[i] != byte);
        }
        last_place_stays(front, shorter, byte);
        assert((front + rest).drop_last() =~= front + shorter);
        assert((front + rest).last() == rest.last());
        assert(rest.last() != byte);
    }
}

proof fn last_place_is_a_place(s: Seq<u8>, byte: u8)
    ensures
        -1 <= palette::last_place(s, byte) < s.len(),
        palette::last_place(s, byte) >= 0 ==> s[palette::last_place(s, byte)] == byte,
    decreases s.len(),
{
    if s.len() > 0 {
        last_place_is_a_place(s.drop_last(), byte);
    }
}

/// What a file is coloured by is its extension: what follows the last dot of
/// its name.
pub proof fn extensions_decide(front: Seq<u8>, extension: Seq<u8>)
    requires
        extension.len() > 0,
        record_laws::lacks(extension, 0x2e),
        record_laws::lacks(extension, 0x2f),
    ensures
        palette::colour_key(front.push(0x2e) + extension) == extension,
{
    let path = front.push(0x2e) + extension;
    let tail = seq![0x2eu8] + extension;
    assert(path =~= front + tail);
    assert forall|i: int| 0 <= i < tail.len() implies #[trigger] tail[i] != 0x2f by {
        if i > 0 {
            assert(tail[i] == extension[i - 1]);
        }
    }
    last_place_stays(front, tail, 0x2f);
    last_place_is_a_place(front, 0x2f);
    let from = palette::last_place(front, 0x2f) + 1;
    let name = front.skip(from);
    let base = path.skip(from);
    assert(base =~= name.push(0x2e) + extension);
    last_place_stays(name.push(0x2e), extension, 0x2e);
    assert(palette::last_place(name.push(0x2e), 0x2e) == name.len());
    assert(base.skip(name.len() as int + 1) =~= extension);
}

/// A file without an extension is coloured by its whole path: one whose name
/// has no dot, or none but at its end.
pub proof fn whole_paths_decide(front: Seq<u8>, name: Seq<u8>)
    requires
        record_laws::lacks(name, 0x2e),
        record_laws::lacks(name, 0x2f),
        front.len() > 0 ==> front.last() == 0x2f,
    ensures
        palette::colour_key(front + name) == front + name,
        palette::colour_key((front + name).push(0x2e)) == (front + name).push(0x2e),
{
    let path = front + name;
    let dotted = path.push(0x2e);
    last_place_stays(front, name, 0x2f);
    assert(palette::last_place(front, 0x2f) == front.len() - 1);
    assert(path.skip(front.len() as int) =~= name);
    nothing_is_last(name, 0x2e);
    assert(dotted.drop_last() =~= path);
    assert(dotted.skip(front.len() as int) =~= name.push(0x2e));
    assert(name.push(0x2e).last() == 0x2e);
}

/// Files with one extension have one colour, in whatever history and wherever
/// they stand in it.
pub proof fn files_of_a_kind_share_their_colour(
    seed: u64,
    version: u32,
    one: CatalogView,
    a: PathId,
    other: CatalogView,
    b: PathId,
    front_a: Seq<u8>,
    front_b: Seq<u8>,
    extension: Seq<u8>,
)
    requires
        1 <= a.value <= one.paths.len(),
        1 <= b.value <= other.paths.len(),
        one.paths[a.value - 1] == front_a.push(0x2e) + extension,
        other.paths[b.value - 1] == front_b.push(0x2e) + extension,
        extension.len() > 0,
        record_laws::lacks(extension, 0x2e),
        record_laws::lacks(extension, 0x2f),
    ensures
        palette::file_colour(seed, version, one, a) == palette::file_colour(
            seed,
            version,
            other,
            b,
        ),
{
    extensions_decide(front_a, extension);
    extensions_decide(front_b, extension);
}

/// Contributors of one name have one colour, in whatever history and wherever
/// they stand in it.
pub proof fn names_decide_the_colour_of_contributors(
    seed: u64,
    version: u32,
    one: CatalogView,
    a: ContributorId,
    other: CatalogView,
    b: ContributorId,
)
    requires
        1 <= a.value <= one.contributors.len(),
        1 <= b.value <= other.contributors.len(),
        one.contributors[a.value - 1] == other.contributors[b.value - 1],
    ensures
        palette::contributor_colour(seed, version, one, a) == palette::contributor_colour(
            seed,
            version,
            other,
            b,
        ),
{
}

/// The palette has sixteen colours, no two the same, and goes round.
pub proof fn the_palette_has_sixteen_colours(a: u64, b: u64)
    ensures
        palette::palette_colour(a) == palette::palette_colour(b) <==> a % 16 == b % 16,
{
    assert(palette::palette_colour(a) == palette::palette_entry(a % 16));
    assert(palette::palette_colour(b) == palette::palette_entry(b % 16));
    assert(a % 16 < 16 && b % 16 < 16);
    entry_is_its_own(a % 16);
    entry_is_its_own(b % 16);
}

/// The place of a colour of the palette, told by its green part.
spec fn place_of(colour: Rgb8) -> int {
    if colour.g == 181 {
        0
    } else if colour.g == 170 {
        1
    } else if colour.g == 101 {
        2
    } else if colour.g == 205 {
        3
    } else if colour.g == 92 {
        4
    } else if colour.g == 143 {
        5
    } else if colour.g == 130 {
        6
    } else if colour.g == 194 {
        7
    } else if colour.g == 209 {
        8
    } else if colour.g == 116 {
        9
    } else if colour.g == 184 {
        10
    } else if colour.g == 111 {
        11
    } else if colour.g == 207 {
        12
    } else if colour.g == 149 {
        13
    } else if colour.g == 203 {
        14
    } else {
        15
    }
}

proof fn entry_is_its_own(index: u64)
    requires
        index < 16,
    ensures
        place_of(palette::palette_entry(index)) == index,
{
}

/// Additions are green, changes orange and deletions red: the strongest part of
/// the first is green, and the second has more green than the third.
pub proof fn actions_have_their_colour()
    ensures
        ({
            let add = palette::action_colour(Action::Add);
            let modify = palette::action_colour(Action::Modify);
            let delete = palette::action_colour(Action::Delete);
            &&& add == (Rgb8 { r: 73, g: 211, b: 119 })
            &&& modify == (Rgb8 { r: 244, g: 164, b: 52 })
            &&& delete == (Rgb8 { r: 235, g: 78, b: 88 })
            &&& add.g > add.r && add.g > add.b
            &&& modify.r > modify.g > modify.b
            &&& delete.r > delete.g && delete.r > delete.b
        }),
{
}

/// The hash of nothing is the basis; each byte more is mixed in before the
/// product with the prime, so that its place counts.
pub proof fn hashes_go_byte_by_byte(bytes: Seq<u8>, more: u8)
    ensures
        palette::hash_of(Seq::empty()) == 0xcbf29ce484222325u64,
        palette::hash_of(bytes.push(more)) == (palette::hash_of(bytes) ^ (
        more as u64)).wrapping_mul(0x100000001b3u64),
{
    assert(bytes.push(more).drop_last() =~= bytes);
}

/// Numbers are hashed as eight bytes each, in their order.
pub proof fn numbers_are_hashed_as_eight_bytes(values: Seq<u64>, more: u64)
    ensures
        palette::number_bytes(values).len() == 8 * values.len(),
        palette::number_bytes(values.push(more)) == palette::number_bytes(values)
            + spec_u64_to_le_bytes(more),
        palette::number_hash(values) == palette::hash_of(palette::number_bytes(values)),
    decreases values.len(),
{
    lemma_auto_spec_u64_to_from_le_bytes();
    assert(values.push(more).drop_last() =~= values);
    if values.len() > 0 {
        numbers_are_hashed_as_eight_bytes(values.drop_last(), values.last());
        assert(values.drop_last().push(values.last()) =~= values);
    }
}

/// No two nodes of a layout have one key.
pub proof fn layout_keys_tell_nodes_apart(a: HierarchyNodeId, b: HierarchyNodeId)
    requires
        value_of(a) < 0x8000_0000_0000_0000,
        value_of(b) < 0x8000_0000_0000_0000,
    ensures
        palette::layout_key(a) == palette::layout_key(b) <==> a == b,
        palette::layout_key(a) / 2 == value_of(a),
        palette::layout_key(a) % 2 == 0 <==> a is Directory,
{
}

/// The number of a node.
pub open spec fn value_of(id: HierarchyNodeId) -> u64 {
    match id {
        HierarchyNodeId::Directory(id) => id.value,
        HierarchyNodeId::File(id) => id.value,
    }
}

} // verus!
