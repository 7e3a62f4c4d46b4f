//! Stable hashes and the colours and layout seeds taken from them.

use vstd::bytes::*;
use vstd::prelude::*;
use vstd::string::*;

use crate::catalog::{Catalog, CatalogView};
use crate::model::{Action, ContributorId, PathId, Rgb8};
use crate::runs::put_u64;

verus! {

/// The start value of the hash.
pub const HASH_BASIS: u64 = 0xcbf29ce484222325;

/// The multiplier of the hash.
pub const HASH_PRIME: u64 = 0x100000001b3;

/// A file: the identity of one incarnation of a path.
#[derive(Clone, Copy, Debug, PartialEq, Eq, PartialOrd, Ord, Hash, Structural)]
pub struct FileId {
    pub value: u64,
}

/// A directory of the hierarchy.
#[derive(Clone, Copy, Debug, PartialEq, Eq, PartialOrd, Ord, Hash, Structural)]
pub struct DirId {
    pub value: u64,
}

/// A node of the hierarchy.  The two kinds do not share identities.
#[derive(Clone, Copy, Debug, PartialEq, Eq, PartialOrd, Ord, Hash, Structural)]
pub enum HierarchyNodeId {
    Directory(DirId),
    File(FileId),
}

/// One byte more in a hash.
pub open spec fn hash_step(hash: u64, byte: u8) -> u64 {
    (hash ^ (byte as u64)).wrapping_mul(HASH_PRIME)
}

/// The hash of bytes.
pub open spec fn hash_of(bytes: Seq<u8>) -> u64
    decreases bytes.len(),
{
    if bytes.len() == 0 {
        HASH_BASIS
    } else {
        hash_step(hash_of(bytes.drop_last()), bytes.last())
    }
}

/// Numbers as bytes, the low byte of each first.
pub open spec fn number_bytes(values: Seq<u64>) -> Seq<u8>
    decreases values.len(),
{
    if values.len() == 0 {
        Seq::empty()
    } else {
        number_bytes(values.drop_last()) + spec_u64_to_le_bytes(values.last())
    }
}

/// The hash of numbers.
pub open spec fn number_hash(values: Seq<u64>) -> u64 {
    hash_of(number_bytes(values))
}

fn hash_bytes(bytes: &[u8]) -> (hash: u64)
    ensures
        hash == hash_of(bytes@),
{
    let mut hash: u64 = HASH_BASIS;
    let mut index: usize = 0;
    assert(bytes@.take(0) =~= Seq::<u8>::empty());
    while index < bytes.len()
        invariant
            index <= bytes@.len(),
            hash == hash_of(bytes@.take(index as int)),
        decreases bytes@.len() - index,
    {
        let byte: u8 = bytes[index];
        let mixed: u64 = hash ^ (byte as u64);
        hash = mixed.wrapping_mul(HASH_PRIME);
        proof {
            assert(bytes@.take(index + 1).drop_last() =~= bytes@.take(index as int));
            assert(bytes@.take(index + 1).last() == byte);
        }
        index = index + 1;
    }
    assert(bytes@.take(index as int) =~= bytes@);
    hash
}

/// The hash of a text.
pub fn stable_hash(value: &str) -> (hash: u64)
    ensures
        hash == hash_of(value.spec_bytes()),
{
    hash_bytes(value.as_bytes())
}

/// The hash of numbers.
pub fn stable_hash_numbers(values: &[u64]) -> (hash: u64)
    ensures
        hash == number_hash(values@),
{
    let mut bytes: Vec<u8> = Vec::new();
    let mut index: usize = 0;
    assert(values@.take(0) =~= Seq::<u64>::empty());
    while index < values.len()
        invariant
            index <= values@.len(),
            bytes@ == number_bytes(values@.take(index as int)),
        decreases values@.len() - index,
    {
        put_u64(&mut bytes, values[index]);
        proof {
            assert(values@.take(index + 1).drop_last() =~= values@.take(index as int));
            assert(values@.take(index + 1).last() == values@[index as int]);
        }
        index = index + 1;
    }
    assert(values@.take(index as int) =~= values@);
    hash_bytes(bytes.as_slice())
}

/// How many colours the palette holds.
pub const PALETTE_SIZE: u64 = 16;

/// The colours that files and contributors take.
pub open spec fn palette_entry(index: u64) -> Rgb8 {
    if index == 0 {
        Rgb8 { r: 61, g: 181, b: 232 }
    } else if index == 1 {
        Rgb8 { r: 236, g: 170, b: 54 }
    } else if index == 2 {
        Rgb8 { r: 203, g: 101, b: 231 }
    } else if index == 3 {
        Rgb8 { r: 71, g: 205, b: 135 }
    } else if index == 4 {
        Rgb8 { r: 235, g: 92, b: 118 }
    } else if index == 5 {
        Rgb8 { r: 103, g: 143, b: 230 }
    } else if index == 6 {
        Rgb8 { r: 239, g: 130, b: 62 }
    } else if index == 7 {
        Rgb8 { r: 59, g: 194, b: 202 }
    } else if index == 8 {
        Rgb8 { r: 194, g: 209, b: 77 }
    } else if index == 9 {
        Rgb8 { r: 151, g: 116, b: 225 }
    } else if index == 10 {
        Rgb8 { r: 73, g: 184, b: 155 }
    } else if index == 11 {
        Rgb8 { r: 232, g: 111, b: 188 }
    } else if index == 12 {
        Rgb8 { r: 112, g: 207, b: 228 }
    } else if index == 13 {
        Rgb8 { r: 222, g: 149, b: 89 }
    } else if index == 14 {
        Rgb8 { r: 158, g: 203, b: 93 }
    } else {
        Rgb8 { r: 188, g: 135, b: 224 }
    }
}

/// The colour of a hash.
pub open spec fn palette_colour(hash: u64) -> Rgb8 {
    palette_entry(hash % PALETTE_SIZE)
}

/// No colour of the palette is black.
pub proof fn palette_has_no_black(hash: u64)
    ensures
        palette_colour(hash) != (Rgb8 { r: 0, g: 0, b: 0 }),
{
}

/// Picks the colour of a hash.
pub fn palette_color(hash: u64) -> (color: Rgb8)
    ensures
        color == palette_colour(hash),
{
    let palette: [Rgb8; 16] = [
        Rgb8::new(61, 181, 232),
        Rgb8::new(236, 170, 54),
        Rgb8::new(203, 101, 231),
        Rgb8::new(71, 205, 135),
        Rgb8::new(235, 92, 118),
        Rgb8::new(103, 143, 230),
        Rgb8::new(239, 130, 62),
        Rgb8::new(59, 194, 202),
        Rgb8::new(194, 209, 77),
        Rgb8::new(151, 116, 225),
        Rgb8::new(73, 184, 155),
        Rgb8::new(232, 111, 188),
        Rgb8::new(112, 207, 228),
        Rgb8::new(222, 149, 89),
        Rgb8::new(158, 203, 93),
        Rgb8::new(188, 135, 224),
    ];
    palette[(hash % PALETTE_SIZE) as usize]
}

/// The colour of every directory.
pub open spec fn directory_colour() -> Rgb8 {
    Rgb8 { r: 119, g: 139, b: 164 }
}

pub fn directory_color() -> (color: Rgb8)
    ensures
        color == directory_colour(),
{
    Rgb8::new(119, 139, 164)
}

/// The colour of an action without one of its own.
pub open spec fn action_colour(action: Action) -> Rgb8 {
    match action {
        Action::Add => Rgb8 { r: 73, g: 211, b: 119 },
        Action::Modify => Rgb8 { r: 244, g: 164, b: 52 },
        Action::Delete => Rgb8 { r: 235, g: 78, b: 88 },
    }
}

pub fn action_color(action: Action) -> (color: Rgb8)
    ensures
        color == action_colour(action),
{
    match action {
        Action::Add => Rgb8::new(73, 211, 119),
        Action::Modify => Rgb8::new(244, 164, 52),
        Action::Delete => Rgb8::new(235, 78, 88),
    }
}

/// The last place of a byte, or -1.
pub open spec fn last_place(bytes: Seq<u8>, byte: u8) -> int
    decreases bytes.len(),
{
    if bytes.len() == 0 {
        -1
    } else if bytes.last() == byte {
        bytes.len() - 1
    } else {
        last_place(bytes.drop_last(), byte)
    }
}

/// What the colour of a path depends on: the extension of its last component,
/// or the whole path where there is none.
pub open spec fn colour_key(path: Seq<u8>) -> Seq<u8> {
    let base = path.skip(last_place(path, 0x2f) + 1);
    let dot = last_place(base, 0x2e);
    if 0 <= dot < base.len() - 1 {
        base.skip(dot + 1)
    } else {
        path
    }
}

proof fn last_place_is_in_range(bytes: Seq<u8>, byte: u8)
    ensures
        -1 <= last_place(bytes, byte) < bytes.len(),
    decreases bytes.len(),
{
    if bytes.len() > 0 && bytes.last() != byte {
        last_place_is_in_range(bytes.drop_last(), byte);
    }
}

/// The length of bytes up to and with the last place of a byte.
fn through_last(bytes: &[u8], byte: u8) -> (length: usize)
    ensures
        length == last_place(bytes@, byte) + 1,
        length <= bytes@.len(),
{
    let mut length: usize = bytes.len();
    assert(bytes@.take(length as int) =~= bytes@);
    while length > 0 && bytes[length - 1] != byte
        invariant
            length <= bytes@.len(),
            last_place(bytes@.take(length as int), byte) == last_place(bytes@, byte),
        decreases length,
    {
        assert(bytes@.take(length as int).drop_last() =~= bytes@.take(length - 1));
        length = length - 1;
    }
    assert(length > 0 ==> bytes@.take(length as int).last() == bytes@[length - 1]);
    length
}

fn hash_colour_key(path: &[u8]) -> (hash: u64)
    ensures
        hash == hash_of(colour_key(path@)),
{
    let start: usize = through_last(path, 0x2f);
    let base = vstd::slice::slice_subrange(path, start, path.len());
    assert(base@ =~= path@.skip(start as int));
    let dot: usize = through_last(base, 0x2e);
    if dot > 0 && dot < base.len() {
        let extension = vstd::slice::slice_subrange(base, dot, base.len());
        assert(extension@ =~= base@.skip(dot as int));
        hash_bytes(extension)
    } else {
        hash_bytes(path)
    }
}

/// `path`: the key of a path that the catalog does not know.
pub open spec fn unknown_path_key() -> Seq<u8> {
    seq![0x70u8, 0x61u8, 0x74u8, 0x68u8]
}

/// The hash of what the colour of a path depends on.
pub open spec fn path_key_hash(catalog: CatalogView, path: PathId) -> u64 {
    if 1 <= path.value <= catalog.paths.len() {
        hash_of(colour_key(catalog.paths[path.value - 1]))
    } else {
        hash_of(unknown_path_key())
    }
}

/// The colour of a file without one of its own.
pub open spec fn file_colour(seed: u64, version: u32, catalog: CatalogView, path: PathId) -> Rgb8 {
    palette_colour(number_hash(seq![seed, version as u64, path_key_hash(catalog, path)]))
}

/// The colour of a file.
pub fn file_color(seed: u64, version: u32, catalog: &Catalog, path: PathId) -> (color: Rgb8)
    ensures
        color == file_colour(seed, version, catalog@, path),
{
    let key: u64 = match catalog.path(path) {
        Some(path) => hash_colour_key(path.as_bytes()),
        None => {
            let unknown: [u8; 4] = [0x70, 0x61, 0x74, 0x68];
            assert(unknown@ =~= unknown_path_key());
            hash_bytes(unknown.as_slice())
        },
    };
    let values: [u64; 3] = [seed, version as u64, key];
    assert(values@ =~= seq![seed, version as u64, key]);
    palette_color(stable_hash_numbers(values.as_slice()))
}

/// The number that sets contributors apart from files.
pub const CONTRIBUTOR_SALT: u64 = 0xC0_17_4B;

/// The hash of what the colour of a contributor depends on.
pub open spec fn contributor_key_hash(catalog: CatalogView, contributor: ContributorId) -> u64 {
    if 1 <= contributor.value <= catalog.contributors.len() {
        hash_of(catalog.contributors[contributor.value - 1])
    } else {
        number_hash(seq![contributor.value as u64])
    }
}

/// The colour of a contributor without one of its own.
pub open spec fn contributor_colour(
    seed: u64,
    version: u32,
    catalog: CatalogView,
    contributor: ContributorId,
) -> Rgb8 {
    palette_colour(
        number_hash(
            seq![
                seed,
                version as u64,
                contributor_key_hash(catalog, contributor),
                CONTRIBUTOR_SALT,
            ],
        ),
    )
}

/// The colour of a contributor.
pub fn contributor_color(
    seed: u64,
    version: u32,
    catalog: &Catalog,
    contributor: ContributorId,
) -> (color: Rgb8)
    ensures
        color == contributor_colour(seed, version, catalog@, contributor),
{
    let key: u64 = match catalog.contributor(contributor) {
        Some(name) => stable_hash(name),
        None => {
            let id: [u64; 1] = [contributor.as_u64()];
            assert(id@ =~= seq![contributor.value as u64]);
            stable_hash_numbers(id.as_slice())
        },
    };
    let values: [u64; 4] = [seed, version as u64, key, CONTRIBUTOR_SALT];
    assert(values@ =~= seq![seed, version as u64, key, CONTRIBUTOR_SALT]);
    palette_color(stable_hash_numbers(values.as_slice()))
}

/// The layout seed of a directory.
pub fn directory_hash(seed: u64, version: u32, id: DirId, parent: DirId, depth: u64) -> (hash: u64)
    ensures
        hash == number_hash(
            seq![seed, version as u64, 0xD1_72_11u64, id.value, parent.value, depth],
        ),
{
    let values: [u64; 6] = [seed, version as u64, 0xD1_72_11, id.value, parent.value, depth];
    assert(values@ =~= seq![seed, version as u64, 0xD1_72_11u64, id.value, parent.value, depth]);
    stable_hash_numbers(values.as_slice())
}

/// The layout seed of a file.
pub fn file_hash(seed: u64, version: u32, id: FileId, parent: DirId, path: PathId) -> (hash: u64)
    ensures
        hash == number_hash(
            seq![seed, version as u64, 0xF11E_5EEDu64, id.value, parent.value, path.value as u64],
        ),
{
    let values: [u64; 6] = [
        seed,
        version as u64,
        0xF11E_5EED,
        id.value,
        parent.value,
        path.as_u64(),
    ];
    assert(values@ =~= seq![
        seed,
        version as u64,
        0xF11E_5EEDu64,
        id.value,
        parent.value,
        path.value as u64,
    ]);
    stable_hash_numbers(values.as_slice())
}

/// The layout seed of a contributor.
pub fn contributor_hash(seed: u64, version: u32, id: ContributorId) -> (hash: u64)
    ensures
        hash == number_hash(seq![seed, version as u64, CONTRIBUTOR_SALT, id.value as u64]),
{
    let values: [u64; 4] = [seed, version as u64, CONTRIBUTOR_SALT, id.as_u64()];
    assert(values@ =~= seq![seed, version as u64, CONTRIBUTOR_SALT, id.value as u64]);
    stable_hash_numbers(values.as_slice())
}

/// The layout seed of a path without a file.
pub fn path_hash(seed: u64, version: u32, path: PathId) -> (hash: u64)
    ensures
        hash == number_hash(seq![seed, version as u64, 0x0FA1_1BACu64, path.value as u64]),
{
    let values: [u64; 4] = [seed, version as u64, 0x0FA1_1BAC, path.as_u64()];
    assert(values@ =~= seq![seed, version as u64, 0x0FA1_1BACu64, path.value as u64]);
    stable_hash_numbers(values.as_slice())
}

/// The number of a node among the nodes of one parent: directories are even,
/// files odd.
pub open spec fn layout_key(id: HierarchyNodeId) -> u64 {
    match id {
        HierarchyNodeId::Directory(id) => id.value.wrapping_mul(2),
        HierarchyNodeId::File(id) => id.value.wrapping_mul(2).wrapping_add(1),
    }
}

pub fn layout_identity_key(id: HierarchyNodeId) -> (key: u64)
    ensures
        key == layout_key(id),
{
    match id {
        HierarchyNodeId::Directory(id) => id.value.wrapping_mul(2),
        HierarchyNodeId::File(id) => id.value.wrapping_mul(2).wrapping_add(1),
    }
}

/// The seed of the direction in which two nodes at one place part.
pub fn collision_hash(parent: DirId, left: HierarchyNodeId, right: HierarchyNodeId) -> (hash: u64)
    ensures
        hash == number_hash(
            seq![0x0C01_115Eu64, parent.value, layout_key(left), layout_key(right)],
        ),
{
    let values: [u64; 4] = [
        0x0C01_115E,
        parent.value,
        layout_identity_key(left),
        layout_identity_key(right),
    ];
    assert(values@ =~= seq![
        0x0C01_115Eu64,
        parent.value,
        layout_key(left),
        layout_key(right),
    ]);
    stable_hash_numbers(values.as_slice())
}

} // verus!
