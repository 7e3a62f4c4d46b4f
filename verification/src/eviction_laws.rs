//! What a cache directory keeps and what leaves it.

use vstd::prelude::*;
use vstd::string::*;

use crate::cache_evict;
use crate::cache_evict::{EntryName, EvictionView, FileKind, FileVerdict, ScanBounds, ScanView};
use crate::text;

verus! {

/// A name that ends with `.bin` is an entry, one that ends with `.tmp` is
/// temporary.
pub proof fn suffixes_tell_files_apart(stem: Seq<char>)
    ensures
        cache_evict::name_class(stem + seq!['.', 'b', 'i', 'n']) == Some(EntryName::Entry),
        cache_evict::name_class(stem + seq!['.', 't', 'm', 'p']) == Some(EntryName::Temporary),
{
    reveal_strlit(".bin");
    reveal_strlit(".tmp");
    reveal_strlit(".cache.lock");
    let entry = stem + seq!['.', 'b', 'i', 'n'];
    let temporary = stem + seq!['.', 't', 'm', 'p'];
    let lock = ".cache.lock"@;
    assert(entry.last() == 'n' && temporary.last() == 'p' && lock.last() == 'k');
    assert(entry.skip(stem.len() as int) =~= ".bin"@);
    assert(temporary.skip(stem.len() as int) =~= ".tmp"@);
    assert(entry.skip(stem.len() as int).last() == 'n');
    assert(".tmp"@.last() == 'p');
}

/// A name that ends otherwise is the lock or is not of the cache.
pub proof fn other_names_are_foreign(name: Seq<char>)
    requires
        name.len() > 0,
        name.last() != 'n',
        name.last() != 'p',
    ensures
        name != ".cache.lock"@ ==> cache_evict::name_class(name) is None,
        name == ".cache.lock"@ ==> cache_evict::name_class(name) == Some(EntryName::Lock),
{
    reveal_strlit(".bin");
    reveal_strlit(".tmp");
    if cache_evict::ends_with(name, ".bin"@) {
        assert(name.skip(name.len() - 4).last() == 'n');
    }
    if cache_evict::ends_with(name, ".tmp"@) {
        assert(name.skip(name.len() - 4).last() == 'p');
    }
}

/// An entry of a size that an entry can have is kept, with that size and age,
/// unless it is about to be replaced; one of another size is removed at once.
pub proof fn entries_are_kept_by_size(
    name: Seq<char>,
    size: u64,
    modified: i128,
    bounds: ScanBounds,
)
    requires
        cache_evict::name_class(name) == Some(EntryName::Entry),
    ensures
        ({
            let verdict = cache_evict::file_verdict(
                name,
                FileKind::File { size, modified },
                bounds,
            );
            &&& bounds.replacing == Some(name) ==> verdict == FileVerdict::Ignored
            &&& bounds.replacing != Some(name) && 256 <= size <= bounds.max_entry_bytes ==> verdict
                == FileVerdict::Kept(size, modified)
            &&& bounds.replacing != Some(name) && size < 256 ==> verdict == FileVerdict::Removed
            &&& bounds.replacing != Some(name) && size > bounds.max_entry_bytes ==> verdict
                == FileVerdict::Removed
        }),
{
}

/// Temporary files are removed, whatever they hold.  Directories, files that
/// have gone and the lock are left alone.
pub proof fn temporary_files_are_removed(
    name: Seq<char>,
    size: u64,
    modified: i128,
    kind: FileKind,
    bounds: ScanBounds,
)
    ensures
        cache_evict::name_class(name) == Some(EntryName::Temporary) ==> cache_evict::file_verdict(
            name,
            FileKind::File { size, modified },
            bounds,
        ) == FileVerdict::Removed && cache_evict::file_verdict(name, FileKind::Other, bounds)
            == FileVerdict::Removed,
        cache_evict::file_verdict(name, FileKind::Directory, bounds) == FileVerdict::Ignored,
        cache_evict::file_verdict(name, FileKind::Missing, bounds) == FileVerdict::Ignored,
        cache_evict::name_class(name) == Some(EntryName::Lock) || cache_evict::name_class(name)
            is None ==> cache_evict::file_verdict(name, kind, bounds) == FileVerdict::Ignored,
{
}

/// The size of several entries is the sum of their sizes.
pub proof fn sizes_add_up(entries: Seq<EvictionView>, more: EvictionView)
    ensures
        cache_evict::sizes(entries.push(more)) == cache_evict::sizes(entries) + more.size,
        cache_evict::sizes(Seq::empty()) == 0,
{
    assert(entries.push(more).drop_last() =~= entries);
}

/// What leaves is no younger than what stays, and of one age comes first by
/// name.
pub proof fn the_oldest_leave(
    kept: Seq<EvictionView>,
    total: int,
    maximum: u64,
    victims: Seq<EvictionView>,
    stays: Seq<EvictionView>,
    i: int,
    j: int,
)
    requires
        cache_evict::is_plan(kept, total, maximum, victims, stays),
        0 <= i < victims.len(),
        0 <= j < stays.len(),
    ensures
        victims[i].modified <= stays[j].modified,
        victims[i].modified == stays[j].modified ==> !text::bytes_before(
            stays[j].name,
            victims[i].name,
        ),
{
    assert(!cache_evict::leaves_before(stays[j], victims[i]));
}

/// Nothing leaves a cache that has room, and no more leaves than must: without
/// the last to leave there was no room.  Room is made where it can be.
pub proof fn no_more_leave_than_must(
    kept: Seq<EvictionView>,
    total: int,
    maximum: u64,
    victims: Seq<EvictionView>,
    stays: Seq<EvictionView>,
)
    requires
        cache_evict::is_plan(kept, total, maximum, victims, stays),
    ensures
        total <= maximum ==> victims.len() == 0,
        victims.len() > 0 ==> total - cache_evict::sizes(victims.drop_last()) > maximum,
        total - cache_evict::sizes(victims) <= maximum || stays.len() == 0,
        victims.len() + stays.len() == kept.len(),
        forall|i: int|
            0 <= i < kept.len() ==> victims.contains(#[trigger] kept[i]) || stays.contains(kept[i]),
{
    if victims.len() > 0 {
        assert(victims.take(0) =~= Seq::<EvictionView>::empty());
        let last = victims.len() - 1;
        assert(victims.take(last) =~= victims.drop_last());
        assert(total - cache_evict::sizes(victims.take(0)) > maximum);
        assert(total - cache_evict::sizes(victims.take(last)) > maximum);
    }
    let both = victims + stays;
    both.to_multiset_ensures();
    kept.to_multiset_ensures();
    assert forall|i: int| 0 <= i < kept.len() implies victims.contains(#[trigger] kept[i])
        || stays.contains(kept[i]) by {
        assert(kept.contains(kept[i]));
        assert(both.to_multiset().count(kept[i]) > 0);
        assert(both.contains(kept[i]));
        let k = choose|k: int| 0 <= k < both.len() && both[k] == kept[i];
        if k < victims.len() {
            assert(victims[k] == kept[i]);
        } else {
            assert(stays[k - victims.len()] == kept[i]);
        }
    }
}

/// A directory is read as long as it has no more names than it may, none of
/// them foreign, and what is kept of them fits.
pub proof fn names_are_admitted_within_bounds(scan: ScanView, name: Seq<char>, bounds: ScanBounds)
    ensures
        match cache_evict::name_admitted(scan, name, bounds) {
            Ok(next) => {
                &&& next.directory_entries == scan.directory_entries + 1
                &&& next.directory_entries <= bounds.max_directory_entries
                &&& next.metadata_bytes <= bounds.max_metadata_bytes
                &&& next.metadata_bytes == scan.metadata_bytes + bounds.fixed_cost
                    + vstd::utf8::encode_utf8(name).len()
                &&& next.total == scan.total
                &&& next.kept == scan.kept
                &&& cache_evict::name_class(name) is Some
            },
            Err(_) => {
                ||| scan.directory_entries >= bounds.max_directory_entries
                ||| cache_evict::name_class(name) is None
                ||| scan.metadata_bytes + bounds.fixed_cost + vstd::utf8::encode_utf8(name).len()
                    > bounds.max_metadata_bytes
            },
        },
{
}

} // verus!
