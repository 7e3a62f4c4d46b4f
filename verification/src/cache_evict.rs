//! Decisions of a cache directory: which files belong to it, which entries
//! leave it to make room, and which entries are read.

use vstd::prelude::*;
use vstd::string::*;

use crate::cache_key::{CacheConfig, CacheError, CacheErrorView};
use crate::text;

verus! {

/// Size of the smallest structurally complete entry.
pub const MIN_CACHE_ENTRY_BYTES: u64 = 256;

/// What a file name in a cache directory stands for.
#[derive(Clone, Copy, Debug, PartialEq, Eq, Structural)]
pub enum EntryName {
    Lock,
    Temporary,
    Entry,
}

pub open spec fn ends_with(name: Seq<char>, suffix: Seq<char>) -> bool {
    name.len() >= suffix.len() && name.skip(name.len() - suffix.len()) == suffix
}

/// What a name stands for; nothing for a name that is not the cache's.
pub open spec fn name_class(name: Seq<char>) -> Option<EntryName> {
    if name == ".cache.lock"@ {
        Some(EntryName::Lock)
    } else if ends_with(name, ".tmp"@) {
        Some(EntryName::Temporary)
    } else if ends_with(name, ".bin"@) {
        Some(EntryName::Entry)
    } else {
        None
    }
}

fn has_suffix(name: &str, suffix: &str) -> (has: bool)
    ensures
        has == ends_with(name@, suffix@),
{
    let length: usize = name.unicode_len();
    let wanted: usize = suffix.unicode_len();
    if length < wanted {
        return false;
    }
    let start: usize = length - wanted;
    let ghost tail = name@.skip(start as int);
    let mut index: usize = 0;
    while index < wanted
        invariant
            index <= wanted == suffix@.len(),
            length == name@.len(),
            start == length - wanted,
            length >= wanted,
            tail == name@.skip(start as int),
            forall|i: int| 0 <= i < index ==> tail[i] == suffix@[i],
        decreases wanted - index,
    {
        if name.get_char(start + index) != suffix.get_char(index) {
            assert(tail[index as int] != suffix@[index as int]);
            return false;
        }
        index = index + 1;
    }
    assert(tail =~= suffix@);
    true
}

pub fn classify_name(name: &str) -> (class: Option<EntryName>)
    ensures
        class == name_class(name@),
{
    if text::same_bytes(name.as_bytes(), ".cache.lock".as_bytes()) {
        proof {
            text::string_bytes_determine_chars(name@, ".cache.lock"@);
        }
        Some(EntryName::Lock)
    } else if has_suffix(name, ".tmp") {
        Some(EntryName::Temporary)
    } else if has_suffix(name, ".bin") {
        Some(EntryName::Entry)
    } else {
        None
    }
}

/// What a name in the directory turned out to be.
#[derive(Clone, Copy, Debug, PartialEq, Eq, Structural)]
pub enum FileKind {
    Missing,
    Directory,
    File { size: u64, modified: i128 },
    Other,
}

/// An entry that may leave the cache.
#[derive(Clone, Debug, PartialEq, Eq)]
pub struct EvictionEntry {
    pub modified: i128,
    pub name: String,
    pub size: u64,
}

/// What an eviction entry says.
#[verifier::ext_equal]
pub struct EvictionView {
    pub modified: i128,
    pub name: Seq<u8>,
    pub size: u64,
}

impl View for EvictionEntry {
    type V = EvictionView;

    open spec fn view(&self) -> EvictionView {
        EvictionView {
            modified: self.modified,
            name: text::string_bytes(self.name),
            size: self.size,
        }
    }
}

/// Older entries leave first; of the same age, those with the lesser name.
pub open spec fn leaves_before(a: EvictionView, b: EvictionView) -> bool {
    a.modified < b.modified || (a.modified == b.modified && text::bytes_before(a.name, b.name))
}

fn entry_precedes(a: &EvictionEntry, b: &EvictionEntry) -> (before: bool)
    ensures
        before == leaves_before(a@, b@),
{
    a.modified < b.modified || (a.modified == b.modified && text::bytes_precede(
        a.name.as_str().as_bytes(),
        b.name.as_str().as_bytes(),
    ))
}

pub open spec fn entry_views(entries: Seq<EvictionEntry>) -> Seq<EvictionView> {
    entries.map_values(|e: EvictionEntry| e@)
}

pub open spec fn sizes(entries: Seq<EvictionView>) -> int
    decreases entries.len(),
{
    if entries.len() == 0 {
        0
    } else {
        sizes(entries.drop_last()) + entries.last().size
    }
}

/// What a scan of a cache directory has found so far.
#[verifier::ext_equal]
pub struct ScanView {
    pub directory_entries: int,
    pub metadata_bytes: int,
    /// Incoming bytes and those of all kept entries.
    pub total: int,
    pub kept: Seq<EvictionView>,
}

/// A scan of a cache directory that makes room for an incoming entry.
pub struct EvictionScan {
    maximum: u64,
    max_entry_bytes: u64,
    max_directory_entries: u64,
    max_metadata_bytes: u64,
    fixed_cost: u64,
    replacing: Option<String>,
    incoming: u64,
    directory_entries: u64,
    metadata_bytes: u64,
    total: u64,
    entries: Vec<EvictionEntry>,
}

/// The bounds of a scan and the entry that is being replaced.
#[verifier::ext_equal]
pub struct ScanBounds {
    pub maximum: u64,
    pub max_entry_bytes: u64,
    pub max_directory_entries: u64,
    pub max_metadata_bytes: u64,
    /// Metadata bytes that each name costs besides its text.
    pub fixed_cost: u64,
    pub replacing: Option<Seq<char>>,
    pub incoming: u64,
}

impl View for EvictionScan {
    type V = ScanView;

    closed spec fn view(&self) -> ScanView {
        ScanView {
            directory_entries: self.directory_entries as int,
            metadata_bytes: self.metadata_bytes as int,
            total: self.total as int,
            kept: entry_views(self.entries@),
        }
    }
}

/// Why a name ends the scan; otherwise the scan with the name counted.
pub open spec fn name_admitted(scan: ScanView, name: Seq<char>, bounds: ScanBounds) -> Result<
    ScanView,
    CacheErrorView,
> {
    let count = scan.directory_entries + 1;
    let bytes = scan.metadata_bytes + bounds.fixed_cost + vstd::utf8::encode_utf8(name).len();
    if count > bounds.max_directory_entries {
        Err(CacheErrorView::DirectoryEntryLimit(bounds.max_directory_entries))
    } else if name_class(name) is None {
        Err(CacheErrorView::UnknownEntry(name))
    } else if bytes > bounds.max_metadata_bytes {
        Err(CacheErrorView::DirectoryMetadataLimit(bounds.max_metadata_bytes))
    } else {
        Ok(ScanView { directory_entries: count, metadata_bytes: bytes, ..scan })
    }
}

/// What is done with a file of the cache directory.
pub enum FileVerdict {
    /// The file stays and does not count.
    Ignored,
    /// The file is removed at once.
    Removed,
    /// The file is an entry that counts.
    Kept(u64, i128),
}

pub open spec fn file_verdict(name: Seq<char>, kind: FileKind, bounds: ScanBounds) -> FileVerdict {
    match (name_class(name), kind) {
        (Some(EntryName::Temporary), FileKind::Missing) => FileVerdict::Ignored,
        (Some(EntryName::Temporary), FileKind::Directory) => FileVerdict::Ignored,
        (Some(EntryName::Temporary), _) => FileVerdict::Removed,
        (Some(EntryName::Entry), FileKind::Other) => FileVerdict::Removed,
        (Some(EntryName::Entry), FileKind::File { size, modified }) => if bounds.replacing == Some(
            name,
        ) {
            FileVerdict::Ignored
        } else if size < MIN_CACHE_ENTRY_BYTES || size > bounds.max_entry_bytes {
            FileVerdict::Removed
        } else {
            FileVerdict::Kept(size, modified)
        },
        _ => FileVerdict::Ignored,
    }
}

impl EvictionScan {
    pub closed spec fn bounds(&self) -> ScanBounds {
        ScanBounds {
            maximum: self.maximum,
            max_entry_bytes: self.max_entry_bytes,
            max_directory_entries: self.max_directory_entries,
            max_metadata_bytes: self.max_metadata_bytes,
            fixed_cost: self.fixed_cost,
            replacing: match self.replacing {
                Some(name) => Some(name@),
                None => None,
            },
            incoming: self.incoming,
        }
    }

    /// The total is that of the incoming entry and all kept entries.
    pub closed spec fn wf(&self) -> bool {
        self.total == self.incoming + sizes(entry_views(self.entries@))
    }

    /// What the invariant says of the public state.
    pub proof fn total_is_exact(&self)
        requires
            self.wf(),
        ensures
            self@.total == self.bounds().incoming + sizes(self@.kept),
    {
    }

    /// Starts a scan for an incoming entry.
    pub fn new(config: &CacheConfig, incoming: u64, replacing: Option<String>, fixed_cost: u64) -> (scan:
        Self)
        ensures
            scan.wf(),
            scan@ == (ScanView {
                directory_entries: 0,
                metadata_bytes: 0,
                total: incoming as int,
                kept: Seq::empty(),
            }),
            scan.bounds() == (ScanBounds {
                maximum: config.max_bytes,
                max_entry_bytes: config.max_entry_bytes,
                max_directory_entries: config.max_directory_entries,
                max_metadata_bytes: config.max_metadata_bytes,
                fixed_cost,
                replacing: match replacing {
                    Some(name) => Some(name@),
                    None => None,
                },
                incoming,
            }),
    {
        let scan = EvictionScan {
            maximum: config.max_bytes,
            max_entry_bytes: config.max_entry_bytes,
            max_directory_entries: config.max_directory_entries,
            max_metadata_bytes: config.max_metadata_bytes,
            fixed_cost,
            replacing,
            incoming,
            directory_entries: 0,
            metadata_bytes: 0,
            total: incoming,
            entries: Vec::new(),
        };
        assert(entry_views(scan.entries@) =~= Seq::<EvictionView>::empty());
        scan
    }

    /// Counts a name of the directory and says what it stands for.
    pub fn admit_name(&mut self, name: &str) -> (result: Result<EntryName, CacheError>)
        requires
            old(self).wf(),
        ensures
            final(self).wf(),
            final(self).bounds() == old(self).bounds(),
            match result {
                Ok(class) => name_class(name@) == Some(class) && name_admitted(
                    old(self)@,
                    name@,
                    old(self).bounds(),
                ) == Ok::<ScanView, CacheErrorView>(final(self)@),
                Err(e) => name_admitted(old(self)@, name@, old(self).bounds()) == Err::<
                    ScanView,
                    CacheErrorView,
                >(e@),
            },
    {
        let limit: u64 = self.max_directory_entries;
        if self.directory_entries >= limit {
            return Err(CacheError::DirectoryEntryLimit { limit });
        }
        let class = match classify_name(name) {
            Some(class) => class,
            None => {
                return Err(CacheError::UnknownEntry { name: name.to_owned() });
            },
        };
        let cost = match eviction_metadata_cost(
            name.as_bytes().len(),
            self.fixed_cost,
            self.max_metadata_bytes,
        ) {
            Ok(cost) => cost,
            Err(e) => return Err(e),
        };
        let bytes: u64 = match self.metadata_bytes.checked_add(cost) {
            Some(bytes) => bytes,
            None => {
                return Err(CacheError::DirectoryMetadataLimit { limit: self.max_metadata_bytes });
            },
        };
        if bytes > self.max_metadata_bytes {
            return Err(CacheError::DirectoryMetadataLimit { limit: self.max_metadata_bytes });
        }
        self.directory_entries = self.directory_entries + 1;
        self.metadata_bytes = bytes;
        Ok(class)
    }

    /// Decides about a file of the directory.  Gives whether it is removed.
    pub fn inspect(&mut self, name: &str, kind: FileKind) -> (result: Result<bool, CacheError>)
        requires
            old(self).wf(),
        ensures
            final(self).wf(),
            final(self).bounds() == old(self).bounds(),
            match file_verdict(name@, kind, old(self).bounds()) {
                FileVerdict::Ignored => result == Ok::<bool, CacheError>(false) && final(self)@
                    == old(self)@,
                FileVerdict::Removed => result == Ok::<bool, CacheError>(true) && final(self)@
                    == old(self)@,
                FileVerdict::Kept(size, modified) => if old(self)@.total + size > u64::MAX {
                    result matches Err(e) && e@ == CacheErrorView::EntryTooLarge(
                        u64::MAX,
                        old(self).bounds().maximum,
                    )
                } else {
                    &&& result == Ok::<bool, CacheError>(false)
                    &&& final(self)@ == (ScanView {
                        total: old(self)@.total + size,
                        kept: old(self)@.kept.push(
                            EvictionView {
                                modified,
                                name: vstd::utf8::encode_utf8(name@),
                                size,
                            },
                        ),
                        ..old(self)@
                    })
                },
            },
    {
        let class = match classify_name(name) {
            Some(class) => class,
            None => {
                return Ok(false);
            },
        };
        match class {
            EntryName::Lock => Ok(false),
            EntryName::Temporary => match kind {
                FileKind::Missing => Ok(false),
                FileKind::Directory => Ok(false),
                _ => Ok(true),
            },
            EntryName::Entry => match kind {
                FileKind::Missing => Ok(false),
                FileKind::Directory => Ok(false),
                FileKind::Other => Ok(true),
                FileKind::File { size, modified } => {
                    let replaced = match &self.replacing {
                        Some(target) => {
                            let same = text::same_bytes(
                                target.as_str().as_bytes(),
                                name.as_bytes(),
                            );
                            proof {
                                if same {
                                    text::string_bytes_determine_chars(target@, name@);
                                }
                            }
                            same
                        },
                        None => false,
                    };
                    if replaced {
                        return Ok(false);
                    }
                    if size < MIN_CACHE_ENTRY_BYTES || size > self.max_entry_bytes {
                        return Ok(true);
                    }
                    let total: u64 = match self.total.checked_add(size) {
                        Some(total) => total,
                        None => {
                            return Err(
                                CacheError::EntryTooLarge { size: u64::MAX, maximum: self.maximum },
                            );
                        },
                    };
                    let ghost before = entry_views(self.entries@);
                    let entry = EvictionEntry { modified, name: name.to_owned(), size };
                    let ghost seen = entry@;
                    self.entries.push(entry);
                    self.total = total;
                    proof {
                        let after = entry_views(self.entries@);
                        assert(after =~= before.push(seen));
                        assert(after.drop_last() =~= before);
                    }
                    Ok(false)
                },
            },
        }
    }
}

/// What one name costs of the metadata budget.
pub fn eviction_metadata_cost(name_bytes: usize, fixed_cost: u64, limit: u64) -> (result: Result<
    u64,
    CacheError,
>)
    ensures
        match result {
            Ok(cost) => cost == fixed_cost + name_bytes,
            Err(e) => fixed_cost + name_bytes > u64::MAX && e@
                == CacheErrorView::DirectoryMetadataLimit(limit),
        },
{
    match fixed_cost.checked_add(name_bytes as u64) {
        Some(cost) => Ok(cost),
        None => Err(CacheError::DirectoryMetadataLimit { limit }),
    }
}

proof fn leaving_is_transitive(a: EvictionView, b: EvictionView, c: EvictionView)
    requires
        leaves_before(a, b),
        leaves_before(b, c),
    ensures
        leaves_before(a, c),
{
    if a.modified == b.modified && b.modified == c.modified {
        text::bytes_order_is_transitive(a.name, b.name, c.name);
    }
}

/// No entry of a list leaves before a given one.
pub open spec fn oldest_of(entries: Seq<EvictionView>, oldest: EvictionView) -> bool {
    forall|j: int| 0 <= j < entries.len() ==> !leaves_before(#[trigger] entries[j], oldest)
}

/// Where an entry stands before which no other leaves.
fn oldest_entry(entries: &Vec<EvictionEntry>) -> (at: usize)
    requires
        entries@.len() > 0,
    ensures
        at < entries@.len(),
        oldest_of(entry_views(entries@), entries@[at as int]@),
{
    let ghost views = entry_views(entries@);
    let mut best: usize = 0;
    let mut index: usize = 1;
    proof {
        never_before_itself(views[0]);
    }
    while index < entries.len()
        invariant
            best < index <= entries@.len(),
            views == entry_views(entries@),
            forall|j: int|
                0 <= j < index ==> !leaves_before(#[trigger] views[j], views[best as int]),
        decreases entries@.len() - index,
    {
        if entry_precedes(&entries[index], &entries[best]) {
            proof {
                assert forall|j: int| 0 <= j < index + 1 implies !leaves_before(
                    #[trigger] views[j],
                    views[index as int],
                ) by {
                    if j < index && leaves_before(views[j], views[index as int]) {
                        leaving_is_transitive(views[j], views[index as int], views[best as int]);
                    }
                    never_before_itself(views[index as int]);
                }
            }
            best = index;
        }
        index = index + 1;
    }
    best
}

proof fn never_before_itself(e: EvictionView)
    ensures
        !leaves_before(e, e),
{
    text::no_bytes_before_themselves(e.name);
}

/// Which entries leave the cache to make room.
pub struct EvictionPlan {
    /// The entries that leave, in the order in which they leave.
    pub victims: Vec<EvictionEntry>,
    /// The entries that stay.
    pub stays: Vec<EvictionEntry>,
    /// Whether the quota holds once the victims are gone.
    pub enforced: bool,
}

/// Entries leave oldest first.
pub open spec fn leaves_in_order(victims: Seq<EvictionView>, stays: Seq<EvictionView>) -> bool {
    &&& forall|i: int, j: int|
        0 <= i < j < victims.len() ==> !leaves_before(#[trigger] victims[j], #[trigger] victims[i])
    &&& forall|i: int, j: int|
        0 <= i < victims.len() && 0 <= j < stays.len() ==> !leaves_before(
            #[trigger] stays[j],
            #[trigger] victims[i],
        )
}

/// Each victim was still needed when it left.
pub open spec fn leaves_as_needed(victims: Seq<EvictionView>, total: int, maximum: u64) -> bool {
    forall|k: int|
        0 <= k < victims.len() ==> total - sizes(#[trigger] victims.take(k)) > maximum
}

/// The oldest entries leave until the quota holds.
pub open spec fn is_plan(
    kept: Seq<EvictionView>,
    total: int,
    maximum: u64,
    victims: Seq<EvictionView>,
    stays: Seq<EvictionView>,
) -> bool {
    &&& (victims + stays).to_multiset() == kept.to_multiset()
    &&& leaves_in_order(victims, stays)
    &&& leaves_as_needed(victims, total, maximum)
    &&& total - sizes(victims) <= maximum || stays.len() == 0
}

impl EvictionScan {
    /// Ends the scan: the oldest entries leave until the quota holds.
    pub fn plan(self) -> (plan: EvictionPlan)
        requires
            self.wf(),
        ensures
            ({
                let victims = entry_views(plan.victims@);
                let stays = entry_views(plan.stays@);
                let total = self@.total;
                let maximum = self.bounds().maximum;
                &&& is_plan(self@.kept, total, maximum, victims, stays)
                &&& plan.enforced == (total - sizes(victims) <= maximum)
                &&& total - sizes(victims) == self.bounds().incoming + sizes(stays)
            }),
    {
        let maximum: u64 = self.maximum;
        let mut total: u64 = self.total;
        let ghost start = self.total as int;
        let ghost kept = entry_views(self.entries@);
        let ghost incoming = self.incoming as int;
        let mut stays: Vec<EvictionEntry> = self.entries;
        let mut victims: Vec<EvictionEntry> = Vec::new();
        assert(entry_views(victims@) =~= Seq::<EvictionView>::empty());
        assert(entry_views(victims@) + entry_views(stays@) =~= kept);
        while total > maximum && stays.len() > 0
            invariant
                (entry_views(victims@) + entry_views(stays@)).to_multiset() == kept.to_multiset(),
                leaves_in_order(entry_views(victims@), entry_views(stays@)),
                leaves_as_needed(entry_views(victims@), start, maximum),
                total == start - sizes(entry_views(victims@)),
                total == incoming + sizes(entry_views(stays@)),
                incoming >= 0,
            decreases stays.len(),
        {
            let ghost left = entry_views(victims@);
            let ghost here = entry_views(stays@);
            let at: usize = oldest_entry(&stays);
            let ghost chosen = here[at as int];
            let victim = stays.remove(at);
            assert(victim@ == chosen);
            proof {
                removed_entry(here, at as int);
                sizes_after_removal(here, at as int);
                sizes_are_nonnegative(here.remove(at as int));
            }
            total = total - victim.size;
            victims.push(victim);
            proof {
                let now = entry_views(victims@);
                let rest = entry_views(stays@);
                assert(now =~= left.push(chosen));
                assert(rest =~= here.remove(at as int));
                assert(now.drop_last() =~= left);
                moved_entry(left, here, at as int);
                assert forall|i: int, j: int| 0 <= i < j < now.len() implies !leaves_before(
                    #[trigger] now[j],
                    #[trigger] now[i],
                ) by {
                    if j == left.len() {
                        assert(!leaves_before(here[at as int], left[i]));
                    }
                }
                assert forall|i: int, j: int|
                    0 <= i < now.len() && 0 <= j < rest.len() implies !leaves_before(
                    #[trigger] rest[j],
                    #[trigger] now[i],
                ) by {
                    let from = if j < at {
                        j
                    } else {
                        j + 1
                    };
                    assert(rest[j] == here[from]);
                }
                assert forall|k: int| 0 <= k < now.len() implies start - sizes(
                    #[trigger] now.take(k),
                ) > maximum by {
                    if k < left.len() {
                        assert(now.take(k) =~= left.take(k));
                    } else {
                        assert(now.take(k) =~= left);
                    }
                }
            }
        }
        let enforced = total <= maximum;
        EvictionPlan { victims, stays, enforced }
    }
}

proof fn removed_entry(entries: Seq<EvictionView>, at: int)
    requires
        0 <= at < entries.len(),
    ensures
        entries.to_multiset() == entries.remove(at).to_multiset().insert(entries[at]),
{
    broadcast use vstd::seq_lib::group_to_multiset_ensures;

    assert(entries.remove(at).insert(at, entries[at]) =~= entries);
    assert(entries.to_multiset() =~= entries.remove(at).to_multiset().insert(entries[at]));
}

proof fn moved_entry(left: Seq<EvictionView>, here: Seq<EvictionView>, at: int)
    requires
        0 <= at < here.len(),
    ensures
        (left.push(here[at]) + here.remove(at)).to_multiset() == (left + here).to_multiset(),
{
    broadcast use vstd::seq_lib::group_to_multiset_ensures;

    removed_entry(here, at);
    vstd::seq_lib::lemma_multiset_commutative(left, here);
    vstd::seq_lib::lemma_multiset_commutative(left.push(here[at]), here.remove(at));
    assert((left.push(here[at]) + here.remove(at)).to_multiset() =~= (left + here).to_multiset());
}

proof fn sizes_are_nonnegative(entries: Seq<EvictionView>)
    ensures
        sizes(entries) >= 0,
    decreases entries.len(),
{
    if entries.len() > 0 {
        sizes_are_nonnegative(entries.drop_last());
    }
}

proof fn sizes_after_removal(entries: Seq<EvictionView>, at: int)
    requires
        0 <= at < entries.len(),
    ensures
        sizes(entries) == sizes(entries.remove(at)) + entries[at].size,
    decreases entries.len(),
{
    if at == entries.len() - 1 {
        assert(entries.remove(at) =~= entries.drop_last());
    } else {
        sizes_after_removal(entries.drop_last(), at);
        assert(entries.remove(at).drop_last() =~= entries.drop_last().remove(at));
        assert(entries.remove(at).last() == entries.last());
    }
}

/// No two entries have one name.
pub open spec fn names_differ(entries: Seq<EvictionView>) -> bool {
    forall|i: int, j: int|
        0 <= i < j < entries.len() ==> (#[trigger] entries[i]).name != (#[trigger] entries[j]).name
}

/// Every entry of a plan is one of the kept entries, and none occurs twice.
proof fn plan_has_kept_entries(
    kept: Seq<EvictionView>,
    victims: Seq<EvictionView>,
    stays: Seq<EvictionView>,
)
    requires
        names_differ(kept),
        (victims + stays).to_multiset() == kept.to_multiset(),
    ensures
        (victims + stays).no_duplicates(),
        victims.len() + stays.len() == kept.len(),
        forall|x: EvictionView| #[trigger] kept.contains(x) <==> (victims + stays).contains(x),
{
    broadcast use vstd::seq_lib::group_to_multiset_ensures;

    let all = victims + stays;
    assert(kept.no_duplicates());
    kept.lemma_multiset_has_no_duplicates();
    all.lemma_multiset_has_no_duplicates_conv();
    assert(all.len() == all.to_multiset().len());
    assert(kept.len() == kept.to_multiset().len());
    assert forall|x: EvictionView| #[trigger] kept.contains(x) <==> all.contains(x) by {
        assert(kept.contains(x) <==> kept.to_multiset().count(x) > 0);
        assert(all.contains(x) <==> all.to_multiset().count(x) > 0);
    }
}

/// Where the same entries have left, the next victim of another plan is not
/// before the next victim of this one.
proof fn next_victim_is_oldest(
    kept: Seq<EvictionView>,
    victims: Seq<EvictionView>,
    stays: Seq<EvictionView>,
    others: Seq<EvictionView>,
    rest: Seq<EvictionView>,
    k: int,
)
    requires
        names_differ(kept),
        (victims + stays).to_multiset() == kept.to_multiset(),
        (others + rest).to_multiset() == kept.to_multiset(),
        leaves_in_order(victims, stays),
        0 <= k < victims.len(),
        k < others.len(),
        victims.take(k) == others.take(k),
    ensures
        !leaves_before(others[k], victims[k]),
        kept.contains(others[k]),
        kept.contains(victims[k]),
{
    plan_has_kept_entries(kept, victims, stays);
    plan_has_kept_entries(kept, others, rest);
    let all = victims + stays;
    let x = others[k];
    assert((others + rest)[k] == x);
    assert(all[k] == victims[k]);
    assert((others + rest).contains(x));
    assert(kept.contains(x));
    assert(all.contains(all[k]));
    assert(kept.contains(all[k]));
    let j = choose|j: int| 0 <= j < all.len() && all[j] == x;
    if j < k {
        assert(victims.take(k)[j] == others.take(k)[j]);
        assert((others + rest)[j] == others[j]);
        assert(false);
    }
    if j == k {
        never_before_itself(victims[k]);
    } else if j < victims.len() {
        assert(victims[j] == x);
    } else {
        assert(stays[j - victims.len()] == x);
    }
}

/// The victims of two plans for the same entries agree as far as both go.
proof fn plans_agree(
    kept: Seq<EvictionView>,
    victims: Seq<EvictionView>,
    stays: Seq<EvictionView>,
    others: Seq<EvictionView>,
    rest: Seq<EvictionView>,
    k: int,
)
    requires
        names_differ(kept),
        (victims + stays).to_multiset() == kept.to_multiset(),
        (others + rest).to_multiset() == kept.to_multiset(),
        leaves_in_order(victims, stays),
        leaves_in_order(others, rest),
        0 <= k <= victims.len(),
        k <= others.len(),
    ensures
        victims.take(k) == others.take(k),
    decreases k,
{
    if k == 0 {
        assert(victims.take(0) =~= others.take(0));
    } else {
        plans_agree(kept, victims, stays, others, rest, k - 1);
        next_victim_is_oldest(kept, victims, stays, others, rest, k - 1);
        next_victim_is_oldest(kept, others, rest, victims, stays, k - 1);
        let a = victims[k - 1];
        let b = others[k - 1];
        text::bytes_order_is_total(a.name, b.name);
        let i = choose|i: int| 0 <= i < kept.len() && kept[i] == a;
        let j = choose|j: int| 0 <= j < kept.len() && kept[j] == b;
        assert(kept[i].name == kept[j].name);
        assert(a == b);
        assert(victims.take(k) =~= victims.take(k - 1).push(a));
        assert(others.take(k) =~= others.take(k - 1).push(b));
    }
}

/// Which entries leave, and in which order, is determined by what a directory
/// holds.
pub proof fn eviction_is_deterministic(
    kept: Seq<EvictionView>,
    total: int,
    maximum: u64,
    victims: Seq<EvictionView>,
    stays: Seq<EvictionView>,
    others: Seq<EvictionView>,
    rest: Seq<EvictionView>,
)
    requires
        names_differ(kept),
        is_plan(kept, total, maximum, victims, stays),
        is_plan(kept, total, maximum, others, rest),
    ensures
        victims == others,
{
    plan_has_kept_entries(kept, victims, stays);
    plan_has_kept_entries(kept, others, rest);
    let shared = if victims.len() < others.len() {
        victims.len() as int
    } else {
        others.len() as int
    };
    plans_agree(kept, victims, stays, others, rest, shared);
    assert(victims.take(victims.len() as int) =~= victims);
    assert(others.take(others.len() as int) =~= others);
    if victims.len() < others.len() {
        assert(total - sizes(others.take(shared)) > maximum);
    } else if others.len() < victims.len() {
        assert(total - sizes(victims.take(shared)) > maximum);
    }
}

/// Whether a directory is private to its owner.
pub fn unix_directory_is_private(mode: u32, owner: u32, user: u32) -> (private: bool)
    ensures
        private == (mode & 0o077 == 0 && owner == user),
{
    mode & 0o077 == 0 && owner == user
}

/// What to do with the file that an entry's name leads to.
#[derive(Clone, Copy, Debug, PartialEq, Eq, Structural)]
pub enum LoadStep {
    /// There is no entry.
    Miss,
    /// What is there is no entry; it is removed.
    Discard,
    /// An entry of this size may be read.
    Read(usize),
}

/// Decides whether the file under an entry's name is read at all.
pub fn inspect_entry(kind: FileKind, max_entry_bytes: u64) -> (step: LoadStep)
    ensures
        step == match kind {
            FileKind::Missing => LoadStep::Miss,
            FileKind::Directory => LoadStep::Discard,
            FileKind::Other => LoadStep::Discard,
            FileKind::File { size, modified } => if size > max_entry_bytes || size > usize::MAX {
                LoadStep::Discard
            } else {
                LoadStep::Read(size as usize)
            },
        },
{
    match kind {
        FileKind::Missing => LoadStep::Miss,
        FileKind::Directory => LoadStep::Discard,
        FileKind::Other => LoadStep::Discard,
        FileKind::File { size, modified: _ } => {
            if size > max_entry_bytes || size > usize::MAX as u64 {
                LoadStep::Discard
            } else {
                LoadStep::Read(size as usize)
            }
        },
    }
}

/// The bytes that a new entry needs while the one it replaces is still there.
pub fn quota_incoming(incoming: u64, replaced: u64, config: &CacheConfig) -> (result: Result<
    u64,
    CacheError,
>)
    ensures
        match result {
            Ok(total) => total == incoming + replaced,
            Err(e) => incoming + replaced > u64::MAX && e@ == CacheErrorView::EntryTooLarge(
                u64::MAX,
                config.max_bytes,
            ),
        },
{
    match incoming.checked_add(replaced) {
        Some(total) => Ok(total),
        None => Err(CacheError::EntryTooLarge { size: u64::MAX, maximum: config.max_bytes }),
    }
}

/// The well-known security identifier of owner rights.
pub struct WindowsOwnerRightsSid(pub [u8; 12]);

/// `S-1-3-4`, the identifier that private directories grant rights to.
pub fn windows_owner_rights_sid() -> (sid: WindowsOwnerRightsSid)
    ensures
        sid.0@ == seq![1u8, 1u8, 0u8, 0u8, 0u8, 0u8, 0u8, 3u8, 4u8, 0u8, 0u8, 0u8],
{
    let bytes: [u8; 12] = [1, 1, 0, 0, 0, 0, 0, 3, 4, 0, 0, 0];
    assert(bytes@ =~= seq![1u8, 1u8, 0u8, 0u8, 0u8, 0u8, 0u8, 3u8, 4u8, 0u8, 0u8, 0u8]);
    WindowsOwnerRightsSid(bytes)
}

/// Whether the bytes of an identifier are those of owner rights.
pub fn windows_owner_rights_sid_matches(sid: &[u8]) -> (matches: bool)
    ensures
        matches == (sid@ == seq![
            1u8,
            1u8,
            0u8,
            0u8,
            0u8,
            0u8,
            0u8,
            3u8,
            4u8,
            0u8,
            0u8,
            0u8,
        ]),
{
    let expected = windows_owner_rights_sid();
    text::same_bytes(sid, expected.0.as_slice())
}

} // verus!
