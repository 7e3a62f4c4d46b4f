//! The catalog that interns paths and contributors.
//!
//! Paths and contributors get identities in the order in which they were
//! first interned; interning the same text again gives the same identity.

use vstd::prelude::*;
use vstd::string::*;

use crate::model;
use crate::model::{ContributorId, PathId, RepositoryPath, CATALOG_SCHEMA_VERSION};
use crate::palette;
use crate::palette::stable_hash;
use crate::text;
use crate::text_index;
use crate::text_index::TextIndex;

verus! {

/// Bounds on what a catalog holds.
#[derive(Clone, Copy, Debug, PartialEq, Eq, Structural)]
pub struct CatalogLimits {
    pub path_bytes: usize,
    pub contributor_bytes: usize,
    pub path_components: usize,
    pub max_paths: usize,
    pub max_contributors: usize,
}

/// Why a path or contributor cannot be interned.
#[derive(Clone, Copy, Debug, PartialEq, Eq, Structural)]
pub enum CatalogError {
    /// The path is not acceptable within the catalog's path bounds.
    PathRejected,
    /// The contributor is longer than the catalog's bound.
    ContributorTooLong,
    /// No further path identity is available.
    PathLimit,
    /// No further contributor identity is available.
    ContributorLimit,
}

/// The text of a catalog error.
pub open spec fn catalog_error_text(error: CatalogError) -> Seq<char> {
    match error {
        CatalogError::PathRejected => "path exceeds the catalog path bounds"@,
        CatalogError::ContributorTooLong => "contributor exceeds the catalog byte bound"@,
        CatalogError::PathLimit => "catalog path limit reached"@,
        CatalogError::ContributorLimit => "catalog contributor limit reached"@,
    }
}

impl CatalogError {
    pub fn as_str(&self) -> (text: &'static str)
        ensures
            text@ == catalog_error_text(*self),
    {
        match self {
            CatalogError::PathRejected => "path exceeds the catalog path bounds",
            CatalogError::ContributorTooLong => "contributor exceeds the catalog byte bound",
            CatalogError::PathLimit => "catalog path limit reached",
            CatalogError::ContributorLimit => "catalog contributor limit reached",
        }
    }
}

/// What a catalog holds: canonical texts in identity order.
#[verifier::ext_equal]
pub struct CatalogView {
    pub limits: CatalogLimits,
    pub paths: Seq<Seq<u8>>,
    pub contributors: Seq<Seq<u8>>,
}

/// Interned paths and contributors.
#[derive(Clone, Debug, PartialEq, Eq)]
pub struct Catalog {
    pub limits: CatalogLimits,
    pub path_list: Vec<RepositoryPath>,
    pub contributor_list: Vec<String>,
    pub path_index: TextIndex,
    pub contributor_index: TextIndex,
}

impl View for Catalog {
    type V = CatalogView;

    open spec fn view(&self) -> CatalogView {
        CatalogView {
            limits: self.limits,
            paths: self.path_list@.map_values(|p: RepositoryPath| p.bytes()),
            contributors: self.contributor_list@.map_values(|c: String| text::string_bytes(c)),
        }
    }
}

/// An empty catalog.
pub open spec fn empty_catalog(limits: CatalogLimits) -> CatalogView {
    CatalogView { limits, paths: Seq::empty(), contributors: Seq::empty() }
}

/// A path is acceptable to a catalog with these limits.
pub open spec fn admits_path(limits: CatalogLimits, path: Seq<u8>) -> bool {
    model::acceptable_path(path, limits.path_bytes, limits.path_components)
}

impl CatalogView {
    /// Whether one more path identity is available.
    pub open spec fn path_room(self) -> bool {
        self.paths.len() < self.limits.max_paths && self.paths.len() < u32::MAX
    }

    /// Whether one more contributor identity is available.
    pub open spec fn contributor_room(self) -> bool {
        self.contributors.len() < self.limits.max_contributors && self.contributors.len() < u32::MAX
    }

    /// The catalog after interning a path.
    pub open spec fn with_path(self, path: Seq<u8>) -> CatalogView {
        if self.paths.contains(path) {
            self
        } else {
            CatalogView { paths: self.paths.push(path), ..self }
        }
    }

    /// The catalog after interning a contributor.
    pub open spec fn with_contributor(self, contributor: Seq<u8>) -> CatalogView {
        if self.contributors.contains(contributor) {
            self
        } else {
            CatalogView { contributors: self.contributors.push(contributor), ..self }
        }
    }

    /// Why a path cannot be interned.
    pub open spec fn path_error(self, path: Seq<u8>) -> Option<CatalogError> {
        if !admits_path(self.limits, path) {
            Some(CatalogError::PathRejected)
        } else if !self.paths.contains(path) && !self.path_room() {
            Some(CatalogError::PathLimit)
        } else {
            None
        }
    }

    /// Why a contributor cannot be interned.
    pub open spec fn contributor_error(self, contributor: Seq<u8>) -> Option<CatalogError> {
        if contributor.len() > self.limits.contributor_bytes {
            Some(CatalogError::ContributorTooLong)
        } else if !self.contributors.contains(contributor) && !self.contributor_room() {
            Some(CatalogError::ContributorLimit)
        } else {
            None
        }
    }

    /// No text is interned twice, and every text is within the limits.
    pub open spec fn wf(self) -> bool {
        &&& self.paths.no_duplicates()
        &&& self.contributors.no_duplicates()
        &&& self.paths.len() <= self.limits.max_paths
        &&& self.contributors.len() <= self.limits.max_contributors
        &&& self.paths.len() <= u32::MAX
        &&& self.contributors.len() <= u32::MAX
        &&& forall|i: int|
            0 <= i < self.paths.len() ==> admits_path(self.limits, #[trigger] self.paths[i])
        &&& forall|i: int|
            0 <= i < self.contributors.len() ==> (#[trigger] self.contributors[i]).len()
                <= self.limits.contributor_bytes
    }
}

impl Catalog {
    /// The catalog's texts are canonical, distinct and within the limits.
    pub open spec fn wf(&self) -> bool {
        &&& self@.wf()
        &&& forall|i: int| 0 <= i < self.path_list@.len() ==> (#[trigger] self.path_list@[i]).wf()
        &&& self.path_index.indexes(self@.paths)
        &&& self.contributor_index.indexes(self@.contributors)
    }

    pub fn with_limits(limits: CatalogLimits) -> (catalog: Self)
        ensures
            catalog@ == empty_catalog(limits),
            catalog.wf(),
    {
        let catalog = Catalog {
            limits,
            path_list: Vec::new(),
            contributor_list: Vec::new(),
            path_index: TextIndex::new(),
            contributor_index: TextIndex::new(),
        };
        assert(catalog@.paths =~= Seq::<Seq<u8>>::empty());
        assert(catalog@.contributors =~= Seq::<Seq<u8>>::empty());
        catalog
    }

    pub fn version(&self) -> (version: u16)
        ensures
            version == CATALOG_SCHEMA_VERSION,
    {
        CATALOG_SCHEMA_VERSION
    }

    pub fn paths(&self) -> (paths: &[RepositoryPath])
        ensures
            paths@ == self.path_list@,
    {
        self.path_list.as_slice()
    }

    pub fn contributors(&self) -> (contributors: &[String])
        ensures
            contributors@ == self.contributor_list@,
    {
        self.contributor_list.as_slice()
    }

    pub fn path_count(&self) -> (count: usize)
        ensures
            count == self@.paths.len(),
    {
        self.path_list.len()
    }

    pub fn contributor_count(&self) -> (count: usize)
        ensures
            count == self@.contributors.len(),
    {
        self.contributor_list.len()
    }

    /// The path with an identity.
    pub fn path(&self, id: PathId) -> (path: Option<&RepositoryPath>)
        ensures
            path is Some <==> 1 <= id.value <= self@.paths.len(),
            path matches Some(p) ==> *p == self.path_list@[id.value - 1] && p.bytes()
                == self@.paths[id.value - 1],
    {
        let index: usize = id.value as usize;
        if 1 <= index && index <= self.path_list.len() {
            Some(&self.path_list[index - 1])
        } else {
            None
        }
    }

    /// The contributor with an identity.
    pub fn contributor(&self, id: ContributorId) -> (contributor: Option<&str>)
        ensures
            contributor is Some <==> 1 <= id.value <= self@.contributors.len(),
            contributor matches Some(c) ==> c.spec_bytes() == self@.contributors[id.value - 1],
    {
        let index: usize = id.value as usize;
        if 1 <= index && index <= self.contributor_list.len() {
            Some(self.contributor_list[index - 1].as_str())
        } else {
            None
        }
    }

    /// Where a canonical path is interned.
    pub fn find_path(&self, path: &RepositoryPath) -> (found: Option<usize>)
        requires
            self.wf(),
        ensures
            found is Some <==> self@.paths.contains(path.bytes()),
            found matches Some(index) ==> index < self@.paths.len() && self@.paths[index as int]
                == path.bytes(),
    {
        let ghost texts = self@.paths;
        let ghost wanted = path.bytes();
        let hash: u64 = stable_hash(path.text.as_str());
        let mut candidate = self.path_index.last(hash, Ghost(texts));
        loop
            invariant
                self.wf(),
                texts == self@.paths,
                wanted == path.bytes(),
                hash == palette::hash_of(wanted),
                candidate matches Some(at) ==> at < texts.len() && palette::hash_of(
                    texts[at as int],
                ) == hash,
                forall|j: int|
                    (match candidate {
                        Some(at) => at < j,
                        None => 0 <= j,
                    }) && j < texts.len() ==> (#[trigger] texts[j]) != wanted,
            decreases text_index::steps_left(candidate),
        {
            let index: usize = match candidate {
                Some(index) => index,
                None => return None,
            };
            assert(texts[index as int] == self.path_list@[index as int].bytes());
            if self.path_list[index].text == path.text {
                return Some(index);
            }
            proof {
                if texts[index as int] == wanted {
                    text::string_bytes_determine_chars(
                        self.path_list@[index as int].text@,
                        path.text@,
                    );
                }
            }
            candidate = self.path_index.before(index, Ghost(texts));
        }
    }

    /// Where a contributor is interned.
    pub fn find_contributor(&self, contributor: &String) -> (found: Option<usize>)
        requires
            self.wf(),
        ensures
            found is Some <==> self@.contributors.contains(text::string_bytes(*contributor)),
            found matches Some(index) ==> index < self@.contributors.len()
                && self@.contributors[index as int] == text::string_bytes(*contributor),
    {
        let ghost texts = self@.contributors;
        let ghost wanted = text::string_bytes(*contributor);
        let hash: u64 = stable_hash(contributor.as_str());
        let mut candidate = self.contributor_index.last(hash, Ghost(texts));
        loop
            invariant
                self.wf(),
                texts == self@.contributors,
                wanted == text::string_bytes(*contributor),
                hash == palette::hash_of(wanted),
                candidate matches Some(at) ==> at < texts.len() && palette::hash_of(
                    texts[at as int],
                ) == hash,
                forall|j: int|
                    (match candidate {
                        Some(at) => at < j,
                        None => 0 <= j,
                    }) && j < texts.len() ==> (#[trigger] texts[j]) != wanted,
            decreases text_index::steps_left(candidate),
        {
            let index: usize = match candidate {
                Some(index) => index,
                None => return None,
            };
            assert(texts[index as int] == text::string_bytes(self.contributor_list@[index as int]));
            if self.contributor_list[index] == *contributor {
                return Some(index);
            }
            proof {
                if texts[index as int] == wanted {
                    text::string_bytes_determine_chars(
                        self.contributor_list@[index as int]@,
                        contributor@,
                    );
                }
            }
            candidate = self.contributor_index.before(index, Ghost(texts));
        }
    }

    /// Interns a path and returns its identity.
    pub fn intern_path(&mut self, path: &RepositoryPath) -> (id: Result<PathId, CatalogError>)
        requires
            old(self).wf(),
            path.wf(),
        ensures
            final(self).wf(),
            match id {
                Ok(id) => old(self)@.path_error(path.bytes()) is None && final(self)@ == old(
                    self,
                )@.with_path(path.bytes()) && 1 <= id.value <= final(self)@.paths.len()
                    && final(self)@.paths[id.value - 1] == path.bytes(),
                Err(error) => old(self)@.path_error(path.bytes()) == Some(error) && *final(self)
                    == *old(self),
            },
    {
        let accepted = RepositoryPath::parse_with_limits(
            path.canonical(),
            self.limits.path_bytes,
            self.limits.path_components,
        );
        if accepted.is_err() {
            return Err(CatalogError::PathRejected);
        }
        match self.find_path(path) {
            Some(index) => Ok(PathId { value: (index + 1) as u32 }),
            None => {
                let count: usize = self.path_list.len();
                if count >= self.limits.max_paths || count >= 0xffff_ffff {
                    return Err(CatalogError::PathLimit);
                }
                let ghost before = self@;
                self.path_index.push(
                    stable_hash(path.text.as_str()),
                    Ghost(before.paths),
                    Ghost(path.bytes()),
                );
                self.path_list.push(path.copy());
                proof {
                    assert(self@.paths =~= before.paths.push(path.bytes()));
                    assert(self@.contributors =~= before.contributors);
                    assert(self@.paths.no_duplicates()) by {
                        assert forall|i: int, j: int|
                            0 <= i < self@.paths.len() && 0 <= j < self@.paths.len() && i
                                != j implies self@.paths[i] != self@.paths[j] by {
                            if i < before.paths.len() {
                                assert(before.paths[i] != path.bytes());
                            }
                            if j < before.paths.len() {
                                assert(before.paths[j] != path.bytes());
                            }
                        }
                    }
                }
                Ok(PathId { value: (count + 1) as u32 })
            },
        }
    }

    /// Interns a contributor and returns its identity.
    pub fn intern_contributor(&mut self, contributor: &String) -> (id: Result<
        ContributorId,
        CatalogError,
    >)
        requires
            old(self).wf(),
        ensures
            final(self).wf(),
            match id {
                Ok(id) => old(self)@.contributor_error(text::string_bytes(*contributor)) is None
                    && final(self)@ == old(self)@.with_contributor(text::string_bytes(*contributor))
                    && 1 <= id.value <= final(self)@.contributors.len()
                    && final(self)@.contributors[id.value - 1] == text::string_bytes(*contributor),
                Err(error) => old(self)@.contributor_error(text::string_bytes(*contributor))
                    == Some(error) && *final(self) == *old(self),
            },
    {
        if contributor.as_str().as_bytes().len() > self.limits.contributor_bytes {
            return Err(CatalogError::ContributorTooLong);
        }
        match self.find_contributor(contributor) {
            Some(index) => Ok(ContributorId { value: (index + 1) as u32 }),
            None => {
                let count: usize = self.contributor_list.len();
                if count >= self.limits.max_contributors || count >= 0xffff_ffff {
                    return Err(CatalogError::ContributorLimit);
                }
                let ghost before = self@;
                self.contributor_index.push(
                    stable_hash(contributor.as_str()),
                    Ghost(before.contributors),
                    Ghost(text::string_bytes(*contributor)),
                );
                self.contributor_list.push(text::copy_string(contributor));
                proof {
                    let bytes = text::string_bytes(*contributor);
                    assert(self@.contributors =~= before.contributors.push(bytes));
                    assert(self@.paths =~= before.paths);
                    assert(self@.contributors.no_duplicates()) by {
                        assert forall|i: int, j: int|
                            0 <= i < self@.contributors.len() && 0 <= j < self@.contributors.len()
                                && i != j implies self@.contributors[i]
                            != self@.contributors[j] by {
                            if i < before.contributors.len() {
                                assert(before.contributors[i] != bytes);
                            }
                            if j < before.contributors.len() {
                                assert(before.contributors[j] != bytes);
                            }
                        }
                    }
                }
                Ok(ContributorId { value: (count + 1) as u32 })
            },
        }
    }
}

/// Interning keeps every identity that was given out before, whatever is
/// interned next.
pub proof fn interning_keeps_identities(catalog: CatalogView, path: Seq<u8>, contributor: Seq<u8>)
    ensures
        catalog.paths.is_prefix_of(catalog.with_path(path).paths),
        catalog.contributors.is_prefix_of(catalog.with_contributor(contributor).contributors),
        catalog.with_path(path).contributors == catalog.contributors,
        catalog.with_contributor(contributor).paths == catalog.paths,
{
    assert(catalog.with_path(path).paths.take(catalog.paths.len() as int) =~= catalog.paths);
    assert(catalog.with_contributor(contributor).contributors.take(
        catalog.contributors.len() as int,
    ) =~= catalog.contributors);
}

/// Interning the same text twice changes nothing the second time.
pub proof fn interning_is_idempotent(catalog: CatalogView, path: Seq<u8>, contributor: Seq<u8>)
    ensures
        catalog.with_path(path).with_path(path) == catalog.with_path(path),
        catalog.with_contributor(contributor).with_contributor(contributor)
            == catalog.with_contributor(contributor),
{
    if !catalog.paths.contains(path) {
        let after = catalog.with_path(path);
        assert(after.paths[after.paths.len() - 1] == path);
    }
    if !catalog.contributors.contains(contributor) {
        let after = catalog.with_contributor(contributor);
        assert(after.contributors[after.contributors.len() - 1] == contributor);
    }
}

} // verus!
