//! Finding texts by their hash.

use std::collections::HashMap;

use vstd::prelude::*;

use crate::palette;

verus! {

/// The last of the first texts that has a hash.
pub open spec fn last_with(texts: Seq<Seq<u8>>, hash: u64, below: int) -> Option<int>
    decreases below,
{
    if below <= 0 {
        None
    } else if palette::hash_of(texts[below - 1]) == hash {
        Some(below - 1)
    } else {
        last_with(texts, hash, below - 1)
    }
}

/// Between the last text with a hash and the end no text has the hash.
proof fn last_is_last(texts: Seq<Seq<u8>>, hash: u64, below: int)
    ensures
        match last_with(texts, hash, below) {
            Some(at) => {
                &&& 0 <= at < below
                &&& palette::hash_of(texts[at]) == hash
                &&& forall|j: int| at < j < below ==> palette::hash_of(#[trigger] texts[j]) != hash
            },
            None => forall|j: int|
                0 <= j < below ==> palette::hash_of(#[trigger] texts[j]) != hash,
        },
    decreases below,
{
    if below > 0 && palette::hash_of(texts[below - 1]) != hash {
        last_is_last(texts, hash, below - 1);
    }
}

/// Further texts do not change what comes before them.
proof fn prefix_keeps_last(texts: Seq<Seq<u8>>, text: Seq<u8>, hash: u64, below: int)
    requires
        below <= texts.len(),
    ensures
        last_with(texts.push(text), hash, below) == last_with(texts, hash, below),
    decreases below,
{
    if below > 0 {
        prefix_keeps_last(texts, text, hash, below - 1);
    }
}

/// Chains of the texts that share a hash, from the last to the first.
#[derive(Clone, Debug, PartialEq, Eq)]
pub struct TextIndex {
    heads: HashMap<u64, usize>,
    previous: Vec<Option<usize>>,
}

pub open spec fn place(at: Option<usize>) -> Option<int> {
    match at {
        Some(at) => Some(at as int),
        None => None,
    }
}

/// How many steps a chain can still have.
pub open spec fn steps_left(at: Option<usize>) -> int {
    match at {
        Some(at) => at + 1,
        None => 0,
    }
}

impl TextIndex {
    /// The chains are those of some texts.
    pub closed spec fn indexes(&self, texts: Seq<Seq<u8>>) -> bool {
        &&& self.previous@.len() == texts.len()
        &&& forall|i: int|
            0 <= i < texts.len() ==> place(#[trigger] self.previous@[i]) == last_with(
                texts,
                palette::hash_of(texts[i]),
                i,
            )
        &&& forall|hash: u64| #[trigger]
            self.heads@.dom().contains(hash) <==> last_with(texts, hash, texts.len() as int) is Some
        &&& forall|hash: u64| #[trigger]
            self.heads@.dom().contains(hash) ==> last_with(texts, hash, texts.len() as int) == Some(
                self.heads@[hash] as int,
            )
    }

    /// The index of no text.
    pub(crate) fn new() -> (index: Self)
        ensures
            index.indexes(Seq::empty()),
    {
        TextIndex { heads: HashMap::new(), previous: Vec::new() }
    }

    /// The last text with a hash.
    pub(crate) fn last(&self, hash: u64, Ghost(texts): Ghost<Seq<Seq<u8>>>) -> (at: Option<usize>)
        requires
            self.indexes(texts),
        ensures
            place(at) == last_with(texts, hash, texts.len() as int),
            at matches Some(at) ==> at < texts.len() && palette::hash_of(texts[at as int]) == hash,
            forall|j: int|
                (match at {
                    Some(at) => at < j,
                    None => 0 <= j,
                }) && j < texts.len() ==> palette::hash_of(#[trigger] texts[j]) != hash,
    {
        broadcast use vstd::std_specs::hash::group_hash_axioms;

        proof {
            last_is_last(texts, hash, texts.len() as int);
        }
        match self.heads.get(&hash) {
            Some(at) => Some(*at),
            None => None,
        }
    }

    /// The text before another one in its chain.
    pub(crate) fn before(&self, at: usize, Ghost(texts): Ghost<Seq<Seq<u8>>>) -> (earlier: Option<usize>)
        requires
            self.indexes(texts),
            at < texts.len(),
        ensures
            earlier matches Some(earlier) ==> earlier < at && palette::hash_of(texts[earlier as int])
                == palette::hash_of(texts[at as int]),
            forall|j: int|
                (match earlier {
                    Some(earlier) => earlier < j,
                    None => 0 <= j,
                }) && j < at ==> palette::hash_of(#[trigger] texts[j]) != palette::hash_of(
                    texts[at as int],
                ),
    {
        proof {
            last_is_last(texts, palette::hash_of(texts[at as int]), at as int);
        }
        self.previous[at]
    }

    /// Takes in a further text.
    pub(crate) fn push(&mut self, hash: u64, Ghost(texts): Ghost<Seq<Seq<u8>>>, Ghost(text): Ghost<Seq<u8>>)
        requires
            old(self).indexes(texts),
            hash == palette::hash_of(text),
            texts.len() < usize::MAX,
        ensures
            final(self).indexes(texts.push(text)),
    {
        broadcast use vstd::std_specs::hash::group_hash_axioms;

        let earlier = self.last(hash, Ghost(texts));
        let at: usize = self.previous.len();
        self.previous.push(earlier);
        self.heads.insert(hash, at);
        proof {
            let all = texts.push(text);
            assert forall|i: int| 0 <= i < all.len() implies place(#[trigger] self.previous@[i])
                == last_with(all, palette::hash_of(all[i]), i) by {
                prefix_keeps_last(texts, text, palette::hash_of(all[i]), i);
            }
            assert forall|other: u64| #[trigger] self.heads@.dom().contains(other) <==> last_with(
                all,
                other,
                all.len() as int,
            ) is Some by {
                prefix_keeps_last(texts, text, other, texts.len() as int);
            }
            assert forall|other: u64| #[trigger] self.heads@.dom().contains(other) implies last_with(
                all,
                other,
                all.len() as int,
            ) == Some(self.heads@[other] as int) by {
                prefix_keeps_last(texts, text, other, texts.len() as int);
            }
        }
    }
}

} // verus!
