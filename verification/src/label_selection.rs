//! Which labels are drawn where labels overlap.

use vstd::prelude::*;

use crate::stable_sort;
use crate::stable_sort::{stable_order, Rank};
use crate::text;

verus! {

/// The place of a number among the numbers that 32 bits write with a sign and
/// a magnitude, the sign highest.  Both zeros have one place.
pub open spec fn place_of_bits(bits: u32) -> int {
    if bits < 0x8000_0000 {
        bits as int
    } else {
        0x8000_0000 - bits
    }
}

/// The place of a number among those of its format.
pub fn number_place(bits: u32) -> (place: i64)
    ensures
        place == place_of_bits(bits),
{
    if bits < 0x8000_0000 {
        bits as i64
    } else {
        0x8000_0000 - bits as i64
    }
}

/// The rectangle of a label, by the places of its sides among numbers.  The
/// padding between labels is added to the right and to the top.
#[derive(Clone, Copy, Debug, PartialEq, Eq, Structural)]
pub struct LabelBox {
    pub left: i64,
    pub bottom: i64,
    pub right: i64,
    pub top: i64,
}

impl LabelBox {
    /// Two rectangles have room in common.
    pub open spec fn meets(self, other: LabelBox) -> bool {
        &&& self.left < other.right
        &&& self.right > other.left
        &&& self.bottom < other.top
        &&& self.top > other.bottom
    }

    /// Whether two rectangles have room in common.
    pub fn overlaps(&self, other: &LabelBox) -> (overlaps: bool)
        ensures
            overlaps == self.meets(*other),
    {
        self.left < other.right && self.right > other.left && self.bottom < other.top && self.top
            > other.bottom
    }
}

/// A label that may be drawn.  A score is the bits of a positive number, which
/// are ordered as the numbers are; a label without one is not drawn.
#[derive(Clone, Debug, PartialEq, Eq)]
pub struct LabelCandidate {
    pub priority: u32,
    pub score_bits: u32,
    pub stable_key: u64,
    pub text: String,
    pub on_screen: bool,
    pub bounds: LabelBox,
}

impl LabelCandidate {
    /// The label shows something.
    pub open spec fn eligible(&self) -> bool {
        self.score_bits > 0 && self.on_screen
    }

    /// Whether the label shows something.
    pub fn is_eligible(&self) -> (eligible: bool)
        ensures
            eligible == self.eligible(),
    {
        self.score_bits > 0 && self.on_screen
    }
}

impl Rank for LabelCandidate {
    /// Higher priority and score come first, then the lesser key and text.
    open spec fn before(&self, other: &Self) -> bool {
        ||| self.priority > other.priority
        ||| self.priority == other.priority && self.score_bits > other.score_bits
        ||| self.priority == other.priority && self.score_bits == other.score_bits
            && self.stable_key < other.stable_key
        ||| self.priority == other.priority && self.score_bits == other.score_bits
            && self.stable_key == other.stable_key && text::bytes_before(
            text::string_bytes(self.text),
            text::string_bytes(other.text),
        )
    }

    proof fn before_is_strict(a: &Self, b: &Self) {
        let (x, y) = (text::string_bytes(a.text), text::string_bytes(b.text));
        if text::bytes_before(x, y) && text::bytes_before(y, x) {
            text::bytes_order_is_transitive(x, y, x);
            text::no_bytes_before_themselves(x);
        }
    }

    proof fn before_is_weak(a: &Self, b: &Self, c: &Self) {
        let (x, y, z) = (
            text::string_bytes(a.text),
            text::string_bytes(b.text),
            text::string_bytes(c.text),
        );
        if !text::bytes_before(x, y) && !text::bytes_before(y, z) {
            text::bytes_order_is_weak(x, y, z);
        }
    }

    fn comes_before(&self, other: &Self) -> (before: bool) {
        if self.priority != other.priority {
            self.priority > other.priority
        } else if self.score_bits != other.score_bits {
            self.score_bits > other.score_bits
        } else if self.stable_key != other.stable_key {
            self.stable_key < other.stable_key
        } else {
            text::bytes_precede(self.text.as_str().as_bytes(), other.text.as_str().as_bytes())
        }
    }
}

/// One of the chosen labels comes before a label and overlaps it.
pub open spec fn is_covered(labels: Seq<LabelCandidate>, chosen: Seq<usize>, place: usize) -> bool {
    exists|i: int|
        0 <= i < chosen.len() && stable_sort::place_before(labels, #[trigger] chosen[i], place)
            && labels[chosen[i] as int].bounds.meets(labels[place as int].bounds)
}

/// All chosen labels come before a label.
pub open spec fn comes_last(labels: Seq<LabelCandidate>, chosen: Seq<usize>, place: usize) -> bool {
    forall|i: int|
        0 <= i < chosen.len() ==> stable_sort::place_before(labels, #[trigger] chosen[i], place)
}

/// Labels are chosen as they should be: at most the budget, each of them
/// showing something, in their order and free of overlaps.  Each label that
/// shows something and is left out overlaps a chosen one before it, unless the
/// budget was used up before it.
pub open spec fn is_selection(labels: Seq<LabelCandidate>, budget: usize, chosen: Seq<usize>) -> bool {
    &&& chosen.len() <= budget
    &&& forall|i: int|
        0 <= i < chosen.len() ==> (#[trigger] chosen[i]) < labels.len()
            && labels[chosen[i] as int].eligible()
    &&& stable_sort::in_place_order(labels, chosen)
    &&& forall|i: int, j: int|
        0 <= i < j < chosen.len() ==> !labels[(#[trigger] chosen[i]) as int].bounds.meets(
            labels[(#[trigger] chosen[j]) as int].bounds,
        )
    &&& forall|place: usize|
        place < labels.len() && labels[place as int].eligible() && !(#[trigger] chosen.contains(
            place,
        )) ==> is_covered(labels, chosen, place) || chosen.len() == budget && comes_last(
            labels,
            chosen,
            place,
        )
}

/// A label that was considered is chosen or rightly left out.
spec fn settled(labels: Seq<LabelCandidate>, budget: usize, chosen: Seq<usize>, place: usize) -> bool {
    labels[place as int].eligible() && !chosen.contains(place) ==> is_covered(
        labels,
        chosen,
        place,
    )
}

/// Selects labels, the most important first.
pub fn select_label_indices(labels: &Vec<LabelCandidate>, budget: usize) -> (chosen: Vec<usize>)
    ensures
        is_selection(labels@, budget, chosen@),
{
    let order = stable_order(labels);
    let mut chosen: Vec<usize> = Vec::new();
    let mut index: usize = 0;
    while index < order.len() && chosen.len() < budget
        invariant
            index <= order@.len(),
            stable_sort::is_order(labels@, order@),
            chosen@.len() <= budget,
            forall|i: int|
                0 <= i < chosen@.len() ==> (#[trigger] chosen@[i]) < labels@.len()
                    && labels@[chosen@[i] as int].eligible() && order@.take(index as int).contains(
                    chosen@[i],
                ),
            stable_sort::in_place_order(labels@, chosen@),
            forall|i: int, j: int|
                0 <= i < j < chosen@.len() ==> !labels@[(#[trigger] chosen@[i]) as int].bounds.meets(
                    labels@[(#[trigger] chosen@[j]) as int].bounds,
                ),
            forall|k: int|
                0 <= k < index ==> settled(labels@, budget, chosen@, #[trigger] order@[k]),
        decreases order@.len() - index,
    {
        let place: usize = order[index];
        let ghost before = chosen@;
        let ghost seen = order@.take(index as int);
        proof {
            assert(order@.contains(order@[index as int]));
            assert(place < labels@.len());
            assert forall|i: int| 0 <= i < before.len() implies stable_sort::place_before(
                labels@,
                #[trigger] before[i],
                place,
            ) by {
                assert(seen.contains(before[i]));
                let k = choose|k: int| 0 <= k < seen.len() && seen[k] == before[i];
                assert(order@[k] == before[i]);
            }
        }
        let mut free = true;
        let mut other: usize = 0;
        if labels[place].is_eligible() {
            while other < chosen.len() && free
                invariant
                    other <= chosen@.len(),
                    chosen@ == before,
                    place < labels@.len(),
                    forall|i: int| 0 <= i < before.len() ==> (#[trigger] before[i]) < labels@.len(),
                    forall|i: int|
                        0 <= i < before.len() ==> stable_sort::place_before(
                            labels@,
                            #[trigger] before[i],
                            place,
                        ),
                    free ==> forall|i: int|
                        0 <= i < other ==> !labels@[(#[trigger] before[i]) as int].bounds.meets(
                            labels@[place as int].bounds,
                        ),
                    !free ==> is_covered(labels@, before, place),
                decreases chosen@.len() - other,
            {
                assert(before[other as int] < labels@.len());
                if labels[chosen[other]].bounds.overlaps(&labels[place].bounds) {
                    free = false;
                }
                other = other + 1;
            }
            if free {
                chosen.push(place);
            }
        }
        proof {
            let after = order@.take(index + 1);
            assert(after =~= seen.push(place));
            assert forall|i: int| 0 <= i < chosen@.len() implies (#[trigger] chosen@[i])
                < labels@.len() && labels@[chosen@[i] as int].eligible() && after.contains(
                chosen@[i],
            ) by {
                if i < before.len() {
                    assert(chosen@[i] == before[i]);
                    let k = choose|k: int| 0 <= k < seen.len() && seen[k] == before[i];
                    assert(after[k] == before[i]);
                } else {
                    assert(after[index as int] == place);
                }
            }
            assert forall|k: int| 0 <= k < index + 1 implies settled(
                labels@,
                budget,
                chosen@,
                #[trigger] order@[k],
            ) by {
                selection_grows(labels@, budget, before, chosen@, order@[k]);
                if k == index && labels@[place as int].eligible() && free {
                    assert(chosen@[before.len() as int] == place);
                }
            }
        }
        index = index + 1;
    }
    proof {
        assert forall|place: usize|
            place < labels@.len() && labels@[place as int].eligible() && !(
            #[trigger] chosen@.contains(place)) implies is_covered(labels@, chosen@, place)
            || chosen@.len() == budget && comes_last(labels@, chosen@, place) by {
            assert(order@.contains(place));
            let k = choose|k: int| 0 <= k < order@.len() && order@[k] == place;
            if k < index {
                assert(settled(labels@, budget, chosen@, order@[k]));
            } else {
                let seen = order@.take(index as int);
                assert forall|i: int| 0 <= i < chosen@.len() implies stable_sort::place_before(
                    labels@,
                    #[trigger] chosen@[i],
                    place,
                ) by {
                    assert(seen.contains(chosen@[i]));
                    let n = choose|n: int| 0 <= n < seen.len() && seen[n] == chosen@[i];
                    assert(order@[n] == chosen@[i]);
                }
            }
        }
    }
    chosen
}

/// A label that was settled stays so when another is chosen.
proof fn selection_grows(
    labels: Seq<LabelCandidate>,
    budget: usize,
    before: Seq<usize>,
    after: Seq<usize>,
    place: usize,
)
    requires
        before.len() <= after.len(),
        forall|i: int| 0 <= i < before.len() ==> before[i] == after[i],
    ensures
        is_covered(labels, before, place) ==> is_covered(labels, after, place),
        settled(labels, budget, before, place) ==> settled(labels, budget, after, place),
{
    if is_covered(labels, before, place) {
        let i = choose|i: int|
            0 <= i < before.len() && stable_sort::place_before(labels, #[trigger] before[i], place)
                && labels[before[i] as int].bounds.meets(labels[place as int].bounds);
        assert(after[i] == before[i]);
    }
    if before.contains(place) {
        let i = choose|i: int| 0 <= i < before.len() && before[i] == place;
        assert(after[i] == place);
    }
}

/// Where two selections agree so far, the next label of the second is one that
/// the first may not do without.
proof fn next_is_not_passed_over(
    labels: Seq<LabelCandidate>,
    budget: usize,
    one: Seq<usize>,
    other: Seq<usize>,
    k: int,
)
    requires
        is_selection(labels, budget, one),
        is_selection(labels, budget, other),
        0 <= k < other.len(),
        k <= one.len(),
        one.take(k) == other.take(k),
    ensures
        k < one.len(),
        !stable_sort::place_before(labels, other[k], one[k]),
{
    let place = other[k];
    assert forall|i: int| 0 <= i < k implies (#[trigger] one[i]) == other[i] by {
        assert(one.take(k)[i] == one[i]);
        assert(other.take(k)[i] == other[i]);
    }
    if k == one.len() || stable_sort::place_before(labels, place, one[k]) {
        assert(!one.contains(place)) by {
            if one.contains(place) {
                let i = choose|i: int| 0 <= i < one.len() && one[i] == place;
                if i < k {
                    assert(stable_sort::place_before(labels, other[i], other[k]));
                    stable_sort::places_are_strict(labels, place, place);
                } else {
                    if i > k {
                        stable_sort::places_pass_on(labels, place, one[k], one[i]);
                    }
                    stable_sort::places_are_strict(labels, place, place);
                }
            }
        }
        if is_covered(labels, one, place) {
            let i = choose|i: int|
                0 <= i < one.len() && stable_sort::place_before(labels, #[trigger] one[i], place)
                    && labels[one[i] as int].bounds.meets(labels[place as int].bounds);
            if i < k {
                assert(!labels[other[i] as int].bounds.meets(labels[other[k] as int].bounds));
            } else {
                if i > k {
                    stable_sort::places_pass_on(labels, place, one[k], one[i]);
                }
                stable_sort::places_are_strict(labels, place, one[i]);
            }
        } else {
            if k < one.len() {
                stable_sort::places_are_strict(labels, place, one[k]);
            }
        }
    }
}

proof fn selections_agree(
    labels: Seq<LabelCandidate>,
    budget: usize,
    one: Seq<usize>,
    other: Seq<usize>,
    k: int,
)
    requires
        is_selection(labels, budget, one),
        is_selection(labels, budget, other),
        0 <= k <= one.len(),
        k <= other.len(),
    ensures
        one.take(k) == other.take(k),
    decreases k,
{
    if k > 0 {
        selections_agree(labels, budget, one, other, k - 1);
        next_is_not_passed_over(labels, budget, one, other, k - 1);
        next_is_not_passed_over(labels, budget, other, one, k - 1);
        assert(one[k - 1] == other[k - 1]);
        assert(one.take(k) =~= one.take(k - 1).push(one[k - 1]));
        assert(other.take(k) =~= other.take(k - 1).push(other[k - 1]));
    } else {
        assert(one.take(0) =~= other.take(0));
    }
}

/// Labels have one selection within a budget.
pub proof fn selections_are_unique(
    labels: Seq<LabelCandidate>,
    budget: usize,
    one: Seq<usize>,
    other: Seq<usize>,
)
    requires
        is_selection(labels, budget, one),
        is_selection(labels, budget, other),
    ensures
        one == other,
{
    let shared = if one.len() < other.len() {
        one.len() as int
    } else {
        other.len() as int
    };
    selections_agree(labels, budget, one, other, shared);
    assert(one.take(one.len() as int) =~= one);
    assert(other.take(other.len() as int) =~= other);
    if one.len() < other.len() {
        next_is_not_passed_over(labels, budget, one, other, shared);
    } else if other.len() < one.len() {
        next_is_not_passed_over(labels, budget, other, one, shared);
    }
}

/// Labels stand in another order: `places` says where each of them was.
pub open spec fn is_rearranged(
    labels: Seq<LabelCandidate>,
    places: Seq<usize>,
    rearranged: Seq<LabelCandidate>,
) -> bool {
    &&& places.len() == labels.len()
    &&& rearranged.len() == labels.len()
    &&& places.no_duplicates()
    &&& forall|i: int|
        0 <= i < places.len() ==> (#[trigger] places[i]) < labels.len() && rearranged[i]
            == labels[places[i] as int]
    &&& forall|place: usize| place < labels.len() ==> #[trigger] places.contains(place)
}

/// Of every two labels one comes before the other by what it is.
pub open spec fn ranks_differ(labels: Seq<LabelCandidate>) -> bool {
    forall|i: int, j: int|
        #![trigger labels[i], labels[j]]
        0 <= i < labels.len() && 0 <= j < labels.len() && i != j ==> labels[i].before(&labels[j])
            || labels[j].before(&labels[i])
}

/// The order in which labels are listed does not matter: where no two of them
/// rank alike, the same labels are selected.
pub proof fn listing_does_not_matter(
    labels: Seq<LabelCandidate>,
    budget: usize,
    places: Seq<usize>,
    rearranged: Seq<LabelCandidate>,
    chosen: Seq<usize>,
    again: Seq<usize>,
)
    requires
        labels.len() <= usize::MAX,
        ranks_differ(labels),
        is_rearranged(labels, places, rearranged),
        is_selection(labels, budget, chosen),
        is_selection(rearranged, budget, again),
    ensures
        again.map_values(|i: usize| places[i as int]) == chosen,
{
    let back = again.map_values(|i: usize| places[i as int]);
    assert forall|a: usize, b: usize|
        a < labels.len() && b < labels.len() && a != b implies #[trigger] stable_sort::place_before(
        rearranged,
        a,
        b,
    ) == stable_sort::place_before(labels, places[a as int], places[b as int]) by {
        let (x, y) = (places[a as int], places[b as int]);
        assert(x != y);
        assert(labels[x as int].before(&labels[y as int]) || labels[y as int].before(
            &labels[x as int],
        ));
        LabelCandidate::before_is_strict(&labels[x as int], &labels[y as int]);
        LabelCandidate::before_is_strict(&labels[y as int], &labels[x as int]);
    }
    assert forall|i: int, j: int| 0 <= i < j < again.len() implies again[i] != again[j] by {
        assert(stable_sort::place_before(rearranged, again[i], again[j]));
        if again[i] == again[j] {
            stable_sort::places_are_strict(rearranged, again[i], again[j]);
        }
    }
    assert(stable_sort::in_place_order(labels, back)) by {
        assert forall|i: int, j: int| 0 <= i < j < back.len() implies stable_sort::place_before(
            labels,
            #[trigger] back[i],
            #[trigger] back[j],
        ) by {
            assert(stable_sort::place_before(rearranged, again[i], again[j]));
        }
    }
    assert forall|i: int, j: int| 0 <= i < j < back.len() implies !labels[(
    #[trigger] back[i]) as int].bounds.meets(labels[(#[trigger] back[j]) as int].bounds) by {
        assert(!rearranged[again[i] as int].bounds.meets(rearranged[again[j] as int].bounds));
    }
    assert forall|place: usize|
        place < labels.len() && labels[place as int].eligible() && !(#[trigger] back.contains(
            place,
        )) implies is_covered(labels, back, place) || back.len() == budget && comes_last(
        labels,
        back,
        place,
    ) by {
        assert(places.contains(place));
        let at = choose|at: int| 0 <= at < places.len() && places[at] == place;
        let spot = at as usize;
        assert(rearranged[at] == labels[place as int]);
        assert(!again.contains(spot)) by {
            if again.contains(spot) {
                let i = choose|i: int| 0 <= i < again.len() && again[i] == spot;
                assert(back[i] == place);
            }
        }
        if is_covered(rearranged, again, spot) {
            let i = choose|i: int|
                0 <= i < again.len() && stable_sort::place_before(
                    rearranged,
                    #[trigger] again[i],
                    spot,
                ) && rearranged[again[i] as int].bounds.meets(rearranged[spot as int].bounds);
            assert(again[i] != spot);
            assert(stable_sort::place_before(labels, back[i], place));
        } else {
            assert forall|i: int| 0 <= i < back.len() implies stable_sort::place_before(
                labels,
                #[trigger] back[i],
                place,
            ) by {
                assert(stable_sort::place_before(rearranged, again[i], spot));
                assert(again[i] != spot);
            }
        }
    }
    assert(is_selection(labels, budget, back));
    selections_are_unique(labels, budget, back, chosen);
}

} // verus!
