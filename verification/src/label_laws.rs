//! Which labels are drawn.

use vstd::prelude::*;

use crate::glyphs;
use crate::label_selection;
use crate::label_selection::{LabelBox, LabelCandidate};
use crate::labels;
use crate::stable_sort;
use crate::stable_sort::Rank;
use crate::text;

verus! {

/// A place lies within a rectangle and not on its edge.
pub open spec fn within(bounds: LabelBox, x: int, y: int) -> bool {
    bounds.left < x < bounds.right && bounds.bottom < y < bounds.top
}

/// Rectangles that have a place in common meet, from either side; rectangles
/// beside or above each other do not, even where they touch.
pub proof fn rectangles_meet_where_they_share_room(a: LabelBox, b: LabelBox, x: int, y: int)
    ensures
        within(a, x, y) && within(b, x, y) ==> a.meets(b),
        a.meets(b) <==> b.meets(a),
        a.right <= b.left || a.top <= b.bottom ==> !a.meets(b) && !b.meets(a),
        a.left < a.right && a.bottom < a.top ==> a.meets(a),
{
}

/// No two drawn labels have a place in common.
pub proof fn drawn_labels_are_apart(
    labels: Seq<LabelCandidate>,
    budget: usize,
    chosen: Seq<usize>,
    i: int,
    j: int,
    x: int,
    y: int,
)
    requires
        label_selection::is_selection(labels, budget, chosen),
        0 <= i < j < chosen.len(),
    ensures
        !(within(labels[chosen[i] as int].bounds, x, y) && within(
            labels[chosen[j] as int].bounds,
            x,
            y,
        )),
        chosen[i] != chosen[j],
{
    let (a, b) = (labels[chosen[i] as int].bounds, labels[chosen[j] as int].bounds);
    assert(!a.meets(b));
    assert(stable_sort::place_before(labels, chosen[i], chosen[j]));
    stable_sort::places_are_strict(labels, chosen[i], chosen[j]);
}

/// A drawn label is on the screen and has a score, and no more are drawn than
/// may be.
pub proof fn drawn_labels_can_be_seen(
    labels: Seq<LabelCandidate>,
    budget: usize,
    chosen: Seq<usize>,
    i: int,
)
    requires
        label_selection::is_selection(labels, budget, chosen),
        0 <= i < chosen.len(),
    ensures
        chosen[i] < labels.len(),
        labels[chosen[i] as int].on_screen,
        labels[chosen[i] as int].score_bits > 0,
        chosen.len() <= budget,
{
    let place = chosen[i];
    assert(place < labels.len() && labels[place as int].eligible());
}

/// A label of higher priority comes first; of one priority, one of a higher
/// score; of one score, one of a lesser key; of one key, by text.
pub proof fn priority_counts_most(a: LabelCandidate, b: LabelCandidate)
    ensures
        a.priority > b.priority ==> a.before(&b) && !b.before(&a),
        a.priority == b.priority && a.score_bits > b.score_bits ==> a.before(&b) && !b.before(&a),
        a.priority == b.priority && a.score_bits == b.score_bits && a.stable_key < b.stable_key
            ==> a.before(&b) && !b.before(&a),
        a.priority == b.priority && a.score_bits == b.score_bits && a.stable_key == b.stable_key
            && text::bytes_before(text::string_bytes(a.text), text::string_bytes(b.text))
            ==> a.before(&b),
{
}

/// A label that could be seen is left out only where the labels are as many as
/// may be, or where one that has a place in common with it and is not of lower
/// priority is drawn.
pub proof fn labels_give_way_to_better_ones(
    labels: Seq<LabelCandidate>,
    budget: usize,
    chosen: Seq<usize>,
    place: usize,
)
    requires
        label_selection::is_selection(labels, budget, chosen),
        place < labels.len(),
        labels[place as int].on_screen,
        labels[place as int].score_bits > 0,
        !chosen.contains(place),
    ensures
        ({
            let label = labels[place as int];
            ||| chosen.len() == budget
            ||| exists|i: int|
                #![trigger chosen[i]]
                0 <= i < chosen.len() && {
                    let other = labels[chosen[i] as int];
                    &&& other.priority >= label.priority
                    &&& other.bounds.left < label.bounds.right
                    &&& label.bounds.left < other.bounds.right
                    &&& other.bounds.bottom < label.bounds.top
                    &&& label.bounds.bottom < other.bounds.top
                }
        }),
{
    let label = labels[place as int];
    assert(label.eligible());
    if label_selection::is_covered(labels, chosen, place) {
        let i = choose|i: int|
            0 <= i < chosen.len() && stable_sort::place_before(labels, #[trigger] chosen[i], place)
                && labels[chosen[i] as int].bounds.meets(labels[place as int].bounds);
        let other = labels[chosen[i] as int];
        priority_counts_most(label, other);
        assert(other.priority >= label.priority);
    }
}

/// The upper seventeen bits of a number go below the others and nothing is
/// lost.
pub proof fn turning_moves_the_upper_bits_down(n: u64)
    ensures
        labels::turned(n) % 0x2_0000 == n / 0x8000_0000_0000,
        labels::turned(n) / 0x2_0000 == n % 0x8000_0000_0000,
{
}

/// No two of the six colours of labels are the same.
pub proof fn label_colours_differ(a: u64, b: u64)
    requires
        a < 6,
        b < 6,
    ensures
        labels::label_palette(a) == labels::label_palette(b) <==> a == b,
        labels::label_palette(a).len() == 3,
{
    let (x, y) = (labels::label_palette(a), labels::label_palette(b));
    if x == y {
        assert(x[0] == y[0] && x[1] == y[1] && x[2] == y[2]);
    }
}

/// A label is laid out with as many glyphs as its text has, as are left and as
/// one label may have, 256, whichever is least; every filled cell of a glyph
/// takes six vertices.
pub proof fn labels_are_laid_out_within_their_budget(shown: Seq<char>, budget: int, more: char)
    requires
        budget >= 0,
    ensures
        ({
            let count = labels::glyphs_of(shown, budget);
            &&& count <= shown.len() && count <= budget && count <= 256
            &&& count == shown.len() || count == budget || count == 256
        }),
        labels::vertices_of(shown.push(more)) == labels::vertices_of(shown) + 6 * glyphs::ones(
            glyphs::bits_of(more) as int,
            35,
        ),
        labels::vertices_of(Seq::empty()) == 0,
{
    assert(shown.push(more).drop_last() =~= shown);
}

} // verus!
