//! Which labels are drawn, and how much of them.

use vstd::prelude::*;
use vstd::string::*;

use crate::catalog::{Catalog, CatalogView};
use crate::glyphs;
use crate::glyphs::{glyph_bits, glyph_cell_count, CELL_VERTICES, MAX_LABEL_LAYOUT_GLYPHS};
use crate::model::PathId;
use crate::resources;
use crate::resources::{
    reserve_geometry, ResourceLimitError, ResourceLimitView, ResourceLimits, LABEL_VERTEX_BYTES,
};

verus! {

/// Glyphs of a text that are laid out under a budget.
pub open spec fn glyphs_of(text: Seq<char>, budget: int) -> int {
    let most = resources::smaller(budget, MAX_LABEL_LAYOUT_GLYPHS as int);
    resources::smaller(text.len() as int, most)
}

/// Glyphs of a text that are laid out under a budget.
pub fn label_glyph_count(text: &str, budget: usize) -> (count: usize)
    ensures
        count == glyphs_of(text@, budget as int),
        count <= text@.len(),
{
    let most: usize = if budget < MAX_LABEL_LAYOUT_GLYPHS {
        budget
    } else {
        MAX_LABEL_LAYOUT_GLYPHS
    };
    let length: usize = text.unicode_len();
    if length < most {
        length
    } else {
        most
    }
}

/// Vertices of the glyphs of some characters.
pub open spec fn vertices_of(text: Seq<char>) -> int
    decreases text.len(),
{
    if text.len() == 0 {
        0
    } else {
        vertices_of(text.drop_last()) + CELL_VERTICES * glyphs::ones(
            glyphs::bits_of(text.last()) as int,
            glyphs::GLYPH_CELLS as nat,
        )
    }
}

/// Vertices of the first glyphs of a text.
pub fn label_vertex_count(text: &str, budget: usize) -> (count: usize)
    ensures
        count == vertices_of(text@.take(glyphs_of(text@, budget as int))),
        count <= 210 * MAX_LABEL_LAYOUT_GLYPHS,
{
    let glyphs: usize = label_glyph_count(text, budget);
    let mut count: usize = 0;
    let mut index: usize = 0;
    assert(text@.take(0) =~= Seq::<char>::empty());
    while index < glyphs
        invariant
            index <= glyphs <= text@.len(),
            glyphs <= MAX_LABEL_LAYOUT_GLYPHS,
            count == vertices_of(text@.take(index as int)),
            count <= 210 * index,
        decreases glyphs - index,
    {
        let cells: usize = glyph_cell_count(glyph_bits(text.get_char(index)));
        proof {
            let next = text@.take(index + 1);
            assert(next.drop_last() =~= text@.take(index as int));
            assert(next.last() == text@[index as int]);
        }
        count = count + cells * CELL_VERTICES;
        index = index + 1;
    }
    count
}

/// More characters never need fewer vertices.
pub proof fn vertices_only_grow(text: Seq<char>, fewer: int, more: int)
    requires
        0 <= fewer <= more <= text.len(),
    ensures
        vertices_of(text.take(fewer)) <= vertices_of(text.take(more)),
    decreases more - fewer,
{
    if fewer < more {
        vertices_only_grow(text, fewer, more - 1);
        assert(text.take(more).drop_last() =~= text.take(more - 1));
    }
}

/// The most glyphs of a text that fit a budget of glyphs and one of vertices.
pub open spec fn fits_most(text: Seq<char>, budget: int, vertices: int, glyphs: int) -> bool {
    &&& 0 <= glyphs <= glyphs_of(text, budget)
    &&& glyphs > 0 ==> vertices_of(text.take(glyphs)) <= vertices
    &&& forall|more: int|
        glyphs < more <= glyphs_of(text, budget) ==> vertices_of(#[trigger] text.take(more))
            > vertices
}

/// Finds how many glyphs of a text fit.
pub fn fit_glyphs(text: &str, budget: usize, vertices: usize) -> (glyphs: usize)
    ensures
        fits_most(text@, budget as int, vertices as int, glyphs as int),
{
    let mut glyphs: usize = label_glyph_count(text, budget);
    while glyphs > 0 && label_vertex_count(text, glyphs) > vertices
        invariant
            glyphs <= glyphs_of(text@, budget as int),
            forall|more: int|
                glyphs < more <= glyphs_of(text@, budget as int) ==> vertices_of(
                    #[trigger] text@.take(more),
                ) > vertices,
        decreases glyphs,
    {
        assert(glyphs_of(text@, glyphs as int) == glyphs);
        glyphs = glyphs - 1;
    }
    assert(glyphs > 0 ==> glyphs_of(text@, glyphs as int) == glyphs);
    glyphs
}

/// What labels have used up.
#[derive(Clone, Copy, Debug, PartialEq, Eq, Structural)]
pub struct LabelBudget {
    pub limits: ResourceLimits,
    pub remaining_glyphs: usize,
    pub label_vertices: usize,
    pub label_glyphs: usize,
    pub visible_labels: usize,
}

/// Room for the glyphs of a label.
#[derive(Clone, Copy, Debug, PartialEq, Eq, Structural)]
pub struct LabelRoom {
    pub glyphs: usize,
    pub vertices: usize,
    /// The capacity that the list of vertices needs.
    pub capacity: usize,
}

impl LabelBudget {
    /// Labels stay within their bounds.
    pub open spec fn wf(&self) -> bool {
        &&& self.label_vertices <= self.limits.max_label_vertices
        &&& self.label_glyphs + self.remaining_glyphs <= self.limits.max_label_glyphs
    }

    pub fn new(limits: ResourceLimits) -> (budget: Self)
        ensures
            budget.wf(),
            budget == (LabelBudget {
                limits,
                remaining_glyphs: limits.max_label_glyphs,
                label_vertices: 0,
                label_glyphs: 0,
                visible_labels: 0,
            }),
    {
        LabelBudget {
            limits,
            remaining_glyphs: limits.max_label_glyphs,
            label_vertices: 0,
            label_glyphs: 0,
            visible_labels: 0,
        }
    }

    /// Finds room for a label, whose vertices join a list of some capacity.
    pub fn room(&self, text: &str, capacity: usize) -> (result: Result<
        Option<LabelRoom>,
        ResourceLimitError,
    >)
        requires
            self.wf(),
        ensures
            ({
                let free = self.limits.max_label_vertices - self.label_vertices;
                let needs = |glyphs: int|
                    resources::geometry_capacity(
                        "label vertices"@,
                        self.label_vertices,
                        capacity,
                        vertices_of(text@.take(glyphs)) as usize,
                        LABEL_VERTEX_BYTES as usize,
                        self.limits.max_label_vertices,
                        self.limits.max_buffer_bytes,
                    );
                match result {
                    Ok(Some(room)) => {
                        &&& room.glyphs > 0
                        &&& fits_most(
                            text@,
                            self.remaining_glyphs as int,
                            free,
                            room.glyphs as int,
                        )
                        &&& room.vertices == vertices_of(text@.take(room.glyphs as int))
                        &&& needs(room.glyphs as int) == Ok::<int, ResourceLimitView>(
                            room.capacity as int,
                        )
                    },
                    Ok(None) => fits_most(text@, self.remaining_glyphs as int, free, 0),
                    Err(e) => exists|glyphs: int|
                        0 < glyphs && #[trigger] fits_most(
                            text@,
                            self.remaining_glyphs as int,
                            free,
                            glyphs,
                        ) && needs(glyphs) == Err::<int, ResourceLimitView>(e@),
                }
            }),
    {
        let free: usize = self.limits.max_label_vertices - self.label_vertices;
        let glyphs: usize = fit_glyphs(text, self.remaining_glyphs, free);
        if glyphs == 0 {
            return Ok(None);
        }
        assert(glyphs_of(text@, glyphs as int) == glyphs);
        let vertices: usize = label_vertex_count(text, glyphs);
        match reserve_geometry(
            "label vertices",
            self.label_vertices,
            capacity,
            vertices,
            LABEL_VERTEX_BYTES as usize,
            self.limits.max_label_vertices,
            self.limits.max_buffer_bytes,
        ) {
            Ok(capacity) => Ok(Some(LabelRoom { glyphs, vertices, capacity })),
            Err(e) => {
                assert(fits_most(
                    text@,
                    self.remaining_glyphs as int,
                    free as int,
                    glyphs as int,
                ));
                Err(e)
            },
        }
    }

    /// Counts what was drawn of a label; a label of which nothing was drawn
    /// does not count.
    pub fn drawn(&mut self, glyphs: usize, vertices: usize)
        requires
            old(self).wf(),
            glyphs <= old(self).remaining_glyphs,
            old(self).label_vertices + vertices <= old(self).limits.max_label_vertices,
        ensures
            final(self).wf(),
            *final(self) == if glyphs == 0 || vertices == 0 {
                LabelBudget {
                    label_vertices: (old(self).label_vertices + vertices) as usize,
                    ..*old(self)
                }
            } else {
                LabelBudget {
                    remaining_glyphs: (old(self).remaining_glyphs - glyphs) as usize,
                    label_vertices: (old(self).label_vertices + vertices) as usize,
                    label_glyphs: (old(self).label_glyphs + glyphs) as usize,
                    visible_labels: if old(self).visible_labels == usize::MAX {
                        usize::MAX
                    } else {
                        (old(self).visible_labels + 1) as usize
                    },
                    ..*old(self)
                }
            },
    {
        self.label_vertices = self.label_vertices + vertices;
        if glyphs == 0 || vertices == 0 {
            return;
        }
        self.label_glyphs = self.label_glyphs + glyphs;
        self.visible_labels = self.visible_labels.saturating_add(1);
        self.remaining_glyphs = self.remaining_glyphs - glyphs;
    }
}

/// The text that a label is drawn with: its own, or the path that it is of,
/// cut to what can be laid out.
pub open spec fn drawn_text(catalog: CatalogView, target: PathId, own: Seq<char>, drawn: Seq<char>) -> bool {
    if own.len() > 0 {
        drawn == own.take(glyphs_of(own, MAX_LABEL_LAYOUT_GLYPHS as int))
    } else if 1 <= target.value <= catalog.paths.len() {
        exists|path: Seq<char>|
            vstd::utf8::encode_utf8(path) == catalog.paths[target.value - 1] && drawn
                == #[trigger] path.take(glyphs_of(path, MAX_LABEL_LAYOUT_GLYPHS as int))
    } else {
        drawn.len() == 0
    }
}

fn cut_text(text: &str) -> (cut: String)
    ensures
        cut@ == text@.take(glyphs_of(text@, MAX_LABEL_LAYOUT_GLYPHS as int)),
{
    let count: usize = label_glyph_count(text, MAX_LABEL_LAYOUT_GLYPHS);
    let mut cut = String::new();
    let mut index: usize = 0;
    assert(cut@ =~= text@.take(0));
    while index < count
        invariant
            index <= count <= text@.len(),
            cut@ == text@.take(index as int),
        decreases count - index,
    {
        cut.push(text.get_char(index));
        assert(cut@ =~= text@.take(index + 1));
        index = index + 1;
    }
    cut
}

/// The text that a label is drawn with.
pub fn label_text(catalog: &Catalog, target: PathId, own: &str) -> (drawn: String)
    ensures
        drawn_text(catalog@, target, own@, drawn@),
{
    if own.unicode_len() > 0 {
        return cut_text(own);
    }
    match catalog.path(target) {
        Some(path) => {
            let drawn = cut_text(path.canonical());
            proof {
                let full = path.text@;
                assert(vstd::utf8::encode_utf8(full) == catalog@.paths[target.value - 1]);
                assert(drawn@ == full.take(glyphs_of(full, MAX_LABEL_LAYOUT_GLYPHS as int)));
            }
            drawn
        },
        None => String::new(),
    }
}

/// The colours of labels.
pub open spec fn label_palette(index: u64) -> Seq<u8> {
    if index == 0 {
        seq![236u8, 243u8, 255u8]
    } else if index == 1 {
        seq![255u8, 218u8, 145u8]
    } else if index == 2 {
        seq![156u8, 224u8, 255u8]
    } else if index == 3 {
        seq![205u8, 190u8, 255u8]
    } else if index == 4 {
        seq![168u8, 239u8, 191u8]
    } else {
        seq![255u8, 181u8, 204u8]
    }
}

/// A number whose binary digits are moved up by seventeen places, those that
/// fall out coming back below.
pub open spec fn turned(n: u64) -> u64 {
    ((n as int % 0x8000_0000_0000) * 0x2_0000 + n as int / 0x8000_0000_0000) as u64
}

/// The multiplier that mixes the keys of labels.
pub const LABEL_MIXER: u64 = 0x9E37_79B9_7F4A_7C15;

/// The colour of a label without one of its own.
pub fn label_color(stable_key: u64) -> (color: [u8; 3])
    ensures
        color@ == label_palette((turned(stable_key.wrapping_mul(LABEL_MIXER)) % 6) as u64),
{
    let mixed: u64 = stable_key.wrapping_mul(LABEL_MIXER);
    let turned: u64 = (mixed % 0x8000_0000_0000) * 0x2_0000 + mixed / 0x8000_0000_0000;
    let index: u64 = turned % 6;
    let color: [u8; 3] = if index == 0 {
        [236, 243, 255]
    } else if index == 1 {
        [255, 218, 145]
    } else if index == 2 {
        [156, 224, 255]
    } else if index == 3 {
        [205, 190, 255]
    } else if index == 4 {
        [168, 239, 191]
    } else {
        [255, 181, 204]
    };
    assert(color@ =~= label_palette(index));
    color
}

} // verus!
