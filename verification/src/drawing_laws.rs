//! What a device is asked to draw, and in which order nodes are laid out.

use vstd::prelude::*;

use crate::glyphs;
use crate::layout_groups;
use crate::layout_groups::LayoutNode;
use crate::palette::HierarchyNodeId;
use crate::resources;
use crate::resources::{DeviceLimits, ResourceLimits, SceneCounts, TargetFormat};
use crate::snapshot_pool;
use crate::snapshot_pool::PoolView;
use crate::stable_sort::Rank;

verus! {

/// A scene is drawn exactly when everything of it fits: six vertices for every
/// branch, three for every action, an instance for every directory, file and
/// contributor, and its labels.
pub proof fn scenes_are_drawn_within_their_bounds(counts: SceneCounts, limits: ResourceLimits)
    requires
        limits.max_triangle_vertices < usize::MAX,
        limits.max_node_instances < usize::MAX,
    ensures
        resources::scene_fault(counts, limits) is None <==> {
            &&& 6 * counts.branches <= limits.max_triangle_vertices
            &&& 3 * counts.actions <= limits.max_triangle_vertices
            &&& counts.directories + counts.files <= limits.max_node_instances
            &&& counts.contributors <= limits.max_node_instances
            &&& counts.labels <= limits.max_labels
        },
{
}

/// A scene can be drawn on any area with one sample of the one format.
pub proof fn targets_have_an_area(width: u32, height: u32, format: TargetFormat, samples: u32)
    ensures
        resources::target_fault(width, height, format, samples) is None <==> {
            &&& width > 0
            &&& height > 0
            &&& format == TargetFormat::Rgba8Unorm
            &&& samples == 1
        },
{
}

/// A device can draw scenes exactly when it has two vertex buffers, six vertex
/// attributes and room for the globals; what is required of it is there exactly
/// when no bound is less.
pub proof fn devices_offer_what_is_required(required: DeviceLimits, available: DeviceLimits)
    ensures
        resources::device_fault(available) is None <==> {
            &&& available.max_vertex_buffers >= 2
            &&& available.max_vertex_attributes >= 6
            &&& available.max_uniform_buffer_binding_size >= 64
        },
        resources::missing_limit(required, available) is None <==> {
            &&& required.max_buffer_size <= available.max_buffer_size
            &&& required.max_uniform_buffer_binding_size
                <= available.max_uniform_buffer_binding_size
            &&& required.max_storage_buffer_binding_size
                <= available.max_storage_buffer_binding_size
            &&& required.max_vertex_buffers <= available.max_vertex_buffers
            &&& required.max_vertex_attributes <= available.max_vertex_attributes
        },
{
}

/// A buffer has the bytes of its items where they are not too many, and is
/// refused where they are.
pub proof fn buffers_have_the_bytes_of_their_items(
    resource: Seq<char>,
    count: usize,
    size: usize,
    max_items: usize,
    max_bytes: u64,
    device_bytes: u64,
)
    requires
        count * size <= usize::MAX,
    ensures
        match resources::buffer_bytes(resource, count, size, max_items, max_bytes) {
            Ok(bytes) => bytes == count * size && count <= max_items && count * size <= max_bytes,
            Err(_) => count > max_items || count * size > max_bytes,
        },
        match resources::upload_outcome(
            resource,
            count,
            size,
            max_items,
            max_bytes,
            device_bytes,
        ) {
            Ok(None) => count == 0,
            Ok(Some(bytes)) => count > 0 && bytes == count * size && count <= max_items && bytes
                <= max_bytes && bytes <= device_bytes,
            Err(_) => count > max_items || count * size > max_bytes || count * size > device_bytes,
        },
{
}

/// Nodes are laid out by parent, directories before files, and each by
/// identity.
pub proof fn siblings_are_laid_out_in_order(a: LayoutNode, b: LayoutNode)
    ensures
        ({
            let (x, y) = (layout_groups::layout_key(a), layout_groups::layout_key(b));
            &&& a.parent.value < b.parent.value ==> x.before(&y)
            &&& a.parent == b.parent && a.id is Directory && b.id is File ==> x.before(&y)
                && !y.before(&x)
            &&& a.parent == b.parent ==> match (a.id, b.id) {
                (HierarchyNodeId::Directory(d), HierarchyNodeId::Directory(e)) => x.before(&y)
                    <==> d.value < e.value,
                (HierarchyNodeId::File(d), HierarchyNodeId::File(e)) => x.before(&y) <==> d.value
                    < e.value,
                _ => true,
            }
        }),
{
}

/// One node more in a group makes a pair with each that was there.
pub proof fn every_two_siblings_are_a_pair(count: int)
    requires
        count >= 0,
    ensures
        layout_groups::pairs(count + 1) == layout_groups::pairs(count) + count,
        layout_groups::pairs(0) == 0,
{
    assert((count + 1) * count == count * (count - 1) + 2 * count) by (nonlinear_arith);
}

/// A published snapshot is the newest of those held.  No more are held than the
/// capacity: where there are, the oldest goes, and is counted.
pub proof fn the_newest_snapshots_are_held<T>(pool: PoolView<T>, snapshot: T)
    requires
        1 <= pool.capacity,
        pool.buffers.len() <= pool.capacity,
        pool.published < u64::MAX,
        pool.discarded < u64::MAX,
    ensures
        ({
            let next = snapshot_pool::published_pool(pool, snapshot);
            &&& next.buffers.len() > 0
            &&& next.buffers.last() == snapshot
            &&& next.buffers.len() <= pool.capacity
            &&& next.published == pool.published + 1
            &&& next.capacity == pool.capacity
            &&& pool.buffers.len() < pool.capacity ==> {
                &&& next.buffers.drop_last() == pool.buffers
                &&& next.discarded == pool.discarded
            }
            &&& pool.buffers.len() == pool.capacity ==> {
                &&& next.buffers.drop_last() == pool.buffers.skip(1)
                &&& next.discarded == pool.discarded + 1
            }
        }),
{
    let next = snapshot_pool::published_pool(pool, snapshot);
    if pool.buffers.len() < pool.capacity {
        assert(next.buffers.drop_last() =~= pool.buffers);
    } else {
        assert(next.buffers.drop_last() =~= pool.buffers.skip(1));
    }
}

/// Taking the snapshots leaves none; all but the newest count as discarded.
pub proof fn taking_leaves_no_snapshot<T>(pool: PoolView<T>)
    requires
        pool.discarded + pool.buffers.len() <= u64::MAX,
    ensures
        ({
            let next = snapshot_pool::drained_pool(pool);
            &&& next.buffers.len() == 0
            &&& next.published == pool.published
            &&& next.capacity == pool.capacity
            &&& pool.buffers.len() == 0 ==> next.discarded == pool.discarded
            &&& pool.buffers.len() > 0 ==> next.discarded + 1 == pool.discarded
                + pool.buffers.len()
        }),
{
}

/// What is left of the bits of a glyph after its upper rows.
pub open spec fn rows_below(bits: int, rows: nat) -> int
    decreases rows,
{
    if rows == 0 {
        bits
    } else {
        rows_below(bits / 32, (rows - 1) as nat)
    }
}

proof fn row_has(bits: int, row: usize, columns: nat, cell: (usize, usize))
    requires
        columns <= 5,
    ensures
        glyphs::row_cells(bits, row, columns).contains(cell) <==> cell.0 == row && cell.1 < columns
            && glyphs::fills(bits, cell.1 as int),
    decreases columns,
{
    if columns > 0 {
        let last = (columns - 1) as nat;
        row_has(bits, row, last, cell);
        let before = glyphs::row_cells(bits, row, last);
        let after = glyphs::row_cells(bits, row, columns);
        if before.contains(cell) {
            let i = choose|i: int| 0 <= i < before.len() && before[i] == cell;
            assert(after[i] == cell);
        }
        if glyphs::fills(bits, last as int) {
            assert(after[after.len() - 1] == (row, last as usize));
        }
        if after.contains(cell) && !before.contains(cell) {
            let i = choose|i: int| 0 <= i < after.len() && after[i] == cell;
            if i < before.len() {
                assert(before[i] == cell);
            }
        }
    }
}

proof fn cells_below(bits: int, row: nat, cell: (usize, usize))
    requires
        row <= 7,
    ensures
        glyphs::cells_from(bits, row).contains(cell) <==> row <= cell.0 < 7 && cell.1 < 5
            && glyphs::fills(rows_below(bits, (cell.0 - row) as nat) % 32, cell.1 as int),
    decreases 7 - row,
{
    if row < 7 {
        cells_below(bits / 32, row + 1, cell);
        row_has(bits % 32, row as usize, 5, cell);
        let first = glyphs::row_cells(bits % 32, row as usize, 5);
        let rest = glyphs::cells_from(bits / 32, row + 1);
        let all = glyphs::cells_from(bits, row);
        assert(all == first + rest);
        if first.contains(cell) {
            let i = choose|i: int| 0 <= i < first.len() && first[i] == cell;
            assert(all[i] == cell);
        }
        if rest.contains(cell) {
            let i = choose|i: int| 0 <= i < rest.len() && rest[i] == cell;
            assert(all[first.len() + i] == cell);
        }
        if all.contains(cell) {
            let i = choose|i: int| 0 <= i < all.len() && all[i] == cell;
            if i < first.len() {
                assert(first[i] == cell);
            } else {
                assert(rest[i - first.len()] == cell);
            }
        }
        if cell.0 > row {
            assert(rows_below(bits, (cell.0 - row) as nat) == rows_below(
                bits / 32,
                (cell.0 - row - 1) as nat,
            ));
        }
    }
}

/// A cell of a glyph is filled exactly when its bit is set: rows go from the
/// lowest five bits up, and in each row the leftmost cell is the highest bit.
pub proof fn glyphs_fill_the_cells_of_their_bits(bits: int, row: usize, column: usize)
    requires
        row < 7,
        column < 5,
    ensures
        ({
            let line = rows_below(bits, row as nat) % 32;
            let weight: int = if column == 0 {
                16
            } else if column == 1 {
                8
            } else if column == 2 {
                4
            } else if column == 3 {
                2
            } else {
                1
            };
            glyphs::cells_from(bits, 0).contains((row, column)) <==> (line / weight) % 2 == 1
        }),
{
    cells_below(bits, 0, (row, column));
}

} // verus!
