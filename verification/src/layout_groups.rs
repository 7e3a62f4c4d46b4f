//! Groups of nodes that share a parent, and how their work is shared out.

use vstd::prelude::*;

use crate::palette::{DirId, HierarchyNodeId};
use crate::stable_sort;
use crate::stable_sort::{stable_order, SortKey};

verus! {

/// The least work that is worth a thread of its own.
pub const MIN_PARALLEL_PAIR_WORK: u128 = 512;

/// A node and its parent.
#[derive(Clone, Copy, Debug, PartialEq, Eq, Structural)]
pub struct LayoutNode {
    pub parent: DirId,
    pub id: HierarchyNodeId,
}

/// A range of nodes with one parent, and the pairs in it.
#[derive(Clone, Copy, Debug, PartialEq, Eq, Structural)]
pub struct LayoutGroup {
    pub start: usize,
    pub end: usize,
    pub pair_work: u128,
}

/// Nodes are ordered by parent; directories come before files.
pub open spec fn layout_key(node: LayoutNode) -> SortKey {
    match node.id {
        HierarchyNodeId::Directory(id) => (node.parent.value, 0, id.value),
        HierarchyNodeId::File(id) => (node.parent.value, 1, id.value),
    }
}

pub open spec fn layout_keys(nodes: Seq<LayoutNode>) -> Seq<SortKey> {
    Seq::new(nodes.len(), |i: int| layout_key(nodes[i]))
}

/// The order in which nodes are laid out.
pub fn layout_order(nodes: &Vec<LayoutNode>) -> (places: Vec<usize>)
    ensures
        stable_sort::is_order(layout_keys(nodes@), places@),
{
    let mut keys: Vec<SortKey> = Vec::new();
    let mut index: usize = 0;
    while index < nodes.len()
        invariant
            index <= nodes@.len(),
            keys@ == layout_keys(nodes@).take(index as int),
        decreases nodes@.len() - index,
    {
        let node: LayoutNode = nodes[index];
        keys.push(
            match node.id {
                HierarchyNodeId::Directory(id) => (node.parent.value, 0, id.value),
                HierarchyNodeId::File(id) => (node.parent.value, 1, id.value),
            },
        );
        assert(keys@ =~= layout_keys(nodes@).take(index + 1));
        index = index + 1;
    }
    assert(keys@ =~= layout_keys(nodes@));
    stable_order(&keys)
}

/// The number of pairs among some nodes.
pub open spec fn pairs(count: int) -> int {
    count * (count - 1) / 2
}

/// The number of pairs among some nodes.
pub fn pair_work_for_len(len: usize) -> (work: u128)
    ensures
        work == pairs(len as int),
{
    let count: u128 = len as u128;
    if count == 0 {
        return 0;
    }
    proof {
        assert(count * (count - 1) <= 0xffff_ffff_ffff_ffff * 0xffff_ffff_ffff_ffff)
            by (nonlinear_arith)
            requires
                0 < count <= 0xffff_ffff_ffff_ffff,
        ;
    }
    count * (count - 1) / 2
}

/// A group is a range of nodes with one parent.
pub open spec fn is_group(group: LayoutGroup, parents: Seq<DirId>) -> bool {
    &&& group.start < group.end <= parents.len()
    &&& group.pair_work == pairs(group.end - group.start)
    &&& forall|i: int|
        group.start <= i < group.end ==> (#[trigger] parents[i]) == parents[group.start as int]
}

/// Groups cover the nodes up to a place without gaps, and neighbours have
/// different parents.
pub open spec fn groups_cover(groups: Seq<LayoutGroup>, parents: Seq<DirId>, to: int) -> bool {
    &&& groups.len() == 0 ==> to == 0
    &&& groups.len() > 0 ==> groups[0].start == 0 && groups.last().end == to
    &&& forall|i: int| 0 <= i < groups.len() ==> is_group(#[trigger] groups[i], parents)
    &&& forall|i: int|
        0 < i < groups.len() ==> (#[trigger] groups[i]).start == groups[i - 1].end
            && parents[groups[i].start as int] != parents[groups[i].start - 1]
}

/// Cuts ordered nodes into groups of one parent each.
pub fn partition_layout_groups(parents: &Vec<DirId>) -> (groups: Vec<LayoutGroup>)
    ensures
        groups_cover(groups@, parents@, parents@.len() as int),
{
    let mut groups: Vec<LayoutGroup> = Vec::new();
    let count: usize = parents.len();
    let mut start: usize = 0;
    let mut end: usize = 0;
    while end < count
        invariant
            count == parents@.len(),
            start <= end <= count,
            end == count ==> start == count,
            groups_cover(groups@, parents@, start as int),
            forall|i: int| start <= i <= end && i < count ==> (#[trigger] parents@[i])
                == parents@[start as int],
            groups@.len() > 0 && start < count ==> parents@[start as int] != parents@[start - 1],
        decreases count - end,
    {
        end = end + 1;
        if end == count || parents[end].value != parents[start].value {
            let ghost before = groups@;
            let work: u128 = pair_work_for_len(end - start);
            groups.push(LayoutGroup { start, end, pair_work: work });
            proof {
                assert(parents@[end - 1] == parents@[start as int]);
                assert forall|i: int| 0 <= i < groups@.len() implies is_group(
                    #[trigger] groups@[i],
                    parents@,
                ) by {
                    if i < before.len() {
                        assert(before[i] == groups@[i]);
                    }
                }
                assert forall|i: int| 0 < i < groups@.len() implies (#[trigger] groups@[i]).start
                    == groups@[i - 1].end && parents@[groups@[i].start as int]
                    != parents@[groups@[i].start - 1] by {
                    if i < before.len() {
                        assert(before[i] == groups@[i] && before[i - 1] == groups@[i - 1]);
                    } else {
                        assert(before.last() == groups@[i - 1]);
                    }
                }
            }
            start = end;
        }
    }
    groups
}

/// The work of the first groups, up to the largest number.
pub open spec fn work_before(groups: Seq<LayoutGroup>, count: int) -> u128
    decreases count,
{
    if count <= 0 {
        0
    } else {
        let sum = work_before(groups, count - 1) + groups[count - 1].pair_work;
        if sum > u128::MAX {
            u128::MAX
        } else {
            sum as u128
        }
    }
}

/// The work of all groups.
pub fn total_pair_work(groups: &[LayoutGroup]) -> (work: u128)
    ensures
        work == work_before(groups@, groups@.len() as int),
{
    let mut work: u128 = 0;
    let mut index: usize = 0;
    while index < groups.len()
        invariant
            index <= groups@.len(),
            work == work_before(groups@, index as int),
        decreases groups@.len() - index,
    {
        work = work.saturating_add(groups[index].pair_work);
        index = index + 1;
    }
    work
}

/// What is left of the work after the first groups.
pub open spec fn work_after(groups: Seq<LayoutGroup>, total: u128, count: int) -> u128 {
    if work_before(groups, count) > total {
        0
    } else {
        (total - work_before(groups, count)) as u128
    }
}

/// Both sides of a split are worth a thread.
pub open spec fn can_split(groups: Seq<LayoutGroup>, total: u128, split: int) -> bool {
    &&& 1 <= split < groups.len()
    &&& work_before(groups, split) >= MIN_PARALLEL_PAIR_WORK
    &&& work_after(groups, total, split) >= MIN_PARALLEL_PAIR_WORK
}

/// How far the two sides of a split are apart.
pub open spec fn imbalance(groups: Seq<LayoutGroup>, total: u128, split: int) -> int {
    let left = work_before(groups, split) as int;
    let right = work_after(groups, total, split) as int;
    if left > right {
        left - right
    } else {
        right - left
    }
}

/// The first split with the most even sides.
pub open spec fn is_best_split(groups: Seq<LayoutGroup>, total: u128, split: int) -> bool {
    &&& can_split(groups, total, split)
    &&& forall|other: int| #[trigger]
        can_split(groups, total, other) ==> imbalance(groups, total, split) <= imbalance(
            groups,
            total,
            other,
        ) && (other < split ==> imbalance(groups, total, split) < imbalance(groups, total, other))
}

fn apart(a: u128, b: u128) -> (distance: u128)
    ensures
        distance == if a > b {
            a - b
        } else {
            b - a
        },
{
    if a > b {
        a - b
    } else {
        b - a
    }
}

/// Finds where to share out the work of groups, with the work of both sides.
pub fn group_split(groups: &[LayoutGroup], total_work: u128) -> (split: Option<(usize, u128, u128)>)
    ensures
        match split {
            Some((at, left, right)) => {
                &&& is_best_split(groups@, total_work, at as int)
                &&& left == work_before(groups@, at as int)
                &&& right == work_after(groups@, total_work, at as int)
            },
            None => forall|at: int| !#[trigger] can_split(groups@, total_work, at),
        },
{
    if groups.len() < 2 {
        return None;
    }
    let mut left_work: u128 = 0;
    let mut best: Option<(usize, u128, u128)> = None;
    let mut at: usize = 1;
    while at < groups.len()
        invariant
            1 <= at <= groups@.len(),
            left_work == work_before(groups@, at - 1),
            match best {
                Some((split, left, right)) => {
                    &&& 1 <= split < at
                    &&& can_split(groups@, total_work, split as int)
                    &&& left == work_before(groups@, split as int)
                    &&& right == work_after(groups@, total_work, split as int)
                    &&& forall|other: int|
                        other < at && #[trigger] can_split(groups@, total_work, other)
                            ==> imbalance(groups@, total_work, split as int) <= imbalance(
                            groups@,
                            total_work,
                            other,
                        ) && (other < split ==> imbalance(groups@, total_work, split as int)
                            < imbalance(groups@, total_work, other))
                },
                None => forall|other: int|
                    other < at ==> !#[trigger] can_split(groups@, total_work, other),
            },
        decreases groups@.len() - at,
    {
        left_work = left_work.saturating_add(groups[at - 1].pair_work);
        let right_work: u128 = total_work.saturating_sub(left_work);
        if left_work >= MIN_PARALLEL_PAIR_WORK && right_work >= MIN_PARALLEL_PAIR_WORK {
            assert(can_split(groups@, total_work, at as int));
            let better = match best {
                Some((_, left, right)) => apart(left_work, right_work) < apart(left, right),
                None => true,
            };
            if better {
                best = Some((at, left_work, right_work));
            }
        }
        at = at + 1;
    }
    best
}

/// The two sides of a split do not share a node: the groups of the first end
/// where those of the second start.
pub proof fn splits_are_disjoint(groups: Seq<LayoutGroup>, parents: Seq<DirId>, split: int)
    requires
        groups_cover(groups, parents, parents.len() as int),
        0 < split < groups.len(),
    ensures
        forall|i: int, j: int|
            0 <= i < split <= j < groups.len() ==> (#[trigger] groups[i]).end
                <= groups[split].start <= (#[trigger] groups[j]).start,
{
    assert forall|i: int, j: int| 0 <= i < split <= j < groups.len() implies (
    #[trigger] groups[i]).end <= groups[split].start <= (#[trigger] groups[j]).start by {
        starts_rise(groups, parents, i, split);
        starts_rise(groups, parents, split, j);
    }
}

proof fn starts_rise(groups: Seq<LayoutGroup>, parents: Seq<DirId>, i: int, j: int)
    requires
        groups_cover(groups, parents, parents.len() as int),
        0 <= i <= j < groups.len(),
    ensures
        i < j ==> groups[i].end <= groups[j].start,
        groups[i].start <= groups[j].start,
    decreases j - i,
{
    if i < j {
        starts_rise(groups, parents, i, j - 1);
        assert(groups[j].start == groups[j - 1].end);
        assert(is_group(groups[j - 1], parents));
    }
}

} // verus!
