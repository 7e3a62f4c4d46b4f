//! What a published scene shows of a replay and of its world.

use vstd::prelude::*;

use crate::catalog::CatalogView;
use crate::id_map;
use crate::lives::{ActionLife, FileLife, FileNode, Lives, LivesView};
use crate::model::Rgb8;
use crate::palette::{DirId, FileId, HierarchyNodeId};
use crate::rational::RationalTime;
use crate::scene;
use crate::scene::{
    ActionVisual, BranchVisual, DirectoryNode, FileVisual, SceneSnapshot, SceneView, WorldTree,
};
use crate::stable_sort;
use crate::stable_sort::Rank;

verus! {

/// A file of the world is the first one with its identity.
pub open spec fn is_first_node(nodes: Seq<FileNode>, at: int) -> bool {
    &&& 0 <= at < nodes.len()
    &&& forall|j: int|
        0 <= j < at ==> (#[trigger] nodes[j]).file_id.value != nodes[at].file_id.value
}

/// The world has a directory.
pub open spec fn has_directory(tree: WorldTree, id: DirId) -> bool {
    exists|i: int| 0 <= i < tree.directories@.len() && (#[trigger] tree.directories@[i]).id == id
}

/// What the scene says of a file.
pub open spec fn shows_file(shown: FileVisual, life: FileLife, node: FileNode) -> bool {
    &&& shown.file_id == node.file_id
    &&& shown.path_id == node.path_id
    &&& shown.incarnation == life.incarnation
    &&& shown.color == life.color
    &&& shown.active <==> life.visible && node.alive
    &&& life.visible && node.alive ==> shown.opacity_ticks == 90
    &&& !(life.visible && node.alive) ==> shown.opacity_ticks == life.fade_remaining
}

proof fn node_is_first(nodes: Seq<FileNode>, id: u64)
    ensures
        match scene::node_of(nodes, id) {
            Some(node) => exists|at: int|
                is_first_node(nodes, at) && #[trigger] nodes[at] == node && node.file_id.value
                    == id,
            None => forall|i: int|
                0 <= i < nodes.len() ==> (#[trigger] nodes[i]).file_id.value != id,
        },
    decreases nodes.len(),
{
    if nodes.len() > 0 {
        if nodes[0].file_id.value == id {
            assert(is_first_node(nodes, 0));
        } else {
            let rest = nodes.skip(1);
            node_is_first(rest, id);
            match scene::node_of(rest, id) {
                Some(node) => {
                    let at = choose|at: int|
                        is_first_node(rest, at) && #[trigger] rest[at] == node
                            && node.file_id.value == id;
                    assert(nodes[at + 1] == rest[at]);
                    assert forall|j: int| 0 <= j < at + 1 implies (
                    #[trigger] nodes[j]).file_id.value != nodes[at + 1].file_id.value by {
                        if j > 0 {
                            assert(rest[j - 1] == nodes[j]);
                        }
                    }
                    assert(is_first_node(nodes, at + 1));
                },
                None => {
                    assert forall|i: int| 0 <= i < nodes.len() implies (
                    #[trigger] nodes[i]).file_id.value != id by {
                        if i > 0 {
                            assert(rest[i - 1] == nodes[i]);
                        }
                    }
                },
            }
        }
    }
}

proof fn first_node_is_found(nodes: Seq<FileNode>, at: int)
    requires
        is_first_node(nodes, at),
    ensures
        scene::node_of(nodes, nodes[at].file_id.value) == Some(nodes[at]),
{
    let id = nodes[at].file_id.value;
    node_is_first(nodes, id);
    if scene::node_of(nodes, id) is Some {
        let node = scene::node_of(nodes, id)->0;
        let other = choose|i: int|
            is_first_node(nodes, i) && #[trigger] nodes[i] == node && node.file_id.value == id;
        if other < at {
            assert(nodes[other].file_id.value != nodes[at].file_id.value);
        }
        if at < other {
            assert(nodes[at].file_id.value != nodes[other].file_id.value);
        }
    }
}

/// A shown file and its branch are of a listed file.
spec fn stands_for(
    entry: (u64, FileLife),
    nodes: Seq<FileNode>,
    directories: Seq<DirectoryNode>,
    root: DirId,
    shown: FileVisual,
    branch: BranchVisual,
) -> bool {
    let node = scene::node_of(nodes, entry.0);
    &&& node is Some
    &&& entry.0 == shown.file_id.value
    &&& shows_file(shown, entry.1, node->0)
    &&& branch.child == HierarchyNodeId::File(shown.file_id)
    &&& branch.opacity_ticks == shown.opacity_ticks
    &&& branch.color == entry.1.color
    &&& branch.parent == scene::branch_parent(directories, root, (node->0).parent)
}

/// Shown files and their branches are equally many, and at most as many as
/// there are files.
proof fn visuals_have_branches(
    files: Seq<(u64, FileLife)>,
    nodes: Seq<FileNode>,
    directories: Seq<DirectoryNode>,
    root: DirId,
)
    ensures
        scene::file_visuals(files, nodes).len() == scene::file_branches(
            files,
            nodes,
            directories,
            root,
        ).len(),
        scene::file_visuals(files, nodes).len() <= files.len(),
    decreases files.len(),
{
    if files.len() > 0 {
        visuals_have_branches(files.drop_last(), nodes, directories, root);
    }
}

/// Every shown file is of a listed one.
proof fn visual_source(
    files: Seq<(u64, FileLife)>,
    nodes: Seq<FileNode>,
    directories: Seq<DirectoryNode>,
    root: DirId,
    i: int,
) -> (k: int)
    requires
        0 <= i < scene::file_visuals(files, nodes).len(),
    ensures
        0 <= k < files.len(),
        stands_for(
            files[k],
            nodes,
            directories,
            root,
            scene::file_visuals(files, nodes)[i],
            scene::file_branches(files, nodes, directories, root)[i],
        ),
    decreases files.len(),
{
    if files.len() == 0 {
        0
    } else {
        let front = files.drop_last();
        visuals_have_branches(front, nodes, directories, root);
        if i < scene::file_visuals(front, nodes).len() {
            let k = visual_source(front, nodes, directories, root, i);
            assert(files[k] == front[k]);
            k
        } else {
            node_is_first(nodes, files.last().0);
            files.len() - 1
        }
    }
}

/// Every listed file that the world knows is shown.
proof fn visual_of(files: Seq<(u64, FileLife)>, nodes: Seq<FileNode>, k: int) -> (i: int)
    requires
        0 <= k < files.len(),
        scene::node_of(nodes, files[k].0) is Some,
    ensures
        0 <= i < scene::file_visuals(files, nodes).len(),
        scene::file_visuals(files, nodes)[i].file_id.value == files[k].0,
    decreases files.len(),
{
    let front = files.drop_last();
    if k < front.len() {
        visual_of(front, nodes, k)
    } else {
        node_is_first(nodes, files.last().0);
        scene::file_visuals(files, nodes).len() - 1
    }
}

/// Files are visited by identity.
proof fn visuals_ascend(files: Seq<(u64, FileLife)>, nodes: Seq<FileNode>, i: int, j: int)
    requires
        id_map::ascending(files),
        0 <= i < j < scene::file_visuals(files, nodes).len(),
    ensures
        scene::file_visuals(files, nodes)[i].file_id.value < scene::file_visuals(
            files,
            nodes,
        )[j].file_id.value,
    decreases files.len(),
{
    if files.len() > 0 {
        let front = files.drop_last();
        assert forall|i: int, j: int| 0 <= i < j < front.len() implies (#[trigger] front[i]).0 < (
        #[trigger] front[j]).0 by {
            assert(files[i].0 < files[j].0);
        }
        if j < scene::file_visuals(front, nodes).len() {
            visuals_ascend(front, nodes, i, j);
        } else {
            node_is_first(nodes, files.last().0);
            let root = DirId { value: 0 };
            let k = visual_source(front, nodes, Seq::empty(), root, i);
            assert(files[k].0 < files[files.len() - 1].0);
        }
    }
}

/// What an arrangement has at a place comes from some place.
proof fn arranged_from<T, K: Rank>(items: Seq<T>, keys: Seq<K>, i: int)
    requires
        items.len() == keys.len() <= usize::MAX,
        0 <= i < stable_sort::arranged(items, stable_sort::order_of(keys)).len(),
    ensures
        i < items.len(),
        0 <= stable_sort::order_of(keys)[i] < items.len(),
        stable_sort::arranged(items, stable_sort::order_of(keys))[i]
            == items[stable_sort::order_of(keys)[i] as int],
{
    stable_sort::orders_exist(keys);
    let places = stable_sort::order_of(keys);
    assert(places.contains(places[i]));
}

/// An arrangement leaves out nothing.
proof fn arranged_has<T, K: Rank>(items: Seq<T>, keys: Seq<K>, k: int) -> (i: int)
    requires
        items.len() == keys.len() <= usize::MAX,
        0 <= k < items.len(),
    ensures
        0 <= i < stable_sort::arranged(items, stable_sort::order_of(keys)).len(),
        stable_sort::arranged(items, stable_sort::order_of(keys)).len() == items.len(),
        stable_sort::order_of(keys)[i] == k,
        stable_sort::arranged(items, stable_sort::order_of(keys))[i] == items[k],
{
    stable_sort::orders_exist(keys);
    let places = stable_sort::order_of(keys);
    assert(places.contains(k as usize));
    choose|i: int| 0 <= i < places.len() && places[i] == k as usize
}

/// An arrangement repeats nothing and goes by the keys.
proof fn arranged_pair<K: Rank>(keys: Seq<K>, i: int, j: int)
    requires
        keys.len() <= usize::MAX,
        0 <= i < j < stable_sort::order_of(keys).len(),
    ensures
        stable_sort::order_of(keys)[i] != stable_sort::order_of(keys)[j],
        !keys[stable_sort::order_of(keys)[j] as int].before(
            &keys[stable_sort::order_of(keys)[i] as int],
        ),
{
    stable_sort::orders_exist(keys);
    let places = stable_sort::order_of(keys);
    assert(stable_sort::place_before(keys, places[i], places[j]));
    stable_sort::places_are_strict(keys, places[i], places[j]);
    K::before_is_strict(&keys[places[i] as int], &keys[places[j] as int]);
}

/// A file that lives and that the world knows is shown.
proof fn file_is_shown(lives: Lives, tree: WorldTree, at: int) -> (v: int)
    requires
        lives.wf(),
        is_first_node(tree.files@, at),
        lives@.files.dom().contains(tree.files@[at].file_id.value),
    ensures
        ({
            let visuals = scene::file_visuals(lives.files.listed(), tree.files@);
            let branches = scene::file_branches(
                lives.files.listed(),
                tree.files@,
                scene::shown_directories(tree),
                tree.root,
            );
            let node = tree.files@[at];
            &&& 0 <= v < visuals.len()
            &&& scene::node_of(tree.files@, node.file_id.value) == Some(node)
            &&& stands_for(
                (node.file_id.value, lives@.files[node.file_id.value]),
                tree.files@,
                scene::shown_directories(tree),
                tree.root,
                visuals[v],
                branches[v],
            )
            &&& shows_file(visuals[v], lives@.files[node.file_id.value], node)
        }),
{
    let files = lives.files.listed();
    let nodes = tree.files@;
    let id = nodes[at].file_id.value;
    lives.files.list_is_map();
    id_map::map_has_entries(files);
    first_node_is_found(nodes, at);
    let k = choose|k: int| 0 <= k < files.len() && (#[trigger] files[k]).0 == id;
    assert(id_map::entries_map(files).dom().contains(id));
    let v = visual_of(files, nodes, k);
    let other = visual_source(files, nodes, scene::shown_directories(tree), tree.root, v);
    same_entry(files, k, other);
    v
}

/// A shown file is one that lives and that the world knows.
proof fn visual_has_node(lives: Lives, tree: WorldTree, v: int) -> (at: int)
    requires
        lives.wf(),
        0 <= v < scene::file_visuals(lives.files.listed(), tree.files@).len(),
    ensures
        is_first_node(tree.files@, at),
        lives@.files.dom().contains(tree.files@[at].file_id.value),
        shows_file(
            scene::file_visuals(lives.files.listed(), tree.files@)[v],
            lives@.files[tree.files@[at].file_id.value],
            tree.files@[at],
        ),
{
    let files = lives.files.listed();
    let nodes = tree.files@;
    lives.files.list_is_map();
    id_map::map_has_entries(files);
    let k = visual_source(files, nodes, scene::shown_directories(tree), tree.root, v);
    let id = files[k].0;
    assert(id_map::entries_map(files).dom().contains(id));
    node_is_first(nodes, id);
    let node = scene::node_of(nodes, id)->0;
    choose|at: int|
        is_first_node(nodes, at) && #[trigger] nodes[at] == node && node.file_id.value == id
}

/// Every file that lives and that the world knows is shown, as the world has it
/// now: at full opacity while it is visible and alive, else with what is left
/// of its fade.
pub proof fn scenes_show_every_file(
    view: SceneView,
    lives: Lives,
    tree: WorldTree,
    tick: u64,
    catalog: CatalogView,
    at: int,
)
    requires
        lives.wf(),
        scene::scene_shows(view, lives, tree, tick, catalog),
        is_first_node(tree.files@, at),
        lives@.files.dom().contains(tree.files@[at].file_id.value),
    ensures
        exists|i: int|
            0 <= i < view.files.len() && shows_file(
                #[trigger] view.files[i],
                lives@.files[tree.files@[at].file_id.value],
                tree.files@[at],
            ),
{
    let visuals = scene::file_visuals(lives.files.listed(), tree.files@);
    let keys = scene::file_keys(visuals);
    lives.files.list_fits();
    visuals_have_branches(lives.files.listed(), tree.files@, Seq::empty(), tree.root);
    let v = file_is_shown(lives, tree, at);
    let i = arranged_has(visuals, keys, v);
    assert(view.files[i] == visuals[v]);
}

/// Nothing is shown as a file but what lives and what the world knows.
pub proof fn shown_files_live(
    view: SceneView,
    lives: Lives,
    tree: WorldTree,
    tick: u64,
    catalog: CatalogView,
    i: int,
) -> (at: int)
    requires
        lives.wf(),
        scene::scene_shows(view, lives, tree, tick, catalog),
        0 <= i < view.files.len(),
    ensures
        is_first_node(tree.files@, at),
        lives@.files.dom().contains(tree.files@[at].file_id.value),
        shows_file(
            view.files[i],
            lives@.files[tree.files@[at].file_id.value],
            tree.files@[at],
        ),
{
    let visuals = scene::file_visuals(lives.files.listed(), tree.files@);
    let keys = scene::file_keys(visuals);
    lives.files.list_fits();
    visuals_have_branches(lives.files.listed(), tree.files@, Seq::empty(), tree.root);
    arranged_from(visuals, keys, i);
    visual_has_node(lives, tree, stable_sort::order_of(keys)[i] as int)
}

/// No file is shown twice.
pub proof fn files_are_shown_once(
    view: SceneView,
    lives: Lives,
    tree: WorldTree,
    tick: u64,
    catalog: CatalogView,
    i: int,
    j: int,
)
    requires
        lives.wf(),
        scene::scene_shows(view, lives, tree, tick, catalog),
        0 <= i < j < view.files.len(),
    ensures
        view.files[i].file_id != view.files[j].file_id,
{
    let files = lives.files.listed();
    let visuals = scene::file_visuals(files, tree.files@);
    let keys = scene::file_keys(visuals);
    let places = stable_sort::order_of(keys);
    lives.files.list_is_map();
    lives.files.list_fits();
    visuals_have_branches(files, tree.files@, Seq::empty(), tree.root);
    arranged_from(visuals, keys, i);
    arranged_from(visuals, keys, j);
    arranged_pair(keys, i, j);
    if places[i] < places[j] {
        visuals_ascend(files, tree.files@, places[i] as int, places[j] as int);
    } else {
        visuals_ascend(files, tree.files@, places[j] as int, places[i] as int);
    }
}

proof fn same_entry(files: Seq<(u64, FileLife)>, a: int, b: int)
    requires
        id_map::ascending(files),
        0 <= a < files.len(),
        0 <= b < files.len(),
        files[a].0 == files[b].0,
    ensures
        a == b,
{
    if a < b {
        assert(files[a].0 < files[b].0);
    }
    if b < a {
        assert(files[b].0 < files[a].0);
    }
}

/// Files are shown in the order of their paths, and those of one path in the
/// order of their incarnations.
pub proof fn files_are_shown_in_order(
    view: SceneView,
    lives: Lives,
    tree: WorldTree,
    tick: u64,
    catalog: CatalogView,
)
    requires
        lives.wf(),
        scene::scene_shows(view, lives, tree, tick, catalog),
    ensures
        forall|i: int, j: int|
            0 <= i < j < view.files.len() ==> (#[trigger] view.files[i]).path_id.value < (
            #[trigger] view.files[j]).path_id.value || (view.files[i].path_id.value
                == view.files[j].path_id.value && view.files[i].incarnation
                <= view.files[j].incarnation),
{
    let files = lives.files.listed();
    let visuals = scene::file_visuals(files, tree.files@);
    let keys = scene::file_keys(visuals);
    let places = stable_sort::order_of(keys);
    lives.files.list_fits();
    visuals_have_branches(files, tree.files@, Seq::empty(), tree.root);
    assert forall|i: int, j: int| 0 <= i < j < view.files.len() implies (
    #[trigger] view.files[i]).path_id.value < (#[trigger] view.files[j]).path_id.value || (
    view.files[i].path_id.value == view.files[j].path_id.value && view.files[i].incarnation
        <= view.files[j].incarnation) by {
        arranged_from(visuals, keys, i);
        arranged_from(visuals, keys, j);
        arranged_pair(keys, i, j);
    }
}

proof fn below_root_is_filter(directories: Seq<DirectoryNode>, root: DirId)
    ensures
        scene::below_root(directories, root) == directories.filter(
            |d: DirectoryNode| d.id != root,
        ),
        scene::below_root(directories, root).len() <= directories.len(),
        forall|i: int|
            0 <= i < scene::below_root(directories, root).len() ==> exists|k: int|
                0 <= k < directories.len() && #[trigger] directories[k]
                    == #[trigger] scene::below_root(directories, root)[i] && directories[k].id
                    != root,
        forall|k: int|
            0 <= k < directories.len() && (#[trigger] directories[k]).id != root ==> exists|i: int|
                0 <= i < scene::below_root(directories, root).len() && #[trigger] scene::below_root(
                    directories,
                    root,
                )[i] == directories[k],
    decreases directories.len(),
{
    let low = |d: DirectoryNode| d.id != root;
    let below = scene::below_root(directories, root);
    reveal_with_fuel(Seq::filter, 2);
    if directories.len() > 0 {
        let front = directories.drop_last();
        let before = scene::below_root(front, root);
        below_root_is_filter(front, root);
        front.lemma_filter_push(directories.last(), low);
        assert(front.push(directories.last()) =~= directories);
        assert forall|i: int| 0 <= i < below.len() implies exists|k: int|
            0 <= k < directories.len() && #[trigger] directories[k] == #[trigger] below[i]
                && directories[k].id != root by {
            if i < before.len() {
                assert(before[i] == below[i]);
                let k = choose|k: int|
                    0 <= k < front.len() && #[trigger] front[k] == before[i] && front[k].id
                        != root;
                assert(directories[k] == below[i]);
            } else {
                assert(directories[directories.len() - 1] == below[i]);
            }
        }
        assert forall|k: int|
            0 <= k < directories.len() && (#[trigger] directories[k]).id != root implies exists|
            i: int,
        |
            0 <= i < below.len() && #[trigger] below[i] == directories[k] by {
            if k < front.len() {
                assert(front[k] == directories[k]);
                let i = choose|i: int| 0 <= i < before.len() && #[trigger] before[i] == front[k];
                assert(below[i] == before[i]);
            } else {
                assert(below[below.len() - 1] == directories[k]);
            }
        }
    }
}

/// Every directory of the world but its root is shown, and as many are shown as
/// there are such.
pub proof fn directories_are_shown(tree: WorldTree, k: int)
    requires
        0 <= k < tree.directories@.len(),
        tree.directories@[k].id != tree.root,
    ensures
        scene::shown_directories(tree).len() == tree.directories@.filter(
            |d: DirectoryNode| d.id != tree.root,
        ).len(),
        exists|i: int|
            0 <= i < scene::shown_directories(tree).len()
                && #[trigger] scene::shown_directories(tree)[i] == tree.directories@[k],
{
    let below = scene::below_root(tree.directories@, tree.root);
    let keys = scene::directory_keys(below);
    below_root_is_filter(tree.directories@, tree.root);
    assert(tree.directories.len() == tree.directories@.len());
    let b = choose|b: int| 0 <= b < below.len() && #[trigger] below[b] == tree.directories@[k];
    let i = arranged_has(below, keys, b);
    assert(scene::shown_directories(tree)[i] == tree.directories@[k]);
}

/// A directory that is shown is of the world and is not its root.
pub proof fn shown_directories_exist(tree: WorldTree, i: int)
    requires
        0 <= i < scene::shown_directories(tree).len(),
    ensures
        scene::shown_directories(tree)[i].id != tree.root,
        exists|k: int|
            0 <= k < tree.directories@.len() && #[trigger] tree.directories@[k]
                == scene::shown_directories(tree)[i],
{
    let below = scene::below_root(tree.directories@, tree.root);
    let keys = scene::directory_keys(below);
    below_root_is_filter(tree.directories@, tree.root);
    assert(tree.directories.len() == tree.directories@.len());
    arranged_from(below, keys, i);
    let b = stable_sort::order_of(keys)[i] as int;
    let k = choose|k: int|
        0 <= k < tree.directories@.len() && #[trigger] tree.directories@[k] == below[b]
            && tree.directories@[k].id != tree.root;
    assert(tree.directories@[k] == scene::shown_directories(tree)[i]);
}

/// The shallower directories come before the deeper, and those of one depth by
/// identity.
pub proof fn directories_are_shown_top_down(tree: WorldTree, i: int, j: int)
    requires
        0 <= i < j < scene::shown_directories(tree).len(),
    ensures
        ({
            let a = scene::shown_directories(tree)[i];
            let b = scene::shown_directories(tree)[j];
            a.depth < b.depth || (a.depth == b.depth && a.id.value <= b.id.value)
        }),
{
    let below = scene::below_root(tree.directories@, tree.root);
    let keys = scene::directory_keys(below);
    below_root_is_filter(tree.directories@, tree.root);
    assert(tree.directories.len() == tree.directories@.len());
    arranged_from(below, keys, i);
    arranged_from(below, keys, j);
    arranged_pair(keys, i, j);
}

/// A scene lists exactly the directories that are shown, in their order, in the
/// colour of directories.
pub proof fn scenes_show_every_directory(
    view: SceneView,
    lives: Lives,
    tree: WorldTree,
    tick: u64,
    catalog: CatalogView,
)
    requires
        scene::scene_shows(view, lives, tree, tick, catalog),
    ensures
        view.directories.len() == scene::shown_directories(tree).len(),
        forall|i: int|
            0 <= i < view.directories.len() ==> (#[trigger] view.directories[i]).id
                == scene::shown_directories(tree)[i].id && view.directories[i].color == (Rgb8 {
                r: 119,
                g: 139,
                b: 164,
            }),
{
}

/// The branch that a parent gives: from the parent where it is a directory of
/// the world other than the root, and from nowhere else.
pub open spec fn starts_at(branch: BranchVisual, tree: WorldTree, parent: DirId) -> bool {
    &&& parent != tree.root && has_directory(tree, parent) ==> branch.parent == Some(parent)
    &&& parent == tree.root || !has_directory(tree, parent) ==> branch.parent is None
}

proof fn listed_is_has(tree: WorldTree, id: DirId)
    requires
        id != tree.root,
    ensures
        scene::is_listed(scene::shown_directories(tree), id) <==> has_directory(tree, id),
{
    let shown = scene::shown_directories(tree);
    if scene::is_listed(shown, id) {
        let i = choose|i: int| 0 <= i < shown.len() && (#[trigger] shown[i]).id == id;
        shown_directories_exist(tree, i);
        let k = choose|k: int|
            0 <= k < tree.directories@.len() && #[trigger] tree.directories@[k] == shown[i];
        assert(tree.directories@[k].id == id);
    }
    if has_directory(tree, id) {
        let k = choose|k: int|
            0 <= k < tree.directories@.len() && (#[trigger] tree.directories@[k]).id == id;
        directories_are_shown(tree, k);
        let i = choose|i: int|
            0 <= i < shown.len() && #[trigger] shown[i] == tree.directories@[k];
        assert(shown[i].id == id);
    }
}

/// Every shown file hangs on exactly one branch, which starts at the directory
/// that the world has the file in: at none only where that is the root or is
/// not of the world.  The branch has the opacity and the colour of the file.
pub proof fn files_hang_on_their_directory(
    view: SceneView,
    lives: Lives,
    tree: WorldTree,
    tick: u64,
    catalog: CatalogView,
    at: int,
)
    requires
        lives.wf(),
        scene::scene_shows(view, lives, tree, tick, catalog),
        is_first_node(tree.files@, at),
        lives@.files.dom().contains(tree.files@[at].file_id.value),
    ensures
        ({
            let node = tree.files@[at];
            let life = lives@.files[node.file_id.value];
            &&& exists|i: int|
                0 <= i < view.branches.len() && {
                    let branch = #[trigger] view.branches[i];
                    &&& branch.child == HierarchyNodeId::File(node.file_id)
                    &&& starts_at(branch, tree, node.parent)
                    &&& branch.color == life.color
                    &&& life.visible && node.alive ==> branch.opacity_ticks == 90
                    &&& !(life.visible && node.alive) ==> branch.opacity_ticks
                        == life.fade_remaining
                }
            &&& forall|i: int, j: int|
                0 <= i < view.branches.len() && 0 <= j < view.branches.len() && (
                #[trigger] view.branches[i]).child == HierarchyNodeId::File(node.file_id) && (
                #[trigger] view.branches[j]).child == HierarchyNodeId::File(node.file_id) ==> i
                    == j
        }),
{
    let files = lives.files.listed();
    let nodes = tree.files@;
    let directories = scene::shown_directories(tree);
    let visuals = scene::file_visuals(files, nodes);
    let first = scene::directory_branches(directories, tree.root);
    let branches = scene::file_branches(files, nodes, directories, tree.root);
    let node = nodes[at];
    lives.files.list_is_map();
    visuals_have_branches(files, nodes, directories, tree.root);
    if node.parent != tree.root {
        listed_is_has(tree, node.parent);
    }
    let v = file_is_shown(lives, tree, at);
    assert(view.branches[first.len() + v] == branches[v]);
    assert forall|i: int, j: int|
        0 <= i < view.branches.len() && 0 <= j < view.branches.len() && (
        #[trigger] view.branches[i]).child == HierarchyNodeId::File(node.file_id) && (
        #[trigger] view.branches[j]).child == HierarchyNodeId::File(node.file_id) implies i == j by {
        only_place(view, lives, tree, node.file_id, i, v);
        only_place(view, lives, tree, node.file_id, j, v);
    }
}

/// A file has a branch at one place only.
proof fn only_place(view: SceneView, lives: Lives, tree: WorldTree, id: FileId, i: int, v: int)
    requires
        lives.wf(),
        view.branches == scene::directory_branches(scene::shown_directories(tree), tree.root)
            + scene::file_branches(
            lives.files.listed(),
            tree.files@,
            scene::shown_directories(tree),
            tree.root,
        ),
        0 <= v < scene::file_visuals(lives.files.listed(), tree.files@).len(),
        scene::file_visuals(lives.files.listed(), tree.files@)[v].file_id == id,
        0 <= i < view.branches.len(),
        view.branches[i].child == HierarchyNodeId::File(id),
    ensures
        i == scene::directory_branches(scene::shown_directories(tree), tree.root).len() + v,
{
    let files = lives.files.listed();
    let nodes = tree.files@;
    let directories = scene::shown_directories(tree);
    let first = scene::directory_branches(directories, tree.root);
    let branches = scene::file_branches(files, nodes, directories, tree.root);
    lives.files.list_is_map();
    visuals_have_branches(files, nodes, directories, tree.root);
    if i < first.len() {
        assert(first[i].child is Directory);
    } else {
        let k = i - first.len();
        assert(view.branches[i] == branches[k]);
        let source = visual_source(files, nodes, directories, tree.root, k);
        if k < v {
            visuals_ascend(files, nodes, k, v);
        }
        if v < k {
            visuals_ascend(files, nodes, v, k);
        }
    }
}

/// Every shown directory has a branch at the same place, at full opacity, which
/// starts at its parent: at none only where that is the root, is not of the
/// world or is not there.
pub proof fn directories_hang_on_their_parent(
    view: SceneView,
    lives: Lives,
    tree: WorldTree,
    tick: u64,
    catalog: CatalogView,
    at: int,
)
    requires
        scene::scene_shows(view, lives, tree, tick, catalog),
        0 <= at < scene::shown_directories(tree).len(),
    ensures
        ({
            let directory = scene::shown_directories(tree)[at];
            let branch = view.branches[at];
            &&& at < view.branches.len()
            &&& branch.child == HierarchyNodeId::Directory(directory.id)
            &&& branch.opacity_ticks == 90
            &&& branch.color == (Rgb8 { r: 119, g: 139, b: 164 })
            &&& directory.parent matches Some(parent) ==> starts_at(branch, tree, parent)
            &&& directory.parent is None ==> branch.parent is None
        }),
{
    let directory = scene::shown_directories(tree)[at];
    if let Some(parent) = directory.parent {
        if parent != tree.root {
            listed_is_has(tree, parent);
        }
    }
}

/// Every contributor is shown once, in the order of identities, with its
/// impulses and its colour; it is active exactly when it has an impulse.
pub proof fn scenes_show_every_contributor(
    view: SceneView,
    lives: Lives,
    tree: WorldTree,
    tick: u64,
    catalog: CatalogView,
)
    requires
        lives.wf(),
        scene::scene_shows(view, lives, tree, tick, catalog),
        forall|id: u64| #[trigger] lives@.contributors.dom().contains(id) ==> id <= u32::MAX,
    ensures
        forall|i: int|
            0 <= i < view.contributors.len() ==> {
                let shown = #[trigger] view.contributors[i];
                let id = shown.id.value as u64;
                &&& lives@.contributors.dom().contains(id)
                &&& shown.impulses == lives@.contributors[id].impulses
                &&& shown.color == lives@.contributors[id].color
                &&& shown.active <==> lives@.contributors[id].impulses > 0
            },
        forall|id: u64| #[trigger]
            lives@.contributors.dom().contains(id) ==> exists|i: int|
                0 <= i < view.contributors.len() && (#[trigger] view.contributors[i]).id.value
                    == id,
        forall|i: int, j: int|
            0 <= i < j < view.contributors.len() ==> (#[trigger] view.contributors[i]).id.value < (
            #[trigger] view.contributors[j]).id.value,
{
    let listed = lives.contributors.listed();
    lives.contributors.list_is_map();
    id_map::map_has_entries(listed);
    assert forall|i: int| 0 <= i < listed.len() implies (#[trigger] listed[i]).0 <= u32::MAX by {
        assert(id_map::entries_map(listed).dom().contains(listed[i].0));
        assert(lives@.contributors.dom().contains(listed[i].0));
    }
    assert forall|i: int| 0 <= i < view.contributors.len() implies {
        let shown = #[trigger] view.contributors[i];
        let id = shown.id.value as u64;
        &&& lives@.contributors.dom().contains(id)
        &&& shown.impulses == lives@.contributors[id].impulses
        &&& shown.color == lives@.contributors[id].color
        &&& shown.active <==> lives@.contributors[id].impulses > 0
    } by {
        assert(id_map::entries_map(listed).dom().contains(listed[i].0));
    }
    assert forall|id: u64| #[trigger] lives@.contributors.dom().contains(id) implies exists|i: int|
        0 <= i < view.contributors.len() && (#[trigger] view.contributors[i]).id.value == id by {
        let i = choose|i: int| 0 <= i < listed.len() && (#[trigger] listed[i]).0 == id;
        assert(view.contributors[i].id.value == id);
    }
    assert forall|i: int, j: int| 0 <= i < j < view.contributors.len() implies (
    #[trigger] view.contributors[i]).id.value < (#[trigger] view.contributors[j]).id.value by {
        assert(listed[i].0 < listed[j].0);
    }
}

/// What the scene says of an action: how many ticks it is on its way, thirty
/// at most.
pub open spec fn shows_action(shown: ActionVisual, action: ActionLife, tick: u64) -> bool {
    &&& shown.contributor == action.contributor
    &&& shown.path_id == action.path_id
    &&& shown.file_id == action.file_id
    &&& shown.action == action.action
    &&& shown.color == action.color
    &&& tick <= action.started_tick ==> shown.progress_ticks == 0
    &&& action.started_tick <= tick < action.started_tick + 30 ==> shown.progress_ticks == tick
        - action.started_tick
    &&& tick >= action.started_tick + 30 ==> shown.progress_ticks == 30
}

/// Every action under way is shown, and as many are shown as there are.
pub proof fn scenes_show_every_action(
    view: SceneView,
    lives: Lives,
    tree: WorldTree,
    tick: u64,
    catalog: CatalogView,
    k: int,
)
    requires
        scene::scene_shows(view, lives, tree, tick, catalog),
        0 <= k < lives@.actions.len(),
    ensures
        view.actions.len() == lives@.actions.len(),
        exists|i: int|
            0 <= i < view.actions.len() && (#[trigger] view.actions[i]).place == k && shows_action(
                view.actions[i],
                lives@.actions[k],
                tick,
            ),
{
    let visuals = scene::action_visuals(lives.actions@, tick);
    let keys = scene::action_keys(visuals);
    assert(lives.actions.len() == lives.actions@.len());
    let i = arranged_has(visuals, keys, k);
    assert(view.actions[i] == visuals[k]);
}

/// A shown action is one under way.
pub proof fn shown_actions_are_under_way(
    view: SceneView,
    lives: Lives,
    tree: WorldTree,
    tick: u64,
    catalog: CatalogView,
    i: int,
)
    requires
        scene::scene_shows(view, lives, tree, tick, catalog),
        0 <= i < view.actions.len(),
    ensures
        view.actions[i].place < lives@.actions.len(),
        shows_action(view.actions[i], lives@.actions[view.actions[i].place as int], tick),
{
    let visuals = scene::action_visuals(lives.actions@, tick);
    assert(lives.actions.len() == lives.actions@.len());
    arranged_from(visuals, scene::action_keys(visuals), i);
}

/// Actions are shown by contributor, path and progress, and none twice.
pub proof fn actions_are_shown_in_order(
    view: SceneView,
    lives: Lives,
    tree: WorldTree,
    tick: u64,
    catalog: CatalogView,
    i: int,
    j: int,
)
    requires
        scene::scene_shows(view, lives, tree, tick, catalog),
        0 <= i < j < view.actions.len(),
    ensures
        view.actions[i].place != view.actions[j].place,
        ({
            let a = view.actions[i];
            let b = view.actions[j];
            ||| a.contributor.value < b.contributor.value
            ||| a.contributor.value == b.contributor.value && a.path_id.value < b.path_id.value
            ||| a.contributor.value == b.contributor.value && a.path_id.value == b.path_id.value
                && a.progress_ticks <= b.progress_ticks
        }),
{
    let visuals = scene::action_visuals(lives.actions@, tick);
    let keys = scene::action_keys(visuals);
    assert(lives.actions.len() == lives.actions@.len());
    arranged_from(visuals, keys, i);
    arranged_from(visuals, keys, j);
    arranged_pair(keys, i, j);
}

/// Every shown file has a label at the same place: with the text of its path in
/// the catalog, its opacity, and a higher priority while it is active; a label
/// is visible exactly when its file has any opacity left.
pub proof fn scenes_label_every_file(
    view: SceneView,
    lives: Lives,
    tree: WorldTree,
    tick: u64,
    catalog: CatalogView,
    at: int,
)
    requires
        scene::scene_shows(view, lives, tree, tick, catalog),
        0 <= at < view.files.len(),
    ensures
        view.labels.len() == view.files.len(),
        ({
            let label = view.labels[at];
            let file = view.files[at];
            &&& label.target == file.path_id
            &&& label.opacity_ticks == file.opacity_ticks
            &&& label.visible <==> file.opacity_ticks > 0
            &&& file.active ==> label.priority == 1
            &&& !file.active ==> label.priority == 0
            &&& 1 <= file.path_id.value <= catalog.paths.len() ==> vstd::utf8::encode_utf8(
                label.text,
            ) == catalog.paths[file.path_id.value - 1]
        }),
{
}

/// A snapshot has the tick and the time that it was taken at, and an action that
/// began with that tick is at its start in it.
pub proof fn snapshots_have_their_tick(
    snapshot: SceneSnapshot,
    held: LivesView,
    tree: WorldTree,
    tick: u64,
    time: RationalTime,
    catalog: CatalogView,
    i: int,
)
    requires
        scene::is_snapshot_of(snapshot, held, tree, tick, time, catalog),
        0 <= i < snapshot@.actions.len(),
    ensures
        snapshot.tick == tick,
        snapshot.repository_time == time,
        snapshot@.actions.len() == held.actions.len(),
        shows_action(
            snapshot@.actions[i],
            held.actions[snapshot@.actions[i].place as int],
            snapshot.tick,
        ),
{
    let lives = choose|lives: Lives|
        lives.wf() && lives@ == held && #[trigger] scene::scene_shows(
            snapshot@,
            lives,
            tree,
            tick,
            catalog,
        );
    shown_actions_are_under_way(snapshot@, lives, tree, tick, catalog, i);
    scenes_show_every_action(
        snapshot@,
        lives,
        tree,
        tick,
        catalog,
        snapshot@.actions[i].place as int,
    );
}

} // verus!
