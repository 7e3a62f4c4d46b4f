//! What a replay shows at a tick, apart from where on the screen.

use vstd::prelude::*;

use crate::catalog::{Catalog, CatalogView};
use crate::id_map;
use crate::id_map::IdMap;
use crate::lives;
use crate::lives::{
    ActionLife, ContributorLife, FileLife, FileNode, Lives, LivesView, ACTION_TRAVEL_TICKS,
    FILE_FADE_TICKS,
};
use crate::model::{Action, ContributorId, PathId, Rgb8};
use crate::palette;
use crate::palette::{directory_color, DirId, FileId, HierarchyNodeId};
use crate::rational::RationalTime;
use crate::stable_sort;
use crate::stable_sort::{arrange, stable_order, SortKey};
use crate::text;

verus! {

/// A directory of the world.
#[derive(Clone, Copy, Debug, PartialEq, Eq, Structural)]
pub struct DirectoryNode {
    pub id: DirId,
    pub parent: Option<DirId>,
    pub depth: u64,
}

/// The hierarchy of directories and files, as the world holds it.
pub struct WorldTree {
    pub root: DirId,
    pub directories: Vec<DirectoryNode>,
    pub files: Vec<FileNode>,
}

/// A directory that is shown.
#[derive(Clone, Copy, Debug, PartialEq, Eq, Structural)]
pub struct DirectoryVisual {
    pub id: DirId,
    pub color: Rgb8,
}

/// A file that is shown.
#[derive(Clone, Copy, Debug, PartialEq, Eq, Structural)]
pub struct FileVisual {
    pub path_id: PathId,
    pub file_id: FileId,
    pub incarnation: u64,
    /// Opacity in parts of the fade time.
    pub opacity_ticks: u64,
    pub active: bool,
    pub color: Rgb8,
}

/// A contributor that is shown.
#[derive(Clone, Copy, Debug, PartialEq, Eq, Structural)]
pub struct ContributorVisual {
    pub id: ContributorId,
    pub impulses: u64,
    pub active: bool,
    pub color: Rgb8,
}

/// An action that is shown.
#[derive(Clone, Copy, Debug, PartialEq, Eq, Structural)]
pub struct ActionVisual {
    pub contributor: ContributorId,
    pub path_id: PathId,
    pub file_id: Option<FileId>,
    pub action: Action,
    /// Progress in parts of the travel time.
    pub progress_ticks: u64,
    /// The place of the action among those that live.
    pub place: usize,
    pub color: Rgb8,
}

/// A branch of the hierarchy.
#[derive(Clone, Copy, Debug, PartialEq, Eq, Structural)]
pub struct BranchVisual {
    pub parent: Option<DirId>,
    pub child: HierarchyNodeId,
    pub opacity_ticks: u64,
    pub color: Rgb8,
}

/// A label of a file.
#[derive(Clone, Debug, PartialEq, Eq)]
pub struct LabelVisual {
    pub target: PathId,
    pub text: String,
    pub opacity_ticks: u64,
    pub priority: u8,
    pub visible: bool,
}

/// What a label says.
#[verifier::ext_equal]
pub struct LabelView {
    pub target: PathId,
    pub text: Seq<char>,
    pub opacity_ticks: u64,
    pub priority: u8,
    pub visible: bool,
}

impl View for LabelVisual {
    type V = LabelView;

    open spec fn view(&self) -> LabelView {
        LabelView {
            target: self.target,
            text: self.text@,
            opacity_ticks: self.opacity_ticks,
            priority: self.priority,
            visible: self.visible,
        }
    }
}

/// One complete scene.
#[derive(Clone, Debug, PartialEq, Eq)]
pub struct SceneSnapshot {
    pub tick: u64,
    pub repository_time: RationalTime,
    pub generation: u64,
    pub directories: Vec<DirectoryVisual>,
    pub files: Vec<FileVisual>,
    pub contributors: Vec<ContributorVisual>,
    pub actions: Vec<ActionVisual>,
    pub branches: Vec<BranchVisual>,
    pub labels: Vec<LabelVisual>,
}

/// What a scene holds.
#[verifier::ext_equal]
pub struct SceneView {
    pub directories: Seq<DirectoryVisual>,
    pub files: Seq<FileVisual>,
    pub contributors: Seq<ContributorVisual>,
    pub actions: Seq<ActionVisual>,
    pub branches: Seq<BranchVisual>,
    pub labels: Seq<LabelView>,
}

pub open spec fn label_views(labels: Seq<LabelVisual>) -> Seq<LabelView> {
    Seq::new(labels.len(), |i: int| labels[i]@)
}

impl View for SceneSnapshot {
    type V = SceneView;

    open spec fn view(&self) -> SceneView {
        SceneView {
            directories: self.directories@,
            files: self.files@,
            contributors: self.contributors@,
            actions: self.actions@,
            branches: self.branches@,
            labels: label_views(self.labels@),
        }
    }
}

/// A scene that shows nothing.
pub open spec fn empty_scene() -> SceneView {
    SceneView {
        directories: Seq::empty(),
        files: Seq::empty(),
        contributors: Seq::empty(),
        actions: Seq::empty(),
        branches: Seq::empty(),
        labels: Seq::empty(),
    }
}

impl SceneSnapshot {
    pub fn empty() -> (snapshot: Self)
        ensures
            snapshot.tick == 0,
            snapshot.repository_time == (RationalTime { numerator: 0, denominator: 1 }),
            snapshot.generation == 0,
            snapshot@ == empty_scene(),
    {
        let snapshot = SceneSnapshot {
            tick: 0,
            repository_time: RationalTime::default(),
            generation: 0,
            directories: Vec::new(),
            files: Vec::new(),
            contributors: Vec::new(),
            actions: Vec::new(),
            branches: Vec::new(),
            labels: Vec::new(),
        };
        assert(snapshot@ =~= empty_scene());
        snapshot
    }
}

/// The directories below the root, in the order of the world.
pub open spec fn below_root(directories: Seq<DirectoryNode>, root: DirId) -> Seq<DirectoryNode>
    decreases directories.len(),
{
    if directories.len() == 0 {
        Seq::empty()
    } else {
        let before = below_root(directories.drop_last(), root);
        if directories.last().id == root {
            before
        } else {
            before.push(directories.last())
        }
    }
}

/// Directories are ordered by depth, then by identity.
pub open spec fn directory_keys(directories: Seq<DirectoryNode>) -> Seq<SortKey> {
    Seq::new(directories.len(), |i: int| (directories[i].depth, directories[i].id.value, 0u64))
}

/// The directories that are shown, parents before children.
pub open spec fn shown_directories(tree: WorldTree) -> Seq<DirectoryNode> {
    let below = below_root(tree.directories@, tree.root);
    stable_sort::arranged(below, stable_sort::order_of(directory_keys(below)))
}

/// The file of the world with an identity.
pub open spec fn node_of(nodes: Seq<FileNode>, id: u64) -> Option<FileNode>
    decreases nodes.len(),
{
    if nodes.len() == 0 {
        None
    } else if nodes[0].file_id.value == id {
        Some(nodes[0])
    } else {
        node_of(nodes.skip(1), id)
    }
}

/// The opacity of a file: full while it is active, else what is left of the
/// fade time.
pub open spec fn opacity_of(file: FileLife, node: FileNode) -> u64 {
    if file.visible && node.alive {
        FILE_FADE_TICKS
    } else {
        file.fade_remaining
    }
}

pub open spec fn file_visual(id: u64, file: FileLife, node: FileNode) -> FileVisual {
    FileVisual {
        path_id: node.path_id,
        file_id: FileId { value: id },
        incarnation: file.incarnation,
        opacity_ticks: opacity_of(file, node),
        active: file.visible && node.alive,
        color: file.color,
    }
}

/// The files that the world knows, by identity.
pub open spec fn file_visuals(files: Seq<(u64, FileLife)>, nodes: Seq<FileNode>) -> Seq<FileVisual>
    decreases files.len(),
{
    if files.len() == 0 {
        Seq::empty()
    } else {
        let before = file_visuals(files.drop_last(), nodes);
        let (id, file) = files.last();
        match node_of(nodes, id) {
            Some(node) => before.push(file_visual(id, file, node)),
            None => before,
        }
    }
}

/// Files are ordered by path, then by incarnation.
pub open spec fn file_keys(files: Seq<FileVisual>) -> Seq<SortKey> {
    Seq::new(files.len(), |i: int| (files[i].path_id.value as u64, files[i].incarnation, 0u64))
}

pub open spec fn shown_files(files: Seq<(u64, FileLife)>, nodes: Seq<FileNode>) -> Seq<FileVisual> {
    let visuals = file_visuals(files, nodes);
    stable_sort::arranged(visuals, stable_sort::order_of(file_keys(visuals)))
}

/// The contributors, by identity.
pub open spec fn shown_contributors(contributors: Seq<(u64, ContributorLife)>) -> Seq<
    ContributorVisual,
> {
    Seq::new(
        contributors.len(),
        |i: int|
            ContributorVisual {
                id: ContributorId { value: contributors[i].0 as u32 },
                impulses: contributors[i].1.impulses,
                active: contributors[i].1.impulses > 0,
                color: contributors[i].1.color,
            },
    )
}

/// How far an action has travelled.
pub open spec fn progress_of(action: ActionLife, tick: u64) -> u64 {
    if lives::ticks_since(tick, action.started_tick) < ACTION_TRAVEL_TICKS {
        lives::ticks_since(tick, action.started_tick) as u64
    } else {
        ACTION_TRAVEL_TICKS
    }
}

pub open spec fn action_visuals(actions: Seq<ActionLife>, tick: u64) -> Seq<ActionVisual> {
    Seq::new(
        actions.len(),
        |i: int|
            ActionVisual {
                contributor: actions[i].contributor,
                path_id: actions[i].path_id,
                file_id: actions[i].file_id,
                action: actions[i].action,
                progress_ticks: progress_of(actions[i], tick),
                place: i as usize,
                color: actions[i].color,
            },
    )
}

/// Actions are ordered by contributor, path and progress.
pub open spec fn action_keys(actions: Seq<ActionVisual>) -> Seq<SortKey> {
    Seq::new(
        actions.len(),
        |i: int|
            (
                actions[i].contributor.value as u64,
                actions[i].path_id.value as u64,
                actions[i].progress_ticks,
            ),
    )
}

pub open spec fn shown_actions(actions: Seq<ActionLife>, tick: u64) -> Seq<ActionVisual> {
    let visuals = action_visuals(actions, tick);
    stable_sort::arranged(visuals, stable_sort::order_of(action_keys(visuals)))
}

/// A directory is among those shown.
pub open spec fn is_listed(directories: Seq<DirectoryNode>, id: DirId) -> bool {
    exists|i: int| 0 <= i < directories.len() && (#[trigger] directories[i]).id == id
}

/// The parent that a branch starts from: none for the root or for a directory
/// that is not shown.
pub open spec fn branch_parent(directories: Seq<DirectoryNode>, root: DirId, parent: DirId) -> Option<
    DirId,
> {
    if parent != root && is_listed(directories, parent) {
        Some(parent)
    } else {
        None
    }
}

pub open spec fn directory_branches(directories: Seq<DirectoryNode>, root: DirId) -> Seq<
    BranchVisual,
> {
    Seq::new(
        directories.len(),
        |i: int|
            BranchVisual {
                parent: match directories[i].parent {
                    Some(parent) => branch_parent(directories, root, parent),
                    None => None,
                },
                child: HierarchyNodeId::Directory(directories[i].id),
                opacity_ticks: FILE_FADE_TICKS,
                color: palette::directory_colour(),
            },
    )
}

pub open spec fn file_branches(
    files: Seq<(u64, FileLife)>,
    nodes: Seq<FileNode>,
    directories: Seq<DirectoryNode>,
    root: DirId,
) -> Seq<BranchVisual>
    decreases files.len(),
{
    if files.len() == 0 {
        Seq::empty()
    } else {
        let before = file_branches(files.drop_last(), nodes, directories, root);
        let (id, file) = files.last();
        match node_of(nodes, id) {
            Some(node) => before.push(
                BranchVisual {
                    parent: branch_parent(directories, root, node.parent),
                    child: HierarchyNodeId::File(FileId { value: id }),
                    opacity_ticks: opacity_of(file, node),
                    color: file.color,
                },
            ),
            None => before,
        }
    }
}

/// The text of a path: its canonical form, or its identity where the catalog
/// does not know it.
pub open spec fn is_path_label(catalog: CatalogView, path: PathId, text: Seq<char>) -> bool {
    if 1 <= path.value <= catalog.paths.len() {
        vstd::utf8::encode_utf8(text) == catalog.paths[path.value - 1]
    } else {
        text == "PathId { value: "@ + text::decimal(path.value as nat) + " }"@
    }
}

/// The labels of files, in their order.
pub open spec fn are_labels(
    files: Seq<FileVisual>,
    catalog: CatalogView,
    labels: Seq<LabelView>,
) -> bool {
    &&& labels.len() == files.len()
    &&& forall|i: int|
        0 <= i < files.len() ==> {
            let label = #[trigger] labels[i];
            &&& label.target == files[i].path_id
            &&& is_path_label(catalog, files[i].path_id, label.text)
            &&& label.opacity_ticks == files[i].opacity_ticks
            &&& label.priority == if files[i].active {
                1u8
            } else {
                0u8
            }
            &&& label.visible == (files[i].opacity_ticks > 0)
        }
}

/// A scene shows the lives of a replay and the hierarchy of the world.
pub open spec fn scene_shows(
    scene: SceneView,
    lives: Lives,
    tree: WorldTree,
    tick: u64,
    catalog: CatalogView,
) -> bool {
    let directories = shown_directories(tree);
    &&& scene.directories == Seq::new(
        directories.len(),
        |i: int| DirectoryVisual { id: directories[i].id, color: palette::directory_colour() },
    )
    &&& scene.files == shown_files(lives.files.listed(), tree.files@)
    &&& scene.contributors == shown_contributors(lives.contributors.listed())
    &&& scene.actions == shown_actions(lives.actions@, tick)
    &&& scene.branches == directory_branches(directories, tree.root) + file_branches(
        lives.files.listed(),
        tree.files@,
        directories,
        tree.root,
    )
    &&& are_labels(scene.files, catalog, scene.labels)
}

/// A snapshot is what a replay publishes of its lives at a tick.
pub open spec fn is_snapshot_of(
    snapshot: SceneSnapshot,
    held: LivesView,
    tree: WorldTree,
    tick: u64,
    repository_time: RationalTime,
    catalog: CatalogView,
) -> bool {
    &&& snapshot.tick == tick
    &&& snapshot.repository_time == repository_time
    &&& exists|lives: Lives|
        lives.wf() && lives@ == held && #[trigger] scene_shows(
            snapshot@,
            lives,
            tree,
            tick,
            catalog,
        )
}

/// Two worlds have the same hierarchy.
pub open spec fn same_tree(one: WorldTree, other: WorldTree) -> bool {
    &&& one.root == other.root
    &&& one.directories@ == other.directories@
    &&& one.files@ == other.files@
}

/// What is published of a tick depends on the lives and the world at that tick
/// alone.
pub proof fn snapshots_are_determined(
    one: SceneSnapshot,
    other: SceneSnapshot,
    held: LivesView,
    tree: WorldTree,
    same: WorldTree,
    tick: u64,
    repository_time: RationalTime,
    catalog: CatalogView,
)
    requires
        same_tree(tree, same),
        is_snapshot_of(one, held, tree, tick, repository_time, catalog),
        is_snapshot_of(other, held, same, tick, repository_time, catalog),
    ensures
        one.tick == other.tick,
        one.repository_time == other.repository_time,
        one@ == other@,
{
    let a = choose|lives: Lives|
        lives.wf() && lives@ == held && #[trigger] scene_shows(one@, lives, tree, tick, catalog);
    let b = choose|lives: Lives|
        lives.wf() && lives@ == held && #[trigger] scene_shows(other@, lives, same, tick, catalog);
    a.files.list_is_map();
    b.files.list_is_map();
    a.contributors.list_is_map();
    b.contributors.list_is_map();
    id_map::lists_are_unique(a.files.listed(), b.files.listed());
    id_map::lists_are_unique(a.contributors.listed(), b.contributors.listed());
    assert forall|i: int| 0 <= i < one@.labels.len() implies one@.labels[i] == other@.labels[i] by {
        let (x, y) = (one@.labels[i], other@.labels[i]);
        let path = one@.files[i].path_id;
        if 1 <= path.value <= catalog.paths.len() {
            text::string_bytes_determine_chars(x.text, y.text);
        }
    }
    assert(one@.labels =~= other@.labels);
    assert(one@ =~= other@);
}

fn list_below_root(tree: &WorldTree) -> (below: Vec<DirectoryNode>)
    ensures
        below@ == below_root(tree.directories@, tree.root),
{
    let mut below: Vec<DirectoryNode> = Vec::new();
    let mut index: usize = 0;
    assert(tree.directories@.take(0) =~= Seq::<DirectoryNode>::empty());
    while index < tree.directories.len()
        invariant
            index <= tree.directories@.len(),
            below@ == below_root(tree.directories@.take(index as int), tree.root),
        decreases tree.directories@.len() - index,
    {
        let directory: DirectoryNode = tree.directories[index];
        proof {
            let next = tree.directories@.take(index + 1);
            assert(next.drop_last() =~= tree.directories@.take(index as int));
            assert(next.last() == directory);
        }
        if directory.id.value != tree.root.value {
            below.push(directory);
        }
        index = index + 1;
    }
    assert(tree.directories@.take(index as int) =~= tree.directories@);
    below
}

/// The directories that are shown, parents before children.
pub fn list_directories(tree: &WorldTree) -> (directories: Vec<DirectoryNode>)
    ensures
        directories@ == shown_directories(*tree),
{
    let below = list_below_root(tree);
    let mut keys: Vec<SortKey> = Vec::new();
    let mut index: usize = 0;
    while index < below.len()
        invariant
            index <= below@.len(),
            keys@ == directory_keys(below@).take(index as int),
        decreases below@.len() - index,
    {
        keys.push((below[index].depth, below[index].id.value, 0));
        assert(keys@ =~= directory_keys(below@).take(index + 1));
        index = index + 1;
    }
    assert(keys@ =~= directory_keys(below@));
    arrange(&below, &stable_order(&keys))
}

impl WorldTree {
    /// The file with an identity.
    pub fn file(&self, id: u64) -> (node: Option<FileNode>)
        ensures
            node == node_of(self.files@, id),
    {
        let mut index: usize = 0;
        assert(self.files@.skip(0) =~= self.files@);
        while index < self.files.len()
            invariant
                index <= self.files@.len(),
                node_of(self.files@, id) == node_of(self.files@.skip(index as int), id),
            decreases self.files@.len() - index,
        {
            if self.files[index].file_id.value == id {
                return Some(self.files[index]);
            }
            assert(self.files@.skip(index as int).skip(1) =~= self.files@.skip(index + 1));
            index = index + 1;
        }
        None
    }
}

fn list_files(files: &IdMap<FileLife>, tree: &WorldTree) -> (visuals: Vec<FileVisual>)
    ensures
        visuals@ == shown_files(files.listed(), tree.files@),
{
    let mut visuals: Vec<FileVisual> = Vec::new();
    let mut keys: Vec<SortKey> = Vec::new();
    let mut index: usize = 0;
    assert(files.listed().take(0) =~= Seq::<(u64, FileLife)>::empty());
    assert(keys@ =~= file_keys(visuals@));
    while index < files.len()
        invariant
            index <= files.listed().len(),
            visuals@ == file_visuals(files.listed().take(index as int), tree.files@),
            keys@ == file_keys(visuals@),
        decreases files.listed().len() - index,
    {
        let (id, file) = files.entry(index);
        proof {
            let next = files.listed().take(index + 1);
            assert(next.drop_last() =~= files.listed().take(index as int));
            assert(next.last() == (id, file));
        }
        match tree.file(id) {
            Some(node) => {
                let active = file.visible && node.alive;
                let opacity_ticks: u64 = if active {
                    FILE_FADE_TICKS
                } else {
                    file.fade_remaining
                };
                keys.push((node.path_id.as_u64(), file.incarnation, 0));
                visuals.push(
                    FileVisual {
                        path_id: node.path_id,
                        file_id: FileId { value: id },
                        incarnation: file.incarnation,
                        opacity_ticks,
                        active,
                        color: file.color,
                    },
                );
                assert(keys@ =~= file_keys(visuals@));
            },
            None => {},
        }
        index = index + 1;
    }
    assert(files.listed().take(index as int) =~= files.listed());
    arrange(&visuals, &stable_order(&keys))
}

fn list_contributors(contributors: &IdMap<ContributorLife>) -> (visuals: Vec<ContributorVisual>)
    ensures
        visuals@ == shown_contributors(contributors.listed()),
{
    let mut visuals: Vec<ContributorVisual> = Vec::new();
    let mut index: usize = 0;
    while index < contributors.len()
        invariant
            index <= contributors.listed().len(),
            visuals@ == shown_contributors(contributors.listed()).take(index as int),
        decreases contributors.listed().len() - index,
    {
        let (id, life) = contributors.entry(index);
        visuals.push(
            ContributorVisual {
                id: ContributorId { value: id as u32 },
                impulses: life.impulses,
                active: life.impulses > 0,
                color: life.color,
            },
        );
        assert(visuals@ =~= shown_contributors(contributors.listed()).take(index + 1));
        index = index + 1;
    }
    assert(visuals@ =~= shown_contributors(contributors.listed()));
    visuals
}

fn list_actions(actions: &Vec<ActionLife>, tick: u64) -> (visuals: Vec<ActionVisual>)
    ensures
        visuals@ == shown_actions(actions@, tick),
{
    let mut visuals: Vec<ActionVisual> = Vec::new();
    let mut keys: Vec<SortKey> = Vec::new();
    let mut index: usize = 0;
    let ghost all = action_visuals(actions@, tick);
    while index < actions.len()
        invariant
            index <= actions@.len(),
            all == action_visuals(actions@, tick),
            visuals@ == all.take(index as int),
            keys@ == action_keys(all).take(index as int),
        decreases actions@.len() - index,
    {
        let action: ActionLife = actions[index];
        let elapsed: u64 = tick.saturating_sub(action.started_tick);
        let progress_ticks: u64 = if elapsed < ACTION_TRAVEL_TICKS {
            elapsed
        } else {
            ACTION_TRAVEL_TICKS
        };
        keys.push((action.contributor.as_u64(), action.path_id.as_u64(), progress_ticks));
        visuals.push(
            ActionVisual {
                contributor: action.contributor,
                path_id: action.path_id,
                file_id: action.file_id,
                action: action.action,
                progress_ticks,
                place: index,
                color: action.color,
            },
        );
        proof {
            assert(all[index as int] == visuals@[index as int]);
            assert(visuals@ =~= all.take(index + 1));
            assert(keys@ =~= action_keys(all).take(index + 1));
        }
        index = index + 1;
    }
    assert(visuals@ =~= all);
    assert(keys@ =~= action_keys(all));
    arrange(&visuals, &stable_order(&keys))
}

/// The place of a directory among those shown.
pub fn find_directory(directories: &Vec<DirectoryNode>, id: DirId) -> (place: Option<usize>)
    ensures
        match place {
            Some(i) => i < directories@.len() && directories@[i as int].id == id,
            None => !is_listed(directories@, id),
        },
{
    let mut index: usize = 0;
    while index < directories.len()
        invariant
            index <= directories@.len(),
            forall|i: int| 0 <= i < index ==> (#[trigger] directories@[i]).id != id,
        decreases directories@.len() - index,
    {
        if directories[index].id.value == id.value {
            return Some(index);
        }
        index = index + 1;
    }
    None
}

fn find_parent(directories: &Vec<DirectoryNode>, root: DirId, parent: DirId) -> (found: Option<
    DirId,
>)
    ensures
        found == branch_parent(directories@, root, parent),
{
    if parent.value == root.value {
        return None;
    }
    match find_directory(directories, parent) {
        Some(place) => {
            assert(directories@[place as int].id == parent);
            Some(parent)
        },
        None => None,
    }
}

fn list_branches(files: &IdMap<FileLife>, tree: &WorldTree, directories: &Vec<DirectoryNode>) -> (
branches: Vec<BranchVisual>)
    ensures
        branches@ == directory_branches(directories@, tree.root) + file_branches(
            files.listed(),
            tree.files@,
            directories@,
            tree.root,
        ),
{
    let mut branches: Vec<BranchVisual> = Vec::new();
    let ghost first = directory_branches(directories@, tree.root);
    let color = directory_color();
    let mut index: usize = 0;
    while index < directories.len()
        invariant
            index <= directories@.len(),
            color == palette::directory_colour(),
            first == directory_branches(directories@, tree.root),
            branches@ == first.take(index as int),
        decreases directories@.len() - index,
    {
        let directory: DirectoryNode = directories[index];
        let parent = match directory.parent {
            Some(parent) => find_parent(directories, tree.root, parent),
            None => None,
        };
        branches.push(
            BranchVisual {
                parent,
                child: HierarchyNodeId::Directory(directory.id),
                opacity_ticks: FILE_FADE_TICKS,
                color,
            },
        );
        assert(first[index as int] == branches@[index as int]);
        assert(branches@ =~= first.take(index + 1));
        index = index + 1;
    }
    assert(branches@ =~= first);
    let mut index: usize = 0;
    assert(files.listed().take(0) =~= Seq::<(u64, FileLife)>::empty());
    assert(first + Seq::<BranchVisual>::empty() =~= first);
    while index < files.len()
        invariant
            index <= files.listed().len(),
            branches@ == first + file_branches(
                files.listed().take(index as int),
                tree.files@,
                directories@,
                tree.root,
            ),
        decreases files.listed().len() - index,
    {
        let (id, file) = files.entry(index);
        let ghost before = file_branches(
            files.listed().take(index as int),
            tree.files@,
            directories@,
            tree.root,
        );
        proof {
            let next = files.listed().take(index + 1);
            assert(next.drop_last() =~= files.listed().take(index as int));
            assert(next.last() == (id, file));
        }
        match tree.file(id) {
            Some(node) => {
                let opacity_ticks: u64 = if file.visible && node.alive {
                    FILE_FADE_TICKS
                } else {
                    file.fade_remaining
                };
                let branch = BranchVisual {
                    parent: find_parent(directories, tree.root, node.parent),
                    child: HierarchyNodeId::File(FileId { value: id }),
                    opacity_ticks,
                    color: file.color,
                };
                branches.push(branch);
                assert((first + before).push(branch) =~= first + before.push(branch));
            },
            None => {},
        }
        index = index + 1;
    }
    assert(files.listed().take(index as int) =~= files.listed());
    branches
}

/// The text that a path is labelled with.
pub fn path_label(catalog: &Catalog, path: PathId) -> (label: String)
    ensures
        is_path_label(catalog@, path, label@),
{
    match catalog.path(path) {
        Some(found) => {
            let label = text::copy_string(&found.text);
            assert(vstd::utf8::encode_utf8(label@) == catalog@.paths[path.value - 1]);
            label
        },
        None => {
            let mut label = "PathId { value: ".to_owned();
            text::push_decimal(&mut label, path.as_u64());
            label.append(" }");
            label
        },
    }
}

fn list_labels(files: &Vec<FileVisual>, catalog: &Catalog) -> (labels: Vec<LabelVisual>)
    ensures
        are_labels(files@, catalog@, label_views(labels@)),
{
    let mut labels: Vec<LabelVisual> = Vec::new();
    let mut index: usize = 0;
    assert(files@.take(0) =~= Seq::<FileVisual>::empty());
    while index < files.len()
        invariant
            index <= files@.len(),
            are_labels(files@.take(index as int), catalog@, label_views(labels@)),
        decreases files@.len() - index,
    {
        let file: FileVisual = files[index];
        let ghost before = label_views(labels@);
        labels.push(
            LabelVisual {
                target: file.path_id,
                text: path_label(catalog, file.path_id),
                opacity_ticks: file.opacity_ticks,
                priority: if file.active {
                    1
                } else {
                    0
                },
                visible: file.opacity_ticks > 0,
            },
        );
        proof {
            let after = label_views(labels@);
            assert forall|i: int| 0 <= i < index implies after[i] == before[i] by {}
            assert(files@.take(index + 1).len() == after.len());
            assert forall|i: int| 0 <= i < files@.take(index + 1).len() implies {
                let label = #[trigger] after[i];
                let f = files@.take(index + 1)[i];
                &&& label.target == f.path_id
                &&& is_path_label(catalog@, f.path_id, label.text)
                &&& label.opacity_ticks == f.opacity_ticks
                &&& label.priority == if f.active {
                    1u8
                } else {
                    0u8
                }
                &&& label.visible == (f.opacity_ticks > 0)
            } by {
                if i < index {
                    assert(before[i] == after[i]);
                    assert(files@.take(index as int)[i] == files@.take(index + 1)[i]);
                }
            }
        }
        index = index + 1;
    }
    assert(files@.take(index as int) =~= files@);
    labels
}

/// Builds the scene of a tick.
pub fn build_scene(
    lives: &Lives,
    tree: &WorldTree,
    catalog: &Catalog,
    tick: u64,
    repository_time: RationalTime,
    generation: u64,
) -> (snapshot: SceneSnapshot)
    ensures
        snapshot.tick == tick,
        snapshot.repository_time == repository_time,
        snapshot.generation == generation,
        scene_shows(snapshot@, *lives, *tree, tick, catalog@),
{
    let nodes = list_directories(tree);
    let color = directory_color();
    let mut directories: Vec<DirectoryVisual> = Vec::new();
    let mut index: usize = 0;
    while index < nodes.len()
        invariant
            index <= nodes@.len(),
            color == palette::directory_colour(),
            directories@.len() == index,
            forall|i: int|
                0 <= i < index ==> #[trigger] directories@[i] == (DirectoryVisual {
                    id: nodes@[i].id,
                    color: palette::directory_colour(),
                }),
        decreases nodes@.len() - index,
    {
        directories.push(DirectoryVisual { id: nodes[index].id, color });
        index = index + 1;
    }
    let files = list_files(&lives.files, tree);
    let contributors = list_contributors(&lives.contributors);
    let actions = list_actions(&lives.actions, tick);
    let branches = list_branches(&lives.files, tree, &nodes);
    let labels = list_labels(&files, catalog);
    let snapshot = SceneSnapshot {
        tick,
        repository_time,
        generation,
        directories,
        files,
        contributors,
        actions,
        branches,
        labels,
    };
    assert(snapshot@.directories =~= Seq::new(
        nodes@.len(),
        |i: int| DirectoryVisual { id: nodes@[i].id, color: palette::directory_colour() },
    ));
    snapshot
}

/// Every node that is shown hangs on exactly one branch: the branches are
/// those of the shown directories, in their order, and then those of the files
/// that the world knows, by identity.
pub proof fn every_node_has_one_branch(
    files: Seq<(u64, FileLife)>,
    nodes: Seq<FileNode>,
    directories: Seq<DirectoryNode>,
    root: DirId,
)
    ensures
        directory_branches(directories, root).len() == directories.len(),
        file_branches(files, nodes, directories, root).len() == file_visuals(files, nodes).len(),
        forall|i: int|
            0 <= i < file_visuals(files, nodes).len() ==> (#[trigger] file_branches(
                files,
                nodes,
                directories,
                root,
            )[i]).child == HierarchyNodeId::File(file_visuals(files, nodes)[i].file_id)
                && file_branches(files, nodes, directories, root)[i].opacity_ticks == file_visuals(
                files,
                nodes,
            )[i].opacity_ticks,
    decreases files.len(),
{
    if files.len() > 0 {
        every_node_has_one_branch(files.drop_last(), nodes, directories, root);
    }
}

} // verus!
