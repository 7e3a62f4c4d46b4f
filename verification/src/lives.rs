//! The lives of files, contributors and actions in a replay.

use vstd::prelude::*;

use crate::catalog::{Catalog, CatalogView};
use crate::id_map;
use crate::id_map::IdMap;
use crate::model::{Action, ContributorId, Event, EventTarget, PathId, Rgb8};
use crate::palette;
use crate::palette::{action_color, contributor_color, file_color, DirId, FileId};

verus! {

/// Ticks that an action needs from its contributor to its target.
pub const ACTION_TRAVEL_TICKS: u64 = 30;

/// Ticks that an action is shown.
pub const ACTION_LIFETIME_TICKS: u64 = 180;

/// Ticks that a file fades.
pub const FILE_FADE_TICKS: u64 = 90;

/// A file of the world.
#[derive(Clone, Copy, Debug, PartialEq, Eq, Structural)]
pub struct FileNode {
    pub file_id: FileId,
    pub path_id: PathId,
    pub parent: DirId,
    pub alive: bool,
    pub color: Option<Rgb8>,
}

/// What an event changed in the world.
pub struct WorldDelta {
    pub deleted_files: Vec<FileId>,
    pub created_files: Vec<FileNode>,
    pub modified_files: Vec<FileNode>,
    /// The file that the path of the event names afterwards.
    pub active_file: Option<FileId>,
}

/// A file that is shown or fading.
#[derive(Clone, Copy, Debug, PartialEq, Eq, Structural)]
pub struct FileLife {
    /// Rises with every recreation of a path.
    pub incarnation: u64,
    pub visible: bool,
    pub fade_remaining: u64,
    pub fade_start_tick: Option<u64>,
    pub last_activity_tick: u64,
    pub color: Rgb8,
}

/// A contributor that has acted.
#[derive(Clone, Copy, Debug, PartialEq, Eq, Structural)]
pub struct ContributorLife {
    /// How often an action gave energy.
    pub impulses: u64,
    pub last_action_tick: u64,
    pub color: Rgb8,
}

/// An action that is shown.
#[derive(Clone, Copy, Debug, PartialEq, Eq, Structural)]
pub struct ActionLife {
    pub contributor: ContributorId,
    pub path_id: PathId,
    /// The exact incarnation that the action is bound to.
    pub file_id: Option<FileId>,
    pub action: Action,
    pub started_tick: u64,
    pub color: Rgb8,
}

/// All lives of a replay.
#[verifier::ext_equal]
pub struct LivesView {
    pub files: Map<u64, FileLife>,
    pub contributors: Map<u64, ContributorLife>,
    pub actions: Seq<ActionLife>,
}

/// No lives.
pub open spec fn no_lives() -> LivesView {
    LivesView { files: Map::empty(), contributors: Map::empty(), actions: Seq::empty() }
}

/// What colours depend on.
#[derive(Clone, Copy, Debug, PartialEq, Eq, Structural)]
pub struct Paint {
    pub seed: u64,
    pub algorithm_version: u32,
}

/// A file that starts to fade.
pub open spec fn fading(file: FileLife, tick: u64, color: Option<Rgb8>) -> FileLife {
    FileLife {
        visible: false,
        fade_remaining: FILE_FADE_TICKS,
        fade_start_tick: Some(tick),
        color: match color {
            Some(color) => color,
            None => file.color,
        },
        ..file
    }
}

/// A file that is shown anew.
pub open spec fn newborn(id: FileId, tick: u64, color: Rgb8) -> FileLife {
    FileLife {
        incarnation: id.value,
        visible: true,
        fade_remaining: 0,
        fade_start_tick: None,
        last_activity_tick: tick,
        color,
    }
}

/// The colour that a file of the world is shown in.
pub open spec fn node_colour(node: FileNode, paint: Paint, catalog: CatalogView) -> Rgb8 {
    match node.color {
        Some(color) => color,
        None => palette::file_colour(
            paint.seed,
            paint.algorithm_version,
            catalog,
            node.path_id,
        ),
    }
}

/// The files after some of them were deleted.
pub open spec fn after_deletes(
    files: Map<u64, FileLife>,
    deleted: Seq<FileId>,
    tick: u64,
    color: Option<Rgb8>,
) -> Map<u64, FileLife>
    decreases deleted.len(),
{
    if deleted.len() == 0 {
        files
    } else {
        let before = after_deletes(files, deleted.drop_last(), tick, color);
        let id = deleted.last().value;
        if before.dom().contains(id) {
            before.insert(id, fading(before[id], tick, color))
        } else {
            before
        }
    }
}

/// The files after some were created.
pub open spec fn after_creates(
    files: Map<u64, FileLife>,
    created: Seq<FileNode>,
    tick: u64,
    paint: Paint,
    catalog: CatalogView,
) -> Map<u64, FileLife>
    decreases created.len(),
{
    if created.len() == 0 {
        files
    } else {
        let node = created.last();
        after_creates(files, created.drop_last(), tick, paint, catalog).insert(
            node.file_id.value,
            newborn(node.file_id, tick, node_colour(node, paint, catalog)),
        )
    }
}

/// The files after some were modified: a file that fades or has gone is shown
/// again.
pub open spec fn after_modifies(
    files: Map<u64, FileLife>,
    modified: Seq<FileNode>,
    tick: u64,
    paint: Paint,
    catalog: CatalogView,
) -> Map<u64, FileLife>
    decreases modified.len(),
{
    if modified.len() == 0 {
        files
    } else {
        let node = modified.last();
        let before = after_modifies(files, modified.drop_last(), tick, paint, catalog);
        let id = node.file_id.value;
        let color = node_colour(node, paint, catalog);
        if before.dom().contains(id) {
            before.insert(
                id,
                FileLife {
                    incarnation: before[id].incarnation,
                    ..newborn(node.file_id, tick, color)
                },
            )
        } else {
            before.insert(id, newborn(node.file_id, tick, color))
        }
    }
}

/// The incarnation that the action of an event is bound to.  A deletion binds
/// to the file that it deleted; an action on a directory binds to none.
pub open spec fn bound_file(event: Event, delta: WorldDelta) -> Option<FileId> {
    match event.target {
        EventTarget::Directory(_) => None,
        EventTarget::File(_) => match event.action {
            Action::Delete => if delta.deleted_files@.len() > 0 {
                Some(delta.deleted_files@.last())
            } else {
                None
            },
            _ => delta.active_file,
        },
    }
}

/// The contributors after an event.
pub open spec fn after_contribution(
    contributors: Map<u64, ContributorLife>,
    event: Event,
    tick: u64,
    paint: Paint,
    catalog: CatalogView,
) -> Map<u64, ContributorLife> {
    let id = event.contributor.value as u64;
    let known = if contributors.dom().contains(id) {
        contributors[id]
    } else {
        ContributorLife {
            impulses: 0,
            last_action_tick: tick,
            color: palette::contributor_colour(
                paint.seed,
                paint.algorithm_version,
                catalog,
                event.contributor,
            ),
        }
    };
    contributors.insert(
        id,
        ContributorLife {
            color: match event.color {
                Some(color) => color,
                None => known.color,
            },
            ..known
        },
    )
}

/// The action that an event starts.
pub open spec fn started_action(event: Event, delta: WorldDelta, tick: u64) -> ActionLife {
    ActionLife {
        contributor: event.contributor,
        path_id: event.target.path(),
        file_id: bound_file(event, delta),
        action: event.action,
        started_tick: tick,
        color: match event.color {
            Some(color) => color,
            None => palette::action_colour(event.action),
        },
    }
}

/// All lives after an event and what it changed in the world.
pub open spec fn after_event(
    lives: LivesView,
    event: Event,
    delta: WorldDelta,
    tick: u64,
    paint: Paint,
    catalog: CatalogView,
) -> LivesView {
    let deleted = after_deletes(lives.files, delta.deleted_files@, tick, event.color);
    let created = after_creates(deleted, delta.created_files@, tick, paint, catalog);
    LivesView {
        files: after_modifies(created, delta.modified_files@, tick, paint, catalog),
        contributors: after_contribution(lives.contributors, event, tick, paint, catalog),
        actions: lives.actions.push(started_action(event, delta, tick)),
    }
}

/// Ticks since an earlier one.
pub open spec fn ticks_since(tick: u64, earlier: u64) -> int {
    if tick > earlier {
        tick - earlier
    } else {
        0
    }
}

/// A file one tick later, at a tick.
pub open spec fn aged_file(file: FileLife, tick: u64, idle: Option<u64>) -> FileLife {
    if !file.visible {
        match file.fade_start_tick {
            Some(start) => FileLife {
                fade_remaining: if ticks_since(tick, start) < FILE_FADE_TICKS {
                    (FILE_FADE_TICKS - ticks_since(tick, start)) as u64
                } else {
                    0
                },
                ..file
            },
            None => file,
        }
    } else if idle is Some && ticks_since(tick, file.last_activity_tick) > idle->0 {
        FileLife {
            visible: false,
            fade_start_tick: Some(tick),
            fade_remaining: FILE_FADE_TICKS,
            ..file
        }
    } else {
        file
    }
}

/// A file is still shown.
pub open spec fn is_shown(file: FileLife) -> bool {
    file.visible || file.fade_remaining > 0
}

/// The files at a tick.
pub open spec fn aged_files(files: Map<u64, FileLife>, tick: u64, idle: Option<u64>) -> Map<
    u64,
    FileLife,
> {
    Map::new(
        |id: u64| files.dom().contains(id) && is_shown(aged_file(files[id], tick, idle)),
        |id: u64| aged_file(files[id], tick, idle),
    )
}

/// An action is still shown at a tick.
pub open spec fn action_lives(action: ActionLife, tick: u64) -> bool {
    ticks_since(tick, action.started_tick) <= ACTION_LIFETIME_TICKS
}

/// The actions that are still shown at a tick, in their order.
pub open spec fn living_actions(actions: Seq<ActionLife>, tick: u64) -> Seq<ActionLife>
    decreases actions.len(),
{
    if actions.len() == 0 {
        Seq::empty()
    } else {
        let before = living_actions(actions.drop_last(), tick);
        if action_lives(actions.last(), tick) {
            before.push(actions.last())
        } else {
            before
        }
    }
}

/// The contributors after every action gave energy.
pub open spec fn energized(
    contributors: Map<u64, ContributorLife>,
    actions: Seq<ActionLife>,
    tick: u64,
) -> Map<u64, ContributorLife>
    decreases actions.len(),
{
    if actions.len() == 0 {
        contributors
    } else {
        let before = energized(contributors, actions.drop_last(), tick);
        let id = actions.last().contributor.value as u64;
        if before.dom().contains(id) {
            before.insert(
                id,
                ContributorLife {
                    impulses: if before[id].impulses == u64::MAX {
                        u64::MAX
                    } else {
                        (before[id].impulses + 1) as u64
                    },
                    last_action_tick: tick,
                    ..before[id]
                },
            )
        } else {
            before
        }
    }
}

/// All lives at a tick.
pub open spec fn aged(lives: LivesView, tick: u64, idle: Option<u64>) -> LivesView {
    LivesView {
        files: aged_files(lives.files, tick, idle),
        contributors: energized(lives.contributors, lives.actions, tick),
        actions: living_actions(lives.actions, tick),
    }
}

/// A deleted file is shown for exactly the fade time from the tick of its
/// deletion on, and what remains of the time falls with every tick.
pub proof fn deleted_files_fade_for_exactly_their_time(
    file: FileLife,
    start: u64,
    color: Option<Rgb8>,
    tick: u64,
    idle: Option<u64>,
)
    requires
        start <= tick,
    ensures
        ({
            let later = aged_file(fading(file, start, color), tick, idle);
            &&& is_shown(later) <==> tick < start + FILE_FADE_TICKS
            &&& is_shown(later) ==> later.fade_remaining == FILE_FADE_TICKS - (tick - start)
            &&& !later.visible
        }),
{
}

/// A file without activity stays until its idle time has passed and starts
/// to fade with the full fade time on the tick after.
pub proof fn idle_files_start_a_full_fade(file: FileLife, tick: u64, idle: u64)
    requires
        file.visible,
        file.last_activity_tick <= tick,
    ensures
        ({
            let later = aged_file(file, tick, Some(idle));
            &&& tick - file.last_activity_tick <= idle ==> later == file
            &&& tick - file.last_activity_tick > idle ==> !later.visible && later.fade_remaining
                == FILE_FADE_TICKS
        }),
{
}

/// Without an idle time a visible file stays as it is.
pub proof fn visible_files_stay_without_an_idle_time(file: FileLife, tick: u64)
    requires
        file.visible,
    ensures
        aged_file(file, tick, None) == file,
{
}

/// The colour of an event wins over every default: its contributor and its
/// action take it.
pub proof fn explicit_colours_win(
    lives: LivesView,
    event: Event,
    delta: WorldDelta,
    tick: u64,
    paint: Paint,
    catalog: CatalogView,
    color: Rgb8,
)
    requires
        event.color == Some(color),
    ensures
        ({
            let after = after_event(lives, event, delta, tick, paint, catalog);
            &&& after.contributors.dom().contains(event.contributor.value as u64)
            &&& after.contributors[event.contributor.value as u64].color == color
            &&& after.actions.last().color == color
        }),
{
}

/// Actions never lose or change the incarnation that they are bound to while
/// they live: what lives later is what was there before.
pub proof fn living_actions_are_unchanged(actions: Seq<ActionLife>, tick: u64)
    ensures
        forall|a: ActionLife| #[trigger]
            living_actions(actions, tick).contains(a) <==> actions.contains(a) && action_lives(
                a,
                tick,
            ),
    decreases actions.len(),
{
    if actions.len() > 0 {
        let front = actions.drop_last();
        living_actions_are_unchanged(front, tick);
        let before = living_actions(front, tick);
        let after = living_actions(actions, tick);
        assert forall|a: ActionLife| #[trigger] after.contains(a) <==> actions.contains(a)
            && action_lives(a, tick) by {
            if after.contains(a) {
                let i = choose|i: int| 0 <= i < after.len() && after[i] == a;
                if i < before.len() {
                    assert(before[i] == a);
                    assert(before.contains(a));
                    let j = choose|j: int| 0 <= j < front.len() && front[j] == a;
                    assert(actions[j] == a);
                } else {
                    assert(actions[actions.len() - 1] == a);
                }
            }
            if actions.contains(a) && action_lives(a, tick) {
                let j = choose|j: int| 0 <= j < actions.len() && actions[j] == a;
                if j < front.len() {
                    assert(front[j] == a);
                    assert(front.contains(a));
                    assert(before.contains(a));
                    let i = choose|i: int| 0 <= i < before.len() && before[i] == a;
                    assert(after[i] == a);
                } else {
                    assert(after[after.len() - 1] == a);
                }
            }
        }
    }
}

/// The lives of a replay.
pub struct Lives {
    pub files: IdMap<FileLife>,
    pub contributors: IdMap<ContributorLife>,
    pub actions: Vec<ActionLife>,
}

impl View for Lives {
    type V = LivesView;

    open spec fn view(&self) -> LivesView {
        LivesView {
            files: self.files@,
            contributors: self.contributors@,
            actions: self.actions@,
        }
    }
}

fn paint_node(node: &FileNode, paint: Paint, catalog: &Catalog) -> (color: Rgb8)
    ensures
        color == node_colour(*node, paint, catalog@),
{
    match node.color {
        Some(color) => color,
        None => file_color(paint.seed, paint.algorithm_version, catalog, node.path_id),
    }
}

fn since(tick: u64, earlier: u64) -> (ticks: u64)
    ensures
        ticks == ticks_since(tick, earlier),
{
    tick.saturating_sub(earlier)
}

fn age(file: FileLife, tick: u64, idle: Option<u64>) -> (later: FileLife)
    ensures
        later == aged_file(file, tick, idle),
{
    if !file.visible {
        return match file.fade_start_tick {
            Some(start) => FileLife {
                fade_remaining: FILE_FADE_TICKS.saturating_sub(since(tick, start)),
                ..file
            },
            None => file,
        };
    }
    match idle {
        Some(idle) => {
            if since(tick, file.last_activity_tick) > idle {
                return FileLife {
                    visible: false,
                    fade_start_tick: Some(tick),
                    fade_remaining: FILE_FADE_TICKS,
                    ..file
                };
            }
        },
        None => {},
    }
    file
}

impl Lives {
    pub open spec fn wf(&self) -> bool {
        self.files.wf() && self.contributors.wf()
    }

    pub fn new() -> (lives: Self)
        ensures
            lives.wf(),
            lives@ == no_lives(),
    {
        Lives { files: IdMap::new(), contributors: IdMap::new(), actions: Vec::new() }
    }

    /// A copy of all lives.
    pub fn copy(&self) -> (copy: Self)
        requires
            self.wf(),
        ensures
            copy.wf(),
            copy@ == self@,
    {
        let mut actions: Vec<ActionLife> = Vec::new();
        let mut index: usize = 0;
        while index < self.actions.len()
            invariant
                index <= self.actions@.len(),
                actions@ == self.actions@.take(index as int),
            decreases self.actions@.len() - index,
        {
            actions.push(self.actions[index]);
            assert(self.actions@.take(index + 1) =~= self.actions@.take(index as int).push(
                self.actions@[index as int],
            ));
            index = index + 1;
        }
        assert(self.actions@.take(index as int) =~= self.actions@);
        Lives { files: self.files.copy(), contributors: self.contributors.copy(), actions }
    }

    fn delete_files(&mut self, deleted: &Vec<FileId>, tick: u64, color: Option<Rgb8>)
        requires
            old(self).wf(),
        ensures
            final(self).wf(),
            final(self)@ == (LivesView {
                files: after_deletes(old(self)@.files, deleted@, tick, color),
                ..old(self)@
            }),
    {
        let ghost start = self@;
        let mut index: usize = 0;
        assert(deleted@.take(0) =~= Seq::<FileId>::empty());
        while index < deleted.len()
            invariant
                index <= deleted@.len(),
                self.wf(),
                self@ == (LivesView {
                    files: after_deletes(start.files, deleted@.take(index as int), tick, color),
                    ..start
                }),
            decreases deleted@.len() - index,
        {
            let id: u64 = deleted[index].value;
            proof {
                let next = deleted@.take(index + 1);
                assert(next.drop_last() =~= deleted@.take(index as int));
                assert(next.last() == deleted@[index as int]);
            }
            match self.files.get(id) {
                Some(file) => {
                    let shade = match color {
                        Some(color) => color,
                        None => file.color,
                    };
                    self.files.set(
                        id,
                        FileLife {
                            visible: false,
                            fade_remaining: FILE_FADE_TICKS,
                            fade_start_tick: Some(tick),
                            color: shade,
                            ..file
                        },
                    );
                },
                None => {},
            }
            index = index + 1;
        }
        assert(deleted@.take(index as int) =~= deleted@);
    }

    fn create_files(&mut self, created: &Vec<FileNode>, tick: u64, paint: Paint, catalog: &Catalog)
        requires
            old(self).wf(),
        ensures
            final(self).wf(),
            final(self)@ == (LivesView {
                files: after_creates(old(self)@.files, created@, tick, paint, catalog@),
                ..old(self)@
            }),
    {
        let ghost start = self@;
        let mut index: usize = 0;
        assert(created@.take(0) =~= Seq::<FileNode>::empty());
        while index < created.len()
            invariant
                index <= created@.len(),
                self.wf(),
                self@ == (LivesView {
                    files: after_creates(
                        start.files,
                        created@.take(index as int),
                        tick,
                        paint,
                        catalog@,
                    ),
                    ..start
                }),
            decreases created@.len() - index,
        {
            let node: FileNode = created[index];
            proof {
                let next = created@.take(index + 1);
                assert(next.drop_last() =~= created@.take(index as int));
                assert(next.last() == node);
            }
            let color = paint_node(&node, paint, catalog);
            self.files.set(
                node.file_id.value,
                FileLife {
                    incarnation: node.file_id.value,
                    visible: true,
                    fade_remaining: 0,
                    fade_start_tick: None,
                    last_activity_tick: tick,
                    color,
                },
            );
            index = index + 1;
        }
        assert(created@.take(index as int) =~= created@);
    }

    fn modify_files(&mut self, modified: &Vec<FileNode>, tick: u64, paint: Paint, catalog: &Catalog)
        requires
            old(self).wf(),
        ensures
            final(self).wf(),
            final(self)@ == (LivesView {
                files: after_modifies(old(self)@.files, modified@, tick, paint, catalog@),
                ..old(self)@
            }),
    {
        let ghost start = self@;
        let mut index: usize = 0;
        assert(modified@.take(0) =~= Seq::<FileNode>::empty());
        while index < modified.len()
            invariant
                index <= modified@.len(),
                self.wf(),
                self@ == (LivesView {
                    files: after_modifies(
                        start.files,
                        modified@.take(index as int),
                        tick,
                        paint,
                        catalog@,
                    ),
                    ..start
                }),
            decreases modified@.len() - index,
        {
            let node: FileNode = modified[index];
            proof {
                let next = modified@.take(index + 1);
                assert(next.drop_last() =~= modified@.take(index as int));
                assert(next.last() == node);
            }
            let color = paint_node(&node, paint, catalog);
            let incarnation: u64 = match self.files.get(node.file_id.value) {
                Some(file) => file.incarnation,
                None => node.file_id.value,
            };
            self.files.set(
                node.file_id.value,
                FileLife {
                    incarnation,
                    visible: true,
                    fade_remaining: 0,
                    fade_start_tick: None,
                    last_activity_tick: tick,
                    color,
                },
            );
            index = index + 1;
        }
        assert(modified@.take(index as int) =~= modified@);
    }

    fn contribute(&mut self, event: &Event, tick: u64, paint: Paint, catalog: &Catalog)
        requires
            old(self).wf(),
        ensures
            final(self).wf(),
            final(self)@ == (LivesView {
                contributors: after_contribution(
                    old(self)@.contributors,
                    *event,
                    tick,
                    paint,
                    catalog@,
                ),
                ..old(self)@
            }),
    {
        let id: u64 = event.contributor.as_u64();
        let known = match self.contributors.get(id) {
            Some(known) => known,
            None => ContributorLife {
                impulses: 0,
                last_action_tick: tick,
                color: contributor_color(
                    paint.seed,
                    paint.algorithm_version,
                    catalog,
                    event.contributor,
                ),
            },
        };
        let color = match event.color {
            Some(color) => color,
            None => known.color,
        };
        self.contributors.set(id, ContributorLife { color, ..known });
    }

    /// Takes in an event and what it changed in the world.
    pub fn apply_event(
        &mut self,
        event: &Event,
        delta: &WorldDelta,
        tick: u64,
        paint: Paint,
        catalog: &Catalog,
    )
        requires
            old(self).wf(),
        ensures
            final(self).wf(),
            final(self)@ == after_event(old(self)@, *event, *delta, tick, paint, catalog@),
    {
        self.delete_files(&delta.deleted_files, tick, event.color);
        self.create_files(&delta.created_files, tick, paint, catalog);
        self.modify_files(&delta.modified_files, tick, paint, catalog);
        self.contribute(event, tick, paint, catalog);
        let file_id = match event.target {
            EventTarget::Directory(_) => None,
            EventTarget::File(_) => match event.action {
                Action::Delete => {
                    let count: usize = delta.deleted_files.len();
                    if count > 0 {
                        Some(delta.deleted_files[count - 1])
                    } else {
                        None
                    }
                },
                Action::Add => delta.active_file,
                Action::Modify => delta.active_file,
            },
        };
        let color = match event.color {
            Some(color) => color,
            None => action_color(event.action),
        };
        self.actions.push(
            ActionLife {
                contributor: event.contributor,
                path_id: event.path_id(),
                file_id,
                action: event.action,
                started_tick: tick,
                color,
            },
        );
    }

    fn age_files(&mut self, tick: u64, idle: Option<u64>)
        requires
            old(self).wf(),
        ensures
            final(self).wf(),
            final(self)@ == (LivesView {
                files: aged_files(old(self)@.files, tick, idle),
                ..old(self)@
            }),
    {
        let mut kept: IdMap<FileLife> = IdMap::new();
        let ghost listed = self.files.listed();
        let mut index: usize = 0;
        proof {
            self.files.list_is_map();
            assert(listed.take(0) =~= Seq::<(u64, FileLife)>::empty());
            assert(aged_files(Map::empty(), tick, idle) =~= Map::<u64, FileLife>::empty());
        }
        while index < self.files.len()
            invariant
                index <= listed.len(),
                listed == self.files.listed(),
                self.files.wf(),
                id_map::ascending(listed),
                kept.wf(),
                kept@ == aged_files(id_map::entries_map(listed.take(index as int)), tick, idle),
                forall|i: int|
                    0 <= i < kept.listed().len() && index < listed.len() ==> (
                    #[trigger] kept.listed()[i]).0 < listed[index as int].0,
            decreases listed.len() - index,
        {
            let (id, file) = self.files.entry(index);
            let later = age(file, tick, idle);
            let ghost before = id_map::entries_map(listed.take(index as int));
            proof {
                let next = listed.take(index + 1);
                assert(next.drop_last() =~= listed.take(index as int));
                assert(next.last() == (id, file));
                if index + 1 < listed.len() {
                    assert(listed[index as int].0 < listed[index + 1].0);
                }
            }
            let ghost held = kept@;
            if later.visible || later.fade_remaining > 0 {
                kept.push(id, later);
                assert(held.insert(id, later) =~= aged_files(
                    before.insert(id, file),
                    tick,
                    idle,
                ));
            } else {
                proof {
                    // The identity is new, so leaving it out changes nothing.
                    let front = listed.take(index as int);
                    assert(id_map::ascending(front));
                    id_map::map_has_entries(front);
                    if before.dom().contains(id) {
                        let i = choose|i: int| 0 <= i < front.len() && (#[trigger] front[i]).0 == id;
                        assert(listed[i].0 < listed[index as int].0);
                    }
                    assert(held =~= aged_files(before.insert(id, file), tick, idle));
                }
            }
            index = index + 1;
        }
        assert(listed.take(index as int) =~= listed);
        self.files = kept;
    }

    fn energize(&mut self, tick: u64)
        requires
            old(self).wf(),
        ensures
            final(self).wf(),
            final(self)@ == (LivesView {
                contributors: energized(old(self)@.contributors, old(self)@.actions, tick),
                ..old(self)@
            }),
    {
        let ghost start = self@;
        let mut index: usize = 0;
        assert(self.actions@.take(0) =~= Seq::<ActionLife>::empty());
        while index < self.actions.len()
            invariant
                index <= self.actions@.len(),
                self.wf(),
                self@ == (LivesView {
                    contributors: energized(
                        start.contributors,
                        start.actions.take(index as int),
                        tick,
                    ),
                    ..start
                }),
            decreases self.actions@.len() - index,
        {
            let id: u64 = self.actions[index].contributor.as_u64();
            proof {
                let next = start.actions.take(index + 1);
                assert(next.drop_last() =~= start.actions.take(index as int));
                assert(next.last() == start.actions[index as int]);
            }
            match self.contributors.get(id) {
                Some(life) => {
                    self.contributors.set(
                        id,
                        ContributorLife {
                            impulses: life.impulses.saturating_add(1),
                            last_action_tick: tick,
                            ..life
                        },
                    );
                },
                None => {},
            }
            index = index + 1;
        }
        assert(start.actions.take(index as int) =~= start.actions);
    }

    fn expire_actions(&mut self, tick: u64)
        requires
            old(self).wf(),
        ensures
            final(self).wf(),
            final(self)@ == (LivesView {
                actions: living_actions(old(self)@.actions, tick),
                ..old(self)@
            }),
    {
        let mut kept: Vec<ActionLife> = Vec::new();
        let mut index: usize = 0;
        assert(self.actions@.take(0) =~= Seq::<ActionLife>::empty());
        while index < self.actions.len()
            invariant
                index <= self.actions@.len(),
                kept@ == living_actions(self.actions@.take(index as int), tick),
            decreases self.actions@.len() - index,
        {
            let action: ActionLife = self.actions[index];
            proof {
                let next = self.actions@.take(index + 1);
                assert(next.drop_last() =~= self.actions@.take(index as int));
                assert(next.last() == action);
            }
            if since(tick, action.started_tick) <= ACTION_LIFETIME_TICKS {
                kept.push(action);
            }
            index = index + 1;
        }
        assert(self.actions@.take(index as int) =~= self.actions@);
        self.actions = kept;
    }

    /// Lets a tick pass.
    pub fn integrate(&mut self, tick: u64, idle: Option<u64>)
        requires
            old(self).wf(),
        ensures
            final(self).wf(),
            final(self)@ == aged(old(self)@, tick, idle),
    {
        self.age_files(tick, idle);
        self.energize(tick);
        self.expire_actions(tick);
    }
}

} // verus!
