//! What events and ticks do to files, contributors and actions.

use vstd::prelude::*;

use crate::catalog::CatalogView;
use crate::lives;
use crate::lives::{ActionLife, ContributorLife, FileLife, FileNode, LivesView, Paint, WorldDelta};
use crate::model::{Action, ContributorId, Event, EventTarget, Rgb8};
use crate::palette;
use crate::palette::FileId;

verus! {

/// A file is shown as active since a tick.
pub open spec fn active_since(files: Map<u64, FileLife>, id: u64, tick: u64) -> bool {
    &&& files.dom().contains(id)
    &&& files[id].visible
    &&& files[id].last_activity_tick == tick
    &&& files[id].fade_remaining == 0
    &&& files[id].fade_start_tick is None
}

/// Some node of a list has an identity.
pub open spec fn names(nodes: Seq<FileNode>, id: u64) -> bool {
    exists|i: int| 0 <= i < nodes.len() && (#[trigger] nodes[i]).file_id.value == id
}

/// Some identity of a list is this one.
pub open spec fn lists(ids: Seq<FileId>, id: u64) -> bool {
    exists|i: int| 0 <= i < ids.len() && (#[trigger] ids[i]).value == id
}

/// A node is the last one of a list with its identity.
pub open spec fn last_named(nodes: Seq<FileNode>, at: int) -> bool {
    &&& 0 <= at < nodes.len()
    &&& forall|j: int|
        at < j < nodes.len() ==> (#[trigger] nodes[j]).file_id.value != nodes[at].file_id.value
}

proof fn deletes_touch_only_theirs(
    files: Map<u64, FileLife>,
    deleted: Seq<FileId>,
    tick: u64,
    color: Option<Rgb8>,
    id: u64,
)
    ensures
        ({
            let after = lives::after_deletes(files, deleted, tick, color);
            &&& after.dom().contains(id) <==> files.dom().contains(id)
            &&& !lists(deleted, id) && files.dom().contains(id) ==> after[id] == files[id]
            &&& lists(deleted, id) && files.dom().contains(id) ==> {
                &&& !after[id].visible
                &&& after[id].fade_remaining == 90
                &&& after[id].fade_start_tick == Some(tick)
                &&& after[id].last_activity_tick == files[id].last_activity_tick
                &&& after[id].incarnation == files[id].incarnation
                &&& after[id].color == if color is Some {
                    color->0
                } else {
                    files[id].color
                }
            }
        }),
    decreases deleted.len(),
{
    if deleted.len() > 0 {
        let front = deleted.drop_last();
        deletes_touch_only_theirs(files, front, tick, color, id);
        if lists(front, id) {
            let i = choose|i: int| 0 <= i < front.len() && (#[trigger] front[i]).value == id;
            assert(deleted[i].value == id);
        }
        if lists(deleted, id) && deleted.last().value != id {
            let i = choose|i: int| 0 <= i < deleted.len() && (#[trigger] deleted[i]).value == id;
            assert(front[i].value == id);
        }
        if deleted.last().value == id {
            assert(deleted[deleted.len() - 1].value == id);
        }
    }
}

proof fn creates_touch_only_theirs(
    files: Map<u64, FileLife>,
    created: Seq<FileNode>,
    tick: u64,
    paint: Paint,
    catalog: CatalogView,
    id: u64,
)
    ensures
        ({
            let after = lives::after_creates(files, created, tick, paint, catalog);
            &&& names(created, id) ==> active_since(after, id, tick) && after[id].incarnation == id
            &&& !names(created, id) ==> {
                &&& after.dom().contains(id) <==> files.dom().contains(id)
                &&& files.dom().contains(id) ==> after[id] == files[id]
            }
        }),
    decreases created.len(),
{
    if created.len() > 0 {
        let front = created.drop_last();
        creates_touch_only_theirs(files, front, tick, paint, catalog, id);
        named_in_front(created, id);
    }
}

proof fn named_in_front(nodes: Seq<FileNode>, id: u64)
    requires
        nodes.len() > 0,
    ensures
        names(nodes, id) <==> names(nodes.drop_last(), id) || nodes.last().file_id.value == id,
{
    let front = nodes.drop_last();
    if names(front, id) {
        let i = choose|i: int| 0 <= i < front.len() && (#[trigger] front[i]).file_id.value == id;
        assert(nodes[i].file_id.value == id);
    }
    if nodes.last().file_id.value == id {
        assert(nodes[nodes.len() - 1].file_id.value == id);
    }
    if names(nodes, id) && nodes.last().file_id.value != id {
        let i = choose|i: int| 0 <= i < nodes.len() && (#[trigger] nodes[i]).file_id.value == id;
        assert(front[i].file_id.value == id);
    }
}

proof fn modifies_touch_only_theirs(
    files: Map<u64, FileLife>,
    modified: Seq<FileNode>,
    tick: u64,
    paint: Paint,
    catalog: CatalogView,
    id: u64,
)
    ensures
        ({
            let after = lives::after_modifies(files, modified, tick, paint, catalog);
            &&& names(modified, id) ==> {
                &&& active_since(after, id, tick)
                &&& after[id].incarnation == if files.dom().contains(id) {
                    files[id].incarnation
                } else {
                    id
                }
            }
            &&& !names(modified, id) ==> {
                &&& after.dom().contains(id) <==> files.dom().contains(id)
                &&& files.dom().contains(id) ==> after[id] == files[id]
            }
        }),
    decreases modified.len(),
{
    if modified.len() > 0 {
        let front = modified.drop_last();
        modifies_touch_only_theirs(files, front, tick, paint, catalog, id);
        named_in_front(modified, id);
    }
}

proof fn creates_colour(
    files: Map<u64, FileLife>,
    created: Seq<FileNode>,
    tick: u64,
    paint: Paint,
    catalog: CatalogView,
    at: int,
)
    requires
        last_named(created, at),
    ensures
        lives::after_creates(files, created, tick, paint, catalog)[created[at].file_id.value].color
            == match created[at].color {
            Some(color) => color,
            None => palette::file_colour(
                paint.seed,
                paint.algorithm_version,
                catalog,
                created[at].path_id,
            ),
        },
    decreases created.len(),
{
    if at < created.len() - 1 {
        let front = created.drop_last();
        assert forall|j: int| at < j < front.len() implies (#[trigger] front[j]).file_id.value
            != front[at].file_id.value by {
            assert(created[j].file_id.value != created[at].file_id.value);
        }
        assert(created[created.len() - 1].file_id.value != created[at].file_id.value);
        creates_colour(files, front, tick, paint, catalog, at);
    }
}

proof fn modifies_colour(
    files: Map<u64, FileLife>,
    modified: Seq<FileNode>,
    tick: u64,
    paint: Paint,
    catalog: CatalogView,
    at: int,
)
    requires
        last_named(modified, at),
    ensures
        lives::after_modifies(files, modified, tick, paint, catalog)[modified[at].file_id.value].color
            == match modified[at].color {
            Some(color) => color,
            None => palette::file_colour(
                paint.seed,
                paint.algorithm_version,
                catalog,
                modified[at].path_id,
            ),
        },
    decreases modified.len(),
{
    if at < modified.len() - 1 {
        let front = modified.drop_last();
        assert forall|j: int| at < j < front.len() implies (#[trigger] front[j]).file_id.value
            != front[at].file_id.value by {
            assert(modified[j].file_id.value != modified[at].file_id.value);
        }
        assert(modified[modified.len() - 1].file_id.value != modified[at].file_id.value);
        modifies_colour(files, front, tick, paint, catalog, at);
    }
}

/// Every file that an event creates or modifies is visible afterwards, at full
/// strength, and the tick of the event is its last activity, whatever the file
/// was before.  A created file is its own incarnation; a modified file keeps
/// the one that it had.
pub proof fn touched_files_are_active(
    before: LivesView,
    event: Event,
    delta: WorldDelta,
    tick: u64,
    paint: Paint,
    catalog: CatalogView,
    id: u64,
)
    requires
        names(delta.created_files@, id) || names(delta.modified_files@, id),
    ensures
        ({
            let after = lives::after_event(before, event, delta, tick, paint, catalog);
            &&& active_since(after.files, id, tick)
            &&& names(delta.created_files@, id) ==> after.files[id].incarnation == id
            &&& !names(delta.created_files@, id) ==> after.files[id].incarnation
                == if before.files.dom().contains(id) {
                before.files[id].incarnation
            } else {
                id
            }
        }),
{
    let deleted = lives::after_deletes(before.files, delta.deleted_files@, tick, event.color);
    let created = lives::after_creates(deleted, delta.created_files@, tick, paint, catalog);
    deletes_touch_only_theirs(before.files, delta.deleted_files@, tick, event.color, id);
    creates_touch_only_theirs(deleted, delta.created_files@, tick, paint, catalog, id);
    modifies_touch_only_theirs(created, delta.modified_files@, tick, paint, catalog, id);
}

/// A file that an event deletes, and neither creates nor modifies, starts a
/// fade of ninety ticks at the tick of the event, in the colour of the event
/// where it has one; a file that was not shown stays away.
pub proof fn deleted_files_start_to_fade(
    before: LivesView,
    event: Event,
    delta: WorldDelta,
    tick: u64,
    paint: Paint,
    catalog: CatalogView,
    id: u64,
)
    requires
        lists(delta.deleted_files@, id),
        !names(delta.created_files@, id),
        !names(delta.modified_files@, id),
    ensures
        ({
            let after = lives::after_event(before, event, delta, tick, paint, catalog).files;
            &&& after.dom().contains(id) <==> before.files.dom().contains(id)
            &&& before.files.dom().contains(id) ==> {
                &&& !after[id].visible
                &&& after[id].fade_remaining == 90
                &&& after[id].fade_start_tick == Some(tick)
                &&& after[id].last_activity_tick == before.files[id].last_activity_tick
                &&& after[id].incarnation == before.files[id].incarnation
                &&& event.color is Some ==> after[id].color == event.color->0
                &&& event.color is None ==> after[id].color == before.files[id].color
            }
        }),
{
    let deleted = lives::after_deletes(before.files, delta.deleted_files@, tick, event.color);
    let created = lives::after_creates(deleted, delta.created_files@, tick, paint, catalog);
    deletes_touch_only_theirs(before.files, delta.deleted_files@, tick, event.color, id);
    creates_touch_only_theirs(deleted, delta.created_files@, tick, paint, catalog, id);
    modifies_touch_only_theirs(created, delta.modified_files@, tick, paint, catalog, id);
}

/// A file that an event does not name stays as it was, or away.
pub proof fn other_files_stay_as_they_are(
    before: LivesView,
    event: Event,
    delta: WorldDelta,
    tick: u64,
    paint: Paint,
    catalog: CatalogView,
    id: u64,
)
    requires
        !lists(delta.deleted_files@, id),
        !names(delta.created_files@, id),
        !names(delta.modified_files@, id),
    ensures
        ({
            let after = lives::after_event(before, event, delta, tick, paint, catalog).files;
            &&& after.dom().contains(id) <==> before.files.dom().contains(id)
            &&& before.files.dom().contains(id) ==> after[id] == before.files[id]
        }),
{
    let deleted = lives::after_deletes(before.files, delta.deleted_files@, tick, event.color);
    let created = lives::after_creates(deleted, delta.created_files@, tick, paint, catalog);
    deletes_touch_only_theirs(before.files, delta.deleted_files@, tick, event.color, id);
    creates_touch_only_theirs(deleted, delta.created_files@, tick, paint, catalog, id);
    modifies_touch_only_theirs(created, delta.modified_files@, tick, paint, catalog, id);
}

/// A touched file has the colour that the world gives it; where the world gives
/// none, that of its path in the palette.  The last word on a file counts, and
/// a modification is a later word than a creation.
pub proof fn touched_files_take_their_colour(
    before: LivesView,
    event: Event,
    delta: WorldDelta,
    tick: u64,
    paint: Paint,
    catalog: CatalogView,
    node: FileNode,
)
    requires
        ({
            ||| exists|at: int|
                last_named(delta.modified_files@, at) && #[trigger] delta.modified_files@[at] == node
            ||| !names(delta.modified_files@, node.file_id.value) && exists|at: int|
                last_named(delta.created_files@, at) && #[trigger] delta.created_files@[at] == node
        }),
    ensures
        ({
            let after = lives::after_event(before, event, delta, tick, paint, catalog).files;
            after[node.file_id.value].color == match node.color {
                Some(color) => color,
                None => palette::file_colour(
                    paint.seed,
                    paint.algorithm_version,
                    catalog,
                    node.path_id,
                ),
            }
        }),
{
    let id = node.file_id.value;
    let deleted = lives::after_deletes(before.files, delta.deleted_files@, tick, event.color);
    let created = lives::after_creates(deleted, delta.created_files@, tick, paint, catalog);
    creates_touch_only_theirs(deleted, delta.created_files@, tick, paint, catalog, id);
    modifies_touch_only_theirs(created, delta.modified_files@, tick, paint, catalog, id);
    if exists|at: int|
        last_named(delta.modified_files@, at) && #[trigger] delta.modified_files@[at] == node {
        let at = choose|at: int|
            last_named(delta.modified_files@, at) && #[trigger] delta.modified_files@[at] == node;
        modifies_colour(created, delta.modified_files@, tick, paint, catalog, at);
    } else {
        let at = choose|at: int|
            last_named(delta.created_files@, at) && #[trigger] delta.created_files@[at] == node;
        creates_colour(deleted, delta.created_files@, tick, paint, catalog, at);
        assert(names(delta.created_files@, id));
    }
}

/// An event gives its contributor nothing but a colour: one that is new has not
/// acted yet, one that is known keeps what it has, and others stay as they are.
pub proof fn events_bring_their_contributor(
    before: LivesView,
    event: Event,
    delta: WorldDelta,
    tick: u64,
    paint: Paint,
    catalog: CatalogView,
)
    ensures
        ({
            let after = lives::after_event(before, event, delta, tick, paint, catalog).contributors;
            let was = before.contributors;
            let id = event.contributor.value as u64;
            &&& after.dom() == was.dom().insert(id)
            &&& forall|other: u64|
                other != id && was.dom().contains(other) ==> #[trigger] after[other] == was[other]
            &&& was.dom().contains(id) ==> {
                &&& after[id].impulses == was[id].impulses
                &&& after[id].last_action_tick == was[id].last_action_tick
            }
            &&& !was.dom().contains(id) ==> {
                &&& after[id].impulses == 0
                &&& after[id].last_action_tick == tick
            }
            &&& event.color is Some ==> after[id].color == event.color->0
            &&& event.color is None && was.dom().contains(id) ==> after[id].color == was[id].color
            &&& event.color is None && !was.dom().contains(id) ==> after[id].color
                == palette::contributor_colour(
                paint.seed,
                paint.algorithm_version,
                catalog,
                event.contributor,
            )
        }),
{
    let after = lives::after_event(before, event, delta, tick, paint, catalog).contributors;
    assert(after.dom() =~= before.contributors.dom().insert(event.contributor.value as u64));
}

/// An event starts exactly one action, after all that are under way: its
/// contributor goes to its path from this tick on.  A deletion of a file goes
/// to the last file that was deleted, any other change of a file to the file
/// that the path names, and a change of a directory to no file.
pub proof fn events_start_one_action(
    before: LivesView,
    event: Event,
    delta: WorldDelta,
    tick: u64,
    paint: Paint,
    catalog: CatalogView,
)
    ensures
        ({
            let after = lives::after_event(before, event, delta, tick, paint, catalog).actions;
            let started = after.last();
            let deleted = delta.deleted_files@;
            &&& after.len() == before.actions.len() + 1
            &&& after.drop_last() == before.actions
            &&& started.contributor == event.contributor
            &&& started.action == event.action
            &&& started.started_tick == tick
            &&& event.target matches EventTarget::Directory(path) ==> started.path_id == path
                && started.file_id is None
            &&& event.target matches EventTarget::File(path) ==> started.path_id == path
            &&& event.target is File && event.action != Action::Delete ==> started.file_id
                == delta.active_file
            &&& event.target is File && event.action == Action::Delete && deleted.len() > 0
                ==> started.file_id == Some(deleted[deleted.len() - 1])
            &&& event.target is File && event.action == Action::Delete && deleted.len() == 0
                ==> started.file_id is None
            &&& event.color is Some ==> started.color == event.color->0
        }),
{
    let after = lives::after_event(before, event, delta, tick, paint, catalog).actions;
    assert(after.drop_last() =~= before.actions);
}

/// Lives as ticks pass, without events.
pub open spec fn is_passing(states: Seq<LivesView>, ticks: Seq<u64>, idle: Option<u64>) -> bool {
    &&& states.len() == ticks.len() + 1
    &&& forall|k: int|
        0 <= k < ticks.len() ==> #[trigger] states[k + 1] == lives::aged(states[k], ticks[k], idle)
}

/// Without further events a file stays visible and unchanged through every
/// tick up to its last activity and the idle time, and for ever where there is
/// no idle time.
pub proof fn active_files_stay_for_their_idle_time(
    states: Seq<LivesView>,
    ticks: Seq<u64>,
    idle: Option<u64>,
    id: u64,
)
    requires
        is_passing(states, ticks, idle),
        states[0].files.dom().contains(id),
        states[0].files[id].visible,
        idle is Some ==> forall|k: int|
            0 <= k < ticks.len() ==> #[trigger] ticks[k] <= states[0].files[id].last_activity_tick
                + idle->0,
    ensures
        forall|k: int|
            0 <= k < states.len() ==> (#[trigger] states[k]).files.dom().contains(id)
                && states[k].files[id] == states[0].files[id],
    decreases ticks.len(),
{
    assert forall|k: int| 0 <= k < states.len() implies (
    #[trigger] states[k]).files.dom().contains(id) && states[k].files[id] == states[0].files[id] by {
        stays_until(states, ticks, idle, id, k);
    }
}

proof fn stays_until(
    states: Seq<LivesView>,
    ticks: Seq<u64>,
    idle: Option<u64>,
    id: u64,
    k: int,
)
    requires
        is_passing(states, ticks, idle),
        states[0].files.dom().contains(id),
        states[0].files[id].visible,
        idle is Some ==> forall|k: int|
            0 <= k < ticks.len() ==> #[trigger] ticks[k] <= states[0].files[id].last_activity_tick
                + idle->0,
        0 <= k < states.len(),
    ensures
        states[k].files.dom().contains(id),
        states[k].files[id] == states[0].files[id],
    decreases k,
{
    if k > 0 {
        stays_until(states, ticks, idle, id, k - 1);
        assert(states[k - 1 + 1] == lives::aged(states[k - 1], ticks[k - 1], idle));
    }
}

/// What an event touched is still visible, with the tick of the event as its
/// last activity, at every tick within the idle time after the event.
pub proof fn touched_files_outlast_their_idle_time(
    before: LivesView,
    event: Event,
    delta: WorldDelta,
    tick: u64,
    paint: Paint,
    catalog: CatalogView,
    states: Seq<LivesView>,
    ticks: Seq<u64>,
    idle: u64,
    id: u64,
)
    requires
        names(delta.created_files@, id) || names(delta.modified_files@, id),
        is_passing(states, ticks, Some(idle)),
        states[0] == lives::after_event(before, event, delta, tick, paint, catalog),
        forall|k: int| 0 <= k < ticks.len() ==> #[trigger] ticks[k] <= tick + idle,
    ensures
        forall|k: int|
            0 <= k < states.len() ==> active_since((#[trigger] states[k]).files, id, tick),
{
    touched_files_are_active(before, event, delta, tick, paint, catalog, id);
    active_files_stay_for_their_idle_time(states, ticks, Some(idle), id);
}

/// From the first tick beyond its idle time a file fades for ninety ticks: it
/// is not visible any more, one tick less is left with every tick, and after
/// ninety ticks it has gone.
pub proof fn idle_files_fade_and_go(
    states: Seq<LivesView>,
    ticks: Seq<u64>,
    idle: u64,
    id: u64,
)
    requires
        is_passing(states, ticks, Some(idle)),
        forall|k: int| 0 <= k < ticks.len() ==> #[trigger] ticks[k] == ticks[0] + k,
        states[0].files.dom().contains(id),
        states[0].files[id].visible,
        ticks.len() > 0,
        ticks[0] > states[0].files[id].last_activity_tick + idle,
    ensures
        forall|k: int|
            0 <= k < ticks.len() && k < 90 ==> {
                let files = (#[trigger] states[k + 1]).files;
                &&& files.dom().contains(id)
                &&& !files[id].visible
                &&& files[id].fade_remaining == 90 - k
            },
        forall|k: int|
            90 <= k < ticks.len() ==> !(#[trigger] states[k + 1]).files.dom().contains(id),
{
    assert forall|k: int| 0 <= k < ticks.len() && k < 90 implies {
        let files = (#[trigger] states[k + 1]).files;
        &&& files.dom().contains(id)
        &&& !files[id].visible
        &&& files[id].fade_remaining == 90 - k
    } by {
        fades_until(states, ticks, idle, id, k);
    }
    assert forall|k: int| 90 <= k < ticks.len() implies !(
    #[trigger] states[k + 1]).files.dom().contains(id) by {
        fades_until(states, ticks, idle, id, k);
    }
}

proof fn fades_until(
    states: Seq<LivesView>,
    ticks: Seq<u64>,
    idle: u64,
    id: u64,
    k: int,
)
    requires
        is_passing(states, ticks, Some(idle)),
        forall|k: int| 0 <= k < ticks.len() ==> #[trigger] ticks[k] == ticks[0] + k,
        states[0].files.dom().contains(id),
        states[0].files[id].visible,
        ticks[0] > states[0].files[id].last_activity_tick + idle,
        0 <= k < ticks.len(),
    ensures
        k < 90 ==> {
            let files = states[k + 1].files;
            &&& files.dom().contains(id)
            &&& !files[id].visible
            &&& files[id].fade_start_tick == Some(ticks[0])
            &&& files[id].fade_remaining == 90 - k
        },
        k >= 90 ==> !states[k + 1].files.dom().contains(id),
    decreases k,
{
    assert(states[k + 1] == lives::aged(states[k], ticks[k], Some(idle)));
    if k > 0 {
        fades_until(states, ticks, idle, id, k - 1);
        assert(ticks[k] == ticks[0] + k);
    }
}

/// A deleted file fades in the same way, from the tick of its deletion on.
pub proof fn deleted_files_fade_and_go(
    held: LivesView,
    tick: u64,
    idle: Option<u64>,
    id: u64,
    start: u64,
)
    requires
        held.files.dom().contains(id),
        !held.files[id].visible,
        held.files[id].fade_start_tick == Some(start),
        start <= tick,
    ensures
        ({
            let after = lives::aged(held, tick, idle).files;
            &&& after.dom().contains(id) <==> tick - start < 90
            &&& tick - start < 90 ==> {
                &&& after[id].fade_remaining == 90 - (tick - start)
                &&& !after[id].visible
                &&& after[id].fade_start_tick == Some(start)
                &&& after[id].color == held.files[id].color
                &&& after[id].incarnation == held.files[id].incarnation
                &&& after[id].last_activity_tick == held.files[id].last_activity_tick
            }
        }),
{
}

/// A tick brings back no file, and changes nothing of one but its fade.
pub proof fn ticks_add_no_file(held: LivesView, tick: u64, idle: Option<u64>, id: u64)
    requires
        lives::aged(held, tick, idle).files.dom().contains(id),
    ensures
        ({
            let after = lives::aged(held, tick, idle).files[id];
            &&& held.files.dom().contains(id)
            &&& after.incarnation == held.files[id].incarnation
            &&& after.color == held.files[id].color
            &&& after.last_activity_tick == held.files[id].last_activity_tick
            &&& after.visible ==> held.files[id].visible
        }),
{
}

/// How many actions are of a contributor.
pub open spec fn actions_of(actions: Seq<ActionLife>, id: u64) -> nat {
    actions.filter(|a: ActionLife| a.contributor.value == id).len()
}

/// With every tick each action that is under way gives its contributor one
/// impulse, and the tick becomes the last one that the contributor acted at; a
/// contributor without an action stays as it is, and none comes or goes.
pub proof fn actions_give_impulses(held: LivesView, tick: u64, idle: Option<u64>, id: u64)
    ensures
        ({
            let after = lives::aged(held, tick, idle).contributors;
            let was = held.contributors;
            let count = actions_of(held.actions, id);
            &&& after.dom().contains(id) <==> was.dom().contains(id)
            &&& was.dom().contains(id) ==> {
                &&& after[id].color == was[id].color
                &&& count == 0 ==> after[id] == was[id]
                &&& count > 0 ==> after[id].last_action_tick == tick
                &&& after[id].impulses == if was[id].impulses + count > u64::MAX {
                    u64::MAX as int
                } else {
                    was[id].impulses + count
                }
            }
        }),
{
    impulses_count(held.contributors, held.actions, tick, id);
}

proof fn impulses_count(
    contributors: Map<u64, ContributorLife>,
    actions: Seq<ActionLife>,
    tick: u64,
    id: u64,
)
    ensures
        ({
            let after = lives::energized(contributors, actions, tick);
            let count = actions_of(actions, id);
            &&& after.dom().contains(id) <==> contributors.dom().contains(id)
            &&& contributors.dom().contains(id) ==> {
                &&& after[id].color == contributors[id].color
                &&& count == 0 ==> after[id] == contributors[id]
                &&& count > 0 ==> after[id].last_action_tick == tick
                &&& after[id].impulses == if contributors[id].impulses + count > u64::MAX {
                    u64::MAX as int
                } else {
                    contributors[id].impulses + count
                }
            }
        }),
    decreases actions.len(),
{
    let own = |a: ActionLife| a.contributor.value == id;
    if actions.len() > 0 {
        impulses_count(contributors, actions.drop_last(), tick, id);
        actions.drop_last().lemma_filter_push(actions.last(), own);
        assert(actions.drop_last().push(actions.last()) =~= actions);
    }
    reveal_with_fuel(Seq::filter, 2);
}

/// An action is shown through the tick that is a hundred and eighty ticks after
/// its start, and not beyond; those that are shown stay as they are, in their
/// order.
pub proof fn actions_live_for_their_time(held: LivesView, tick: u64, idle: Option<u64>)
    ensures
        lives::aged(held, tick, idle).actions == held.actions.filter(
            |a: ActionLife| tick <= a.started_tick + 180,
        ),
{
    living_is_a_filter(held.actions, tick);
}

proof fn living_is_a_filter(actions: Seq<ActionLife>, tick: u64)
    ensures
        lives::living_actions(actions, tick) == actions.filter(
            |a: ActionLife| tick <= a.started_tick + 180,
        ),
    decreases actions.len(),
{
    let young = |a: ActionLife| tick <= a.started_tick + 180;
    if actions.len() > 0 {
        living_is_a_filter(actions.drop_last(), tick);
        actions.drop_last().lemma_filter_push(actions.last(), young);
        assert(actions.drop_last().push(actions.last()) =~= actions);
    }
    reveal_with_fuel(Seq::filter, 2);
}

} // verus!
