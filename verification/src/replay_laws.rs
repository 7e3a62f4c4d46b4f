//! What a replay promises: a tick has one state, however it was reached.

use vstd::prelude::*;

use crate::catalog::CatalogView;
use crate::lives::{Paint, WorldDelta};
use crate::model::Event;
use crate::replay;
use crate::replay::{PendingTick, ReplayView, Stage};
use crate::replay_clock;
use crate::replay_clock::PlaybackClock;
use crate::replay_run;
use crate::replay_run::{RunStep, RunView};
use crate::scene;
use crate::scene::{SceneSnapshot, WorldTree};
use crate::snapshot_pool;

verus! {

/// What a replay is made from.
pub struct ReplaySource {
    pub events: Seq<Event>,
    /// What each event changes in the world.
    pub deltas: Seq<WorldDelta>,
    pub catalog: CatalogView,
    pub paint: Paint,
    pub auto_skip_ticks: Option<u64>,
    pub file_idle_ticks: Option<u64>,
}

/// The state of a replay apart from what has been published of it and how
/// much wall-clock time waits for a whole tick.
pub open spec fn bare(s: ReplayView) -> ReplayView {
    ReplayView { published_tick: 0, wall_remainder: 0, ..s }
}

/// The replay after its next event.
pub open spec fn event_taken(source: ReplaySource, s: ReplayView) -> ReplayView {
    replay::with_event(
        s,
        source.events[s.next_event],
        source.deltas[s.next_event],
        source.paint,
        source.catalog,
    )
}

/// The replay after a tick that can be completed.
pub open spec fn tick_completed(
    source: ReplaySource,
    s: ReplayView,
    pending: PendingTick,
) -> Option<ReplayView> {
    if replay_clock::offset_at(s.clock, pending.target_time) is Some {
        Some(replay::settled(s, pending, source.file_idle_ticks))
    } else {
        None
    }
}

/// The one thing that a replay does next.
pub open spec fn replay_step(source: ReplaySource, s: ReplayView) -> Option<ReplayView> {
    if replay::is_due(s, source.events) {
        Some(event_taken(source, s))
    } else {
        match s.stage {
            Stage::Origin => Some(ReplayView { stage: Stage::Rest, ..s }),
            Stage::Tick(pending) => tick_completed(source, s, pending),
            Stage::Rest => match replay::begun(s, source.events, source.auto_skip_ticks) {
                Ok(next) => Some(next),
                Err(_) => None,
            },
        }
    }
}

/// The replay after a number of steps.
pub open spec fn replayed(source: ReplaySource, s: ReplayView, steps: nat) -> Option<ReplayView>
    decreases steps,
{
    if steps == 0 {
        Some(s)
    } else {
        match replayed(source, s, (steps - 1) as nat) {
            Some(before) => replay_step(source, before),
            None => None,
        }
    }
}

/// The replay after a run did what it decided on, if it goes on.
pub open spec fn run_turn(
    source: ReplaySource,
    run: RunView,
    s: ReplayView,
    cancelled: bool,
) -> Option<ReplayView> {
    if run.within && !(s.stage is Tick) {
        None
    } else {
        match replay_run::run_next(run, s, source.events, cancelled, source.auto_skip_ticks) {
            Ok((_, next, RunStep::Apply { event })) => Some(event_taken(source, next)),
            Ok((_, next, RunStep::Settle)) => match next.stage {
                Stage::Origin => Some(ReplayView { stage: Stage::Rest, ..next }),
                Stage::Tick(pending) => tick_completed(source, next, pending),
                Stage::Rest => None,
            },
            _ => None,
        }
    }
}

/// One state comes out of the last of others: by a run within any budget, by
/// going back to the origin or to a state that was remembered, or by publishing
/// and waiting.
pub open spec fn comes_next(source: ReplaySource, states: Seq<ReplayView>, next: ReplayView) -> bool {
    let last = states.last();
    ||| exists|run: RunView, cancelled: bool|
        (#[trigger] run_turn(source, run, last, cancelled)) matches Some(after) && bare(after)
            == bare(next)
    ||| bare(next) == replay::at_origin(last.clock)
    ||| exists|i: int| 0 <= i < states.len() && bare(#[trigger] states[i]) == bare(next)
}

/// The states of a session from its start on.
pub open spec fn is_course(source: ReplaySource, start: PlaybackClock, states: Seq<ReplayView>) -> bool {
    &&& states.len() > 0
    &&& bare(states[0]) == replay::at_origin(start)
    &&& forall|i: int|
        0 < i < states.len() ==> comes_next(source, states.take(i), #[trigger] states[i])
}

/// Steps do not depend on what was published or is waited for.
proof fn steps_are_bare(source: ReplaySource, s: ReplayView)
    ensures
        match replay_step(source, s) {
            Some(next) => replay_step(source, bare(s)) == Some(bare(next)),
            None => replay_step(source, bare(s)) is None,
        },
{
    match replay_step(source, s) {
        Some(next) => {
            assert(replay_step(source, bare(s)).unwrap() =~= bare(next));
        },
        None => {},
    }
}

/// A step keeps where a replay starts and how fast it goes.
proof fn steps_keep_the_start(source: ReplaySource, s: ReplayView)
    requires
        replay_step(source, s) is Some,
    ensures
        (replay_step(source, s)->0).clock.start_timestamp == s.clock.start_timestamp,
        (replay_step(source, s)->0).clock.repository_rate == s.clock.repository_rate,
{
}

/// The replay is on its way from one completed tick to later ones.
spec fn beyond(from: ReplayView, s: ReplayView) -> bool {
    match s.stage {
        Stage::Origin => false,
        Stage::Rest => s.tick > from.tick,
        Stage::Tick(pending) => s.tick >= from.tick && pending.target_tick == s.tick + 1,
    }
}

proof fn steps_lead_beyond(source: ReplaySource, from: ReplayView, steps: nat)
    requires
        from.stage is Rest,
        steps > 0,
        replayed(source, from, steps) is Some,
    ensures
        beyond(from, replayed(source, from, steps)->0),
    decreases steps,
{
    let before = replayed(source, from, (steps - 1) as nat)->0;
    if steps > 1 {
        steps_lead_beyond(source, from, (steps - 1) as nat);
    }
}

proof fn steps_add_up(source: ReplaySource, s: ReplayView, first: nat, second: nat)
    requires
        replayed(source, s, first) is Some,
    ensures
        replayed(source, s, first + second) == replayed(
            source,
            replayed(source, s, first)->0,
            second,
        ),
    decreases second,
{
    if second > 0 {
        steps_add_up(source, s, first, (second - 1) as nat);
        assert((first + second - 1) as nat == first + (second - 1) as nat);
    }
}

/// Stepping from one state, a replay completes every tick at most once: where
/// two numbers of steps complete the same tick, the states are the same.
pub proof fn steps_complete_a_tick_once(
    source: ReplaySource,
    s: ReplayView,
    first: nat,
    second: nat,
)
    requires
        replayed(source, s, first) matches Some(a) && a.stage is Rest,
        replayed(source, s, second) matches Some(b) && b.stage is Rest,
        (replayed(source, s, first)->0).tick == (replayed(source, s, second)->0).tick,
    ensures
        first == second,
{
    if first < second {
        steps_add_up(source, s, first, (second - first) as nat);
        steps_lead_beyond(source, replayed(source, s, first)->0, (second - first) as nat);
    } else if second < first {
        steps_add_up(source, s, second, (first - second) as nat);
        steps_lead_beyond(source, replayed(source, s, second)->0, (first - second) as nat);
    }
}

/// A run takes the steps of the replay, one or two at a time.
proof fn turns_are_steps(source: ReplaySource, run: RunView, s: ReplayView, cancelled: bool)
    requires
        run_turn(source, run, s, cancelled) is Some,
    ensures
        exists|steps: nat|
            #[trigger] replayed(source, s, steps) == run_turn(source, run, s, cancelled),
{
    let next = (replay_run::run_next(run, s, source.events, cancelled, source.auto_skip_ticks)->Ok_0).1;
    reveal_with_fuel(replayed, 3);
    if !(s.stage is Rest) {
        assert(next == s);
        assert(replayed(source, s, 1) == run_turn(source, run, s, cancelled));
    } else {
        assert(replay_step(source, s) == Some(next));
        assert(replayed(source, s, 1) == Some(next));
        assert(replayed(source, s, 2) == run_turn(source, run, s, cancelled));
    }
}

proof fn bare_steps(source: ReplaySource, s: ReplayView, steps: nat)
    ensures
        match replayed(source, s, steps) {
            Some(next) => replayed(source, bare(s), steps) == Some(bare(next)),
            None => replayed(source, bare(s), steps) is None,
        },
    decreases steps,
{
    if steps > 0 {
        bare_steps(source, s, (steps - 1) as nat);
        match replayed(source, s, (steps - 1) as nat) {
            Some(before) => {
                steps_are_bare(source, before);
            },
            None => {},
        }
    }
}

proof fn start_is_kept(source: ReplaySource, s: ReplayView, steps: nat)
    requires
        replayed(source, s, steps) is Some,
    ensures
        (replayed(source, s, steps)->0).clock.start_timestamp == s.clock.start_timestamp,
        (replayed(source, s, steps)->0).clock.repository_rate == s.clock.repository_rate,
    decreases steps,
{
    if steps > 0 {
        start_is_kept(source, s, (steps - 1) as nat);
        steps_keep_the_start(source, replayed(source, s, (steps - 1) as nat)->0);
    }
}

/// A session goes nowhere but where stepping from the start leads, whatever it
/// pumps, seeks and restores on the way.
pub proof fn courses_follow_the_steps(
    source: ReplaySource,
    start: PlaybackClock,
    states: Seq<ReplayView>,
    at: int,
)
    requires
        is_course(source, start, states),
        0 <= at < states.len(),
    ensures
        exists|steps: nat|
            #[trigger] replayed(source, replay::at_origin(start), steps) == Some(bare(states[at])),
    decreases at,
{
    let origin = replay::at_origin(start);
    if at == 0 {
        assert(replayed(source, origin, 0) == Some(bare(states[0])));
    } else {
        let earlier = states.take(at);
        let last = earlier.last();
        let next = states[at];
        assert(last == states[at - 1]);
        courses_follow_the_steps(source, start, states, at - 1);
        let steps = choose|steps: nat|
            #[trigger] replayed(source, origin, steps) == Some(bare(last));
        if exists|run: RunView, cancelled: bool|
            (#[trigger] run_turn(source, run, last, cancelled)) matches Some(after) && bare(after)
                == bare(next) {
            let (run, cancelled) = choose|run: RunView, cancelled: bool|
                (#[trigger] run_turn(source, run, last, cancelled)) matches Some(after)
                    && bare(after) == bare(next);
            turns_are_steps(source, run, last, cancelled);
            let more = choose|more: nat|
                #[trigger] replayed(source, last, more) == run_turn(source, run, last, cancelled);
            bare_steps(source, last, more);
            steps_add_up(source, origin, steps, more);
            assert(replayed(source, origin, steps + more) == Some(bare(next)));
        } else if bare(next) == replay::at_origin(last.clock) {
            start_is_kept(source, origin, steps);
            assert(replay::at_origin(last.clock) =~= origin);
            assert(replayed(source, origin, 0) == Some(bare(next)));
        } else {
            let i = choose|i: int|
                0 <= i < earlier.len() && bare(#[trigger] earlier[i]) == bare(next);
            assert(earlier[i] == states[i]);
            courses_follow_the_steps(source, start, states, i);
        }
    }
}

/// A completed tick has one state.  Two sessions over the same source that
/// have completed the same tick hold the same time, lives and place in the
/// history, however they were pumped, advanced, sought and restored.
pub proof fn a_tick_has_one_state(
    source: ReplaySource,
    start: PlaybackClock,
    one: Seq<ReplayView>,
    other: Seq<ReplayView>,
)
    requires
        is_course(source, start, one),
        is_course(source, start, other),
        one.last().stage is Rest,
        other.last().stage is Rest,
        one.last().tick == other.last().tick,
    ensures
        bare(one.last()) == bare(other.last()),
{
    let origin = replay::at_origin(start);
    courses_follow_the_steps(source, start, one, one.len() - 1);
    courses_follow_the_steps(source, start, other, other.len() - 1);
    let first = choose|steps: nat|
        #[trigger] replayed(source, origin, steps) == Some(bare(one.last()));
    let second = choose|steps: nat|
        #[trigger] replayed(source, origin, steps) == Some(bare(other.last()));
    steps_complete_a_tick_once(source, origin, first, second);
}

/// The run after it did what it decided on.
pub open spec fn run_after(source: ReplaySource, run: RunView, s: ReplayView) -> RunView {
    match replay_run::run_next(run, s, source.events, false, source.auto_skip_ticks) {
        Ok((entered, _, RunStep::Apply { event })) => if s.stage is Origin {
            entered
        } else {
            RunView {
                events: (entered.events + 1) as usize,
                tick_events: (entered.tick_events + 1) as usize,
                ..entered
            }
        },
        Ok((entered, _, RunStep::Settle)) => if s.stage is Origin {
            entered
        } else {
            RunView { ticks: (entered.ticks + 1) as u64, within: false, ..entered }
        },
        _ => run,
    }
}

/// A run over a number of ticks with the states that it leads through.  What is
/// published and waited for on the way is left open.
pub open spec fn is_run(
    source: ReplaySource,
    ticks: u64,
    states: Seq<(RunView, ReplayView)>,
) -> bool {
    &&& states.len() > 0
    &&& states[0].0 == replay_run::tick_run(ticks)
    &&& forall|i: int|
        0 < i < states.len() ==> {
            let before = states[i - 1];
            &&& (#[trigger] states[i]).0 == run_after(source, before.0, before.1)
            &&& run_turn(source, before.0, before.1, false) matches Some(after) && bare(after)
                == bare(states[i].1)
        }
}

/// A run has come to its end.
pub open spec fn is_done(source: ReplaySource, state: (RunView, ReplayView)) -> bool {
    replay_run::run_next(state.0, state.1, source.events, false, source.auto_skip_ticks) matches Ok(
        next,
    ) && next.2 == RunStep::Done
}

/// A run counts the ticks that it completes and the events that it applies.
spec fn counts(
    source: ReplaySource,
    ticks: u64,
    start: ReplayView,
    run: RunView,
    s: ReplayView,
) -> bool {
    &&& run.budget.max_ticks == ticks
    &&& run.budget.max_events == usize::MAX
    &&& !run.refused
    &&& !run.interactive
    &&& s.tick == start.tick + run.ticks
    &&& run.ticks <= ticks
    &&& 0 <= run.events <= s.next_event <= source.events.len()
    &&& run.within == (s.stage is Tick)
    &&& s.stage matches Stage::Tick(pending) ==> {
        &&& pending.target_tick == s.tick + 1
        &&& run.ticks < ticks
        &&& run.tick_events <= run.events
        &&& run.events - run.tick_events + run.tick_budget == usize::MAX
    }
}

proof fn runs_count(
    source: ReplaySource,
    ticks: u64,
    states: Seq<(RunView, ReplayView)>,
    at: int,
)
    requires
        is_run(source, ticks, states),
        source.events.len() < usize::MAX,
        0 <= states[0].1.next_event <= source.events.len(),
        !(states[0].1.stage is Tick),
        0 <= at < states.len(),
    ensures
        counts(source, ticks, states[0].1, states[at].0, states[at].1),
    decreases at,
{
    if at > 0 {
        runs_count(source, ticks, states, at - 1);
        let before = states[at - 1];
        assert(states[at].0 == run_after(source, before.0, before.1));
        let after = run_turn(source, before.0, before.1, false)->0;
        assert(after.tick == states[at].1.tick);
        assert(after.stage == states[at].1.stage);
        assert(after.next_event == states[at].1.next_event);
    }
}

/// A run over a number of ticks ends exactly that many ticks after it began.
pub proof fn runs_reach_their_tick(
    source: ReplaySource,
    ticks: u64,
    states: Seq<(RunView, ReplayView)>,
)
    requires
        is_run(source, ticks, states),
        source.events.len() < usize::MAX,
        0 <= states[0].1.next_event <= source.events.len(),
        !(states[0].1.stage is Tick),
        is_done(source, states.last()),
    ensures
        states.last().1.stage is Rest,
        states.last().1.tick == states[0].1.tick + ticks,
{
    runs_count(source, ticks, states, states.len() - 1);
}

/// The states of a session that runs on.
spec fn extended(past: Seq<ReplayView>, states: Seq<(RunView, ReplayView)>) -> Seq<ReplayView> {
    past + Seq::new(states.len(), |i: int| states[i].1)
}

proof fn runs_extend_courses(
    source: ReplaySource,
    start: PlaybackClock,
    past: Seq<ReplayView>,
    ticks: u64,
    states: Seq<(RunView, ReplayView)>,
)
    requires
        is_course(source, start, past),
        is_run(source, ticks, states),
        bare(states[0].1) == replay::at_origin(past.last().clock) || bare(states[0].1) == bare(
            past.last(),
        ),
    ensures
        is_course(source, start, extended(past, states)),
        extended(past, states).last() == states.last().1,
{
    let all = extended(past, states);
    let n = past.len() as int;
    assert forall|i: int| 0 < i < all.len() implies comes_next(
        source,
        all.take(i),
        #[trigger] all[i],
    ) by {
        let earlier = all.take(i);
        if i < n {
            assert(earlier =~= past.take(i));
            assert(all[i] == past[i]);
        } else if i == n {
            assert(earlier =~= past);
            assert(all[i] == states[0].1);
            if bare(states[0].1) == bare(past.last()) {
                assert(bare(earlier[n - 1]) == bare(all[i]));
            }
        } else {
            let k = i - n;
            assert(all[i] == states[k].1);
            assert(earlier.last() == states[k - 1].1);
            assert(run_turn(source, states[k - 1].0, earlier.last(), false) is Some);
        }
    }
}

/// Seeking a tick shows what going forward to it from the start shows.  The
/// snapshot of a session that sought a tick, from whatever state, is that of a
/// fresh session that advanced to it, in everything but the generation, which
/// is one more than before.
pub proof fn seeking_shows_what_going_forward_shows(
    source: ReplaySource,
    start: PlaybackClock,
    past: Seq<ReplayView>,
    generation: u64,
    target: u64,
    sought: Seq<(RunView, ReplayView)>,
    seen: SceneSnapshot,
    tree: WorldTree,
    fresh: Seq<ReplayView>,
    forward: Seq<(RunView, ReplayView)>,
    expected: SceneSnapshot,
    same: WorldTree,
)
    requires
        source.events.len() < usize::MAX,
        generation < u64::MAX,
        is_course(source, start, past),
        is_run(source, target, sought),
        bare(sought[0].1) == replay::at_origin(past.last().clock),
        is_done(source, sought.last()),
        seen.generation == snapshot_pool::counted(generation, 1),
        scene::is_snapshot_of(
            seen,
            sought.last().1.lives,
            tree,
            sought.last().1.tick,
            sought.last().1.clock.repository_time,
            source.catalog,
        ),
        is_course(source, start, fresh),
        fresh.last().tick == 0,
        !(fresh.last().stage is Tick),
        0 <= fresh.last().next_event <= source.events.len(),
        is_run(source, target, forward),
        forward[0].1 == fresh.last(),
        is_done(source, forward.last()),
        scene::is_snapshot_of(
            expected,
            forward.last().1.lives,
            same,
            forward.last().1.tick,
            forward.last().1.clock.repository_time,
            source.catalog,
        ),
        scene::same_tree(tree, same),
    ensures
        seen.tick == target,
        seen.generation == generation + 1,
        seen.tick == expected.tick,
        seen.repository_time == expected.repository_time,
        seen@ == expected@,
{
    runs_extend_courses(source, start, past, target, sought);
    runs_extend_courses(source, start, fresh, target, forward);
    assert(sought[0].1.next_event == bare(sought[0].1).next_event);
    assert(sought[0].1.tick == bare(sought[0].1).tick);
    assert(sought[0].1.stage == bare(sought[0].1).stage);
    runs_reach_their_tick(source, target, sought);
    runs_reach_their_tick(source, target, forward);
    a_tick_has_one_state(source, start, extended(past, sought), extended(fresh, forward));
    let (a, b) = (sought.last().1, forward.last().1);
    assert(a.lives == bare(a).lives && b.lives == bare(b).lives);
    assert(a.clock == bare(a).clock && b.clock == bare(b).clock);
    scene::snapshots_are_determined(
        seen,
        expected,
        a.lives,
        tree,
        same,
        a.tick,
        a.clock.repository_time,
        source.catalog,
    );
}

} // verus!
