//! How far runs of a replay go.

use vstd::prelude::*;

use crate::model::Event;
use crate::rational::ReplayErrorView;
use crate::replay;
use crate::replay::ReplayView;
use crate::replay_run;
use crate::replay_run::{RunStep, RunView};

verus! {

/// A run that is not refused, not cancelled and has ticks and events left of
/// its budget goes on to the next tick: it applies an event or completes the
/// tick, and may use as many events as are left.
pub proof fn runs_go_on_within_their_budget(
    r: RunView,
    s: ReplayView,
    events: Seq<Event>,
    threshold: Option<u64>,
)
    requires
        s.stage is Rest,
        !r.within,
        !r.refused,
        r.ticks < r.budget.max_ticks,
        r.events < r.budget.max_events,
        replay::begun(s, events, threshold) is Ok,
    ensures
        match replay_run::run_next(r, s, events, false, threshold) {
            Err(_) => false,
            Ok((run, state, step)) => {
                &&& !(step is Done)
                &&& run.within
                &&& run.ticks == r.ticks
                &&& run.events == r.events
                &&& run.tick_events == 0
                &&& run.tick_budget == r.budget.max_events - r.events
                &&& Ok::<ReplayView, ReplayErrorView>(state) == replay::begun(
                    s,
                    events,
                    threshold,
                )
            },
        },
{
}

/// A run stops between ticks exactly when its ticks or its events are used up,
/// when it was refused, or when it is interactive and cancelled.  A stop
/// changes nothing.
pub proof fn runs_stop_at_their_budget(
    r: RunView,
    s: ReplayView,
    events: Seq<Event>,
    cancelled: bool,
    threshold: Option<u64>,
)
    requires
        s.stage is Rest,
        !r.within,
    ensures
        ({
            let over = r.refused || r.ticks >= r.budget.max_ticks || r.events
                >= r.budget.max_events || (r.interactive && cancelled);
            let outcome = replay_run::run_next(r, s, events, cancelled, threshold);
            &&& over ==> outcome == Ok::<(RunView, ReplayView, RunStep), ReplayErrorView>(
                (r, s, RunStep::Done),
            )
            &&& !over && cancelled ==> outcome == Err::<
                (RunView, ReplayView, RunStep),
                ReplayErrorView,
            >(ReplayErrorView::Cancelled)
            &&& !over ==> !(outcome matches Ok(next) && next.2 is Done)
        }),
{
}

/// Within a tick, a run stops exactly when the events of its budget are used up
/// and there are more in the history.  Else it applies the next event of the
/// history where that is due, and completes the tick where it is not.
pub proof fn ticks_stop_at_their_events(
    r: RunView,
    s: ReplayView,
    events: Seq<Event>,
    cancelled: bool,
    threshold: Option<u64>,
)
    requires
        s.stage is Tick,
        r.within,
        0 <= s.next_event <= usize::MAX,
    ensures
        match replay_run::run_next(r, s, events, cancelled, threshold) {
            Err(_) => false,
            Ok((run, state, step)) => {
                &&& run == r
                &&& state == s
                &&& match step {
                    RunStep::Done => s.next_event < events.len() && r.tick_events
                        >= r.tick_budget,
                    RunStep::Apply { event } => {
                        &&& event == s.next_event
                        &&& event < events.len()
                        &&& r.tick_events < r.tick_budget
                        &&& replay::is_due(s, events)
                    },
                    RunStep::Settle => !replay::is_due(s, events) && (s.next_event >= events.len()
                        || r.tick_events < r.tick_budget),
                }
            },
        },
{
}

/// At its origin a replay takes every event that is due, whatever the budget,
/// and then completes the origin.
pub proof fn the_origin_takes_every_event_due(
    r: RunView,
    s: ReplayView,
    events: Seq<Event>,
    cancelled: bool,
    threshold: Option<u64>,
)
    requires
        s.stage is Origin,
        0 <= s.next_event <= usize::MAX,
    ensures
        match replay_run::run_next(r, s, events, cancelled, threshold) {
            Err(_) => false,
            Ok((run, state, step)) => {
                &&& run == r
                &&& state == s
                &&& replay::is_due(s, events) ==> (step matches RunStep::Apply { event } && event
                    == s.next_event)
                &&& !replay::is_due(s, events) ==> step is Settle
            },
        },
{
}

} // verus!
