//! Runs of a replay: bounded pumps and fixed numbers of ticks.

use vstd::prelude::*;

use crate::lives::WorldDelta;
use crate::model::Event;
use crate::rational::{RationalTime, ReplayError, ReplayErrorView};
use crate::replay;
use crate::replay::{PumpResult, ReplaySession, ReplayView, Stage, WorkBudget};
use crate::replay_clock;

verus! {

/// What the caller of a run does next.
#[derive(Clone, Copy, Debug, PartialEq, Eq, Structural)]
pub enum RunStep {
    /// Applies an event to the world and hands back what it changed.
    Apply { event: usize },
    /// Completes the tick and publishes its scene.
    Settle,
    /// Stops: the run is over.
    Done,
}

/// A run.
#[derive(Clone, Copy, Debug, PartialEq, Eq, Structural)]
pub struct RunView {
    pub budget: WorkBudget,
    /// Cancellation ends the run instead of failing it.
    pub interactive: bool,
    /// The run was cancelled before it began.
    pub refused: bool,
    pub ticks: u64,
    pub events: usize,
    /// Events of the tick that is under way, and how many it may have.
    pub tick_events: usize,
    pub tick_budget: usize,
    /// A tick is under way.
    pub within: bool,
}

/// A run that has done nothing.
pub open spec fn fresh_run(budget: WorkBudget, interactive: bool, refused: bool) -> RunView {
    RunView {
        budget,
        interactive,
        refused,
        ticks: 0,
        events: 0,
        tick_events: 0,
        tick_budget: 0,
        within: false,
    }
}

/// A run begins no further tick.
pub open spec fn is_over(r: RunView, cancelled: bool) -> bool {
    ||| r.refused
    ||| r.budget.max_ticks == 0
    ||| r.budget.max_events == 0
    ||| r.interactive && cancelled
    ||| r.ticks >= r.budget.max_ticks
    ||| r.events >= r.budget.max_events
}

/// What a replay calls for within a tick.
pub open spec fn natural_step(s: ReplayView, events: Seq<Event>) -> RunStep {
    if replay::is_due(s, events) {
        RunStep::Apply { event: s.next_event as usize }
    } else {
        RunStep::Settle
    }
}

/// The step within a tick: that which the replay calls for, unless the events
/// of the tick are used up.
pub open spec fn tick_step(r: RunView, s: ReplayView, events: Seq<Event>) -> RunStep {
    if s.next_event < events.len() && r.tick_events >= r.tick_budget {
        RunStep::Done
    } else {
        natural_step(s, events)
    }
}

/// The run with its next tick under way.
pub open spec fn entered(r: RunView) -> RunView {
    RunView {
        within: true,
        tick_events: 0,
        tick_budget: (r.budget.max_events - r.events) as usize,
        ..r
    }
}

/// The next step of a run, with the run and the replay after it.  The origin
/// comes before any tick and takes nothing of the budget.
pub open spec fn run_next(
    r: RunView,
    s: ReplayView,
    events: Seq<Event>,
    cancelled: bool,
    threshold: Option<u64>,
) -> Result<(RunView, ReplayView, RunStep), ReplayErrorView> {
    if s.stage is Origin {
        Ok((r, s, natural_step(s, events)))
    } else if r.within {
        Ok((r, s, tick_step(r, s, events)))
    } else if is_over(r, cancelled) {
        Ok((r, s, RunStep::Done))
    } else if cancelled {
        Err(ReplayErrorView::Cancelled)
    } else {
        match replay::begun(s, events, threshold) {
            Err(e) => Err(e),
            Ok(begun) => Ok((entered(r), begun, tick_step(entered(r), begun, events))),
        }
    }
}

/// Budgets decide only when a run pauses, never what it does: two runs on one
/// state of a replay that both go on take the same step and leave the replay
/// in the same state.
pub proof fn budgets_only_pause(
    a: RunView,
    b: RunView,
    s: ReplayView,
    events: Seq<Event>,
    cancelled: bool,
    threshold: Option<u64>,
)
    requires
        a.within ==> s.stage is Tick,
        b.within ==> s.stage is Tick,
        run_next(a, s, events, cancelled, threshold) matches Ok(next) && next.2 != RunStep::Done,
        run_next(b, s, events, cancelled, threshold) matches Ok(next) && next.2 != RunStep::Done,
    ensures
        ({
            let first = run_next(a, s, events, cancelled, threshold)->Ok_0;
            let second = run_next(b, s, events, cancelled, threshold)->Ok_0;
            &&& first.1 == second.1
            &&& first.2 == second.2
        }),
{
}

/// A run that pauses leaves the published scene alone: within a tick nothing
/// is published, and its tick and clock stay where they were.
pub proof fn pauses_publish_nothing(
    r: RunView,
    s: ReplayView,
    events: Seq<Event>,
    cancelled: bool,
    threshold: Option<u64>,
)
    requires
        run_next(r, s, events, cancelled, threshold) is Ok,
    ensures
        ({
            let after = (run_next(r, s, events, cancelled, threshold)->Ok_0).1;
            &&& after.published_tick == s.published_tick
            &&& after.tick == s.tick
            &&& after.clock == s.clock
            &&& after.next_event == s.next_event
            &&& after.lives == s.lives
        }),
{
}

/// A run of a replay.
pub struct ReplayRun {
    state: RunView,
}

impl View for ReplayRun {
    type V = RunView;

    closed spec fn view(&self) -> RunView {
        self.state
    }
}

impl ReplayRun {
    /// The run stays within its budget, and a tick is under way only where the
    /// replay is in one.
    pub open spec fn wf(&self, s: ReplayView) -> bool {
        &&& self@.events <= self@.budget.max_events
        &&& self@.ticks <= self@.budget.max_ticks
        &&& self@.within ==> {
            &&& s.stage is Tick
            &&& self@.ticks < self@.budget.max_ticks
            &&& self@.tick_events <= self@.tick_budget
            &&& self@.events - self@.tick_events + self@.tick_budget == self@.budget.max_events
        }
    }

    fn fresh(budget: WorkBudget, interactive: bool, refused: bool) -> (run: Self)
        ensures
            run@ == fresh_run(budget, interactive, refused),
    {
        ReplayRun {
            state: RunView {
                budget,
                interactive,
                refused,
                ticks: 0,
                events: 0,
                tick_events: 0,
                tick_budget: 0,
                within: false,
            },
        }
    }

    /// Decides what comes next.
    pub fn next(&mut self, session: &mut ReplaySession) -> (result: Result<RunStep, ReplayError>)
        requires
            old(session).wf(),
            old(self).wf(old(session)@),
        ensures
            final(session).wf(),
            final(session).same_generation(old(session)),
            final(self).wf(final(session)@),
            ({
                let outcome = run_next(
                    old(self)@,
                    old(session)@,
                    old(session).events(),
                    old(session).cancelled(),
                    old(session).timing().auto_skip_ticks,
                );
                match result {
                    Ok(step) => outcome == Ok::<(RunView, ReplayView, RunStep), ReplayErrorView>(
                        (final(self)@, final(session)@, step),
                    ),
                    Err(e) => {
                        &&& outcome == Err::<(RunView, ReplayView, RunStep), ReplayErrorView>(e@)
                        &&& final(self)@ == old(self)@
                        &&& final(session)@ == old(session)@
                    },
                }
            }),
    {
        if session.is_at_origin() {
            return match session.due_event() {
                Some(event) => Ok(RunStep::Apply { event }),
                None => Ok(RunStep::Settle),
            };
        }
        if !self.state.within {
            let r = self.state;
            let cancelled = session.is_cancelled();
            if r.refused || r.budget.max_ticks == 0 || r.budget.max_events == 0 || (r.interactive
                && cancelled) || r.ticks >= r.budget.max_ticks || r.events >= r.budget.max_events {
                return Ok(RunStep::Done);
            }
            match session.begin_tick() {
                Ok(()) => {},
                Err(e) => return Err(e),
            }
            self.state = RunView {
                within: true,
                tick_events: 0,
                tick_budget: r.budget.max_events - r.events,
                ..r
            };
        }
        if session.next_event() < session.history().len() && self.state.tick_events
            >= self.state.tick_budget {
            return Ok(RunStep::Done);
        }
        match session.due_event() {
            Some(event) => Ok(RunStep::Apply { event }),
            None => Ok(RunStep::Settle),
        }
    }

    /// Hands back what the due event changed in the world.
    pub fn take_event(&mut self, session: &mut ReplaySession, delta: &WorldDelta)
        requires
            old(session).wf(),
            old(self).wf(old(session)@),
            replay::is_due(old(session)@, old(session).events()),
            old(session)@.stage is Origin || old(self)@.within && old(self)@.tick_events
                < old(self)@.tick_budget,
        ensures
            final(session).wf(),
            final(session).same_generation(old(session)),
            final(self).wf(final(session)@),
            final(self)@ == if old(session)@.stage is Origin {
                old(self)@
            } else {
                RunView {
                    events: (old(self)@.events + 1) as usize,
                    tick_events: (old(self)@.tick_events + 1) as usize,
                    ..old(self)@
                }
            },
            final(session)@ == replay::with_event(
                old(session)@,
                old(session).events()[old(session)@.next_event],
                *delta,
                old(session).paint(),
                old(session).catalog_view(),
            ),
    {
        let origin = session.is_at_origin();
        session.take_event(delta);
        if !origin {
            self.state.events = self.state.events + 1;
            self.state.tick_events = self.state.tick_events + 1;
        }
    }

    /// Completes the origin or the tick that is under way.
    pub fn settle(&mut self, session: &mut ReplaySession) -> (result: Result<(), ReplayError>)
        requires
            old(session).wf(),
            old(self).wf(old(session)@),
            !replay::is_due(old(session)@, old(session).events()),
            old(session)@.stage is Origin || old(self)@.within,
        ensures
            final(session).wf(),
            final(session).same_generation(old(session)),
            final(self).wf(final(session)@),
            match old(session)@.stage {
                Stage::Tick(pending) => match result {
                    Ok(()) => {
                        &&& replay_clock::offset_at(
                            old(session)@.clock,
                            pending.target_time,
                        ) is Some
                        &&& final(session)@ == replay::settled(
                            old(session)@,
                            pending,
                            old(session).timing().file_idle_ticks,
                        )
                        &&& final(self)@ == (RunView {
                            ticks: (old(self)@.ticks + 1) as u64,
                            within: false,
                            ..old(self)@
                        })
                    },
                    Err(e) => {
                        &&& replay_clock::offset_at(
                            old(session)@.clock,
                            pending.target_time,
                        ) is None
                        &&& e@ == ReplayErrorView::InvalidConfig("clock overflow"@)
                        &&& final(session)@ == old(session)@
                        &&& final(self)@ == old(self)@
                    },
                },
                _ => {
                    &&& result is Ok
                    &&& final(session)@ == (ReplayView { stage: Stage::Rest, ..old(session)@ })
                    &&& final(self)@ == old(self)@
                },
            },
    {
        let origin = session.is_at_origin();
        match session.settle() {
            Ok(()) => {},
            Err(e) => return Err(e),
        }
        if origin {
            return Ok(());
        }
        self.state.ticks = self.state.ticks + 1;
        self.state.within = false;
        Ok(())
    }

    /// What the run did.
    pub fn result(&self, session: &ReplaySession) -> (result: PumpResult)
        requires
            session.wf(),
        ensures
            result == if self@.refused {
                PumpResult {
                    ticks: 0,
                    events: 0,
                    complete: false,
                    cancelled: true,
                    snapshot_tick: session@.published_tick,
                }
            } else {
                PumpResult {
                    ticks: self@.ticks,
                    events: self@.events,
                    complete: replay::ended(session@, session.events()),
                    cancelled: session.cancelled(),
                    snapshot_tick: session@.published_tick,
                }
            },
    {
        if self.state.refused {
            PumpResult {
                ticks: 0,
                events: 0,
                complete: false,
                cancelled: true,
                snapshot_tick: session.published_tick(),
            }
        } else {
            PumpResult {
                ticks: self.state.ticks,
                events: self.state.events,
                complete: session.is_at_end(),
                cancelled: session.is_cancelled(),
                snapshot_tick: session.published_tick(),
            }
        }
    }
}

/// A run over a number of ticks that has done nothing.
pub open spec fn tick_run(ticks: u64) -> RunView {
    fresh_run(WorkBudget { max_ticks: ticks, max_events: usize::MAX }, false, false)
}

impl ReplaySession {
    /// Starts a run within a budget.
    pub fn pump(&self, budget: WorkBudget) -> (run: ReplayRun)
        requires
            self.wf(),
        ensures
            run.wf(self@),
            run@ == fresh_run(budget, true, self.cancelled()),
    {
        ReplayRun::fresh(budget, true, self.is_cancelled())
    }

    /// Starts a run over a number of ticks.
    pub fn advance_ticks(&self, ticks: u64) -> (result: Result<ReplayRun, ReplayError>)
        requires
            self.wf(),
        ensures
            match result {
                Ok(run) => !self.cancelled() && run.wf(self@) && run@ == tick_run(ticks),
                Err(e) => self.cancelled() && e@ == ReplayErrorView::Cancelled,
            },
    {
        if self.is_cancelled() {
            return Err(ReplayError::Cancelled);
        }
        Ok(ReplayRun::fresh(WorkBudget::new(ticks, usize::MAX), false, false))
    }

    /// Another name for [`Self::advance_ticks`].
    pub fn advance(&self, ticks: u64) -> (result: Result<ReplayRun, ReplayError>)
        requires
            self.wf(),
        ensures
            match result {
                Ok(run) => !self.cancelled() && run.wf(self@) && run@ == tick_run(ticks),
                Err(e) => self.cancelled() && e@ == ReplayErrorView::Cancelled,
            },
    {
        self.advance_ticks(ticks)
    }

    /// Starts a run over one tick.
    pub fn step(&self) -> (result: Result<ReplayRun, ReplayError>)
        requires
            self.wf(),
        ensures
            match result {
                Ok(run) => !self.cancelled() && run.wf(self@) && run@ == tick_run(1),
                Err(e) => self.cancelled() && e@ == ReplayErrorView::Cancelled,
            },
    {
        self.advance_ticks(1)
    }

    /// Starts a run over the whole ticks of elapsed wall-clock time and keeps
    /// what is left of it.
    pub fn advance_wall(&mut self, nanos: u128) -> (result: Result<ReplayRun, ReplayError>)
        requires
            old(self).wf(),
        ensures
            final(self).wf(),
            final(self).same_generation(old(self)),
            match result {
                Ok(run) => {
                    let split = replay_clock::wall_ticks(old(self)@.wall_remainder, nanos);
                    &&& !old(self).cancelled()
                    &&& run.wf(final(self)@)
                    &&& run@ == tick_run(split.0)
                    &&& final(self)@ == (ReplayView { wall_remainder: split.1, ..old(self)@ })
                },
                Err(e) => {
                    &&& old(self).cancelled()
                    &&& e@ == ReplayErrorView::Cancelled
                    &&& final(self)@ == old(self)@
                },
            },
    {
        match self.take_wall_time(nanos) {
            Ok(ticks) => self.advance_ticks(ticks),
            Err(e) => Err(e),
        }
    }

    /// Goes back to the origin in a new generation and starts the run from
    /// there to a tick.
    pub fn seek_tick(&mut self, target_tick: u64) -> (result: Result<ReplayRun, ReplayError>)
        requires
            old(self).wf(),
        ensures
            final(self).wf(),
            final(self).same_replay(old(self)),
            match result {
                Ok(run) => {
                    &&& !old(self).cancelled()
                    &&& !final(self).cancelled()
                    &&& run.wf(final(self)@)
                    &&& run@ == tick_run(target_tick)
                    &&& final(self)@ == replay::at_origin(old(self)@.clock)
                    &&& final(self).generation_view() == crate::snapshot_pool::counted(
                        old(self).generation_view(),
                        1,
                    )
                    &&& final(self).remembered() == old(self).remembered()
                },
                Err(e) => {
                    &&& old(self).cancelled()
                    &&& e@ == ReplayErrorView::Cancelled
                    &&& final(self)@ == old(self)@
                    &&& final(self).same_generation(old(self))
                },
            },
    {
        match self.go_back() {
            Ok(()) => self.advance_ticks(target_tick),
            Err(e) => Err(e),
        }
    }

    /// Goes back to the origin and starts the run from there to the last tick
    /// that is not after a repository time; a time before the origin is tick
    /// zero.
    pub fn seek_repository_time(&mut self, target: RationalTime) -> (result: Result<
        ReplayRun,
        ReplayError,
    >)
        requires
            old(self).wf(),
        ensures
            final(self).wf(),
            final(self).same_replay(old(self)),
            sought(
                *old(self),
                *final(self),
                replay_clock::tick_of(old(self)@.clock, target),
                result,
            ),
    {
        match self.ticks_for_repository_time(target) {
            Ok(tick) => self.seek_tick(tick),
            Err(e) => Err(e),
        }
    }

    /// Another name for [`Self::seek_repository_time`].
    pub fn seek(&mut self, target: RationalTime) -> (result: Result<ReplayRun, ReplayError>)
        requires
            old(self).wf(),
        ensures
            final(self).wf(),
            final(self).same_replay(old(self)),
            sought(
                *old(self),
                *final(self),
                replay_clock::tick_of(old(self)@.clock, target),
                result,
            ),
    {
        self.seek_repository_time(target)
    }
}

/// What seeking a tick gives: a run from the origin in a new generation, or an
/// error that leaves the session alone, where the time has no tick or the
/// session is cancelled.
pub open spec fn sought(
    before: ReplaySession,
    after: ReplaySession,
    tick: Result<u64, ReplayErrorView>,
    result: Result<ReplayRun, ReplayError>,
) -> bool {
    match result {
        Ok(run) => {
            &&& tick matches Ok(target) && run@ == tick_run(target)
            &&& !before.cancelled()
            &&& !after.cancelled()
            &&& run.wf(after@)
            &&& after@ == replay::at_origin(before@.clock)
            &&& after.generation_view() == crate::snapshot_pool::counted(
                before.generation_view(),
                1,
            )
            &&& after.remembered() == before.remembered()
        },
        Err(e) => {
            &&& after@ == before@
            &&& after.same_generation(&before)
            &&& match tick {
                Ok(_) => before.cancelled() && e@ == ReplayErrorView::Cancelled,
                Err(fault) => e@ == fault,
            }
        },
    }
}

} // verus!
