//! Deterministic fixed-step replay of a history.
//!
//! A session holds everything that changes during a replay but the world and
//! the places of things on the screen.  Its caller asks what to do next, hands
//! back what each event changed in the world, and takes the scene of every
//! completed tick.

use vstd::prelude::*;

use crate::history::IndexedHistory;
use crate::lives;
use crate::lives::{Lives, LivesView, Paint, WorldDelta};
use crate::model;
use crate::model::Event;
use crate::rational::{RationalTime, ReplayError, ReplayErrorView};
use crate::replay_clock;
use crate::replay_clock::{split_wall_time, PlaybackClock};
use crate::replay_identity;
use crate::replay_identity::{replay_identity, ReplayConfig};
use crate::scene;
use crate::scene::{build_scene, SceneSnapshot, WorldTree};

verus! {

/// How many checkpoints a session remembers.
pub const MAX_CHECKPOINTS: usize = 64;

/// A number of threads: at least one.
#[derive(Clone, Copy, Debug, PartialEq, Eq, Structural)]
pub struct ThreadCount {
    value: usize,
}

impl ThreadCount {
    pub closed spec fn count(self) -> usize {
        self.value
    }

    #[verifier::type_invariant]
    spec fn positive(self) -> bool {
        self.value >= 1
    }

    /// Accepts every number but zero.
    pub fn new(value: usize) -> (threads: Option<Self>)
        ensures
            threads is Some <==> value >= 1,
            threads matches Some(t) ==> t.count() == value,
    {
        if value >= 1 {
            Some(ThreadCount { value })
        } else {
            None
        }
    }

    pub fn get(self) -> (value: usize)
        ensures
            value == self.count(),
            value >= 1,
    {
        proof {
            use_type_invariant(self);
        }
        self.value
    }
}

/// How the stages of a replay are run.
#[derive(Clone, Copy, Debug, PartialEq, Eq, Structural)]
pub enum ExecutionMode {
    /// On the calling thread.
    Serial,
    /// On a bounded pool of threads.
    Parallel { threads: ThreadCount },
}

impl ExecutionMode {
    /// The number of threads.
    pub fn configured_threads(self) -> (threads: usize)
        ensures
            threads >= 1,
            threads == match self {
                ExecutionMode::Serial => 1,
                ExecutionMode::Parallel { threads } => threads.count(),
            },
    {
        match self {
            ExecutionMode::Serial => 1,
            ExecutionMode::Parallel { threads } => threads.get(),
        }
    }
}

/// How much replay work one pump may do.
#[derive(Clone, Copy, Debug, PartialEq, Eq, Structural)]
pub struct WorkBudget {
    pub max_ticks: u64,
    pub max_events: usize,
}

impl WorkBudget {
    pub fn new(max_ticks: u64, max_events: usize) -> (budget: Self)
        ensures
            budget == (WorkBudget { max_ticks, max_events }),
    {
        WorkBudget { max_ticks, max_events }
    }
}

impl Default for WorkBudget {
    fn default() -> (budget: Self)
        ensures
            budget == (WorkBudget { max_ticks: 8, max_events: 256 }),
    {
        WorkBudget { max_ticks: 8, max_events: 256 }
    }
}

/// Another name for the budget of a pump.
pub type ReplayWorkBudget = WorkBudget;

/// What one pump did.
#[derive(Clone, Debug, PartialEq, Eq)]
pub struct PumpResult {
    pub ticks: u64,
    pub events: usize,
    pub complete: bool,
    pub cancelled: bool,
    pub snapshot_tick: u64,
}

/// A request to stop a replay.
#[derive(Clone, Debug)]
pub struct Cancellation {
    cancelled: bool,
}

impl View for Cancellation {
    type V = bool;

    closed spec fn view(&self) -> bool {
        self.cancelled
    }
}

impl Default for Cancellation {
    fn default() -> (cancellation: Self)
        ensures
            !cancellation@,
    {
        Cancellation { cancelled: false }
    }
}

impl Cancellation {
    pub fn new() -> (cancellation: Self)
        ensures
            !cancellation@,
    {
        Cancellation { cancelled: false }
    }

    pub fn cancel(&mut self)
        ensures
            final(self)@,
    {
        self.cancelled = true;
    }

    pub fn reset(&mut self)
        ensures
            !final(self)@,
    {
        self.cancelled = false;
    }

    pub fn is_cancelled(&self) -> (cancelled: bool)
        ensures
            cancelled == self@,
    {
        self.cancelled
    }
}

/// A tick that has begun.
#[derive(Clone, Copy, Debug, PartialEq, Eq, Structural)]
pub struct PendingTick {
    pub target_tick: u64,
    pub target_time: RationalTime,
}

/// What a session is in the middle of.
#[derive(Clone, Copy, Debug, PartialEq, Eq, Structural)]
pub enum Stage {
    /// The events at the start of the history.
    Origin,
    /// Nothing: the last tick is complete.
    Rest,
    /// A tick that has begun.
    Tick(PendingTick),
}

/// How fast and how far a replay goes.
#[derive(Clone, Copy, Debug, PartialEq, Eq, Structural)]
pub struct ReplayTiming {
    /// Repository seconds in a second of wall-clock time.
    pub repository_rate: RationalTime,
    /// Idle ticks after which the replay skips to the next event.
    pub auto_skip_ticks: Option<u64>,
    /// Ticks after which a file without activity fades.
    pub file_idle_ticks: Option<u64>,
}

/// Everything that changes during a replay.
#[verifier::ext_equal]
pub struct ReplayView {
    pub tick: u64,
    pub next_event: int,
    pub lives: LivesView,
    pub published_tick: u64,
    pub wall_remainder: u128,
    pub idle_ticks: u64,
    pub stage: Stage,
    pub clock: PlaybackClock,
}

struct ReplayState {
    tick: u64,
    next_event: usize,
    lives: Lives,
    published_tick: u64,
    wall_remainder_nanos: u128,
    idle_ticks: u64,
    stage: Stage,
    clock: PlaybackClock,
}

impl ReplayState {
    spec fn view(&self) -> ReplayView {
        ReplayView {
            tick: self.tick,
            next_event: self.next_event as int,
            lives: self.lives@,
            published_tick: self.published_tick,
            wall_remainder: self.wall_remainder_nanos,
            idle_ticks: self.idle_ticks,
            stage: self.stage,
            clock: self.clock,
        }
    }

    spec fn wf(&self) -> bool {
        &&& self.lives.wf()
        &&& self.clock.wf()
        &&& self.stage matches Stage::Tick(pending) ==> pending.target_time.is_reduced()
    }

    fn copy(&self) -> (copy: Self)
        requires
            self.wf(),
        ensures
            copy.wf(),
            copy.view() == self.view(),
    {
        ReplayState {
            tick: self.tick,
            next_event: self.next_event,
            lives: self.lives.copy(),
            published_tick: self.published_tick,
            wall_remainder_nanos: self.wall_remainder_nanos,
            idle_ticks: self.idle_ticks,
            stage: self.stage,
            clock: self.clock,
        }
    }
}

/// A replay at the start of a history.
pub open spec fn at_origin(clock: PlaybackClock) -> ReplayView {
    ReplayView {
        tick: 0,
        next_event: 0,
        lives: lives::no_lives(),
        published_tick: 0,
        wall_remainder: 0,
        idle_ticks: 0,
        stage: Stage::Origin,
        clock: PlaybackClock {
            repository_time: replay_clock::whole(clock.start_timestamp),
            ..clock
        },
    }
}

/// The time up to which events are due, in whole seconds.
pub open spec fn due_time(s: ReplayView) -> int {
    match s.stage {
        Stage::Tick(pending) => pending.target_time.floor_value(),
        _ => s.clock.repository_time.floor_value(),
    }
}

/// The next event belongs to the stage that the replay is in.
pub open spec fn is_due(s: ReplayView, events: Seq<Event>) -> bool {
    &&& !(s.stage is Rest)
    &&& s.next_event < events.len()
    &&& events[s.next_event].key.timestamp <= due_time(s)
}

/// The tick that events are applied at.
pub open spec fn event_tick(s: ReplayView) -> u64 {
    match s.stage {
        Stage::Tick(pending) => pending.target_tick,
        _ => s.tick,
    }
}

/// The time of the next tick: the usual time, unless the replay has been idle
/// for long enough and the next event is still ahead.
pub open spec fn skipped_time(
    s: ReplayView,
    events: Seq<Event>,
    threshold: Option<u64>,
    normal: RationalTime,
) -> RationalTime {
    if threshold is Some && s.idle_ticks >= threshold->0 && s.lives.actions.len() == 0
        && s.next_event < events.len() && events[s.next_event].key.timestamp
        > normal.floor_value() {
        replay_clock::whole(events[s.next_event].key.timestamp)
    } else {
        normal
    }
}

/// The replay after its next tick has begun.
pub open spec fn begun(s: ReplayView, events: Seq<Event>, threshold: Option<u64>) -> Result<
    ReplayView,
    ReplayErrorView,
> {
    if s.stage is Tick {
        Ok(s)
    } else if s.tick == u64::MAX {
        Err(ReplayErrorView::InvalidConfig("tick overflow"@))
    } else {
        let target = (s.tick + 1) as u64;
        match replay_clock::time_at(s.clock, s.tick, target) {
            Err(e) => Err(e),
            Ok(normal) => Ok(
                ReplayView {
                    stage: Stage::Tick(
                        PendingTick {
                            target_tick: target,
                            target_time: skipped_time(s, events, threshold, normal),
                        },
                    ),
                    ..s
                },
            ),
        }
    }
}

/// Repository time does not run backwards from tick to tick, whether the
/// replay skips ahead or not.
pub proof fn time_never_runs_backwards(s: ReplayView, events: Seq<Event>, threshold: Option<u64>)
    requires
        s.clock.wf(),
        s.clock.repository_rate.numerator >= 0,
        s.clock.repository_rate.denominator > 0,
        !(s.stage is Tick),
        begun(s, events, threshold) is Ok,
    ensures
        (begun(s, events, threshold)->Ok_0).stage matches Stage::Tick(pending)
            && replay_clock::not_after(s.clock.repository_time, pending.target_time),
{
    let target = (s.tick + 1) as u64;
    let normal = replay_clock::time_at(s.clock, s.tick, target)->Ok_0;
    let chosen = skipped_time(s, events, threshold, normal);
    replay_clock::later_ticks_are_not_earlier(s.clock, s.tick, target);
    if chosen != normal {
        let now = s.clock.repository_time;
        let timestamp = events[s.next_event].key.timestamp as int;
        let nn = normal.numerator as int;
        let nd = normal.denominator as int;
        vstd::arithmetic::div_mod::lemma_fundamental_div_mod(nn, nd);
        vstd::arithmetic::div_mod::lemma_mod_bound(nn, nd);
        assert(nn < timestamp * nd) by (nonlinear_arith)
            requires
                nn == nd * (nn / nd) + nn % nd,
                nn % nd < nd,
                timestamp >= nn / nd + 1,
                nd > 0,
        ;
        assert(now.numerator <= timestamp * now.denominator) by (nonlinear_arith)
            requires
                now.numerator * nd <= nn * now.denominator,
                nn < timestamp * nd,
                nd > 0,
                now.denominator > 0,
        ;
    }
}

/// A replay that goes back to its origin is where a new one starts, whatever
/// happened before.
pub proof fn every_origin_is_the_same(one: PlaybackClock, other: PlaybackClock)
    requires
        one.start_timestamp == other.start_timestamp,
        one.repository_rate == other.repository_rate,
    ensures
        at_origin(one) == at_origin(other),
{
}

/// The replay after an event and what it changed in the world.
pub open spec fn with_event(
    s: ReplayView,
    event: Event,
    delta: WorldDelta,
    paint: Paint,
    catalog: crate::catalog::CatalogView,
) -> ReplayView {
    ReplayView {
        lives: lives::after_event(s.lives, event, delta, event_tick(s), paint, catalog),
        next_event: s.next_event + 1,
        ..s
    }
}

/// The replay after a tick without further events.
pub open spec fn settled(s: ReplayView, pending: PendingTick, idle: Option<u64>) -> ReplayView {
    let later = lives::aged(s.lives, pending.target_tick, idle);
    ReplayView {
        tick: pending.target_tick,
        stage: Stage::Rest,
        clock: PlaybackClock { repository_time: pending.target_time, ..s.clock },
        lives: later,
        idle_ticks: if later.actions.len() > 0 {
            0
        } else if s.idle_ticks == u64::MAX {
            u64::MAX
        } else {
            (s.idle_ticks + 1) as u64
        },
        ..s
    }
}

/// Nothing is left to replay.
pub open spec fn ended(s: ReplayView, events: Seq<Event>) -> bool {
    !(s.stage is Tick) && s.next_event >= events.len() && s.lives.actions.len() == 0
}

/// When no event is due, every event up to the time of the stage has been
/// applied.
pub proof fn no_due_event_is_left(s: ReplayView, events: Seq<Event>)
    requires
        model::canonical_order(events),
        !(s.stage is Rest),
        0 <= s.next_event,
        !is_due(s, events),
    ensures
        forall|i: int|
            0 <= i < events.len() && (#[trigger] events[i]).key.timestamp <= due_time(s) ==> i
                < s.next_event,
{
    assert forall|i: int|
        0 <= i < events.len() && (#[trigger] events[i]).key.timestamp <= due_time(s) implies i
        < s.next_event by {
        if i >= s.next_event {
            let first = events[s.next_event];
            if i > s.next_event {
                assert(!events[i].key.before(first.key));
            }
            assert(first.key.timestamp <= events[i].key.timestamp);
        }
    }
}

/// A replay skips ahead only when it has been idle for its threshold with
/// nothing left on the way, and then exactly to the next event.
pub proof fn skipping_waits_for_the_threshold(
    s: ReplayView,
    events: Seq<Event>,
    threshold: Option<u64>,
    normal: RationalTime,
)
    ensures
        ({
            let target = skipped_time(s, events, threshold, normal);
            target != normal ==> {
                &&& threshold matches Some(ticks) && s.idle_ticks >= ticks
                &&& s.lives.actions.len() == 0
                &&& s.next_event < events.len()
                &&& target.floor_value() == events[s.next_event].key.timestamp
            }
        }),
{
    if s.next_event < events.len() {
        let seconds = events[s.next_event].key.timestamp as int;
        assert(seconds / 1 == seconds);
    }
}

/// A remembered state of a replay.
pub struct ReplayCheckpoint {
    identity: u128,
    generation: u64,
    state: ReplayState,
}

impl ReplayCheckpoint {
    pub closed spec fn identity_view(&self) -> u128 {
        self.identity
    }

    pub closed spec fn generation_view(&self) -> u64 {
        self.generation
    }

    pub closed spec fn state_view(&self) -> ReplayView {
        self.state.view()
    }

    pub closed spec fn wf(&self) -> bool {
        self.state.wf()
    }

    pub fn identity(&self) -> (identity: u128)
        ensures
            identity == self.identity_view(),
    {
        self.identity
    }

    pub fn generation(&self) -> (generation: u64)
        ensures
            generation == self.generation_view(),
    {
        self.generation
    }

    pub fn tick(&self) -> (tick: u64)
        ensures
            tick == self.state_view().tick,
    {
        self.state.tick
    }
}

/// The replay of a history.
pub struct ReplaySession {
    history: IndexedHistory,
    config: ReplayConfig,
    timing: ReplayTiming,
    execution_mode: ExecutionMode,
    state: ReplayState,
    identity: u128,
    generation: u64,
    cancellation: Cancellation,
    checkpoints: usize,
}

impl View for ReplaySession {
    type V = ReplayView;

    closed spec fn view(&self) -> ReplayView {
        self.state.view()
    }
}

impl ReplaySession {
    pub closed spec fn events(&self) -> Seq<Event> {
        self.history.events_view()
    }

    pub closed spec fn catalog_view(&self) -> crate::catalog::CatalogView {
        self.history.catalog_view()
    }

    pub closed spec fn timing(&self) -> ReplayTiming {
        self.timing
    }

    pub closed spec fn config_view(&self) -> ReplayConfig {
        self.config
    }

    pub closed spec fn mode(&self) -> ExecutionMode {
        self.execution_mode
    }

    pub closed spec fn generation_view(&self) -> u64 {
        self.generation
    }

    pub closed spec fn cancelled(&self) -> bool {
        self.cancellation@
    }

    pub closed spec fn remembered(&self) -> nat {
        self.checkpoints as nat
    }

    /// What a replay of the history under the configuration is known by.
    pub open spec fn identity_view(&self) -> u128 {
        replay_identity::identity_of(
            replay_identity::replay_words(
                self.catalog_view(),
                self.events(),
                self.config_view(),
            ),
        )
    }

    pub closed spec fn wf(&self) -> bool {
        &&& self.history.wf()
        &&& self.state.wf()
        &&& self.identity == self.identity_view()
        &&& self.checkpoints <= MAX_CHECKPOINTS
    }

    /// The parts that no step of a replay changes.
    pub open spec fn same_replay(&self, other: &ReplaySession) -> bool {
        &&& self.events() == other.events()
        &&& self.catalog_view() == other.catalog_view()
        &&& self.timing() == other.timing()
        &&& self.config_view() == other.config_view()
        &&& self.mode() == other.mode()
    }

    /// The parts that a step within a generation leaves alone.
    pub open spec fn same_generation(&self, other: &ReplaySession) -> bool {
        &&& self.same_replay(other)
        &&& self.generation_view() == other.generation_view()
        &&& self.cancelled() == other.cancelled()
        &&& self.remembered() == other.remembered()
    }

    /// What colours of the replay depend on.
    pub open spec fn paint(&self) -> Paint {
        Paint {
            seed: self.config_view().seed,
            algorithm_version: self.config_view().algorithm_version,
        }
    }

    /// A session in a well-formed state has its clock and events in order.
    pub proof fn stays_in_order(&self)
        requires
            self.wf(),
        ensures
            0 <= self@.next_event,
            self@.clock.wf(),
            model::canonical_order(self.events()),
            self@.stage matches Stage::Tick(pending) ==> pending.target_time.is_reduced(),
    {
        self.history.is_consistent();
    }

    /// Starts a replay on the calling thread.
    pub fn new(history: IndexedHistory, config: ReplayConfig, timing: ReplayTiming) -> (session:
        Self)
        requires
            history.wf(),
        ensures
            session.wf(),
            session.events() == history.events_view(),
            session.catalog_view() == history.catalog_view(),
            session.config_view() == config,
            session.timing() == timing,
            session.mode() == ExecutionMode::Serial,
            session.generation_view() == 0,
            !session.cancelled(),
            session.remembered() == 0,
            session@ == at_origin(session@.clock),
            session@.clock.repository_rate == timing.repository_rate,
            session@.clock.start_timestamp == if history.events_view().len() > 0 {
                history.events_view()[0].key.timestamp
            } else {
                0i64
            },
    {
        Self::new_with_execution(history, config, timing, ExecutionMode::Serial)
    }

    /// Starts a replay.
    pub fn new_with_execution(
        history: IndexedHistory,
        config: ReplayConfig,
        timing: ReplayTiming,
        execution_mode: ExecutionMode,
    ) -> (session: Self)
        requires
            history.wf(),
        ensures
            session.wf(),
            session.events() == history.events_view(),
            session.catalog_view() == history.catalog_view(),
            session.config_view() == config,
            session.timing() == timing,
            session.mode() == execution_mode,
            session.generation_view() == 0,
            !session.cancelled(),
            session.remembered() == 0,
            session@ == at_origin(session@.clock),
            session@.clock.repository_rate == timing.repository_rate,
            session@.clock.start_timestamp == if history.events_view().len() > 0 {
                history.events_view()[0].key.timestamp
            } else {
                0i64
            },
    {
        let start: i64 = if history.len() > 0 {
            history.events()[0].timestamp()
        } else {
            0
        };
        let identity: u128 = replay_identity(&history, &config);
        let state = ReplayState {
            tick: 0,
            next_event: 0,
            lives: Lives::new(),
            published_tick: 0,
            wall_remainder_nanos: 0,
            idle_ticks: 0,
            stage: Stage::Origin,
            clock: PlaybackClock::at_start(start, timing.repository_rate),
        };
        let session = ReplaySession {
            history,
            config,
            timing,
            execution_mode,
            state,
            identity,
            generation: 0,
            cancellation: Cancellation::new(),
            checkpoints: 0,
        };
        assert(session@ =~= at_origin(session@.clock));
        session
    }

    /// Another name for [`Self::new`].
    pub fn from_origin(history: IndexedHistory, config: ReplayConfig, timing: ReplayTiming) -> (
    session: Self)
        requires
            history.wf(),
        ensures
            session.wf(),
            session.events() == history.events_view(),
            session.catalog_view() == history.catalog_view(),
            session.config_view() == config,
            session.timing() == timing,
            session.mode() == ExecutionMode::Serial,
            session.generation_view() == 0,
            !session.cancelled(),
            session.remembered() == 0,
            session@ == at_origin(session@.clock),
            session@.clock.repository_rate == timing.repository_rate,
            session@.clock.start_timestamp == if history.events_view().len() > 0 {
                history.events_view()[0].key.timestamp
            } else {
                0i64
            },
    {
        Self::new(history, config, timing)
    }

    /// The place of the next event that is due now.
    pub(crate) fn due_event(&self) -> (due: Option<usize>)
        requires
            self.wf(),
        ensures
            due == if is_due(self@, self.events()) {
                Some(self@.next_event as usize)
            } else {
                None
            },
    {
        proof {
            self.stays_in_order();
        }
        let time: i128 = match self.state.stage {
            Stage::Rest => return None,
            Stage::Origin => self.state.clock.repository_time.floor(),
            Stage::Tick(pending) => pending.target_time.floor(),
        };
        let next: usize = self.state.next_event;
        if next < self.history.len() && self.history.events()[next].timestamp() as i128 <= time {
            Some(next)
        } else {
            None
        }
    }

    /// Begins the next tick, unless one has begun.
    pub(crate) fn begin_tick(&mut self) -> (result: Result<(), ReplayError>)
        requires
            old(self).wf(),
        ensures
            final(self).wf(),
            final(self).same_generation(old(self)),
            ({
                let outcome = begun(
                    old(self)@,
                    old(self).events(),
                    old(self).timing().auto_skip_ticks,
                );
                match result {
                    Ok(()) => !old(self).cancelled() && outcome == Ok::<ReplayView, ReplayErrorView>(
                        final(self)@,
                    ),
                    Err(e) => final(self)@ == old(self)@ && if old(self).cancelled() {
                        e@ == ReplayErrorView::Cancelled
                    } else {
                        outcome == Err::<ReplayView, ReplayErrorView>(e@)
                    },
                }
            }),
    {
        if self.cancellation.is_cancelled() {
            return Err(ReplayError::Cancelled);
        }
        match self.state.stage {
            Stage::Tick(_) => return Ok(()),
            _ => {},
        }
        if self.state.tick == u64::MAX {
            return Err(ReplayError::InvalidConfig("tick overflow"));
        }
        let target_tick: u64 = self.state.tick + 1;
        let normal = match self.state.clock.repository_time_at(self.state.tick, target_tick) {
            Ok(time) => time,
            Err(e) => return Err(e),
        };
        let target_time = self.auto_skip_target(normal);
        self.state.stage = Stage::Tick(PendingTick { target_tick, target_time });
        Ok(())
    }

    fn auto_skip_target(&self, normal: RationalTime) -> (target: RationalTime)
        requires
            self.wf(),
            normal.is_reduced(),
        ensures
            target == skipped_time(
                self@,
                self.events(),
                self.timing().auto_skip_ticks,
                normal,
            ),
            target.is_reduced(),
    {
        let threshold: u64 = match self.timing.auto_skip_ticks {
            Some(threshold) => threshold,
            None => return normal,
        };
        let next: usize = self.state.next_event;
        if self.state.idle_ticks < threshold || self.state.lives.actions.len() > 0 || next
            >= self.history.len() {
            return normal;
        }
        let timestamp: i64 = self.history.events()[next].timestamp();
        if timestamp as i128 <= normal.floor() {
            return normal;
        }
        proof {
            replay_clock::whole_is_reduced(timestamp as int);
        }
        RationalTime::new(timestamp as i128, 1)
    }

    /// Takes in what the due event changed in the world.
    pub(crate) fn take_event(&mut self, delta: &WorldDelta)
        requires
            old(self).wf(),
            is_due(old(self)@, old(self).events()),
        ensures
            final(self).wf(),
            final(self).same_generation(old(self)),
            final(self)@ == with_event(
                old(self)@,
                old(self).events()[old(self)@.next_event],
                *delta,
                old(self).paint(),
                old(self).catalog_view(),
            ),
    {
        let tick: u64 = match self.state.stage {
            Stage::Tick(pending) => pending.target_tick,
            _ => self.state.tick,
        };
        let paint = Paint {
            seed: self.config.seed,
            algorithm_version: self.config.algorithm_version,
        };
        let event: Event = self.history.events()[self.state.next_event];
        self.state.lives.apply_event(&event, delta, tick, paint, self.history.catalog());
        self.state.next_event = self.state.next_event + 1;
        assert(self@ =~= with_event(
            old(self)@,
            old(self).events()[old(self)@.next_event],
            *delta,
            old(self).paint(),
            old(self).catalog_view(),
        ));
    }

    /// Completes a stage in which no event is due any more.
    pub(crate) fn settle(&mut self) -> (result: Result<(), ReplayError>)
        requires
            old(self).wf(),
            !is_due(old(self)@, old(self).events()),
        ensures
            final(self).wf(),
            final(self).same_generation(old(self)),
            match old(self)@.stage {
                Stage::Tick(pending) => match result {
                    Ok(()) => replay_clock::offset_at(old(self)@.clock, pending.target_time) is Some
                        && final(self)@ == settled(
                        old(self)@,
                        pending,
                        old(self).timing().file_idle_ticks,
                    ),
                    Err(e) => {
                        &&& replay_clock::offset_at(old(self)@.clock, pending.target_time) is None
                        &&& e@ == ReplayErrorView::InvalidConfig("clock overflow"@)
                        &&& final(self)@ == old(self)@
                    },
                },
                _ => result is Ok && final(self)@ == (ReplayView {
                    stage: Stage::Rest,
                    ..old(self)@
                }),
            },
    {
        match self.state.stage {
            Stage::Tick(pending) => {
                match self.state.clock.jump_clock_to(pending.target_time) {
                    Ok(()) => {},
                    Err(e) => return Err(e),
                }
                self.state.tick = pending.target_tick;
                self.state.stage = Stage::Rest;
                self.state.lives.integrate(pending.target_tick, self.timing.file_idle_ticks);
                self.state.idle_ticks = if self.state.lives.actions.len() == 0 {
                    self.state.idle_ticks.saturating_add(1)
                } else {
                    0
                };
                assert(self@ =~= settled(
                    old(self)@,
                    pending,
                    old(self).timing().file_idle_ticks,
                ));
            },
            _ => {
                self.state.stage = Stage::Rest;
                assert(self@ =~= (ReplayView { stage: Stage::Rest, ..old(self)@ }));
            },
        }
        Ok(())
    }

    /// Publishes the scene of a completed tick.
    pub fn publish(&mut self, tree: &WorldTree) -> (snapshot: SceneSnapshot)
        requires
            old(self).wf(),
            old(self)@.stage is Rest,
        ensures
            final(self).wf(),
            final(self).same_generation(old(self)),
            final(self)@ == (ReplayView { published_tick: old(self)@.tick, ..old(self)@ }),
            snapshot.generation == old(self).generation_view(),
            scene::is_snapshot_of(
                snapshot,
                old(self)@.lives,
                *tree,
                old(self)@.tick,
                old(self)@.clock.repository_time,
                old(self).catalog_view(),
            ),
            scene::scene_shows(
                snapshot@,
                final(self).lives(),
                *tree,
                old(self)@.tick,
                old(self).catalog_view(),
            ),
    {
        let snapshot = build_scene(
            &self.state.lives,
            tree,
            self.history.catalog(),
            self.state.tick,
            self.state.clock.repository_time,
            self.generation,
        );
        self.state.published_tick = self.state.tick;
        assert(self@ =~= (ReplayView { published_tick: old(self)@.tick, ..old(self)@ }));
        snapshot
    }

    /// The lives that the session holds.
    pub closed spec fn lives(&self) -> Lives {
        self.state.lives
    }

    /// The lives of files, contributors and actions.
    pub fn current_lives(&self) -> (lives: &Lives)
        requires
            self.wf(),
        ensures
            *lives == self.lives(),
            lives@ == self@.lives,
            lives.wf(),
    {
        &self.state.lives
    }

    /// Turns elapsed wall-clock time into whole ticks and keeps the rest.
    pub(crate) fn take_wall_time(&mut self, nanos: u128) -> (result: Result<u64, ReplayError>)
        requires
            old(self).wf(),
        ensures
            final(self).wf(),
            final(self).same_generation(old(self)),
            match result {
                Ok(ticks) => {
                    let split = replay_clock::wall_ticks(old(self)@.wall_remainder, nanos);
                    &&& !old(self).cancelled()
                    &&& ticks == split.0
                    &&& final(self)@ == (ReplayView { wall_remainder: split.1, ..old(self)@ })
                },
                Err(e) => {
                    &&& old(self).cancelled()
                    &&& e@ == ReplayErrorView::Cancelled
                    &&& final(self)@ == old(self)@
                },
            },
    {
        if self.cancellation.is_cancelled() {
            return Err(ReplayError::Cancelled);
        }
        let (ticks, rest) = split_wall_time(self.state.wall_remainder_nanos, nanos);
        self.state.wall_remainder_nanos = rest;
        assert(self@ =~= (ReplayView { wall_remainder: rest, ..old(self)@ }));
        Ok(ticks)
    }

    fn reset_state(&mut self)
        requires
            old(self).wf(),
        ensures
            final(self).wf(),
            final(self).same_replay(old(self)),
            final(self)@ == at_origin(old(self)@.clock),
            !final(self).cancelled(),
            final(self).generation_view() == old(self).generation_view(),
            final(self).remembered() == old(self).remembered(),
    {
        let clock = PlaybackClock::at_start(
            self.state.clock.start_timestamp,
            self.state.clock.repository_rate,
        );
        self.state = ReplayState {
            tick: 0,
            next_event: 0,
            lives: Lives::new(),
            published_tick: 0,
            wall_remainder_nanos: 0,
            idle_ticks: 0,
            stage: Stage::Origin,
            clock,
        };
        self.cancellation.reset();
        assert(self@ =~= at_origin(old(self)@.clock));
    }

    /// Goes back to the origin in a new generation.
    pub(crate) fn go_back(&mut self) -> (result: Result<(), ReplayError>)
        requires
            old(self).wf(),
        ensures
            final(self).wf(),
            final(self).same_replay(old(self)),
            match result {
                Ok(()) => {
                    &&& !old(self).cancelled()
                    &&& !final(self).cancelled()
                    &&& final(self)@ == at_origin(old(self)@.clock)
                    &&& final(self).generation_view() == crate::snapshot_pool::counted(
                        old(self).generation_view(),
                        1,
                    )
                    &&& final(self).remembered() == old(self).remembered()
                },
                Err(e) => {
                    &&& old(self).cancelled()
                    &&& e@ == ReplayErrorView::Cancelled
                    &&& final(self)@ == old(self)@
                    &&& final(self).same_generation(old(self))
                },
            },
    {
        if self.cancellation.is_cancelled() {
            return Err(ReplayError::Cancelled);
        }
        self.generation = self.generation.saturating_add(1);
        self.reset_state();
        Ok(())
    }

    /// The tick of a repository time.
    pub fn ticks_for_repository_time(&self, target: RationalTime) -> (result: Result<
        u64,
        ReplayError,
    >)
        requires
            self.wf(),
        ensures
            match result {
                Ok(tick) => replay_clock::tick_of(self@.clock, target) == Ok::<
                    u64,
                    ReplayErrorView,
                >(tick),
                Err(e) => replay_clock::tick_of(self@.clock, target) == Err::<
                    u64,
                    ReplayErrorView,
                >(e@),
            },
    {
        self.state.clock.ticks_for_repository_time(target)
    }

    /// Starts a new generation at the origin and forgets all checkpoints.
    pub fn restart(&mut self)
        requires
            old(self).wf(),
        ensures
            final(self).wf(),
            final(self).same_replay(old(self)),
            !final(self).cancelled(),
            final(self)@ == at_origin(old(self)@.clock),
            final(self).generation_view() == crate::snapshot_pool::counted(
                old(self).generation_view(),
                1,
            ),
            final(self).remembered() == 0,
    {
        self.generation = self.generation.saturating_add(1);
        self.reset_state();
        self.checkpoints = 0;
    }

    /// Captures the complete state of the replay.
    pub fn checkpoint(&mut self) -> (checkpoint: ReplayCheckpoint)
        requires
            old(self).wf(),
        ensures
            final(self).wf(),
            final(self).same_replay(old(self)),
            final(self)@ == old(self)@,
            final(self).generation_view() == old(self).generation_view(),
            final(self).cancelled() == old(self).cancelled(),
            final(self).remembered() == if old(self).remembered() < MAX_CHECKPOINTS {
                (old(self).remembered() + 1) as nat
            } else {
                MAX_CHECKPOINTS as nat
            },
            checkpoint.wf(),
            checkpoint.identity_view() == old(self).identity_view(),
            checkpoint.generation_view() == old(self).generation_view(),
            checkpoint.state_view() == old(self)@,
    {
        if self.checkpoints < MAX_CHECKPOINTS {
            self.checkpoints = self.checkpoints + 1;
        }
        ReplayCheckpoint {
            identity: self.identity,
            generation: self.generation,
            state: self.state.copy(),
        }
    }

    /// Goes back to a checkpoint of this replay and generation.
    pub fn restore_checkpoint(&mut self, checkpoint: &ReplayCheckpoint) -> (result: Result<
        (),
        ReplayError,
    >)
        requires
            old(self).wf(),
            checkpoint.wf(),
        ensures
            final(self).wf(),
            final(self).same_generation(old(self)),
            match result {
                Ok(()) => {
                    &&& checkpoint.identity_view() == old(self).identity_view()
                    &&& checkpoint.generation_view() == old(self).generation_view()
                    &&& final(self)@ == checkpoint.state_view()
                },
                Err(e) => {
                    &&& final(self)@ == old(self)@
                    &&& if checkpoint.identity_view() != old(self).identity_view() {
                        e@ == ReplayErrorView::CheckpointIdentityMismatch
                    } else {
                        &&& checkpoint.generation_view() != old(self).generation_view()
                        &&& e@ == ReplayErrorView::CheckpointGenerationMismatch
                    }
                },
            },
    {
        if checkpoint.identity != self.identity {
            return Err(ReplayError::CheckpointIdentityMismatch);
        }
        if checkpoint.generation != self.generation {
            return Err(ReplayError::CheckpointGenerationMismatch);
        }
        self.state = checkpoint.state.copy();
        Ok(())
    }

    pub fn checkpoint_count(&self) -> (count: usize)
        requires
            self.wf(),
        ensures
            count == self.remembered(),
            count <= MAX_CHECKPOINTS,
    {
        self.checkpoints
    }

    pub fn history(&self) -> (history: &IndexedHistory)
        ensures
            history.events_view() == self.events(),
            history.catalog_view() == self.catalog_view(),
            self.wf() ==> history.wf(),
    {
        &self.history
    }

    pub fn catalog(&self) -> (catalog: &crate::catalog::Catalog)
        ensures
            catalog@ == self.catalog_view(),
    {
        self.history.catalog()
    }

    pub fn config(&self) -> (config: &ReplayConfig)
        ensures
            *config == self.config_view(),
    {
        &self.config
    }

    pub fn execution_mode(&self) -> (mode: ExecutionMode)
        ensures
            mode == self.mode(),
    {
        self.execution_mode
    }

    pub fn configured_threads(&self) -> (threads: usize)
        ensures
            threads >= 1,
            threads == match self.mode() {
                ExecutionMode::Serial => 1,
                ExecutionMode::Parallel { threads } => threads.count(),
            },
    {
        self.execution_mode.configured_threads()
    }

    pub fn generation(&self) -> (generation: u64)
        ensures
            generation == self.generation_view(),
    {
        self.generation
    }

    pub fn tick(&self) -> (tick: u64)
        ensures
            tick == self@.tick,
    {
        self.state.tick
    }

    pub fn next_event(&self) -> (place: usize)
        ensures
            place == self@.next_event,
    {
        self.state.next_event
    }

    pub fn idle_ticks(&self) -> (ticks: u64)
        ensures
            ticks == self@.idle_ticks,
    {
        self.state.idle_ticks
    }

    pub fn published_tick(&self) -> (tick: u64)
        ensures
            tick == self@.published_tick,
    {
        self.state.published_tick
    }

    pub fn repository_time(&self) -> (time: RationalTime)
        ensures
            time == self@.clock.repository_time,
    {
        self.state.clock.repository_time
    }

    /// A tick has begun and is not complete.
    pub fn is_in_tick(&self) -> (within: bool)
        ensures
            within == (self@.stage is Tick),
    {
        match self.state.stage {
            Stage::Tick(_) => true,
            _ => false,
        }
    }

    /// The events at the start of the history are being applied.
    pub fn is_at_origin(&self) -> (origin: bool)
        ensures
            origin == (self@.stage is Origin),
    {
        match self.state.stage {
            Stage::Origin => true,
            _ => false,
        }
    }

    /// The last tick is complete.
    pub fn is_at_rest(&self) -> (rest: bool)
        ensures
            rest == (self@.stage is Rest),
    {
        match self.state.stage {
            Stage::Rest => true,
            _ => false,
        }
    }

    pub fn is_at_end(&self) -> (end: bool)
        requires
            self.wf(),
        ensures
            end == ended(self@, self.events()),
    {
        let within = match self.state.stage {
            Stage::Tick(_) => true,
            _ => false,
        };
        !within && self.state.next_event >= self.history.len() && self.state.lives.actions.len()
            == 0
    }

    pub fn is_cancelled(&self) -> (cancelled: bool)
        ensures
            cancelled == self.cancelled(),
    {
        self.cancellation.is_cancelled()
    }

    pub fn cancel(&mut self)
        requires
            old(self).wf(),
        ensures
            final(self).wf(),
            final(self).same_replay(old(self)),
            final(self).cancelled(),
            final(self)@ == old(self)@,
            final(self).generation_view() == old(self).generation_view(),
            final(self).remembered() == old(self).remembered(),
    {
        self.cancellation.cancel();
    }

    pub fn clear_cancellation(&mut self)
        requires
            old(self).wf(),
        ensures
            final(self).wf(),
            final(self).same_replay(old(self)),
            !final(self).cancelled(),
            final(self)@ == old(self)@,
            final(self).generation_view() == old(self).generation_view(),
            final(self).remembered() == old(self).remembered(),
    {
        self.cancellation.reset();
    }
}

} // verus!
