//! How repository time passes in a replay, and when events come due.

use vstd::arithmetic::div_mod::*;
use vstd::prelude::*;

use crate::catalog::CatalogView;
use crate::lives;
use crate::lives::{Paint, WorldDelta};
use crate::model::Event;
use crate::rational;
use crate::rational::RationalTime;
use crate::replay;
use crate::replay::{PendingTick, ReplayView, Stage};
use crate::replay_clock;
use crate::replay_clock::PlaybackClock;

verus! {

/// A sum of times has the value of its parts added, in positive parts.
pub proof fn times_add_up(a: RationalTime, b: RationalTime)
    requires
        rational::exact_sum(a, b) is Some,
    ensures
        ({
            let sum = rational::exact_sum(a, b)->0;
            &&& a.denominator != 0
            &&& b.denominator != 0
            &&& sum.denominator > 0
            &&& sum.numerator * (a.denominator * b.denominator) == (a.numerator * b.denominator
                + b.numerator * a.denominator) * sum.denominator
        }),
{
    rational::sums_are_exact(a, b);
    replay_clock::sum_is_reduced(a, b);
}

/// Where the clock stands at one tick, another tick has the time of the clock
/// and a hundred-and-twentieth of the rate for every tick between them.
pub proof fn ticks_are_a_hundred_and_twenty_to_the_second(
    clock: PlaybackClock,
    now: u64,
    tick: u64,
)
    requires
        clock.wf(),
        clock.repository_rate.denominator != 0,
        replay_clock::time_at(clock, now, tick) is Ok,
    ensures
        ({
            let time = replay_clock::time_at(clock, now, tick)->Ok_0;
            let rate = clock.repository_rate;
            let unit = rate.denominator * 120;
            &&& time.denominator > 0
            &&& time.numerator * (clock.repository_time.denominator * unit) == (
            clock.repository_time.numerator * unit + (rate.numerator * (tick - now))
                * clock.repository_time.denominator) * time.denominator
        }),
{
    let start = clock.repository_time;
    let rate = clock.repository_rate;
    let time = replay_clock::time_at(clock, now, tick)->Ok_0;
    let tn = start.numerator as int;
    let td = start.denominator as int;
    let sn = time.numerator as int;
    let sd = time.denominator as int;
    let pd = rate.denominator * 120;
    let pn = rate.numerator * (tick - now);
    if tick == now {
        assert(pn == 0) by (nonlinear_arith)
            requires
                pn == rate.numerator * (tick - now),
                tick == now,
        ;
        assert(tn * (td * pd) == (tn * pd + pn * td) * td) by (nonlinear_arith)
            requires
                pn == 0,
        ;
    } else {
        let passed = RationalTime { numerator: pn as i128, denominator: pd as i128 };
        let elapsed = passed.reduction()->0;
        replay_clock::reduction_keeps_value(passed);
        times_add_up(start, elapsed);
        let en = elapsed.numerator as int;
        let ed = elapsed.denominator as int;
        // sn / sd == tn / td + en / ed, and en / ed == pn / pd.
        assert(sn * (td * ed) == (tn * ed + en * td) * sd);
        assert(en * pd == pn * ed);
        let x = sn * (td * pd);
        let y = (tn * pd + pn * td) * sd;
        assert(x * ed == y * ed) by {
            let a = sn * (td * ed);
            assert(x * ed == a * pd) by (nonlinear_arith)
                requires
                    x == sn * (td * pd),
                    a == sn * (td * ed),
            ;
            let b = tn * ed + en * td;
            assert(a * pd == (b * pd) * sd) by (nonlinear_arith)
                requires
                    a == b * sd,
            ;
            let c = en * pd;
            assert(b * pd == (tn * pd) * ed + c * td) by (nonlinear_arith)
                requires
                    b == tn * ed + en * td,
                    c == en * pd,
            ;
            let d = pn * ed;
            assert((tn * pd) * ed + d * td == (tn * pd + pn * td) * ed) by (nonlinear_arith)
                requires
                    d == pn * ed,
            ;
            let g = tn * pd + pn * td;
            assert((g * ed) * sd == y * ed) by (nonlinear_arith)
                requires
                    y == g * sd,
            ;
        }
        vstd::arithmetic::mul::lemma_mul_equality_converse(ed, x, y);
    }
}

/// Lowest terms are not larger.
proof fn lowest_terms_are_small(n: int, d: int)
    requires
        d > 0,
    ensures
        -rational::magnitude(n) <= rational::lowest(n, d).0 <= rational::magnitude(n),
        0 < rational::lowest(n, d).1 <= d,
{
    let a = rational::magnitude(n);
    rational::gcd_is_greatest_common_divisor(a, d);
    let g = rational::gcd(a, d);
    rational::lowest_terms_keep_the_value(n, d);
    lemma_div_is_ordered_by_denominator(a, 1, g);
    lemma_div_is_ordered_by_denominator(d, 1, g);
    lemma_div_pos_is_pos(a, g);
}

/// Ordinary times never run out of range: with seconds below 2^62, parts of a
/// second and rates below 2^40 and steps below 2^20 ticks, every tick has a
/// time.
pub proof fn ordinary_ticks_have_a_time(clock: PlaybackClock, now: u64, tick: u64)
    requires
        clock.wf(),
        -0x4000_0000_0000_0000 < clock.repository_time.numerator < 0x4000_0000_0000_0000,
        clock.repository_time.denominator < 0x100_0000_0000,
        0 < clock.repository_rate.denominator < 0x100_0000_0000,
        -0x100_0000_0000 < clock.repository_rate.numerator < 0x100_0000_0000,
        -0x10_0000 < tick - now < 0x10_0000,
    ensures
        replay_clock::time_at(clock, now, tick) is Ok,
{
    if tick != now {
        let rate = clock.repository_rate;
        let start = clock.repository_time;
        let steps = tick - now;
        let pn = rate.numerator * steps;
        let pd = rate.denominator * 120;
        assert(-0x1000_0000_0000_0000 < pn < 0x1000_0000_0000_0000) by (nonlinear_arith)
            requires
                pn == rate.numerator * steps,
                -0x100_0000_0000 < rate.numerator < 0x100_0000_0000,
                -0x10_0000 < steps < 0x10_0000,
        ;
        let passed = RationalTime { numerator: pn as i128, denominator: pd as i128 };
        lowest_terms_are_small(pn, pd);
        let elapsed = passed.reduction()->0;
        let en = elapsed.numerator as int;
        let ed = elapsed.denominator as int;
        lowest_terms_are_small(en, ed);
        let right = elapsed.reduction()->0;
        let rn = right.numerator as int;
        let rd = right.denominator as int;
        let tn = start.numerator as int;
        let td = start.denominator as int;
        lowest_terms_are_small(tn, td);
        let top = tn * rd + rn * td;
        let bottom = td * rd;
        assert(-0x4000_0000_0000_0000 * 0x8000_0000_0000 <= tn * rd <= 0x4000_0000_0000_0000
            * 0x8000_0000_0000) by (nonlinear_arith)
            requires
                -0x4000_0000_0000_0000 < tn < 0x4000_0000_0000_0000,
                0 < rd < 0x8000_0000_0000,
        ;
        assert(-0x1000_0000_0000_0000 * 0x100_0000_0000 <= rn * td <= 0x1000_0000_0000_0000
            * 0x100_0000_0000) by (nonlinear_arith)
            requires
                -0x1000_0000_0000_0000 < rn < 0x1000_0000_0000_0000,
                0 < td < 0x100_0000_0000,
        ;
        assert(0 < bottom <= 0x100_0000_0000 * 0x8000_0000_0000) by (nonlinear_arith)
            requires
                bottom == td * rd,
                0 < td < 0x100_0000_0000,
                0 < rd < 0x8000_0000_0000,
        ;
        lowest_terms_are_small(top, bottom);
    }
}

/// A sum of times within bounds is a time within bounds.
proof fn small_sums_exist(a: RationalTime, b: RationalTime, an: int, ad: int, bn: int, bd: int)
    requires
        0 < a.denominator <= ad,
        0 < b.denominator <= bd,
        -an <= a.numerator <= an,
        -bn <= b.numerator <= bn,
        an * bd <= 0x1000_0000_0000_0000_0000_0000_0000_0000,
        bn * ad <= 0x1000_0000_0000_0000_0000_0000_0000_0000,
        ad * bd <= 0x1000_0000_0000_0000_0000_0000_0000_0000,
    ensures
        rational::exact_sum(a, b) matches Some(sum) && 0 < sum.denominator <= ad * bd && -(an * bd
            + bn * ad) <= sum.numerator <= an * bd + bn * ad,
{
    assert(an <= 0x1000_0000_0000_0000_0000_0000_0000_0000 && bn
        <= 0x1000_0000_0000_0000_0000_0000_0000_0000) by (nonlinear_arith)
        requires
            0 <= an,
            0 <= bn,
            0 < ad,
            0 < bd,
            an * bd <= 0x1000_0000_0000_0000_0000_0000_0000_0000,
            bn * ad <= 0x1000_0000_0000_0000_0000_0000_0000_0000,
    ;
    lowest_terms_are_small(a.numerator as int, a.denominator as int);
    lowest_terms_are_small(b.numerator as int, b.denominator as int);
    let left = a.reduction()->0;
    let right = b.reduction()->0;
    let (ln, ld) = (left.numerator as int, left.denominator as int);
    let (rn, rd) = (right.numerator as int, right.denominator as int);
    assert(-(an * bd) <= ln * rd <= an * bd) by (nonlinear_arith)
        requires
            -an <= ln <= an,
            0 < rd <= bd,
    ;
    assert(-(bn * ad) <= rn * ld <= bn * ad) by (nonlinear_arith)
        requires
            -bn <= rn <= bn,
            0 < ld <= ad,
    ;
    assert(0 < ld * rd <= ad * bd) by (nonlinear_arith)
        requires
            0 < ld <= ad,
            0 < rd <= bd,
    ;
    lowest_terms_are_small(ln * rd + rn * ld, ld * rd);
}

/// Ordinary ticks are completed: with times below 2^40 seconds, parts of a
/// second and rates below 2^20, the clock never overflows.
pub proof fn ordinary_ticks_are_completed(clock: PlaybackClock, target: RationalTime)
    requires
        0 < target.denominator <= 0x10_0000,
        -0x1000_0000_0000_0000 <= target.numerator <= 0x1000_0000_0000_0000,
        -0x100_0000_0000 <= clock.start_timestamp <= 0x100_0000_0000,
        0 < clock.repository_rate.denominator <= 0x10_0000,
        -0x10_0000 <= clock.repository_rate.numerator <= 0x10_0000,
    ensures
        replay_clock::offset_at(clock, target) is Some,
{
    let rate = clock.repository_rate;
    let step = RationalTime { numerator: 1, denominator: 120 };
    lowest_terms_are_small(rate.numerator as int, rate.denominator as int);
    lowest_terms_are_small(1, 120);
    let left = rate.reduction()->0;
    let right = step.reduction()->0;
    let (ln, ld) = (left.numerator as int, left.denominator as int);
    let (rn, rd) = (right.numerator as int, right.denominator as int);
    assert(-0x10_0000 <= ln * rn <= 0x10_0000) by (nonlinear_arith)
        requires
            -0x10_0000 <= ln <= 0x10_0000,
            -1 <= rn <= 1,
    ;
    assert(0 < ld * rd <= 0x800_0000) by (nonlinear_arith)
        requires
            0 < ld <= 0x10_0000,
            0 < rd <= 120,
    ;
    lowest_terms_are_small(ln * rn, ld * rd);
    let tick = replay_clock::time_per_tick(rate)->0;
    lowest_terms_are_small(-tick.numerator as int, tick.denominator as int);
    let back = replay_clock::opposite(tick)->0;
    small_sums_exist(target, back, 0x1000_0000_0000_0000, 0x10_0000, 0x10_0000, 0x800_0000);
    let current = rational::exact_sum(target, back)->0;
    let begin = replay_clock::whole(clock.start_timestamp);
    lowest_terms_are_small(-begin.numerator as int, 1);
    let start = replay_clock::opposite(begin)->0;
    let span: int = 0x100_0000_0000_0000_0000_0000;
    small_sums_exist(current, start, span, 0x8000_0000_0000, 0x100_0000_0000, 1);
    let offset = rational::exact_sum(current, start)->0;
    small_sums_exist(offset, tick, 2 * span, 0x8000_0000_0000, 0x10_0000, 0x800_0000);
}

/// A time of the reduced form lies before a whole second exactly where its
/// floor does.
proof fn floor_decides(time: RationalTime, seconds: int)
    requires
        time.denominator > 0,
    ensures
        time.floor_value() < seconds <==> time.numerator < seconds * time.denominator,
        time.floor_value() >= seconds <==> time.numerator >= seconds * time.denominator,
{
    let n = time.numerator as int;
    let d = time.denominator as int;
    lemma_fundamental_div_mod(n, d);
    lemma_mod_bound(n, d);
    let q = n / d;
    let r = n % d;
    if q < seconds {
        assert(n < seconds * d) by (nonlinear_arith)
            requires
                n == d * q + r,
                0 <= r < d,
                q + 1 <= seconds,
        ;
    } else {
        assert(n >= seconds * d) by (nonlinear_arith)
            requires
                n == d * q + r,
                0 <= r < d,
                q >= seconds,
        ;
    }
}

/// The next tick of a replay without auto-skip is the following one, at the
/// time of the clock and one tick more; nothing else of the replay changes.
pub proof fn ticks_follow_each_other(s: ReplayView, events: Seq<Event>)
    requires
        s.clock.wf(),
        s.clock.repository_rate.denominator != 0,
        !(s.stage is Tick),
        replay::begun(s, events, None) is Ok,
    ensures
        ({
            let next = replay::begun(s, events, None)->Ok_0;
            let rate = s.clock.repository_rate;
            let now = s.clock.repository_time;
            &&& next.stage matches Stage::Tick(pending)
            &&& pending.target_tick == s.tick + 1
            &&& pending.target_time.denominator > 0
            &&& pending.target_time.numerator * (now.denominator * (rate.denominator * 120)) == (
            now.numerator * (rate.denominator * 120) + rate.numerator * now.denominator)
                * pending.target_time.denominator
            &&& next == (ReplayView { stage: next.stage, ..s })
        }),
{
    ticks_are_a_hundred_and_twenty_to_the_second(s.clock, s.tick, (s.tick + 1) as u64);
    let rate = s.clock.repository_rate;
    let one = (s.tick + 1) as u64 - s.tick;
    assert(rate.numerator * one == rate.numerator) by (nonlinear_arith)
        requires
            one == 1,
    ;
}

/// A replay that has been idle for its threshold, with no action left, goes
/// straight to the next event where that lies after the usual time of the next
/// tick, however far ahead it is.
pub proof fn idle_gaps_are_skipped(s: ReplayView, events: Seq<Event>, threshold: u64)
    requires
        s.clock.wf(),
        !(s.stage is Tick),
        replay::begun(s, events, None) is Ok,
        s.idle_ticks >= threshold,
        s.lives.actions.len() == 0,
        0 <= s.next_event < events.len(),
        replay::begun(s, events, None)->Ok_0.stage matches Stage::Tick(usual)
            && usual.target_time.numerator < events[s.next_event].key.timestamp
            * usual.target_time.denominator,
    ensures
        ({
            let skipped = replay::begun(s, events, Some(threshold));
            &&& skipped is Ok
            &&& (skipped->Ok_0).stage matches Stage::Tick(pending)
            &&& pending.target_tick == s.tick + 1
            &&& pending.target_time.numerator == events[s.next_event].key.timestamp
            &&& pending.target_time.denominator == 1
        }),
{
    let normal = replay_clock::time_at(s.clock, s.tick, (s.tick + 1) as u64)->Ok_0;
    usual_time_is_positive(s.clock, s.tick, (s.tick + 1) as u64);
    floor_decides(normal, events[s.next_event].key.timestamp as int);
}

proof fn usual_time_is_positive(clock: PlaybackClock, now: u64, tick: u64)
    requires
        clock.wf(),
        replay_clock::time_at(clock, now, tick) is Ok,
    ensures
        (replay_clock::time_at(clock, now, tick)->Ok_0).denominator > 0,
{
    if tick != now {
        let rate = clock.repository_rate;
        let elapsed = RationalTime {
            numerator: (rate.numerator * (tick - now)) as i128,
            denominator: (rate.denominator * 120) as i128,
        };
        replay_clock::sum_is_reduced(clock.repository_time, elapsed.reduction()->0);
    }
}

/// In every other case a tick has its usual time: before the threshold, while
/// an action is on its way, at the end of the history, and where the next event
/// is due by then.
pub proof fn busy_replays_skip_nothing(s: ReplayView, events: Seq<Event>, threshold: u64)
    requires
        s.clock.wf(),
        !(s.stage is Tick),
        replay::begun(s, events, None) is Ok,
        ({
            ||| s.idle_ticks < threshold
            ||| s.lives.actions.len() > 0
            ||| s.next_event >= events.len()
            ||| replay::begun(s, events, None)->Ok_0.stage matches Stage::Tick(usual)
                && usual.target_time.numerator >= events[s.next_event].key.timestamp
                * usual.target_time.denominator
        }),
    ensures
        replay::begun(s, events, Some(threshold)) == replay::begun(s, events, None),
{
    let normal = replay_clock::time_at(s.clock, s.tick, (s.tick + 1) as u64)->Ok_0;
    usual_time_is_positive(s.clock, s.tick, (s.tick + 1) as u64);
    if s.next_event < events.len() {
        floor_decides(normal, events[s.next_event].key.timestamp as int);
    }
}

/// Whether a tick can begin does not depend on skipping.
pub proof fn skipping_refuses_nothing(s: ReplayView, events: Seq<Event>, threshold: Option<u64>)
    ensures
        replay::begun(s, events, threshold) is Ok <==> replay::begun(s, events, None) is Ok,
        replay::begun(s, events, threshold) is Err ==> replay::begun(s, events, threshold)
            == replay::begun(s, events, None),
        s.stage is Tick ==> replay::begun(s, events, threshold) == Ok::<
            ReplayView,
            rational::ReplayErrorView,
        >(s),
{
}

/// Within a tick the next event is due exactly where it is not later than the
/// time of the tick; at the origin where it is not later than the clock; and a
/// completed tick takes no event.
pub proof fn events_come_due_at_their_time(s: ReplayView, events: Seq<Event>)
    requires
        s.clock.wf(),
        s.stage matches Stage::Tick(pending) ==> pending.target_time.denominator > 0,
    ensures
        s.stage is Rest ==> !replay::is_due(s, events),
        s.next_event >= events.len() ==> !replay::is_due(s, events),
        s.stage is Origin && s.next_event < events.len() ==> (replay::is_due(s, events)
            <==> events[s.next_event].key.timestamp * s.clock.repository_time.denominator
            <= s.clock.repository_time.numerator),
        s.next_event < events.len() ==> (s.stage matches Stage::Tick(pending) ==> (
        replay::is_due(s, events) <==> events[s.next_event].key.timestamp
            * pending.target_time.denominator <= pending.target_time.numerator)),
{
    if s.next_event < events.len() {
        let seconds = events[s.next_event].key.timestamp as int;
        floor_decides(s.clock.repository_time, seconds);
        if let Stage::Tick(pending) = s.stage {
            floor_decides(pending.target_time, seconds);
        }
    }
}

/// An event counts for the tick that is under way, or for the tick that the
/// replay stands at where none is, and the one after it comes next; the clock
/// and the tick stay.
pub proof fn events_belong_to_their_tick(
    s: ReplayView,
    event: Event,
    delta: WorldDelta,
    paint: Paint,
    catalog: CatalogView,
)
    ensures
        ({
            let after = replay::with_event(s, event, delta, paint, catalog);
            &&& after.next_event == s.next_event + 1
            &&& after.tick == s.tick
            &&& after.clock == s.clock
            &&& after.stage == s.stage
            &&& after.idle_ticks == s.idle_ticks
            &&& after.published_tick == s.published_tick
            &&& after.wall_remainder == s.wall_remainder
            &&& after.lives.actions.len() == s.lives.actions.len() + 1
            &&& s.stage matches Stage::Tick(pending) ==> after.lives == lives::after_event(
                s.lives,
                event,
                delta,
                pending.target_tick,
                paint,
                catalog,
            )
            &&& !(s.stage is Tick) ==> after.lives == lives::after_event(
                s.lives,
                event,
                delta,
                s.tick,
                paint,
                catalog,
            )
        }),
{
}

/// A completed tick leaves the replay at its tick and its time, with everything
/// aged to it.  A tick after which no action is left is one more idle tick; an
/// action that is left ends the idleness.
pub proof fn completed_ticks_move_the_replay(
    s: ReplayView,
    pending: PendingTick,
    idle: Option<u64>,
)
    ensures
        ({
            let after = replay::settled(s, pending, idle);
            &&& after.tick == pending.target_tick
            &&& after.clock.repository_time == pending.target_time
            &&& after.clock.start_timestamp == s.clock.start_timestamp
            &&& after.clock.repository_rate == s.clock.repository_rate
            &&& after.stage == Stage::Rest
            &&& after.next_event == s.next_event
            &&& after.published_tick == s.published_tick
            &&& after.wall_remainder == s.wall_remainder
            &&& after.lives == lives::aged(s.lives, pending.target_tick, idle)
            &&& after.lives.actions.len() > 0 ==> after.idle_ticks == 0
            &&& after.lives.actions.len() == 0 && s.idle_ticks < u64::MAX ==> after.idle_ticks
                == s.idle_ticks + 1
        }),
{
}

/// A replay begins with nothing on the screen, at tick zero and the start of
/// the history, before its first event.
pub proof fn replays_begin_at_the_start(clock: PlaybackClock)
    ensures
        ({
            let s = replay::at_origin(clock);
            &&& s.tick == 0
            &&& s.next_event == 0
            &&& s.idle_ticks == 0
            &&& s.published_tick == 0
            &&& s.wall_remainder == 0
            &&& s.stage == Stage::Origin
            &&& s.lives.files == Map::<u64, lives::FileLife>::empty()
            &&& s.lives.contributors == Map::<u64, lives::ContributorLife>::empty()
            &&& s.lives.actions == Seq::<lives::ActionLife>::empty()
            &&& s.clock.repository_time.numerator == clock.start_timestamp
            &&& s.clock.repository_time.denominator == 1
            &&& s.clock.start_timestamp == clock.start_timestamp
            &&& s.clock.repository_rate == clock.repository_rate
        }),
{
}

/// The events of the origin are those at the very start of the history: the
/// first event of a history is always one of them.
pub proof fn the_first_event_is_due_at_the_origin(clock: PlaybackClock, events: Seq<Event>)
    requires
        events.len() > 0,
        clock.start_timestamp == events[0].key.timestamp,
    ensures
        replay::is_due(replay::at_origin(clock), events),
{
    let start = clock.start_timestamp as int;
    assert(start / 1 == start);
}

/// Nothing is left to replay exactly when no tick is under way, every event was
/// taken and no action is shown.
pub proof fn replays_end_when_nothing_is_left(s: ReplayView, events: Seq<Event>)
    ensures
        s.next_event < events.len() ==> !replay::ended(s, events),
        s.lives.actions.len() > 0 ==> !replay::ended(s, events),
        s.stage is Tick ==> !replay::ended(s, events),
        !replay::ended(s, events) ==> s.stage is Tick || s.next_event < events.len()
            || s.lives.actions.len() > 0,
{
}

/// Elapsed wall-clock time becomes a hundred and twenty ticks a second, and no
/// part of it is lost: what is no whole tick is kept for the next time.
pub proof fn wall_time_is_kept(remainder: u128, nanos: u128)
    requires
        remainder + nanos * 120 < 0x1_0000_0000_0000_0000 * 1_000_000_000,
    ensures
        ({
            let (ticks, rest) = replay_clock::wall_ticks(remainder, nanos);
            &&& rest < 1_000_000_000
            &&& ticks * 1_000_000_000 + rest == remainder + nanos * 120
        }),
{
    let total = remainder + nanos * 120;
    lemma_fundamental_div_mod(total, 1_000_000_000);
    lemma_mod_bound(total, 1_000_000_000);
    assert(0 <= total / 1_000_000_000 < 0x1_0000_0000_0000_0000) by (nonlinear_arith)
        requires
            0 <= total < 0x1_0000_0000_0000_0000 * 1_000_000_000,
    ;
    lemma_small_mod((total / 1_000_000_000) as nat, 0x1_0000_0000_0000_0000);
}

/// A seek to a repository time goes to the last tick that is not after it, at
/// a hundred and twenty ticks for each second of the rate, and to tick zero for
/// every time that is not after the start.
pub proof fn seeks_find_the_tick_of_a_time(clock: PlaybackClock, target: RationalTime)
    requires
        target.denominator > 0,
        replay_clock::tick_of(clock, target) is Ok,
    ensures
        ({
            let tick = (replay_clock::tick_of(clock, target)->Ok_0) as int;
            let rate = clock.repository_rate;
            let elapsed = target.numerator - clock.start_timestamp * target.denominator;
            &&& rate.numerator > 0
            &&& rate.denominator > 0
            &&& elapsed <= 0 ==> tick == 0
            &&& elapsed > 0 ==> tick * (target.denominator * rate.numerator) <= elapsed * (
            rate.denominator * 120) < (tick + 1) * (target.denominator * rate.numerator)
        }),
{
    let goal = target.reduction()->0;
    let rate = clock.repository_rate;
    let tick = (replay_clock::tick_of(clock, target)->Ok_0) as int;
    replay_clock::seeking_rounds_down_to_a_tick(clock, target);
    replay_clock::reduction_keeps_value(target);
    let gn = goal.numerator as int;
    let gd = goal.denominator as int;
    let n = target.numerator as int;
    let d = target.denominator as int;
    let start = clock.start_timestamp as int;
    let small = gn - start * gd;
    let large = n - start * d;
    assert(small * d == large * gd) by (nonlinear_arith)
        requires
            gn * d == n * gd,
            small == gn - start * gd,
            large == n - start * d,
    ;
    assert(small <= 0 <==> large <= 0) by (nonlinear_arith)
        requires
            small * d == large * gd,
            d > 0,
            gd > 0,
    ;
    if large > 0 {
        let rn = rate.numerator as int;
        let k = rate.denominator * 120;
        assert(small * rate.denominator * 120 == small * k) by (nonlinear_arith)
            requires
                k == rate.denominator * 120,
        ;
        let low = tick * (gd * rn);
        let high = (tick + 1) * (gd * rn);
        assert(low <= small * k < high);
        let x = tick * (d * rn);
        let y = large * k;
        let z = (tick + 1) * (d * rn);
        assert(x * gd == low * d) by (nonlinear_arith)
            requires
                x == tick * (d * rn),
                low == tick * (gd * rn),
        ;
        assert(z * gd == high * d) by (nonlinear_arith)
            requires
                z == (tick + 1) * (d * rn),
                high == (tick + 1) * (gd * rn),
        ;
        let mid = small * k;
        let left = small * d;
        let right = large * gd;
        assert(mid * d == left * k) by (nonlinear_arith)
            requires
                mid == small * k,
                left == small * d,
        ;
        assert(y * gd == right * k) by (nonlinear_arith)
            requires
                y == large * k,
                right == large * gd,
        ;
        assert(x <= y < z) by (nonlinear_arith)
            requires
                x * gd == low * d,
                z * gd == high * d,
                y * gd == mid * d,
                low <= mid < high,
                gd > 0,
                d > 0,
        ;
    }
}

/// Seconds of idleness become ticks, rounded up: the threshold is the first
/// tick count that is not shorter.  A time that is not positive is no threshold.
pub proof fn skip_thresholds_round_up(seconds: RationalTime)
    requires
        seconds.denominator > 0,
    ensures
        seconds.numerator <= 0 ==> replay_clock::skip_threshold(seconds) is None,
        replay_clock::skip_threshold(seconds) matches Some(ticks) ==> {
            &&& ticks > 0
            &&& (ticks - 1) * seconds.denominator < seconds.numerator * 120
            &&& seconds.numerator * 120 <= ticks * seconds.denominator
        },
{
    let second = RationalTime { numerator: 120, denominator: 1 };
    if let Some(scaled) = replay_clock::exact_product(seconds, second) {
        replay_clock::products_are_exact(seconds, second);
        replay_clock::product_is_reduced(seconds, second);
        let n = seconds.numerator as int;
        let d = seconds.denominator as int;
        let x = scaled.numerator as int;
        let y = scaled.denominator as int;
        assert(x * (d * 1) == (n * 120) * y);
        assert(x * d == (n * 120) * y) by (nonlinear_arith)
            requires
                x * (d * 1) == (n * 120) * y,
        ;
        let q = (-x) / y;
        let r = (-x) % y;
        lemma_fundamental_div_mod(-x, y);
        lemma_mod_bound(-x, y);
        let ticks = -q;
        // (ticks - 1) * y < x <= ticks * y
        assert((ticks - 1) * y < x <= ticks * y) by (nonlinear_arith)
            requires
                -x == y * q + r,
                0 <= r < y,
                ticks == -q,
        ;
        assert((ticks - 1) * d < n * 120 && n * 120 <= ticks * d) by (nonlinear_arith)
            requires
                (ticks - 1) * y < x <= ticks * y,
                x * d == (n * 120) * y,
                y > 0,
                d > 0,
        {
            assert(((ticks - 1) * y) * d < x * d);
            assert(x * d <= (ticks * y) * d);
            assert(((ticks - 1) * d) * y < (n * 120) * y);
            assert((n * 120) * y <= (ticks * d) * y);
        }
        if n <= 0 {
            assert(ticks <= 0) by (nonlinear_arith)
                requires
                    (ticks - 1) * d < n * 120,
                    n <= 0,
                    d > 0,
            ;
        }
    }
}

} // verus!
