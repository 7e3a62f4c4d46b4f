//! Repository time and canonical ticks.

use vstd::arithmetic::div_mod::*;
use vstd::prelude::*;

use crate::rational;
use crate::rational::{RationalTime, ReplayError, ReplayErrorView};

verus! {

/// Canonical ticks in a second of wall-clock time.
pub const SIMULATION_HZ: u64 = 120;

/// Nanoseconds in a second.
pub const NANOS_PER_SECOND: u128 = 1_000_000_000;

/// The reduced product of two rationals, where it and the steps to it fit.
pub open spec fn exact_product(a: RationalTime, b: RationalTime) -> Option<RationalTime> {
    match (a.reduction(), b.reduction()) {
        (Some(left), Some(right)) => {
            let product = (
                left.numerator * right.numerator,
                left.denominator * right.denominator,
            );
            if rational::fits(product) {
                RationalTime {
                    numerator: product.0 as i128,
                    denominator: product.1 as i128,
                }.reduction()
            } else {
                None
            }
        },
        _ => None,
    }
}

/// A product has exactly the value of its parts multiplied.
pub proof fn products_are_exact(a: RationalTime, b: RationalTime)
    requires
        exact_product(a, b) is Some,
    ensures
        a.denominator != 0,
        b.denominator != 0,
        ({
            let product = exact_product(a, b)->0;
            product.numerator * (a.denominator * b.denominator) == (a.numerator * b.numerator)
                * product.denominator
        }),
{
    let left = a.reduction()->0;
    let right = b.reduction()->0;
    let product = exact_product(a, b)->0;
    rational::lowest_terms_keep_the_value(a.numerator as int, a.denominator as int);
    rational::lowest_terms_keep_the_value(b.numerator as int, b.denominator as int);
    let (n, d) = a.pair();
    let (m, e) = b.pair();
    let (p, q) = left.pair();
    let (r, s) = right.pair();
    let top = p * r;
    let bottom = q * s;
    assert(bottom > 0) by (nonlinear_arith)
        requires
            bottom == q * s,
            q > 0,
            s > 0,
    ;
    rational::lowest_terms_keep_the_value(top, bottom);
    let (x, y) = product.pair();
    let first = p * d;
    let second = r * e;
    assert(top * (d * e) == first * second) by (nonlinear_arith)
        requires
            top == p * r,
            first == p * d,
            second == r * e,
    ;
    assert(first * second == (n * m) * bottom) by (nonlinear_arith)
        requires
            first == n * q,
            second == m * s,
            bottom == q * s,
    ;
    let f = d * e;
    let k = n * m;
    assert(x * f == k * y) by (nonlinear_arith)
        requires
            x * bottom == top * y,
            top * f == k * bottom,
            bottom > 0,
    {
        assert((x * f) * bottom == (x * bottom) * f);
        assert((top * y) * f == (top * f) * y);
        assert((k * bottom) * y == (k * y) * bottom);
        assert((x * f) * bottom == (k * y) * bottom);
    }
}

/// Multiplies exactly.
pub fn checked_mul(a: RationalTime, b: RationalTime) -> (result: Result<RationalTime, ReplayError>)
    ensures
        match result {
            Ok(time) => exact_product(a, b) == Some(time) && time.is_reduced(),
            Err(e) => exact_product(a, b) is None && e@ == ReplayErrorView::RationalTimeOutOfRange,
        },
{
    let left = match a.reduced() {
        Ok(left) => left,
        Err(e) => return Err(e),
    };
    let right = match b.reduced() {
        Ok(right) => right,
        Err(e) => return Err(e),
    };
    let numerator: i128 = match left.numerator.checked_mul(right.numerator) {
        Some(value) => value,
        None => return Err(ReplayError::RationalTimeOutOfRange),
    };
    let denominator: i128 = match left.denominator.checked_mul(right.denominator) {
        Some(value) => value,
        None => return Err(ReplayError::RationalTimeOutOfRange),
    };
    RationalTime::new(numerator, denominator).reduced()
}

/// The opposite of a rational, where it fits.
pub open spec fn opposite(a: RationalTime) -> Option<RationalTime> {
    if a.numerator == i128::MIN {
        None
    } else {
        RationalTime { numerator: (-a.numerator) as i128, denominator: a.denominator }.reduction()
    }
}

fn checked_neg(a: RationalTime) -> (result: Result<RationalTime, ReplayError>)
    ensures
        match result {
            Ok(time) => opposite(a) == Some(time) && time.is_reduced(),
            Err(_) => opposite(a) is None,
        },
{
    if a.numerator == i128::MIN {
        return Err(ReplayError::RationalTimeOutOfRange);
    }
    RationalTime::new(-a.numerator, a.denominator).reduced()
}

/// A whole number of seconds.
pub open spec fn whole(seconds: i64) -> RationalTime {
    RationalTime { numerator: seconds as i128, denominator: 1 }
}

/// The position of a replay in repository time.
#[derive(Clone, Copy, Debug, PartialEq, Eq, Structural)]
pub struct PlaybackClock {
    /// Where the history starts.
    pub start_timestamp: i64,
    /// Repository seconds in a second of wall-clock time.
    pub repository_rate: RationalTime,
    /// The repository time now.
    pub repository_time: RationalTime,
}

/// The repository time that passes in a tick.
pub open spec fn time_per_tick(rate: RationalTime) -> Option<RationalTime> {
    exact_product(rate, RationalTime { numerator: 1, denominator: SIMULATION_HZ as i128 })
}

/// The offset from the start that lies one tick before a target, where it and
/// the steps to it fit.
pub open spec fn offset_before(clock: PlaybackClock, target: RationalTime) -> Option<RationalTime> {
    match time_per_tick(clock.repository_rate) {
        None => None,
        Some(tick) => match opposite(tick) {
            None => None,
            Some(back) => match rational::exact_sum(target, back) {
                None => None,
                Some(current) => match opposite(whole(clock.start_timestamp)) {
                    None => None,
                    Some(start) => rational::exact_sum(current, start),
                },
            },
        },
    }
}

/// The offset from the start at a target.
pub open spec fn offset_at(clock: PlaybackClock, target: RationalTime) -> Option<RationalTime> {
    match (offset_before(clock, target), time_per_tick(clock.repository_rate)) {
        (Some(offset), Some(tick)) => rational::exact_sum(offset, tick),
        _ => None,
    }
}

/// A clock that reaches a target arrives exactly there: the offset that it
/// counts from the start has the value of the target less the start.
pub proof fn a_jump_lands_on_its_target(clock: PlaybackClock, target: RationalTime)
    requires
        offset_at(clock, target) is Some,
    ensures
        ({
            let offset = offset_at(clock, target)->0;
            &&& target.denominator != 0
            &&& offset.numerator * target.denominator == (target.numerator - clock.start_timestamp
                * target.denominator) * offset.denominator
        }),
{
    let tick = time_per_tick(clock.repository_rate)->0;
    let back = opposite(tick)->0;
    let current = rational::exact_sum(target, back)->0;
    let minus_start = opposite(whole(clock.start_timestamp))->0;
    let before = rational::exact_sum(current, minus_start)->0;
    let offset = offset_at(clock, target)->0;
    products_are_exact(
        clock.repository_rate,
        RationalTime { numerator: 1, denominator: SIMULATION_HZ as i128 },
    );
    reduction_keeps_value(
        RationalTime { numerator: (-tick.numerator) as i128, denominator: tick.denominator },
    );
    reduction_keeps_value(
        RationalTime { numerator: (-clock.start_timestamp) as i128, denominator: 1 },
    );
    rational::sums_are_exact(target, back);
    rational::sums_are_exact(current, minus_start);
    rational::sums_are_exact(before, tick);
    sum_is_reduced(target, back);
    sum_is_reduced(current, minus_start);
    sum_is_reduced(before, tick);
    let (n, d) = target.pair();
    let (t, u) = tick.pair();
    let (bn, bd) = back.pair();
    let (cn, cd) = current.pair();
    let (sn, sd) = minus_start.pair();
    let (fn_, fd) = before.pair();
    let (on, od) = offset.pair();
    let start = clock.start_timestamp as int;
    product_is_reduced(
        clock.repository_rate,
        RationalTime { numerator: 1, denominator: SIMULATION_HZ as i128 },
    );
    assert(bn * u == -t * bd);
    assert(sn * 1 == -start * sd);
    chain_of_sums(n, d, t, u, bn, bd, cn, cd, start, sn, sd, fn_, fd, on, od);
}

pub proof fn reduction_keeps_value(a: RationalTime)
    requires
        a.reduction() is Some,
    ensures
        a.denominator != 0,
        (a.reduction()->0).denominator > 0,
        (a.reduction()->0).numerator * a.denominator == a.numerator * (a.reduction()->0).denominator,
{
    rational::lowest_terms_keep_the_value(a.numerator as int, a.denominator as int);
}

pub proof fn sum_is_reduced(a: RationalTime, b: RationalTime)
    requires
        rational::exact_sum(a, b) is Some,
    ensures
        (rational::exact_sum(a, b)->0).denominator > 0,
{
    let left = a.reduction()->0;
    let right = b.reduction()->0;
    let sum = rational::sum_of(left.pair(), right.pair());
    reduction_keeps_value(
        RationalTime { numerator: sum.0 as i128, denominator: sum.1 as i128 },
    );
}

pub proof fn product_is_reduced(a: RationalTime, b: RationalTime)
    requires
        exact_product(a, b) is Some,
    ensures
        (exact_product(a, b)->0).denominator > 0,
{
    let left = a.reduction()->0;
    let right = b.reduction()->0;
    reduction_keeps_value(
        RationalTime {
            numerator: (left.numerator * right.numerator) as i128,
            denominator: (left.denominator * right.denominator) as i128,
        },
    );
}

/// Adding and taking away one tick leaves the difference to the start.
proof fn chain_of_sums(
    n: int,
    d: int,
    t: int,
    u: int,
    bn: int,
    bd: int,
    cn: int,
    cd: int,
    start: int,
    sn: int,
    sd: int,
    fn_: int,
    fd: int,
    on: int,
    od: int,
)
    requires
        d != 0,
        u > 0,
        bd > 0,
        cd > 0,
        sd > 0,
        fd > 0,
        od > 0,
        bn * u == -t * bd,
        cn * (d * bd) == (n * bd + bn * d) * cd,
        sn * 1 == -start * sd,
        fn_ * (cd * sd) == (cn * sd + sn * cd) * fd,
        on * (fd * u) == (fn_ * u + t * fd) * od,
    ensures
        on * d == (n - start * d) * od,
{
    // The tick is taken away: cn / cd == n / d - t / u.
    assert(cn * (d * u) == (n * u - t * d) * cd) by {
        let x = cn * (d * u);
        let y = (n * u - t * d) * cd;
        assert(x * bd == y * bd) by {
            assert(x * bd == (cn * (d * bd)) * u) by (nonlinear_arith)
                requires
                    x == cn * (d * u),
            ;
            let whole = cn * (d * bd);
            let part = n * bd + bn * d;
            assert(whole * u == (part * u) * cd) by (nonlinear_arith)
                requires
                    whole == part * cd,
            ;
            let shift = bn * u;
            assert(part * u == (n * u) * bd + shift * d) by (nonlinear_arith)
                requires
                    part == n * bd + bn * d,
                    shift == bn * u,
            ;
            assert(shift * d == -(t * d) * bd) by (nonlinear_arith)
                requires
                    shift == -t * bd,
            ;
            let left = n * u;
            let right = t * d;
            assert((part * u) * cd == y * bd) by (nonlinear_arith)
                requires
                    part * u == left * bd + -right * bd,
                    y == (left - right) * cd,
            ;
        }
        vstd::arithmetic::mul::lemma_mul_equality_converse(bd, x, y);
    }
    // The start is taken away: fn_ / fd == cn / cd - start.
    assert(fn_ * cd == (cn - start * cd) * fd) by {
        let x = fn_ * cd;
        let y = (cn - start * cd) * fd;
        assert(x * sd == y * sd) by {
            assert(x * sd == fn_ * (cd * sd)) by (nonlinear_arith)
                requires
                    x == fn_ * cd,
            ;
            let part = cn * sd + sn * cd;
            assert(part == (cn - start * cd) * sd) by (nonlinear_arith)
                requires
                    part == cn * sd + sn * cd,
                    sn == -start * sd,
            ;
            let rest = cn - start * cd;
            assert(part * fd == y * sd) by (nonlinear_arith)
                requires
                    part == rest * sd,
                    y == rest * fd,
            ;
        }
        vstd::arithmetic::mul::lemma_mul_equality_converse(sd, x, y);
    }
    // The tick is put back: on / od == fn_ / fd + t / u.
    assert(on * d == (n - start * d) * od) by {
        let x = on * d;
        let y = (n - start * d) * od;
        let k = fd * u * cd;
        assert(x * k == y * k) by {
            let a = on * (fd * u);
            assert(x * k == a * (d * cd)) by (nonlinear_arith)
                requires
                    x == on * d,
                    k == fd * u * cd,
                    a == on * (fd * u),
            ;
            let b = fn_ * u + t * fd;
            assert(a * (d * cd) == (b * (d * cd)) * od) by (nonlinear_arith)
                requires
                    a == b * od,
            ;
            let g = fn_ * cd;
            vstd::arithmetic::mul::lemma_mul_is_distributive_add_other_way(
                d * cd,
                fn_ * u,
                t * fd,
            );
            assert((fn_ * u) * (d * cd) == g * (u * d)) by (nonlinear_arith)
                requires
                    g == fn_ * cd,
            ;
            assert((t * fd) * (d * cd) == (t * d) * (fd * cd)) by (nonlinear_arith);
            let rest = cn - start * cd;
            assert(g * (u * d) == (rest * (d * u)) * fd) by (nonlinear_arith)
                requires
                    g == rest * fd,
            ;
            let h = cn * (d * u);
            assert(rest * (d * u) == h - (start * cd) * (d * u)) by (nonlinear_arith)
                requires
                    rest == cn - start * cd,
                    h == cn * (d * u),
            ;
            let v = n * u - t * d;
            assert(h - (start * cd) * (d * u) == (n * u - t * d - start * d * u) * cd)
                by (nonlinear_arith)
                requires
                    h == v * cd,
                    v == n * u - t * d,
            ;
            let w = (n - start * d) * u;
            assert(n * u - t * d - start * d * u == w - t * d) by (nonlinear_arith)
                requires
                    w == (n - start * d) * u,
            ;
            let td = t * d;
            assert(b * (d * cd) == w * (cd * fd)) by (nonlinear_arith)
                requires
                    b * (d * cd) == ((w - td) * cd) * fd + td * (fd * cd),
            ;
            assert((w * (cd * fd)) * od == y * k) by (nonlinear_arith)
                requires
                    w == (n - start * d) * u,
                    y == (n - start * d) * od,
                    k == fd * u * cd,
            ;
        }
        assert(k > 0) by (nonlinear_arith)
            requires
                k == fd * u * cd,
                fd > 0,
                u > 0,
                cd > 0,
        ;
        vstd::arithmetic::mul::lemma_mul_equality_converse(k, x, y);
    }
}

fn overflow() -> (error: ReplayError)
    ensures
        error@ == ReplayErrorView::InvalidConfig("clock overflow"@),
{
    ReplayError::InvalidConfig("clock overflow")
}

/// Why a time at a tick cannot be had, or the time.
pub open spec fn time_at(clock: PlaybackClock, now: u64, tick: u64) -> Result<
    RationalTime,
    ReplayErrorView,
> {
    let rate = clock.repository_rate;
    if tick == now {
        Ok(clock.repository_time)
    } else if !rational::fits(
        (rate.denominator * SIMULATION_HZ, rate.numerator * (tick - now)),
    ) {
        Err(ReplayErrorView::RepositoryTimeOverflow)
    } else {
        let elapsed = RationalTime {
            numerator: (rate.numerator * (tick - now)) as i128,
            denominator: (rate.denominator * SIMULATION_HZ) as i128,
        };
        match elapsed.reduction() {
            None => Err(ReplayErrorView::RationalTimeOutOfRange),
            Some(elapsed) => match rational::exact_sum(clock.repository_time, elapsed) {
                None => Err(ReplayErrorView::RationalTimeOutOfRange),
                Some(time) => Ok(time),
            },
        }
    }
}

/// Of two times with positive denominators, the first is not after the second.
pub open spec fn not_after(a: RationalTime, b: RationalTime) -> bool {
    &&& b.denominator > 0
    &&& a.numerator * b.denominator <= b.numerator * a.denominator
}

/// Time does not run backwards: where the rate is not negative, no later tick
/// has an earlier time.
pub proof fn later_ticks_are_not_earlier(clock: PlaybackClock, now: u64, tick: u64)
    requires
        clock.wf(),
        clock.repository_rate.numerator >= 0,
        clock.repository_rate.denominator > 0,
        now <= tick,
        time_at(clock, now, tick) is Ok,
    ensures
        not_after(clock.repository_time, time_at(clock, now, tick)->Ok_0),
{
    if tick != now {
        let time = clock.repository_time;
        let rate = clock.repository_rate;
        let passed = RationalTime {
            numerator: (rate.numerator * (tick - now)) as i128,
            denominator: (rate.denominator * SIMULATION_HZ) as i128,
        };
        let elapsed = passed.reduction()->0;
        let sum = time_at(clock, now, tick)->Ok_0;
        rational::lowest_terms_keep_the_value(
            passed.numerator as int,
            passed.denominator as int,
        );
        rational::sums_are_exact(time, elapsed);
        let left = time.reduction()->0;
        let right = elapsed.reduction()->0;
        let parts = rational::sum_of(left.pair(), right.pair());
        rational::lowest_terms_keep_the_value(left.numerator as int, left.denominator as int);
        rational::lowest_terms_keep_the_value(time.numerator as int, time.denominator as int);
        rational::lowest_terms_keep_the_value(elapsed.numerator as int, elapsed.denominator as int);
        assert(parts.1 > 0) by (nonlinear_arith)
            requires
                parts.1 == left.denominator * right.denominator,
                left.denominator > 0,
                right.denominator > 0,
        ;
        rational::lowest_terms_keep_the_value(parts.0, parts.1);
        let en = elapsed.numerator as int;
        let ed = elapsed.denominator as int;
        let pn = passed.numerator as int;
        let pd = passed.denominator as int;
        assert(pn >= 0) by (nonlinear_arith)
            requires
                pn == rate.numerator * (tick - now),
                rate.numerator >= 0,
                tick >= now,
        ;
        assert(pd > 0);
        assert(en >= 0) by (nonlinear_arith)
            requires
                en * pd == pn * ed,
                pn >= 0,
                pd > 0,
                ed > 0,
        ;
        let tn = time.numerator as int;
        let td = time.denominator as int;
        let sn = sum.numerator as int;
        let sd = sum.denominator as int;
        let gained = en * td * sd;
        assert(gained >= 0) by (nonlinear_arith)
            requires
                gained == en * td * sd,
                en >= 0,
                td > 0,
                sd > 0,
        ;
        let a = sn * td;
        let b = tn * sd;
        assert(ed * a == ed * b + gained) by (nonlinear_arith)
            requires
                sn * (td * ed) == (tn * ed + en * td) * sd,
                a == sn * td,
                b == tn * sd,
                gained == en * td * sd,
        ;
        assert(a >= b) by (nonlinear_arith)
            requires
                ed * a == ed * b + gained,
                gained >= 0,
                ed > 0,
        ;
    }
}

/// The tick of a repository time, counted from the start and rounded down.
pub open spec fn tick_of(clock: PlaybackClock, target: RationalTime) -> Result<u64, ReplayErrorView> {
    let rate = clock.repository_rate;
    match target.reduction() {
        None => Err(ReplayErrorView::RationalTimeOutOfRange),
        Some(target) => {
            let origin = clock.start_timestamp * target.denominator;
            let elapsed = target.numerator - origin;
            let numerator = elapsed * rate.denominator * SIMULATION_HZ;
            let denominator = target.denominator * rate.numerator;
            if rate.numerator <= 0 || rate.denominator <= 0 {
                Err(ReplayErrorView::RepositoryTimeOverflow)
            } else if !rational::fits((origin, elapsed)) {
                Err(ReplayErrorView::RepositoryTimeOverflow)
            } else if elapsed <= 0 {
                Ok(0)
            } else if !rational::fits((elapsed * rate.denominator, numerator))
                || !rational::fits((denominator, 0)) {
                Err(ReplayErrorView::RepositoryTimeOverflow)
            } else if numerator / denominator > u64::MAX {
                Err(ReplayErrorView::RepositoryTimeOverflow)
            } else {
                Ok((numerator / denominator) as u64)
            }
        },
    }
}

/// A repository time after the start belongs to the last tick that is not
/// after it: in the unit of one over all denominators, that tick is at or
/// before the target and the next one is after it.
pub proof fn seeking_rounds_down_to_a_tick(clock: PlaybackClock, target: RationalTime)
    requires
        tick_of(clock, target) is Ok,
    ensures
        ({
            let tick = (tick_of(clock, target)->Ok_0) as int;
            let goal = target.reduction()->0;
            let elapsed = goal.numerator - clock.start_timestamp * goal.denominator;
            let rate = clock.repository_rate;
            let unit = goal.denominator * rate.numerator;
            &&& elapsed <= 0 ==> tick == 0
            &&& elapsed > 0 ==> tick * unit <= elapsed * rate.denominator * SIMULATION_HZ < (tick
                + 1) * unit
        }),
{
    let goal = target.reduction()->0;
    let rate = clock.repository_rate;
    let elapsed = goal.numerator - clock.start_timestamp * goal.denominator;
    reduction_keeps_value(target);
    if elapsed > 0 {
        let numerator = elapsed * rate.denominator * SIMULATION_HZ;
        let denominator = goal.denominator * rate.numerator;
        assert(denominator > 0) by (nonlinear_arith)
            requires
                denominator == goal.denominator * rate.numerator,
                goal.denominator > 0,
                rate.numerator > 0,
        ;
        lemma_fundamental_div_mod(numerator, denominator);
        lemma_mod_bound(numerator, denominator);
        let q = numerator / denominator;
        let r = numerator % denominator;
        assert(q * denominator <= numerator < (q + 1) * denominator) by (nonlinear_arith)
            requires
                numerator == denominator * q + r,
                0 <= r < denominator,
        ;
    }
}

impl PlaybackClock {
    /// The clock can tell times.
    pub open spec fn wf(&self) -> bool {
        self.repository_time.is_reduced()
    }

    /// A clock at the start of a history.
    pub fn at_start(start_timestamp: i64, repository_rate: RationalTime) -> (clock: Self)
        ensures
            clock.wf(),
            clock == (PlaybackClock {
                start_timestamp,
                repository_rate,
                repository_time: whole(start_timestamp),
            }),
    {
        proof {
            whole_is_reduced(start_timestamp as int);
        }
        PlaybackClock {
            start_timestamp,
            repository_rate,
            repository_time: RationalTime::new(start_timestamp as i128, 1),
        }
    }

    /// The repository time at a tick, when the clock stands at another.
    pub fn repository_time_at(&self, now: u64, tick: u64) -> (result: Result<
        RationalTime,
        ReplayError,
    >)
        requires
            self.wf(),
        ensures
            match result {
                Ok(time) => time_at(*self, now, tick) == Ok::<RationalTime, ReplayErrorView>(time)
                    && time.is_reduced(),
                Err(e) => time_at(*self, now, tick) == Err::<RationalTime, ReplayErrorView>(e@),
            },
    {
        if tick == now {
            return Ok(self.repository_time);
        }
        let rate = self.repository_rate;
        let delta: i128 = tick as i128 - now as i128;
        let denominator: i128 = match rate.denominator.checked_mul(SIMULATION_HZ as i128) {
            Some(value) => value,
            None => return Err(ReplayError::RepositoryTimeOverflow),
        };
        let numerator: i128 = match rate.numerator.checked_mul(delta) {
            Some(value) => value,
            None => return Err(ReplayError::RepositoryTimeOverflow),
        };
        match RationalTime::new(numerator, denominator).reduced() {
            Ok(elapsed) => self.repository_time.checked_add(elapsed),
            Err(e) => Err(e),
        }
    }

    /// The tick that a repository time belongs to.
    pub fn ticks_for_repository_time(&self, target: RationalTime) -> (result: Result<
        u64,
        ReplayError,
    >)
        ensures
            match result {
                Ok(tick) => tick_of(*self, target) == Ok::<u64, ReplayErrorView>(tick),
                Err(e) => tick_of(*self, target) == Err::<u64, ReplayErrorView>(e@),
            },
    {
        let target = match target.reduced() {
            Ok(target) => target,
            Err(e) => return Err(e),
        };
        let rate = self.repository_rate;
        if rate.numerator <= 0 || rate.denominator <= 0 {
            return Err(ReplayError::RepositoryTimeOverflow);
        }
        let origin: i128 = match (self.start_timestamp as i128).checked_mul(target.denominator) {
            Some(value) => value,
            None => return Err(ReplayError::RepositoryTimeOverflow),
        };
        let elapsed: i128 = match target.numerator.checked_sub(origin) {
            Some(value) => value,
            None => return Err(ReplayError::RepositoryTimeOverflow),
        };
        if elapsed <= 0 {
            return Ok(0);
        }
        let scaled: i128 = match elapsed.checked_mul(rate.denominator) {
            Some(value) => value,
            None => return Err(ReplayError::RepositoryTimeOverflow),
        };
        let numerator: i128 = match scaled.checked_mul(SIMULATION_HZ as i128) {
            Some(value) => value,
            None => return Err(ReplayError::RepositoryTimeOverflow),
        };
        let denominator: i128 = match target.denominator.checked_mul(rate.numerator) {
            Some(value) => value,
            None => return Err(ReplayError::RepositoryTimeOverflow),
        };
        proof {
            assert(scaled > 0) by (nonlinear_arith)
                requires
                    scaled == elapsed * rate.denominator,
                    elapsed > 0,
                    rate.denominator > 0,
            ;
            assert(denominator > 0) by (nonlinear_arith)
                requires
                    denominator == target.denominator * rate.numerator,
                    target.denominator > 0,
                    rate.numerator > 0,
            ;
            lemma_div_pos_is_pos(numerator as int, denominator as int);
        }
        let ticks: i128 = numerator / denominator;
        if ticks > u64::MAX as i128 {
            return Err(ReplayError::RepositoryTimeOverflow);
        }
        Ok(ticks as u64)
    }

    /// Moves the clock to a target, counting its offset from the start anew.
    pub fn jump_clock_to(&mut self, target: RationalTime) -> (result: Result<(), ReplayError>)
        requires
            old(self).wf(),
            target.is_reduced(),
        ensures
            final(self).wf(),
            match result {
                Ok(()) => offset_at(*old(self), target) is Some && *final(self) == (PlaybackClock {
                    repository_time: target,
                    ..*old(self)
                }),
                Err(e) => {
                    &&& offset_at(*old(self), target) is None
                    &&& *final(self) == *old(self)
                    &&& e@ == ReplayErrorView::InvalidConfig("clock overflow"@)
                },
            },
    {
        let tick = match checked_mul(
            self.repository_rate,
            RationalTime::new(1, SIMULATION_HZ as i128),
        ) {
            Ok(tick) => tick,
            Err(_) => return Err(overflow()),
        };
        let back = match checked_neg(tick) {
            Ok(back) => back,
            Err(_) => return Err(overflow()),
        };
        let current = match target.checked_add(back) {
            Ok(current) => current,
            Err(_) => return Err(overflow()),
        };
        let start = match checked_neg(RationalTime::new(self.start_timestamp as i128, 1)) {
            Ok(start) => start,
            Err(_) => return Err(overflow()),
        };
        let offset = match current.checked_add(start) {
            Ok(offset) => offset,
            Err(_) => return Err(overflow()),
        };
        match offset.checked_add(tick) {
            Ok(_) => {},
            Err(_) => return Err(overflow()),
        }
        self.repository_time = target;
        Ok(())
    }
}

pub proof fn whole_is_reduced(n: int)
    ensures
        rational::lowest(n, 1) == (n, 1int),
{
    rational::gcd_is_greatest_common_divisor(rational::magnitude(n), 1);
    let g = rational::gcd(rational::magnitude(n), 1);
    if g > 1 {
        lemma_small_mod(1, g as nat);
    }
    assert(g == 1);
    assert(rational::magnitude(n) / 1 == rational::magnitude(n));
}

/// Whole ticks in an elapsed wall-clock time and what is left over, in
/// nanoseconds times ticks per second.
pub open spec fn wall_ticks(remainder: u128, nanos: u128) -> (u64, u128) {
    let product = nanos * SIMULATION_HZ;
    let scaled = remainder + if product > u128::MAX {
        u128::MAX as int
    } else {
        product
    };
    let total = if scaled > u128::MAX {
        u128::MAX as int
    } else {
        scaled
    };
    (((total / NANOS_PER_SECOND as int) % 0x1_0000_0000_0000_0000) as u64, (total % NANOS_PER_SECOND as int) as u128)
}

/// Splits elapsed wall-clock time into whole ticks and a remainder.
pub fn split_wall_time(remainder: u128, nanos: u128) -> (split: (u64, u128))
    ensures
        split == wall_ticks(remainder, nanos),
        split.1 < NANOS_PER_SECOND,
{
    let product: u128 = match nanos.checked_mul(SIMULATION_HZ as u128) {
        Some(product) => product,
        None => u128::MAX,
    };
    let scaled: u128 = remainder.saturating_add(product);
    let ticks: u128 = scaled / NANOS_PER_SECOND;
    let kept: u64 = (ticks % 0x1_0000_0000_0000_0000) as u64;
    (kept, scaled % NANOS_PER_SECOND)
}

/// How wall-clock time is cut into calls does not change the ticks or the
/// remainder.
pub proof fn cadence_does_not_matter(remainder: u128, first: u128, second: u128)
    requires
        remainder < NANOS_PER_SECOND,
        (first + second) * SIMULATION_HZ + remainder < 0x1_0000_0000_0000_0000 * NANOS_PER_SECOND,
    ensures
        ({
            let one = wall_ticks(remainder, first);
            let two = wall_ticks(one.1, second);
            let both = wall_ticks(remainder, (first + second) as u128);
            &&& both.0 == one.0 + two.0
            &&& both.1 == two.1
        }),
{
    let a = remainder + first * SIMULATION_HZ;
    let s = NANOS_PER_SECOND as int;
    let b = a % s + second * SIMULATION_HZ;
    let c = remainder + (first + second) * SIMULATION_HZ;
    assert(a + second * SIMULATION_HZ == c) by (nonlinear_arith)
        requires
            a == remainder + first * SIMULATION_HZ,
            c == remainder + (first + second) * SIMULATION_HZ,
    ;
    lemma_fundamental_div_mod(a, s);
    lemma_fundamental_div_mod(b, s);
    assert(c == s * (a / s + b / s) + b % s) by (nonlinear_arith)
        requires
            a == s * (a / s) + a % s,
            b == s * (b / s) + b % s,
            b == a % s + second * SIMULATION_HZ,
            c == a + second * SIMULATION_HZ,
    ;
    lemma_mod_bound(b, s);
    lemma_mod_bound(a, s);
    assert(a % s <= a) by (nonlinear_arith)
        requires
            a >= 0,
            s == 1_000_000_000,
    ;
    lemma_fundamental_div_mod_converse(c, s, a / s + b / s, b % s);
    assert(first * SIMULATION_HZ <= c && second * SIMULATION_HZ <= c && a <= c && b <= c)
        by (nonlinear_arith)
        requires
            a == remainder + first * SIMULATION_HZ,
            c == remainder + (first + second) * SIMULATION_HZ,
            b == a % s + second * SIMULATION_HZ,
            0 <= a % s <= a,
    ;
    assert(0 <= a / s && 0 <= b / s && c / s < 0x1_0000_0000_0000_0000) by (nonlinear_arith)
        requires
            a >= 0,
            b >= 0,
            s == 1_000_000_000,
            c < 0x1_0000_0000_0000_0000 * s,
    ;
    lemma_small_mod((a / s) as nat, 0x1_0000_0000_0000_0000);
    lemma_small_mod((b / s) as nat, 0x1_0000_0000_0000_0000);
    lemma_small_mod((c / s) as nat, 0x1_0000_0000_0000_0000);
}

/// The ticks of idleness after which a replay skips ahead.
pub open spec fn skip_threshold(seconds: RationalTime) -> Option<u64> {
    match exact_product(seconds, RationalTime { numerator: SIMULATION_HZ as i128, denominator: 1 }) {
        None => None,
        Some(scaled) => {
            let ticks = -((-scaled.numerator) / scaled.denominator as int);
            if 0 < ticks <= u64::MAX {
                Some(ticks as u64)
            } else {
                None
            }
        },
    }
}

/// Rounds seconds of idleness up to whole ticks; no ticks mean that nothing is
/// skipped.
pub fn auto_skip_ticks(seconds: RationalTime) -> (ticks: Option<u64>)
    ensures
        ticks == skip_threshold(seconds),
{
    let scaled = match checked_mul(seconds, RationalTime::new(SIMULATION_HZ as i128, 1)) {
        Ok(scaled) => scaled,
        Err(_) => return None,
    };
    let ghost n = scaled.numerator as int;
    let ghost d = scaled.denominator as int;
    if scaled.numerator <= 0 {
        proof {
            lemma_fundamental_div_mod(-n, d);
            lemma_mod_bound(-n, d);
            let q = (-n) / d;
            assert(q >= 0) by (nonlinear_arith)
                requires
                    -n == d * q + (-n) % d,
                    0 <= (-n) % d < d,
                    n <= 0,
            ;
        }
        return None;
    }
    let ticks: i128 = (scaled.numerator - 1) / scaled.denominator;
    proof {
        // The ceiling of a positive ratio.
        lemma_fundamental_div_mod(n - 1, d);
        lemma_mod_bound(n - 1, d);
        let q = (n - 1) / d;
        let r = (n - 1) % d;
        assert(-n == (-q - 1) * d + (d - 1 - r)) by (nonlinear_arith)
            requires
                n - 1 == d * q + r,
        ;
        lemma_fundamental_div_mod_converse(-n, d, -q - 1, d - 1 - r);
        assert(0 <= q <= n - 1) by (nonlinear_arith)
            requires
                n - 1 == d * q + r,
                0 <= r < d,
                n >= 1,
        ;
    }
    if ticks >= u64::MAX as i128 {
        None
    } else {
        Some((ticks + 1) as u64)
    }
}

} // verus!
