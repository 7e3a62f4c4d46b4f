//! Exact rational time.

use vstd::arithmetic::div_mod::*;
use vstd::arithmetic::mul::*;
use vstd::prelude::*;

verus! {

/// What keeps a replay from being published.
#[derive(Clone, Debug, PartialEq, Eq)]
pub enum ReplayError {
    InvalidConfig(&'static str),
    CheckpointIdentityMismatch,
    CheckpointGenerationMismatch,
    /// A rational has no form with an `i128` numerator and a positive `i128`
    /// denominator.
    RationalTimeOutOfRange,
    /// A repository time belongs to no `u64` tick.
    RepositoryTimeOverflow,
    /// The world refused an event.
    World(String),
    Cancelled,
    WorkBudgetExhausted,
}

/// What a replay error says.
#[verifier::ext_equal]
pub enum ReplayErrorView {
    InvalidConfig(Seq<char>),
    CheckpointIdentityMismatch,
    CheckpointGenerationMismatch,
    RationalTimeOutOfRange,
    RepositoryTimeOverflow,
    World(Seq<char>),
    Cancelled,
    WorkBudgetExhausted,
}

impl View for ReplayError {
    type V = ReplayErrorView;

    open spec fn view(&self) -> ReplayErrorView {
        match self {
            ReplayError::InvalidConfig(text) => ReplayErrorView::InvalidConfig(text@),
            ReplayError::CheckpointIdentityMismatch => ReplayErrorView::CheckpointIdentityMismatch,
            ReplayError::CheckpointGenerationMismatch =>
                ReplayErrorView::CheckpointGenerationMismatch,
            ReplayError::RationalTimeOutOfRange => ReplayErrorView::RationalTimeOutOfRange,
            ReplayError::RepositoryTimeOverflow => ReplayErrorView::RepositoryTimeOverflow,
            ReplayError::World(text) => ReplayErrorView::World(text@),
            ReplayError::Cancelled => ReplayErrorView::Cancelled,
            ReplayError::WorkBudgetExhausted => ReplayErrorView::WorkBudgetExhausted,
        }
    }
}

/// The text of a replay error.
pub open spec fn replay_error_text(e: ReplayErrorView) -> Seq<char> {
    match e {
        ReplayErrorView::InvalidConfig(text) => "invalid replay config: "@ + text,
        ReplayErrorView::CheckpointIdentityMismatch => "checkpoint identity mismatch"@,
        ReplayErrorView::CheckpointGenerationMismatch => "checkpoint generation mismatch"@,
        ReplayErrorView::RationalTimeOutOfRange =>
            "rational time is outside the representable range"@,
        ReplayErrorView::RepositoryTimeOverflow =>
            "repository time exceeds the representable tick range"@,
        ReplayErrorView::World(text) => "world transition failed: "@ + text,
        ReplayErrorView::Cancelled => "replay cancelled"@,
        ReplayErrorView::WorkBudgetExhausted => "replay work budget exhausted"@,
    }
}

impl ReplayError {
    /// The error as text.
    pub fn render(&self) -> (text: String)
        ensures
            text@ == replay_error_text(self@),
    {
        match self {
            ReplayError::InvalidConfig(text) => {
                let mut out = "invalid replay config: ".to_owned();
                out.append(text);
                out
            },
            ReplayError::CheckpointIdentityMismatch => "checkpoint identity mismatch".to_owned(),
            ReplayError::CheckpointGenerationMismatch => "checkpoint generation mismatch".to_owned(),
            ReplayError::RationalTimeOutOfRange =>
                "rational time is outside the representable range".to_owned(),
            ReplayError::RepositoryTimeOverflow =>
                "repository time exceeds the representable tick range".to_owned(),
            ReplayError::World(text) => {
                let mut out = "world transition failed: ".to_owned();
                out.append(text.as_str());
                out
            },
            ReplayError::Cancelled => "replay cancelled".to_owned(),
            ReplayError::WorkBudgetExhausted => "replay work budget exhausted".to_owned(),
        }
    }
}

/// The greatest common divisor, where one of the numbers is positive.
pub open spec fn gcd(a: int, b: int) -> int
    decreases b,
{
    if b <= 0 {
        a
    } else {
        gcd(b, a % b)
    }
}

pub open spec fn magnitude(n: int) -> int {
    if n < 0 {
        -n
    } else {
        n
    }
}

/// The numerator and denominator of a rational in lowest terms, with a
/// positive denominator.
pub open spec fn lowest(n: int, d: int) -> (int, int) {
    let divisor = gcd(magnitude(n), magnitude(d));
    let p = magnitude(n) / divisor;
    (
        if (n < 0) != (d < 0) {
            -p
        } else {
            p
        },
        magnitude(d) / divisor,
    )
}

/// Both parts fit.
pub open spec fn fits(pair: (int, int)) -> bool {
    i128::MIN <= pair.0 <= i128::MAX && i128::MIN <= pair.1 <= i128::MAX
}

/// The sum of two rationals, not reduced.
pub open spec fn sum_of(a: (int, int), b: (int, int)) -> (int, int) {
    (a.0 * b.1 + b.0 * a.1, a.1 * b.1)
}

/// The greatest common divisor divides both numbers and is the largest that
/// does.
pub proof fn gcd_is_greatest_common_divisor(a: int, b: int)
    requires
        a >= 0,
        b >= 0,
        a > 0 || b > 0,
    ensures
        gcd(a, b) > 0,
        a % gcd(a, b) == 0,
        b % gcd(a, b) == 0,
        forall|k: int| k > 0 && a % k == 0 && b % k == 0 ==> #[trigger] common(a, b, k) <= gcd(a, b),
{
    gcd_divides(a, b);
    let (x, y) = bezout(a, b);
    let g = gcd(a, b);
    assert forall|k: int| k > 0 && a % k == 0 && b % k == 0 implies #[trigger] common(a, b, k)
        <= g by {
        lemma_fundamental_div_mod(a, k);
        lemma_fundamental_div_mod(b, k);
        let s = a / k;
        let t = b / k;
        assert(g == k * (s * x + t * y)) by (nonlinear_arith)
            requires
                g == a * x + b * y,
                a == k * s,
                b == k * t,
        ;
        assert(k <= g) by (nonlinear_arith)
            requires
                g == k * (s * x + t * y),
                g > 0,
                k > 0,
        ;
    }
}

/// Names a common divisor.
pub open spec fn common(a: int, b: int, k: int) -> int {
    k
}

proof fn gcd_divides(a: int, b: int)
    requires
        a >= 0,
        b >= 0,
        a > 0 || b > 0,
    ensures
        gcd(a, b) > 0,
        a % gcd(a, b) == 0,
        b % gcd(a, b) == 0,
    decreases b,
{
    if b == 0 {
        lemma_mod_self_0(a);
        lemma_small_mod(0, a as nat);
    } else {
        lemma_mod_bound(a, b);
        gcd_divides(b, a % b);
        let g = gcd(b, a % b);
        lemma_fundamental_div_mod(b, g);
        lemma_fundamental_div_mod(a % b, g);
        lemma_fundamental_div_mod(a, b);
        let k = b / g;
        let m = (a % b) / g;
        let q = a / b;
        let r = a % b;
        assert(a == (k * q + m) * g) by (nonlinear_arith)
            requires
                a == b * q + r,
                b == g * k,
                r == g * m,
        ;
        lemma_mod_multiples_basic(k * q + m, g);
    }
}

/// Coefficients that give the greatest common divisor.
proof fn bezout(a: int, b: int) -> (xy: (int, int))
    requires
        a >= 0,
        b >= 0,
        a > 0 || b > 0,
    ensures
        gcd(a, b) == a * xy.0 + b * xy.1,
    decreases b,
{
    if b == 0 {
        assert(a * 1 + b * 0 == a);
        (1, 0)
    } else {
        lemma_mod_bound(a, b);
        let (x, y) = bezout(b, a % b);
        lemma_fundamental_div_mod(a, b);
        let q = a / b;
        let r = a % b;
        let g = gcd(a, b);
        assert(g == a * y + b * (x - q * y)) by (nonlinear_arith)
            requires
                g == b * x + r * y,
                a == b * q + r,
        ;
        (y, x - q * y)
    }
}

/// Lowest terms have the same value and a positive denominator.
pub proof fn lowest_terms_keep_the_value(n: int, d: int)
    requires
        d != 0,
    ensures
        lowest(n, d).1 > 0,
        lowest(n, d).0 * d == n * lowest(n, d).1,
{
    let a = magnitude(n);
    let b = magnitude(d);
    gcd_divides(a, b);
    let g = gcd(a, b);
    lemma_fundamental_div_mod(a, g);
    lemma_fundamental_div_mod(b, g);
    let s = a / g;
    let t = b / g;
    assert(t > 0) by (nonlinear_arith)
        requires
            b == g * t,
            b > 0,
            g > 0,
    ;
    assert(s * b == a * t) by (nonlinear_arith)
        requires
            a == g * s,
            b == g * t,
    ;
    let (p, q) = lowest(n, d);
    assert(p * d == n * q) by (nonlinear_arith)
        requires
            s * b == a * t,
            q == t,
            a == if n < 0 { -n } else { n },
            b == if d < 0 { -d } else { d },
            p == if (n < 0) != (d < 0) { -s } else { s },
    ;
}

/// In lowest terms no number above one divides both parts.
pub proof fn lowest_terms_share_no_divisor(n: int, d: int, k: int)
    requires
        d != 0,
        k > 1,
    ensures
        magnitude(lowest(n, d).0) % k != 0 || lowest(n, d).1 % k != 0,
{
    let a = magnitude(n);
    let b = magnitude(d);
    gcd_is_greatest_common_divisor(a, b);
    let g = gcd(a, b);
    lemma_fundamental_div_mod(a, g);
    lemma_fundamental_div_mod(b, g);
    let s = a / g;
    let t = b / g;
    assert(s >= 0) by (nonlinear_arith)
        requires
            a == g * s,
            a >= 0,
            g > 0,
    ;
    assert(magnitude(lowest(n, d).0) == s);
    if s % k == 0 && t % k == 0 {
        lemma_fundamental_div_mod(s, k);
        lemma_fundamental_div_mod(t, k);
        let u = s / k;
        let v = t / k;
        let m = g * k;
        assert(a == u * m) by (nonlinear_arith)
            requires
                a == g * s,
                s == k * u,
                m == g * k,
        ;
        assert(b == v * m) by (nonlinear_arith)
            requires
                b == g * t,
                t == k * v,
                m == g * k,
        ;
        assert(m > g && m > 0) by (nonlinear_arith)
            requires
                m == g * k,
                g > 0,
                k > 1,
        ;
        lemma_mod_multiples_basic(u, m);
        lemma_mod_multiples_basic(v, m);
        assert(common(a, b, m) <= g);
    }
}

/// Two rationals of one value have one form in lowest terms.
pub proof fn equal_values_have_one_form(n: int, d: int, m: int, e: int)
    requires
        d != 0,
        e != 0,
        n * e == m * d,
    ensures
        lowest(n, d) == lowest(m, e),
{
    let (p, q) = lowest(n, d);
    let (r, s) = lowest(m, e);
    lowest_terms_keep_the_value(n, d);
    lowest_terms_keep_the_value(m, e);
    assert(p * s == r * q) by {
        let left = p * d;
        let right = r * e;
        let cross = n * e;
        assert((p * s) * (d * e) == left * (s * e)) by (nonlinear_arith)
            requires
                left == p * d,
        ;
        assert(left * (s * e) == cross * (q * s)) by (nonlinear_arith)
            requires
                left == n * q,
                cross == n * e,
        ;
        assert(cross * (q * s) == right * (q * d)) by (nonlinear_arith)
            requires
                cross == m * d,
                right == m * s,
        ;
        assert(right * (q * d) == (r * q) * (d * e)) by (nonlinear_arith)
            requires
                right == r * e,
        ;
        assert(d * e != 0) by (nonlinear_arith)
            requires
                d != 0,
                e != 0,
        ;
        lemma_mul_equality_converse(d * e, p * s, r * q);
    }
    smaller_denominator(n, d, r, s);
    smaller_denominator(m, e, p, q);
    assert(p == r) by (nonlinear_arith)
        requires
            p * s == r * q,
            q == s,
            q > 0,
    ;
}

proof fn smaller_denominator(n: int, d: int, r: int, s: int)
    requires
        d != 0,
        s > 0,
        lowest(n, d).0 * s == r * lowest(n, d).1,
    ensures
        lowest(n, d).1 <= s,
{
    let (p, q) = lowest(n, d);
    lowest_terms_keep_the_value(n, d);
    let a = magnitude(p);
    gcd_is_greatest_common_divisor(a, q);
    let g = gcd(a, q);
    if g > 1 {
        lowest_terms_share_no_divisor(n, d, g);
        assert(false);
    }
    let (x, y) = bezout(a, q);
    let z = if p < 0 {
        -x
    } else {
        x
    };
    assert(p * z + q * y == 1) by (nonlinear_arith)
        requires
            1 == a * x + q * y,
            a == if p < 0 { -p } else { p },
            z == if p < 0 { -x } else { x },
    ;
    let f = r * z + s * y;
    assert(s == q * f) by (nonlinear_arith)
        requires
            p * z + q * y == 1,
            p * s == r * q,
            f == r * z + s * y,
    {
        assert(s == s * (p * z + q * y));
        assert(s * (p * z + q * y) == (p * s) * z + (s * q) * y);
        assert((r * q) * z + (s * q) * y == q * (r * z + s * y));
    }
    assert(q <= s) by (nonlinear_arith)
        requires
            s == q * f,
            s > 0,
            q > 0,
    ;
}

/// Reducing a reduced rational changes nothing.
pub proof fn reducing_twice_is_reducing_once(n: int, d: int)
    requires
        d != 0,
    ensures
        lowest(lowest(n, d).0, lowest(n, d).1) == lowest(n, d),
{
    let (p, q) = lowest(n, d);
    lowest_terms_keep_the_value(n, d);
    equal_values_have_one_form(p, q, n, d);
}

/// The greatest common divisor of two magnitudes, or one for two zeros.
pub fn gcd_i128(a: u128, b: u128) -> (divisor: u128)
    ensures
        a == 0 && b == 0 ==> divisor == 1,
        a > 0 || b > 0 ==> divisor == gcd(a as int, b as int),
{
    let mut left: u128 = a;
    let mut right: u128 = b;
    while right != 0
        invariant
            gcd(left as int, right as int) == gcd(a as int, b as int),
            left > 0 || right > 0 <==> a > 0 || b > 0,
        decreases right,
    {
        let remainder: u128 = left % right;
        left = right;
        right = remainder;
    }
    if left == 0 {
        1
    } else {
        left
    }
}

/// A rational number of seconds.
#[derive(Clone, Copy, Debug, PartialEq, Eq, PartialOrd, Ord, Hash, Structural)]
pub struct RationalTime {
    pub numerator: i128,
    pub denominator: i128,
}

impl Default for RationalTime {
    fn default() -> (time: Self)
        ensures
            time == (RationalTime { numerator: 0, denominator: 1 }),
    {
        RationalTime { numerator: 0, denominator: 1 }
    }
}

fn unsigned(n: i128) -> (m: u128)
    ensures
        m == magnitude(n as int),
{
    if n < 0 {
        (-(n + 1)) as u128 + 1
    } else {
        n as u128
    }
}

impl RationalTime {
    pub open spec fn pair(self) -> (int, int) {
        (self.numerator as int, self.denominator as int)
    }

    /// In lowest terms with a positive denominator.
    pub open spec fn is_reduced(self) -> bool {
        self.denominator > 0 && lowest(self.numerator as int, self.denominator as int)
            == self.pair()
    }

    /// The reduced form, where there is one.
    pub open spec fn reduction(self) -> Option<RationalTime> {
        let pair = lowest(self.numerator as int, self.denominator as int);
        if self.denominator == 0 || !fits(pair) {
            None
        } else {
            Some(RationalTime { numerator: pair.0 as i128, denominator: pair.1 as i128 })
        }
    }

    /// The largest whole number that is not above the value.
    pub open spec fn floor_value(self) -> int {
        self.numerator as int / self.denominator as int
    }

    /// A rational as given, reduced or not.
    pub fn new(numerator: i128, denominator: i128) -> (time: Self)
        ensures
            time == (RationalTime { numerator, denominator }),
    {
        RationalTime { numerator, denominator }
    }

    /// The value in lowest terms with a positive denominator.
    pub fn reduced(self) -> (result: Result<Self, ReplayError>)
        ensures
            match result {
                Ok(time) => self.reduction() == Some(time) && time.is_reduced(),
                Err(e) => self.reduction() is None && e@ == ReplayErrorView::RationalTimeOutOfRange,
            },
    {
        if self.denominator == 0 {
            return Err(ReplayError::RationalTimeOutOfRange);
        }
        let ghost n = self.numerator as int;
        let ghost d = self.denominator as int;
        proof {
            lowest_terms_keep_the_value(n, d);
            reducing_twice_is_reducing_once(n, d);
            gcd_divides(magnitude(n), magnitude(d));
        }
        if self.numerator == 0 {
            proof {
                lemma_small_mod(0, magnitude(d) as nat);
                assert(gcd(0, magnitude(d)) == gcd(magnitude(d), 0));
                lemma_div_by_self(magnitude(d));
                assert(0int / magnitude(d) == 0) by (nonlinear_arith)
                    requires
                        magnitude(d) > 0,
                ;
            }
            return Ok(RationalTime::new(0, 1));
        }
        let numerator_magnitude: u128 = unsigned(self.numerator);
        let denominator_magnitude: u128 = unsigned(self.denominator);
        let divisor: u128 = gcd_i128(numerator_magnitude, denominator_magnitude);
        let top: u128 = numerator_magnitude / divisor;
        let bottom: u128 = denominator_magnitude / divisor;
        let largest: u128 = i128::MAX as u128;
        if bottom > largest {
            return Err(ReplayError::RationalTimeOutOfRange);
        }
        let negative = (self.numerator < 0) != (self.denominator < 0);
        let numerator: i128 = if negative {
            if top > largest + 1 {
                return Err(ReplayError::RationalTimeOutOfRange);
            }
            if top == largest + 1 {
                i128::MIN
            } else {
                -(top as i128)
            }
        } else {
            if top > largest {
                return Err(ReplayError::RationalTimeOutOfRange);
            }
            top as i128
        };
        Ok(RationalTime::new(numerator, bottom as i128))
    }

    /// The largest whole number of seconds that is not above the value.
    pub fn floor(self) -> (seconds: i128)
        requires
            self.denominator > 0,
        ensures
            seconds == self.floor_value(),
    {
        let n: i128 = self.numerator;
        let d: i128 = self.denominator;
        proof {
            lemma_fundamental_div_mod(n as int, d as int);
            lemma_mod_bound(n as int, d as int);
            floor_is_small(n as int, d as int);
        }
        if n >= 0 {
            n / d
        } else {
            // Division of negative numbers rounds upwards: divide -(n + 1).
            let q: i128 = (-(n + 1)) / d;
            proof {
                negative_floor(n as int, d as int);
            }
            -q - 1
        }
    }

    /// Adds exactly.
    pub fn checked_add(self, other: Self) -> (result: Result<Self, ReplayError>)
        ensures
            match result {
                Ok(time) => exact_sum(self, other) == Some(time) && time.is_reduced(),
                Err(e) => exact_sum(self, other) is None && e@
                    == ReplayErrorView::RationalTimeOutOfRange,
            },
    {
        let left = match self.reduced() {
            Ok(left) => left,
            Err(e) => return Err(e),
        };
        let right = match other.reduced() {
            Ok(right) => right,
            Err(e) => return Err(e),
        };
        let first: i128 = match left.numerator.checked_mul(right.denominator) {
            Some(value) => value,
            None => return Err(ReplayError::RationalTimeOutOfRange),
        };
        let second: i128 = match right.numerator.checked_mul(left.denominator) {
            Some(value) => value,
            None => return Err(ReplayError::RationalTimeOutOfRange),
        };
        let numerator: i128 = match first.checked_add(second) {
            Some(value) => value,
            None => return Err(ReplayError::RationalTimeOutOfRange),
        };
        let denominator: i128 = match left.denominator.checked_mul(right.denominator) {
            Some(value) => value,
            None => return Err(ReplayError::RationalTimeOutOfRange),
        };
        RationalTime::new(numerator, denominator).reduced()
    }
}

/// The steps of a sum fit.
pub open spec fn sum_fits(a: (int, int), b: (int, int)) -> bool {
    &&& fits((a.0 * b.1, b.0 * a.1))
    &&& fits(sum_of(a, b))
}

/// The reduced sum of two rationals, where it and the steps to it fit.
pub open spec fn exact_sum(a: RationalTime, b: RationalTime) -> Option<RationalTime> {
    match (a.reduction(), b.reduction()) {
        (Some(left), Some(right)) => if sum_fits(left.pair(), right.pair()) {
            let sum = sum_of(left.pair(), right.pair());
            RationalTime { numerator: sum.0 as i128, denominator: sum.1 as i128 }.reduction()
        } else {
            None
        },
        _ => None,
    }
}

proof fn floor_is_small(n: int, d: int)
    requires
        d > 0,
        i128::MIN <= n <= i128::MAX,
    ensures
        i128::MIN <= n / d <= i128::MAX,
{
    lemma_fundamental_div_mod(n, d);
    lemma_mod_bound(n, d);
    let q = n / d;
    assert(n >= 0 ==> 0 <= q <= n) by (nonlinear_arith)
        requires
            n == d * q + n % d,
            0 <= n % d < d,
            d > 0,
    ;
    assert(n < 0 ==> n <= q < 0) by (nonlinear_arith)
        requires
            n == d * q + n % d,
            0 <= n % d < d,
            d > 0,
    ;
}

proof fn negative_floor(n: int, d: int)
    requires
        n < 0,
        d > 0,
    ensures
        n / d == -((-(n + 1)) / d) - 1,
        (-(n + 1)) / d >= 0,
{
    let m = -(n + 1);
    lemma_fundamental_div_mod(m, d);
    lemma_mod_bound(m, d);
    let q = m / d;
    let r = m % d;
    assert(n == (-q - 1) * d + (d - 1 - r)) by (nonlinear_arith)
        requires
            m == d * q + r,
            m == -(n + 1),
    ;
    lemma_fundamental_div_mod_converse(n, d, -q - 1, d - 1 - r);
    assert(q >= 0) by (nonlinear_arith)
        requires
            m == d * q + r,
            m >= 0,
            0 <= r < d,
            d > 0,
    ;
}

/// A sum has exactly the value of its parts added.
pub proof fn sums_are_exact(a: RationalTime, b: RationalTime)
    requires
        exact_sum(a, b) is Some,
    ensures
        a.denominator != 0,
        b.denominator != 0,
        ({
            let sum = exact_sum(a, b)->0;
            sum.numerator * (a.denominator * b.denominator) == sum_of(a.pair(), b.pair()).0
                * sum.denominator
        }),
{
    let left = a.reduction()->0;
    let right = b.reduction()->0;
    let sum = exact_sum(a, b)->0;
    lowest_terms_keep_the_value(a.numerator as int, a.denominator as int);
    lowest_terms_keep_the_value(b.numerator as int, b.denominator as int);
    let (n, d) = a.pair();
    let (m, e) = b.pair();
    let (p, q) = left.pair();
    let (r, s) = right.pair();
    let top = p * s + r * q;
    let bottom = q * s;
    assert(bottom > 0) by (nonlinear_arith)
        requires
            bottom == q * s,
            q > 0,
            s > 0,
    ;
    lowest_terms_keep_the_value(top, bottom);
    let (x, y) = sum.pair();
    assert(x * bottom == top * y);
    assert(top * (d * e) == (n * e + m * d) * bottom) by {
        let first = p * d;
        let second = r * e;
        assert((p * s) * (d * e) == first * (s * e)) by (nonlinear_arith)
            requires
                first == p * d,
        ;
        assert(first * (s * e) == (n * e) * (q * s)) by (nonlinear_arith)
            requires
                first == n * q,
        ;
        assert((r * q) * (d * e) == second * (q * d)) by (nonlinear_arith)
            requires
                second == r * e,
        ;
        assert(second * (q * d) == (m * d) * (q * s)) by (nonlinear_arith)
            requires
                second == m * s,
        ;
        lemma_mul_is_distributive_add_other_way(d * e, p * s, r * q);
        lemma_mul_is_distributive_add_other_way(bottom, n * e, m * d);
    }
    let k = n * e + m * d;
    let f = d * e;
    assert(x * f == k * y) by (nonlinear_arith)
        requires
            x * bottom == top * y,
            top * f == k * bottom,
            bottom > 0,
    {
        assert((x * f) * bottom == (x * bottom) * f);
        assert((top * y) * f == (top * f) * y);
        assert((k * bottom) * y == (k * y) * bottom);
        assert((x * f) * bottom == (k * y) * bottom);
    }
}

/// The order of the parts of a sum does not matter.
pub proof fn sums_commute(a: RationalTime, b: RationalTime)
    ensures
        exact_sum(a, b) == exact_sum(b, a),
{
    if a.reduction() is Some && b.reduction() is Some {
        let (p, q) = (a.reduction()->0).pair();
        let (r, s) = (b.reduction()->0).pair();
        lemma_mul_is_commutative(q, s);
        lemma_mul_is_commutative(p, s);
        lemma_mul_is_commutative(r, q);
    }
}

} // verus!
