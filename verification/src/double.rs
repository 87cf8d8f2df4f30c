//! Double-precision numbers, computed with integers: a number that is not zero is a
//! 53-bit mantissa times a power of two, and every operation gives the representable
//! number nearest to the exact result, the even one of two that are as near. None of
//! the numbers here is negative, and none comes near the ends of the exponent's range.

use vstd::arithmetic::div_mod::*;
use vstd::arithmetic::power2::*;
use vstd::prelude::*;

verus! {

/// The smallest mantissa: the smallest number of 53 bits.
pub const LO: u64 = 0x10_0000_0000_0000;

/// One above the largest mantissa.
pub const HI: u64 = 0x20_0000_0000_0000;

// ── Rounding ─────────────────────────────────────────────────────────────────

/// The whole number nearest to `n / d`; the even one of two that are as near.
pub open spec fn nearest(n: nat, d: nat) -> nat {
    let q = n / d;
    let r = n % d;
    if 2 * r < d || (2 * r == d && q % 2 == 0) {
        q
    } else {
        q + 1
    }
}

/// The whole number nearest to `n / d`; the even one of two that are as near.
pub fn divide_nearest(n: u128, d: u128) -> (out: u128)
    requires
        d > 0,
    ensures
        out == nearest(n as nat, d as nat),
{
    let q: u128 = n / d;
    let r: u128 = n % d;
    let rest: u128 = d - r;
    if r < rest || (r == rest && q % 2 == 0) {
        q
    } else {
        assert(d >= 2);
        assert(q <= n / 2) by (nonlinear_arith)
            requires
                q == n / d,
                d >= 2,
        ;
        q + 1
    }
}

/// The whole number nearest to `n / d`; the larger of two that are as near.
pub open spec fn nearest_up(n: nat, d: nat) -> nat {
    n / d + if 2 * (n % d) >= d {
        1nat
    } else {
        0
    }
}

/// `mant × 2^exp`. Zero is `0 × 2^0`.
pub ghost struct Binary {
    pub mant: nat,
    pub exp: int,
}

impl Binary {
    pub open spec fn zero() -> Binary {
        Binary { mant: 0, exp: 0 }
    }

    /// It is zero, or its mantissa has 53 bits: every number is written in one way.
    pub open spec fn normal(self) -> bool {
        self == Binary::zero() || LO <= self.mant < HI
    }

    /// It is a number, and either zero or with an exponent from `low` to `high`.
    pub open spec fn within(self, low: int, high: int) -> bool {
        self.normal() && (self.mant == 0 || low <= self.exp <= high)
    }

    /// The number in units of `2^unit`, where it is a whole number of them.
    pub open spec fn scaled(self, unit: int) -> nat {
        self.mant * pow2((self.exp - unit) as nat)
    }

    /// What stands above the line where the number is written as a fraction.
    pub open spec fn numerator(self) -> nat {
        if self.exp >= 0 {
            self.mant * pow2(self.exp as nat)
        } else {
            self.mant
        }
    }

    /// What stands below the line where the number is written as a fraction.
    pub open spec fn denominator(self) -> nat {
        if self.exp >= 0 {
            1
        } else {
            pow2((-self.exp) as nat)
        }
    }

    /// The place of a number among all others: numbers compare as their ranks do.
    pub open spec fn rank(self) -> nat {
        if self.mant == 0 {
            0
        } else {
            ((self.exp + 2000) * HI + self.mant) as nat
        }
    }

    /// `self` is smaller than `other`.
    pub open spec fn below(self, other: Binary) -> bool {
        self.rank() < other.rank()
    }

    pub open spec fn div(self, other: Binary) -> Binary {
        round(self.mant, other.mant, self.exp - other.exp)
    }

    pub open spec fn times(self, other: Binary) -> Binary {
        round(self.mant * other.mant, 1, self.exp + other.exp)
    }

    pub open spec fn plus(self, other: Binary) -> Binary {
        if self.mant == 0 {
            other
        } else if other.mant == 0 {
            self
        } else if self.exp >= other.exp {
            round(self.mant * pow2((self.exp - other.exp) as nat) + other.mant, 1, other.exp)
        } else {
            round(other.mant * pow2((other.exp - self.exp) as nat) + self.mant, 1, self.exp)
        }
    }

    /// The difference, where `other` is the smaller one.
    pub open spec fn minus(self, other: Binary) -> Binary {
        if other.mant == 0 {
            self
        } else {
            round(
                (self.mant * pow2((self.exp - other.exp) as nat) - other.mant) as nat,
                1,
                other.exp,
            )
        }
    }

    /// The whole part.
    pub open spec fn whole_part(self) -> nat {
        self.numerator() / self.denominator()
    }

    /// The nearest whole number, and the larger of two that are as near.
    pub open spec fn rounded_up(self) -> nat {
        nearest_up(self.numerator(), self.denominator())
    }

    /// The number in tenths, to the nearest.
    pub open spec fn tenths(self) -> nat {
        nearest(10 * self.numerator(), self.denominator())
    }
}

/// The number nearest to `n / d × 2^e`, where `n / d` has at least 53 bits before the
/// point: what it has more is cut off by halving it.
pub open spec fn cut(n: nat, d: nat, e: int) -> Binary
    decreases n - d,
{
    if d > 0 && n >= HI * d {
        cut(n, 2 * d, e + 1)
    } else {
        let m = nearest(n, d);
        if m >= HI {
            Binary { mant: LO as nat, exp: e + 1 }
        } else {
            Binary { mant: m, exp: e }
        }
    }
}

/// The number nearest to `n / d × 2^e`: first doubled until it has 53 bits before the
/// point.
pub open spec fn widen(n: nat, d: nat, e: int) -> Binary
    decreases
            (if n < LO * d {
                LO * d - n
            } else {
                0
            }),
{
    if 0 < n < LO * d {
        widen(2 * n, d, e - 1)
    } else {
        cut(n, d, e)
    }
}

/// The number nearest to `n / d × 2^e`.
pub open spec fn round(n: nat, d: nat, e: int) -> Binary {
    if n == 0 || d == 0 {
        Binary::zero()
    } else {
        widen(n, d, e)
    }
}

/// The number nearest to `n`.
pub open spec fn whole(n: nat) -> Binary {
    round(n, 1, 0)
}

// ── What rounding gives ──────────────────────────────────────────────────────

/// Rounding gives a normal number.
pub proof fn lemma_normal(n: nat, d: nat, e: int)
    requires
        n > 0,
        d > 0,
    ensures
        LO <= round(n, d, e).mant < HI,
        round(n, d, e).normal(),
{
    lemma_widen_normal(n, d, e);
}

proof fn lemma_widen_normal(n: nat, d: nat, e: int)
    requires
        n > 0,
        d > 0,
    ensures
        LO <= widen(n, d, e).mant < HI,
    decreases
            (if n < LO * d {
                LO * d - n
            } else {
                0
            }),
{
    if n < LO * d {
        lemma_widen_normal(2 * n, d, e - 1);
    } else {
        lemma_cut_normal(n, d, e);
    }
}

proof fn lemma_cut_normal(n: nat, d: nat, e: int)
    requires
        d > 0,
        n >= LO * d,
    ensures
        LO <= cut(n, d, e).mant < HI,
        cut(n, d, e).exp >= e,
    decreases n - d,
{
    if n >= HI * d {
        lemma_cut_normal(n, 2 * d, e + 1);
    } else {
        let q = n / d;
        assert(LO <= q < HI) by (nonlinear_arith)
            requires
                q == n / d,
                d > 0,
                LO * d <= n < HI * d,
        ;
    }
}

/// At most `j` doublings lower the exponent by at most `j`.
proof fn lemma_exp_at_least(n: nat, d: nat, e: int, j: nat)
    requires
        n > 0,
        d > 0,
        pow2(j) * n >= LO * d,
    ensures
        round(n, d, e).exp >= e - j,
    decreases j,
{
    if n < LO * d {
        if j == 0 {
            lemma2_to64();
            assert(false);
        }
        lemma_pow2_unfold(j);
        let p = pow2((j - 1) as nat);
        assert(p * (2 * n) == (2 * p) * n) by (nonlinear_arith);
        lemma_exp_at_least(2 * n, d, e - 1, (j - 1) as nat);
    } else {
        lemma_cut_normal(n, d, e);
    }
}

/// At least `j` doublings lower the exponent by at least `j`, but for one that rounding
/// up may take back.
proof fn lemma_exp_at_most(n: nat, d: nat, e: int, j: nat)
    requires
        n > 0,
        d > 0,
        pow2(j) * n < HI * d,
    ensures
        round(n, d, e).exp <= e - j + 1,
    decreases j, LO * d - n,
{
    if j == 0 {
        lemma2_to64();
        if n < LO * d {
            lemma_widened(n, d, e);
        }
    } else {
        lemma_pow2_unfold(j);
        let p = pow2((j - 1) as nat);
        lemma_pow2_pos((j - 1) as nat);
        assert(n < LO * d) by (nonlinear_arith)
            requires
                (2 * p) * n < HI * d,
                p >= 1,
                HI == 2 * LO,
        ;
        assert(p * (2 * n) == (2 * p) * n) by (nonlinear_arith);
        lemma_exp_at_most(2 * n, d, e - 1, (j - 1) as nat);
    }
}

/// What has to be doubled ends below the smallest mantissa's next power, or on it.
proof fn lemma_widened(n: nat, d: nat, e: int)
    requires
        0 < n < LO * d,
    ensures
        widen(n, d, e).exp < e || widen(n, d, e) == (Binary { mant: LO as nat, exp: e }),
    decreases LO * d - n,
{
    if 2 * n < LO * d {
        lemma_widened(2 * n, d, e - 1);
    } else {
        assert(2 * n < HI * d) by (nonlinear_arith)
            requires
                n < LO * d,
                HI == 2 * LO,
        ;
        assert(widen(2 * n, d, e - 1) == cut(2 * n, d, e - 1));
    }
}

/// At least `j + 1` halvings raise the exponent by as many.
proof fn lemma_exp_cut(n: nat, d: nat, e: int, j: nat)
    requires
        d > 0,
        n >= HI * d * pow2(j),
    ensures
        round(n, d, e).exp >= e + j + 1,
    decreases j,
{
    lemma_pow2_pos(j);
    let p = pow2(j);
    assert(n >= HI * d) by (nonlinear_arith)
        requires
            n >= HI * d * p,
            p >= 1,
    ;
    assert(HI * d > 0 && LO * d <= HI * d) by (nonlinear_arith)
        requires
            d > 0,
            LO <= HI,
            HI > 0,
    ;
    assert(round(n, d, e) == cut(n, 2 * d, e + 1));
    if j == 0 {
        lemma_cut_normal(n, 2 * d, e + 1);
    } else {
        lemma_pow2_unfold(j);
        let h = pow2((j - 1) as nat);
        assert(HI * (2 * d) * h == HI * d * (2 * h)) by (nonlinear_arith);
        lemma_exp_cut(n, 2 * d, e + 1, (j - 1) as nat);
        assert(LO * (2 * d) == HI * d) by (nonlinear_arith)
            requires
                HI == 2 * LO,
        ;
        assert(round(n, 2 * d, e + 1) == cut(n, 2 * d, e + 1));
    }
}

/// At most `j` halvings raise the exponent by at most `j`, but for one that rounding up
/// may add.
proof fn lemma_exp_uncut(n: nat, d: nat, e: int, j: nat)
    requires
        n > 0,
        d > 0,
        n < HI * d * pow2(j),
    ensures
        round(n, d, e).exp <= e + j + 1,
    decreases j,
{
    if n < LO * d {
        lemma_widened(n, d, e);
    } else if n >= HI * d {
        if j == 0 {
            lemma2_to64();
            assert(false);
        }
        lemma_pow2_unfold(j);
        let h = pow2((j - 1) as nat);
        assert(HI * (2 * d) * h == HI * d * (2 * h)) by (nonlinear_arith);
        assert(LO * (2 * d) == HI * d) by (nonlinear_arith)
            requires
                HI == 2 * LO,
        ;
        lemma_exp_uncut(n, 2 * d, e + 1, (j - 1) as nat);
    }
}

// ── Order ────────────────────────────────────────────────────────────────────

/// Comparing two fractions by their whole parts, then by their remainders.
proof fn lemma_split(a: int, b: int, c: int, d: int, p: int, q: int, s: int, t: int)
    requires
        b > 0,
        d > 0,
        a == b * p + s,
        c == d * q + t,
        0 <= s < b,
        0 <= t < d,
    ensures
        p < q ==> a * d < c * b,
        p > q ==> !(a * d < c * b),
        p == q ==> (a * d < c * b) == (s * d < t * b),
{
    assert(a * d == (b * d) * p + s * d) by (nonlinear_arith)
        requires
            a == b * p + s,
    ;
    assert(c * b == (b * d) * q + t * b) by (nonlinear_arith)
        requires
            c == d * q + t,
    ;
    assert(0 <= s * d < b * d && 0 <= t * b < b * d) by (nonlinear_arith)
        requires
            0 <= s < b,
            0 <= t < d,
    ;
    let m = b * d;
    if p < q {
        assert(m * q >= m * p + m) by (nonlinear_arith)
            requires
                p + 1 <= q,
                m > 0,
        ;
    } else if p > q {
        assert(m * p >= m * q + m) by (nonlinear_arith)
            requires
                q + 1 <= p,
                m > 0,
        ;
    }
}

/// A larger fraction is never rounded to a smaller whole number.
pub proof fn lemma_nearest_grows(n: nat, d: nat, m: nat, e: nat)
    requires
        d > 0,
        e > 0,
        n * e <= m * d,
    ensures
        nearest(n, d) <= nearest(m, e),
{
    let (p, r) = (n / d, n % d);
    let (q, t) = (m / e, m % e);
    lemma_fundamental_div_mod(n as int, d as int);
    lemma_fundamental_div_mod(m as int, e as int);
    lemma_split(m as int, e as int, n as int, d as int, q as int, p as int, t as int, r as int);
    // So p <= q, and where they are equal the remainders compare as well.
    if p == q {
        assert(r * e <= t * d);
        if 2 * r >= d {
            assert(2 * t >= e) by (nonlinear_arith)
                requires
                    r * e <= t * d,
                    2 * r >= d,
                    d > 0,
                    e > 0,
            ;
        }
        if 2 * r > d {
            assert(2 * t > e) by (nonlinear_arith)
                requires
                    r * e <= t * d,
                    2 * r > d,
                    d > 0,
                    e > 0,
            ;
        }
    }
}

/// `a` is not larger than `b`, by exponents and then by mantissas.
pub open spec fn ordered(a: Binary, b: Binary) -> bool {
    a.exp < b.exp || (a.exp == b.exp && a.mant <= b.mant)
}

/// A larger fraction is never rounded to a smaller number.
pub proof fn lemma_round_grows(n: nat, d: nat, m: nat, f: nat, e: int)
    requires
        n > 0,
        d > 0,
        f > 0,
        n * f <= m * d,
    ensures
        m > 0,
        ordered(round(n, d, e), round(m, f, e)),
    decreases
            (if n < LO * d {
                LO * d - n
            } else {
                0
            }),
{
    assert(m > 0) by (nonlinear_arith)
        requires
            n * f <= m * d,
            n > 0,
            f > 0,
    ;
    if n < LO * d {
        if m < LO * f {
            assert((2 * n) * f <= (2 * m) * d) by (nonlinear_arith)
                requires
                    n * f <= m * d,
            ;
            lemma_round_grows(2 * n, d, 2 * m, f, e - 1);
        } else {
            lemma_widened(n, d, e);
            lemma_cut_normal(m, f, e);
        }
    } else {
        assert(m >= LO * f) by (nonlinear_arith)
            requires
                n * f <= m * d,
                n >= LO * d,
                d > 0,
                f > 0,
        ;
        lemma_cut_grows(n, d, m, f, e);
    }
}

proof fn lemma_cut_grows(n: nat, d: nat, m: nat, f: nat, e: int)
    requires
        d > 0,
        f > 0,
        n >= LO * d,
        m >= LO * f,
        n * f <= m * d,
    ensures
        ordered(cut(n, d, e), cut(m, f, e)),
    decreases n - d,
{
    if n >= HI * d {
        assert(m >= HI * f) by (nonlinear_arith)
            requires
                n * f <= m * d,
                n >= HI * d,
                d > 0,
                f > 0,
        ;
        assert(LO * (2 * d) == HI * d && LO * (2 * f) == HI * f) by (nonlinear_arith)
            requires
                HI == 2 * LO,
        ;
        assert(n * (2 * f) <= m * (2 * d)) by (nonlinear_arith)
            requires
                n * f <= m * d,
        ;
        lemma_cut_grows(n, 2 * d, m, 2 * f, e + 1);
    } else if m >= HI * f {
        assert(LO * (2 * f) == HI * f) by (nonlinear_arith)
            requires
                HI == 2 * LO,
        ;
        lemma_cut_normal(m, 2 * f, e + 1);
        lemma_cut_normal(n, d, e);
    } else {
        lemma_nearest_grows(n, d, m, f);
        lemma_cut_normal(n, d, e);
    }
}

/// Doubling both sides of a fraction changes nothing.
proof fn lemma_cut_scales(n: nat, d: nat, e: int)
    requires
        d > 0,
    ensures
        cut(2 * n, 2 * d, e) == cut(n, d, e),
    decreases n - d,
{
    if n >= HI * d {
        assert(2 * n >= HI * (2 * d));
        lemma_cut_scales(n, 2 * d, e + 1);
    } else {
        assert(!(2 * n >= HI * (2 * d)));
        let (q, r) = (n / d, n % d);
        lemma_fundamental_div_mod(n as int, d as int);
        assert(2 * n == (2 * d) * q + 2 * r) by (nonlinear_arith)
            requires
                n == d * q + r,
        ;
        lemma_fundamental_div_mod_converse(2 * n as int, 2 * d as int, q as int, 2 * r as int);
    }
}

/// Doubling a number and lowering its exponent changes nothing.
pub proof fn lemma_shift(n: nat, d: nat, e: int)
    requires
        n > 0,
        d > 0,
    ensures
        round(2 * n, d, e - 1) == round(n, d, e),
{
    if n >= LO * d {
        assert(2 * n >= HI * d) by (nonlinear_arith)
            requires
                n >= LO * d,
                HI == 2 * LO,
        ;
        assert(LO * d <= HI * d) by (nonlinear_arith)
            requires
                LO <= HI,
        ;
        assert(round(2 * n, d, e - 1) == cut(2 * n, 2 * d, e));
        lemma_cut_scales(n, d, e);
    }
}

/// The same, any number of times.
pub proof fn lemma_shifts(n: nat, d: nat, e: int, k: nat)
    requires
        n > 0,
        d > 0,
    ensures
        n * pow2(k) > 0,
        round(n * pow2(k), d, e - k) == round(n, d, e),
    decreases k,
{
    if k == 0 {
        lemma2_to64();
    } else {
        lemma_pow2_unfold(k);
        let h = pow2((k - 1) as nat);
        lemma_shifts(n, d, e, (k - 1) as nat);
        assert(n * (2 * h) == 2 * (n * h)) by (nonlinear_arith);
        lemma_shift(n * h, d, e - (k - 1));
    }
}

/// A normal number is its own nearest.
pub proof fn lemma_exact(a: Binary)
    requires
        LO <= a.mant < HI,
    ensures
        round(a.mant, 1, a.exp) == a,
{
}

/// A number far below half of another's last place is lost when the two are added.
proof fn lemma_absorbs(a: Binary, b: Binary)
    requires
        LO <= a.mant < HI,
        LO <= b.mant < HI,
        a.exp - b.exp > 60,
    ensures
        a.plus(b) == a,
{
    let k = (a.exp - b.exp) as nat;
    let p = pow2(k);
    let n = a.mant * p + b.mant;
    lemma2_to64();
    lemma2_to64_rest();
    lemma_pow2_strictly_increases(60, k);
    assert(pow2(60) == 0x1000_0000_0000_0000);
    // Between a and a with two more sixty-fourths of its last place, both of which
    // round to a.
    assert(nearest(n, p) == a.mant) by {
        assert(n == p * a.mant + b.mant) by (nonlinear_arith)
            requires
                n == a.mant * p + b.mant,
        ;
        lemma_fundamental_div_mod_converse(n as int, p as int, a.mant as int, b.mant as int);
    }
    assert(LO * p <= n < HI * p) by (nonlinear_arith)
        requires
            n == a.mant * p + b.mant,
            LO <= a.mant,
            a.mant + 1 <= HI,
            b.mant < p,
    ;
    lemma_cut_down(n, 1, b.exp, k);
    assert(p >= 1);
    assert(n >= LO) by (nonlinear_arith)
        requires
            LO * p <= n,
            p >= 1,
    ;
    assert(cut(n, p, b.exp + k) == a);
}

/// Cutting a long number down to 53 bits.
proof fn lemma_cut_down(n: nat, d: nat, e: int, k: nat)
    requires
        d > 0,
        LO * (d * pow2(k)) <= n,
    ensures
        cut(n, d, e) == cut(n, d * pow2(k), e + k),
    decreases k,
{
    if k == 0 {
        lemma2_to64();
        assert(d * pow2(k) == d) by (nonlinear_arith)
            requires
                pow2(k) == 1,
        ;
    } else {
        lemma_pow2_unfold(k);
        let h = pow2((k - 1) as nat);
        lemma_pow2_pos((k - 1) as nat);
        assert(d * (2 * h) == (2 * d) * h) by (nonlinear_arith);
        assert(n >= HI * d) by (nonlinear_arith)
            requires
                LO * (d * (2 * h)) <= n,
                h >= 1,
                HI == 2 * LO,
        ;
        lemma_cut_down(n, 2 * d, e + 1, (k - 1) as nat);
    }
}

/// A small number is written by shifting it up to 53 bits.
pub proof fn lemma_small(n: nat, j: nat)
    requires
        LO <= n * pow2(j) < HI,
    ensures
        whole(n) == (Binary { mant: n * pow2(j), exp: -j }),
{
    if n == 0 {
        assert(n * pow2(j) == 0) by (nonlinear_arith)
            requires
                n == 0,
        ;
    }
    lemma_shifts(n, 1, 0, j);
    lemma_exact(Binary { mant: n * pow2(j), exp: -j });
}

/// A number in smaller units rounds to itself.
pub proof fn lemma_scaled_exact(a: Binary, unit: int)
    requires
        a.normal(),
        a.mant > 0 ==> unit <= a.exp,
    ensures
        round(a.scaled(unit), 1, unit) == a,
{
    if a.mant > 0 {
        lemma_exact(a);
        lemma_shifts(a.mant, 1, a.exp, (a.exp - unit) as nat);
    } else {
        assert(a.scaled(unit) == 0) by (nonlinear_arith)
            requires
                a.scaled(unit) == a.mant * pow2((a.exp - unit) as nat),
                a.mant == 0,
        ;
    }
}

/// Numbers compare as they do in any smaller unit.
pub proof fn lemma_scaled_order(a: Binary, b: Binary, unit: int)
    requires
        a.within(unit, 1_000),
        b.within(unit, 1_000),
        unit >= -1_000,
    ensures
        b.below(a) == (b.scaled(unit) < a.scaled(unit)),
{
    lemma_scaled_below(a, b, unit);
    lemma_scaled_below(b, a, unit);
}

proof fn lemma_scaled_below(a: Binary, b: Binary, unit: int)
    requires
        a.within(unit, 1_000),
        b.within(unit, 1_000),
        unit >= -1_000,
    ensures
        b.below(a) ==> b.scaled(unit) < a.scaled(unit),
        a.rank() == b.rank() ==> a == b,
{
    if a.mant > 0 {
        let (k, j) = ((a.exp - unit) as nat, (b.exp - unit) as nat);
        lemma_pow2_pos(k);
        assert(a.mant * pow2(k) >= LO * pow2(k)) by (nonlinear_arith)
            requires
                a.mant >= LO,
        ;
        if b.mant == 0 {
            assert(b.mant * pow2(j) == 0) by (nonlinear_arith)
                requires
                    b.mant == 0,
            ;
        } else if b.exp == a.exp {
            assert(b.mant < a.mant ==> b.mant * pow2(k) < a.mant * pow2(k)) by (nonlinear_arith)
                requires
                    pow2(k) > 0,
            ;
        } else if b.exp < a.exp {
            lemma_pow2_unfold((j + 1) as nat);
            if j + 1 < k {
                lemma_pow2_strictly_increases((j + 1) as nat, k);
            }
            lemma_pow2_pos(j);
            assert(b.mant * pow2(j) < a.mant * pow2(k)) by (nonlinear_arith)
                requires
                    b.mant < HI,
                    HI == 2 * LO,
                    2 * pow2(j) <= pow2(k),
                    LO * pow2(k) <= a.mant * pow2(k),
                    pow2(j) > 0,
            ;
        }
    }
}

/// A fraction that is not larger is not rounded to a larger number.
pub proof fn lemma_round_ranks(n: nat, d: nat, m: nat, f: nat, e: int)
    requires
        d > 0,
        f > 0,
        n * f <= m * d,
        round(n, d, e).within(-1_000, 1_000),
        round(m, f, e).within(-1_000, 1_000),
    ensures
        !round(m, f, e).below(round(n, d, e)),
{
    if n > 0 {
        lemma_round_grows(n, d, m, f, e);
        lemma_normal(n, d, e);
        lemma_normal(m, f, e);
    }
}

/// The exponent of a quotient.
pub proof fn lemma_div_within(a: Binary, b: Binary)
    requires
        a.normal(),
        b.normal(),
        b.mant > 0,
    ensures
        a.div(b).within(a.exp - b.exp - 53, a.exp - b.exp - 51),
        a.mant > 0 ==> a.div(b).mant > 0,
{
    if a.mant > 0 {
        let (m, d, e) = (a.mant, b.mant, a.exp - b.exp);
        lemma2_to64();
        lemma2_to64_rest();
        assert(pow2(53) * m >= LO * d) by (nonlinear_arith)
            requires
                pow2(53) == HI,
                m >= LO,
                d <= HI,
        ;
        lemma_exp_at_least(m, d, e, 53);
        assert(pow2(52) * m < HI * d) by (nonlinear_arith)
            requires
                pow2(52) == LO,
                m < HI,
                d >= LO,
        ;
        lemma_exp_at_most(m, d, e, 52);
        lemma_normal(m, d, e);
    }
}

/// The exponent of a product.
pub proof fn lemma_times_within(a: Binary, b: Binary)
    requires
        a.normal(),
        b.normal(),
    ensures
        a.times(b).within(a.exp + b.exp + 52, a.exp + b.exp + 54),
        a.mant > 0 && b.mant > 0 ==> a.mant * b.mant > 0 && a.times(b).mant > 0,
{
    let (m, n) = (a.mant, b.mant);
    if m == 0 || n == 0 {
        assert(m * n == 0) by (nonlinear_arith)
            requires
                m == 0 || n == 0,
        ;
    } else {
        lemma2_to64();
        lemma2_to64_rest();
        assert(LO * LO <= m * n < HI * HI) by (nonlinear_arith)
            requires
                LO <= m < HI,
                LO <= n < HI,
                LO > 0,
        ;
        assert(LO * LO == HI * pow2(51) && HI * HI == HI * pow2(53));
        lemma_exp_cut(m * n, 1, a.exp + b.exp, 51);
        lemma_exp_uncut(m * n, 1, a.exp + b.exp, 53);
        lemma_normal(m * n, 1, a.exp + b.exp);
    }
}

/// The exponent of a sum, `a` having the larger one.
proof fn lemma_plus_within(a: Binary, b: Binary)
    requires
        a.normal(),
        b.normal(),
        a.mant > 0,
        b.mant > 0,
        a.exp >= b.exp,
    ensures
        a.plus(b).within(b.exp, a.exp + 2),
        a.plus(b).mant > 0,
{
    let k = (a.exp - b.exp) as nat;
    let p = pow2(k);
    let n = a.mant * p + b.mant;
    lemma2_to64();
    lemma_pow2_pos(k);
    lemma_pow2_unfold((k + 1) as nat);
    assert(LO <= a.mant * p) by (nonlinear_arith)
        requires
            LO <= a.mant,
            p >= 1,
    ;
    assert(n < HI * 1 * pow2((k + 1) as nat)) by (nonlinear_arith)
        requires
            n == a.mant * p + b.mant,
            b.mant < HI,
            a.mant + 1 <= HI,
            pow2((k + 1) as nat) == 2 * p,
            p >= 1,
    ;
    assert(pow2(0) * n >= LO * 1);
    lemma_exp_at_least(n, 1, b.exp, 0);
    lemma_exp_uncut(n, 1, b.exp, (k + 1) as nat);
    lemma_normal(n, 1, b.exp);
}

/// The exponent of a difference.
pub proof fn lemma_minus_within(a: Binary, b: Binary)
    requires
        a.normal(),
        b.normal(),
        b.mant > 0,
        a.exp >= b.exp,
        b.mant <= a.scaled(b.exp),
    ensures
        a.minus(b).within(b.exp - 52, a.exp + 1),
{
    let k = (a.exp - b.exp) as nat;
    let p = pow2(k);
    let n = (a.mant * p - b.mant) as nat;
    if n > 0 {
        lemma2_to64();
        lemma2_to64_rest();
        lemma_pow2_pos(k);
        assert(pow2(52) * n >= LO) by (nonlinear_arith)
            requires
                pow2(52) == LO,
                n >= 1,
        ;
        lemma_exp_at_least(n, 1, b.exp, 52);
        assert(n < HI * 1 * p) by (nonlinear_arith)
            requires
                n == a.mant * p - b.mant,
                a.mant < HI,
                p >= 1,
                b.mant >= 0,
        ;
        lemma_exp_uncut(n, 1, b.exp, k);
        lemma_normal(n, 1, b.exp);
    }
}

/// A fraction in smaller units.
proof fn lemma_in_units(n: nat, d: nat, e: int, unit: int)
    requires
        d > 0,
        unit <= e,
    ensures
        round(n, d, e) == round(n * pow2((e - unit) as nat), d, unit),
{
    if n > 0 {
        lemma_shifts(n, d, e, (e - unit) as nat);
    } else {
        assert(n * pow2((e - unit) as nat) == 0) by (nonlinear_arith)
            requires
                n == 0,
        ;
    }
}

/// The smaller of two.
pub open spec fn least(a: int, b: int) -> int {
    if a <= b {
        a
    } else {
        b
    }
}

/// What is not larger, divided by the same, is not larger.
pub proof fn lemma_div_grows(a: Binary, b: Binary, c: Binary)
    requires
        a.within(-400, 400),
        b.within(-400, 400),
        c.within(-400, 400),
        c.mant > 0,
        !b.below(a),
    ensures
        !b.div(c).below(a.div(c)),
{
    if a.mant > 0 {
        let u = least(a.exp, b.exp);
        lemma_scaled_order(a, b, u);
        let (x, y) = (a.scaled(u), b.scaled(u));
        lemma_div_within(a, c);
        lemma_div_within(b, c);
        lemma_in_units(a.mant, c.mant, a.exp - c.exp, u - c.exp);
        lemma_in_units(b.mant, c.mant, b.exp - c.exp, u - c.exp);
        assert(x * c.mant <= y * c.mant) by (nonlinear_arith)
            requires
                x <= y,
        ;
        lemma_round_ranks(x, c.mant, y, c.mant, u - c.exp);
    } else {
        lemma_div_within(b, c);
    }
}

/// What is not larger, times the same, is not larger.
pub proof fn lemma_times_grows(a: Binary, b: Binary, c: Binary)
    requires
        a.within(-400, 400),
        b.within(-400, 400),
        c.within(-400, 400),
        !b.below(a),
    ensures
        !b.times(c).below(a.times(c)),
{
    lemma_times_within(a, c);
    lemma_times_within(b, c);
    if a.mant > 0 {
        let u = least(a.exp, b.exp);
        lemma_scaled_order(a, b, u);
        let (x, y) = (a.scaled(u), b.scaled(u));
        let (k, j) = (pow2((a.exp - u) as nat), pow2((b.exp - u) as nat));
        lemma_in_units(a.mant * c.mant, 1, a.exp + c.exp, u + c.exp);
        lemma_in_units(b.mant * c.mant, 1, b.exp + c.exp, u + c.exp);
        assert((a.mant * c.mant) * k == x * c.mant) by (nonlinear_arith)
            requires
                x == a.mant * k,
        ;
        assert((b.mant * c.mant) * j == y * c.mant) by (nonlinear_arith)
            requires
                y == b.mant * j,
        ;
        assert((x * c.mant) * 1 <= (y * c.mant) * 1) by (nonlinear_arith)
            requires
                x <= y,
        ;
        lemma_round_ranks(x * c.mant, 1, y * c.mant, 1, u + c.exp);
    } else {
        assert(a.mant * c.mant == 0) by (nonlinear_arith)
            requires
                a.mant == 0,
        ;
    }
}

/// A sum, in any unit that both are whole numbers of.
pub proof fn lemma_plus_scaled(a: Binary, b: Binary, unit: int)
    requires
        a.normal(),
        b.normal(),
        a.mant > 0 ==> unit <= a.exp,
        b.mant > 0 ==> unit <= b.exp,
    ensures
        a.plus(b) == round(a.scaled(unit) + b.scaled(unit), 1, unit),
{
    lemma_scaled_exact(a, unit);
    lemma_scaled_exact(b, unit);
    if a.mant == 0 {
        assert(a.scaled(unit) == 0) by (nonlinear_arith)
            requires
                a.scaled(unit) == a.mant * pow2((a.exp - unit) as nat),
                a.mant == 0,
        ;
    } else if b.mant == 0 {
        assert(b.scaled(unit) == 0) by (nonlinear_arith)
            requires
                b.scaled(unit) == b.mant * pow2((b.exp - unit) as nat),
                b.mant == 0,
        ;
    } else {
        lemma_two_scaled(a, b, unit);
        lemma_two_scaled(b, a, unit);
        let low = least(a.exp, b.exp);
        lemma_in_units(
            if a.exp >= b.exp {
                a.scaled(b.exp) + b.mant
            } else {
                b.scaled(a.exp) + a.mant
            },
            1,
            low,
            unit,
        );
    }
}

/// Two numbers at the lower exponent, taken to a smaller unit.
proof fn lemma_two_scaled(a: Binary, b: Binary, unit: int)
    requires
        unit <= b.exp,
    ensures
        a.exp >= b.exp ==> (a.scaled(b.exp) + b.mant) * pow2((b.exp - unit) as nat) == a.scaled(unit)
            + b.scaled(unit),
        a.exp >= b.exp ==> (a.scaled(b.exp) - b.mant) * pow2((b.exp - unit) as nat) == a.scaled(unit)
            - b.scaled(unit),
{
    if a.exp >= b.exp {
        let (k, j) = ((a.exp - b.exp) as nat, (b.exp - unit) as nat);
        lemma_pow2_adds(k, j);
        assert(k + j == a.exp - unit);
        let (p, q, m, n) = (pow2(k), pow2(j), a.mant, b.mant);
        assert((m * p + n) * q == m * (p * q) + n * q && (m * p - n) * q == m * (p * q) - n * q)
            by (nonlinear_arith);
    }
}

/// Adding what is not larger gives what is not larger.
pub proof fn lemma_plus_grows(c: Binary, a: Binary, b: Binary)
    requires
        a.within(-400, 400),
        b.within(-400, 400),
        c.within(-400, 400),
        !b.below(a),
    ensures
        !c.plus(b).below(c.plus(a)),
{
    let u = -400int;
    lemma_scaled_order(a, b, u);
    lemma_plus_scaled(c, a, u);
    lemma_plus_scaled(c, b, u);
    lemma_sum_within(c, a, -400, 400);
    lemma_sum_within(c, b, -400, 400);
    lemma_round_ranks(c.scaled(u) + a.scaled(u), 1, c.scaled(u) + b.scaled(u), 1, u);
}

/// The exponent of a sum, whichever is the larger.
pub proof fn lemma_sum_within(a: Binary, b: Binary, low: int, high: int)
    requires
        a.within(low, high),
        b.within(low, high),
    ensures
        a.plus(b).within(low, high + 2),
{
    if a.mant > 0 && b.mant > 0 {
        if a.exp >= b.exp {
            lemma_plus_within(a, b);
        } else {
            lemma_plus_within(b, a);
        }
    }
}

/// A difference, in any unit that both are whole numbers of.
pub proof fn lemma_minus_scaled(a: Binary, b: Binary, unit: int)
    requires
        a.normal(),
        b.normal(),
        a.mant > 0 ==> unit <= a.exp,
        b.mant > 0 ==> unit <= b.exp <= a.exp,
        b.scaled(unit) <= a.scaled(unit),
    ensures
        a.minus(b) == round((a.scaled(unit) - b.scaled(unit)) as nat, 1, unit),
        b.mant > 0 ==> b.mant <= a.scaled(b.exp),
{
    lemma_scaled_exact(a, unit);
    if b.mant == 0 {
        assert(b.scaled(unit) == 0) by (nonlinear_arith)
            requires
                b.scaled(unit) == b.mant * pow2((b.exp - unit) as nat),
                b.mant == 0,
        ;
    } else {
        let q = pow2((b.exp - unit) as nat);
        let diff = a.scaled(b.exp) - b.mant;
        lemma_pow2_pos((b.exp - unit) as nat);
        lemma_two_scaled(a, b, unit);
        assert(diff >= 0) by (nonlinear_arith)
            requires
                diff * q >= 0,
                q > 0,
        ;
        lemma_in_units(diff as nat, 1, b.exp, unit);
    }
}

/// Taking away more leaves less.
pub proof fn lemma_minus_falls(c: Binary, a: Binary, b: Binary)
    requires
        a.within(-400, 400),
        b.within(-400, 400),
        c.within(-400, 400),
        a.mant > 0 ==> a.exp <= c.exp,
        b.mant > 0 ==> b.exp <= c.exp,
        !b.below(a),
        !c.below(b),
    ensures
        !c.minus(a).below(c.minus(b)),
        c.minus(a).within(-452, 401),
        c.minus(b).within(-452, 401),
{
    let u = -400int;
    lemma_scaled_order(a, b, u);
    lemma_scaled_order(b, c, u);
    lemma_minus_scaled(c, a, u);
    lemma_minus_scaled(c, b, u);
    if a.mant > 0 {
        lemma_minus_within(c, a);
    }
    if b.mant > 0 {
        lemma_minus_within(c, b);
    }
    let (x, y, z) = (a.scaled(u), b.scaled(u), c.scaled(u));
    lemma_round_ranks((z - y) as nat, 1, (z - x) as nat, 1, u);
}

/// Taking the same away from what is not larger leaves what is not larger.
pub proof fn lemma_minus_grows(a: Binary, b: Binary, c: Binary)
    requires
        a.within(-400, 400),
        b.within(-400, 400),
        c.within(-400, 400),
        c.mant > 0 ==> c.exp <= a.exp,
        c.mant > 0 ==> c.exp <= b.exp,
        !b.below(a),
        !a.below(c),
    ensures
        !b.minus(c).below(a.minus(c)),
        a.minus(c).within(-452, 401),
        b.minus(c).within(-452, 401),
{
    let u = -400int;
    lemma_scaled_order(a, b, u);
    lemma_scaled_order(c, a, u);
    lemma_minus_scaled(a, c, u);
    lemma_minus_scaled(b, c, u);
    if c.mant > 0 {
        lemma_minus_within(a, c);
        lemma_minus_within(b, c);
    }
    let (x, y, z) = (a.scaled(u), b.scaled(u), c.scaled(u));
    lemma_round_ranks((x - z) as nat, 1, (y - z) as nat, 1, u);
}

/// A whole number below the largest mantissa is written without rounding.
proof fn lemma_whole_scaled(n: nat, e: int, unit: int)
    requires
        0 < n < HI,
        unit <= e,
        n * pow2((e - unit) as nat) >= LO,
    ensures
        round(n, 1, e).scaled(unit) == n * pow2((e - unit) as nat),
        unit <= round(n, 1, e).exp <= e,
        round(n, 1, e).normal(),
    decreases HI - n,
{
    if n < LO {
        let k = (e - unit) as nat;
        if k == 0 {
            lemma2_to64();
        }
        lemma_pow2_unfold(k);
        let h = pow2((k - 1) as nat);
        assert(n * (2 * h) == (2 * n) * h) by (nonlinear_arith);
        assert((e - 1 - unit) as nat == (k - 1) as nat);
        lemma_whole_scaled(2 * n, e - 1, unit);
    }
}

/// Adding keeps below a whole number of large units, where the exact sum does.
pub proof fn lemma_sum_bounded(a: Binary, b: Binary, n: nat, large: int, unit: int)
    requires
        a.within(unit, 400),
        b.within(unit, 400),
        0 < n < HI,
        -400 <= unit,
        unit + 52 <= large <= 400,
        a.scaled(unit) + b.scaled(unit) <= n * pow2((large - unit) as nat),
    ensures
        a.plus(b).scaled(unit) <= n * pow2((large - unit) as nat),
        a.plus(b).within(unit, 402),
{
    let p = pow2((large - unit) as nat);
    lemma2_to64();
    lemma2_to64_rest();
    if large - unit > 52 {
        lemma_pow2_strictly_increases(52, (large - unit) as nat);
    }
    assert(n * p >= LO) by (nonlinear_arith)
        requires
            n >= 1,
            p >= LO,
    ;
    lemma_whole_scaled(n, large, unit);
    lemma_in_units(n, 1, large, unit);
    lemma_plus_scaled(a, b, unit);
    lemma_sum_within(a, b, unit, 400);
    lemma_round_ranks(a.scaled(unit) + b.scaled(unit), 1, n * p, 1, unit);
    lemma_scaled_order(a.plus(b), round(n, 1, large), unit);
}

/// The exponent of a 64-bit count.
pub proof fn lemma_whole_within(n: nat)
    requires
        n < 0x1_0000_0000_0000_0000,
    ensures
        whole(n).within(-52, 12),
        n > 0 ==> whole(n).mant > 0,
{
    if n > 0 {
        lemma2_to64();
        lemma2_to64_rest();
        assert(pow2(52) * n >= LO) by (nonlinear_arith)
            requires
                pow2(52) == LO,
                n >= 1,
        ;
        lemma_exp_at_least(n, 1, 0, 52);
        lemma_exp_uncut(n, 1, 0, 11);
        lemma_normal(n, 1, 0);
    }
}

/// The exponent of a ratio of two 32-bit numbers.
pub proof fn lemma_ratio_within(n: nat, d: nat)
    requires
        0 < n <= u32::MAX,
        0 < d <= u32::MAX,
    ensures
        round(n, d, 0).within(-84, 1),
        round(n, d, 0).mant > 0,
{
    lemma2_to64();
    lemma2_to64_rest();
    lemma_pow2_adds(52, 32);
    assert(pow2(84) * n >= LO * d) by (nonlinear_arith)
        requires
            pow2(84) == LO * 0x1_0000_0000,
            n >= 1,
            d <= 0x1_0000_0000,
    ;
    lemma_exp_at_least(n, d, 0, 84);
    lemma_exp_uncut(n, d, 0, 0);
    lemma_normal(n, d, 0);
}

/// A count that is not larger is not written as a larger number.
pub proof fn lemma_whole_grows(n: nat, m: nat)
    requires
        n <= m < 0x1_0000_0000_0000_0000,
    ensures
        !whole(m).below(whole(n)),
{
    lemma_whole_within(n);
    lemma_whole_within(m);
    lemma_round_ranks(n, 1, m, 1, 0);
}

/// The order of two factors does not matter.
pub proof fn lemma_times_swaps(a: Binary, b: Binary)
    ensures
        a.times(b) == b.times(a),
{
    assert(a.mant * b.mant == b.mant * a.mant) by (nonlinear_arith);
}

/// Once a number is that number.
pub proof fn lemma_times_one(a: Binary)
    requires
        a.normal(),
    ensures
        a.times(whole(1)) == a,
        whole(1).times(a) == a,
        whole(1) == (Binary { mant: LO as nat, exp: -52 }),
{
    lemma2_to64();
    lemma2_to64_rest();
    lemma_small(1, 52);
    lemma_times_swaps(a, whole(1));
    lemma_scaled_exact(a, a.exp - 52);
}

/// A number goes into itself once.
pub proof fn lemma_div_self(a: Binary)
    requires
        a.mant > 0,
    ensures
        a.div(a) == whole(1),
{
    lemma_round_grows(a.mant, a.mant, 1, 1, 0);
    lemma_round_grows(1, 1, a.mant, a.mant, 0);
}

/// Numbers compare as the fractions do that they are written as.
pub proof fn lemma_fraction_order(a: Binary, b: Binary)
    requires
        a.within(-400, 400),
        b.within(-400, 400),
        !b.below(a),
    ensures
        a.denominator() > 0,
        b.denominator() > 0,
        a.numerator() * b.denominator() <= b.numerator() * a.denominator(),
{
    let u = -400int;
    let p = pow2(400);
    lemma_scaled_order(a, b, u);
    lemma_fraction(a);
    lemma_fraction(b);
    lemma_pow2_pos(400);
    let (n, d, x) = (a.numerator(), a.denominator(), a.scaled(u));
    let (m, f, y) = (b.numerator(), b.denominator(), b.scaled(u));
    assert((n * f) * p == (x * d) * f) by (nonlinear_arith)
        requires
            n * p == x * d,
    ;
    assert((m * d) * p == (y * f) * d) by (nonlinear_arith)
        requires
            m * p == y * f,
    ;
    assert((x * d) * f <= (y * f) * d) by (nonlinear_arith)
        requires
            x <= y,
    ;
    assert(n * f <= m * d) by (nonlinear_arith)
        requires
            (n * f) * p <= (m * d) * p,
            p > 0,
    ;
}

/// The fraction a number is written as, in units of `2^-400`.
pub proof fn lemma_fraction(a: Binary)
    requires
        a.within(-400, 400),
    ensures
        a.denominator() > 0,
        a.numerator() * pow2(400) == a.scaled(-400) * a.denominator(),
{
    let m = a.mant;
    let p = pow2(400);
    if a.exp >= 0 {
        let q = pow2(a.exp as nat);
        lemma_pow2_adds(a.exp as nat, 400);
        assert((m * q) * p == (m * (q * p)) * 1) by (nonlinear_arith);
    } else {
        let (q, d) = (pow2((a.exp + 400) as nat), pow2((-a.exp) as nat));
        lemma_pow2_adds((a.exp + 400) as nat, (-a.exp) as nat);
        lemma_pow2_pos((-a.exp) as nat);
        assert(m * (q * d) == (m * q) * d) by (nonlinear_arith);
    }
}

/// What is not larger has no larger whole part, is not rounded to a larger whole
/// number, and shows no larger digits.
pub proof fn lemma_digits_grow(a: Binary, b: Binary)
    requires
        a.within(-400, 400),
        b.within(-400, 400),
        !b.below(a),
    ensures
        a.whole_part() <= b.whole_part(),
        a.rounded_up() <= b.rounded_up(),
        a.tenths() <= b.tenths(),
{
    lemma_fraction_order(a, b);
    let (n, d) = (a.numerator(), a.denominator());
    let (m, e) = (b.numerator(), b.denominator());
    let (p, r) = (n / d, n % d);
    let (q, t) = (m / e, m % e);
    lemma_fundamental_div_mod(n as int, d as int);
    lemma_fundamental_div_mod(m as int, e as int);
    lemma_split(m as int, e as int, n as int, d as int, q as int, p as int, t as int, r as int);
    if p == q && 2 * r >= d {
        assert(2 * t >= e) by (nonlinear_arith)
            requires
                r * e <= t * d,
                2 * r >= d,
                d > 0,
                e > 0,
        ;
    }
    assert((10 * n) * e <= (10 * m) * d) by (nonlinear_arith)
        requires
            n * e <= m * d,
    ;
    lemma_nearest_grows(10 * n, d, 10 * m, e);
}

/// The digits of a small whole number.
pub proof fn lemma_whole_digits(n: nat, j: nat)
    requires
        0 < j <= 52,
        LO <= n * pow2(j) < HI,
    ensures
        whole(n).whole_part() == n,
        whole(n).rounded_up() == n,
{
    lemma_small(n, j);
    lemma_pow2_pos(j);
    let d = pow2(j);
    assert(n * d == d * n + 0) by (nonlinear_arith);
    lemma_fundamental_div_mod_converse((n * d) as int, d as int, n as int, 0);
}

// ── The numbers ──────────────────────────────────────────────────────────────

/// A double-precision number that is not negative.
#[derive(Clone, Copy, Debug, PartialEq, Eq, Structural)]
pub struct Double {
    pub mant: u64,
    pub exp: i32,
}

impl View for Double {
    type V = Binary;

    open spec fn view(&self) -> Binary {
        Binary { mant: self.mant as nat, exp: self.exp as int }
    }
}

/// `2^k`.
fn power(k: u32) -> (out: u128)
    requires
        k <= 126,
    ensures
        out == pow2(k as nat),
{
    let mut out: u128 = 1;
    proof {
        lemma2_to64();
        lemma_pow2_adds(63, 63);
        lemma2_to64_rest();
    }
    for i in 0..k
        invariant
            k <= 126,
            out == pow2(i as nat),
            pow2(126) == 0x8000_0000_0000_0000 * 0x8000_0000_0000_0000,
    {
        proof {
            lemma_pow2_unfold((i + 1) as nat);
            if i + 1 < 126 {
                lemma_pow2_strictly_increases((i + 1) as nat, 126);
            }
        }
        out = 2 * out;
    }
    out
}

/// The number nearest to `n / d × 2^e`.
fn round_to(n: u128, d: u128, e: i32) -> (out: Double)
    requires
        n > 0,
        0 < d < HI,
        -10_000 <= e <= 10_000,
    ensures
        out@ == round(n as nat, d as nat, e as int),
        LO <= out.mant < HI,
{
    proof {
        lemma_normal(n as nat, d as nat, e as int);
        lemma2_to64();
        lemma2_to64_rest();
        lemma_pow2_adds(64, 62);
        lemma_pow2_adds(64, 64);
    }
    let ghost whole = round(n as nat, d as nat, e as int);
    let (lo, hi): (u128, u128) = (LO as u128, HI as u128);
    let (mut n, mut d): (u128, u128) = (n, d);
    let mut k: i32 = 0;
    while n < lo * d
        invariant
            lo == LO,
            n > 0,
            0 < d < HI,
            0 <= k <= 126,
            n >= pow2(k as nat),
            pow2(126) == 0x1_0000_0000_0000_0000 * 0x4000_0000_0000_0000,
            -10_000 <= e <= 10_000,
            whole == widen(n as nat, d as nat, e - k),
        decreases 126 - k,
    {
        assert(lo * d < 0x10_0000_0000_0000 * 0x20_0000_0000_0000) by (nonlinear_arith)
            requires
                lo == 0x10_0000_0000_0000,
                d < 0x20_0000_0000_0000,
        ;
        proof {
            lemma_pow2_unfold((k + 1) as nat);
            if k + 1 >= 126 {
                if k + 1 > 126 {
                    lemma_pow2_strictly_increases(126, (k + 1) as nat);
                }
                assert(false);
            }
        }
        n = 2 * n;
        k = k + 1;
    }
    let top: i32 = e - k;
    let mut up: i32 = 0;
    assert(whole == cut(n as nat, d as nat, top as int));
    while n / hi >= d
        invariant
            hi == HI,
            d > 0,
            0 <= up <= 127,
            d >= pow2(up as nat),
            pow2(64) == 0x1_0000_0000_0000_0000,
            pow2(128) == 0x1_0000_0000_0000_0000 * 0x1_0000_0000_0000_0000,
            -20_000 <= top <= 20_000,
            whole == cut(n as nat, d as nat, top + up),
        decreases n - d,
    {
        assert(hi * d <= n) by (nonlinear_arith)
            requires
                n / hi >= d,
                hi > 0,
        ;
        proof {
            lemma_pow2_unfold((up + 1) as nat);
            if up + 1 > 127 {
                assert(false);
            }
        }
        d = 2 * d;
        up = up + 1;
    }
    assert(!(n >= HI * d)) by (nonlinear_arith)
        requires
            n / hi < d,
            hi == HI,
            hi > 0,
    ;
    let m: u128 = divide_nearest(n, d);
    if m >= hi {
        Double { mant: LO, exp: top + up + 1 }
    } else {
        Double { mant: m as u64, exp: top + up }
    }
}

impl Double {
    pub fn zero() -> (out: Double)
        ensures
            out@ == Binary::zero(),
    {
        Double { mant: 0, exp: 0 }
    }

    /// The number nearest to `n`.
    pub fn of(n: u64) -> (out: Double)
        ensures
            out@ == whole(n as nat),
            out@.within(-52, 12),
            n > 0 ==> out.mant > 0,
    {
        if n == 0 {
            return Double::zero();
        }
        proof {
            lemma_whole_within(n as nat);
        }
        round_to(n as u128, 1, 0)
    }

    /// The number nearest to `n / d`.
    pub fn ratio(n: u32, d: u32) -> (out: Double)
        requires
            d > 0,
        ensures
            out@ == round(n as nat, d as nat, 0),
            out@.within(-84, 1),
            n > 0 ==> out.mant > 0,
    {
        if n == 0 {
            return Double::zero();
        }
        proof {
            lemma_ratio_within(n as nat, d as nat);
        }
        round_to(n as u128, d as u128, 0)
    }

    /// `self / other`.
    pub fn div(self, other: Double) -> (out: Double)
        requires
            self@.within(-4_000, 4_000),
            other@.within(-4_000, 4_000),
            other.mant > 0,
        ensures
            out@ == self@.div(other@),
            out@.within(self.exp - other.exp - 53, self.exp - other.exp - 51),
            self.mant > 0 ==> out.mant > 0,
    {
        if self.mant == 0 {
            return Double::zero();
        }
        proof {
            lemma_div_within(self@, other@);
        }
        round_to(self.mant as u128, other.mant as u128, self.exp - other.exp)
    }

    /// `self × other`.
    pub fn times(self, other: Double) -> (out: Double)
        requires
            self@.within(-4_000, 4_000),
            other@.within(-4_000, 4_000),
        ensures
            out@ == self@.times(other@),
            out@.within(self.exp + other.exp + 52, self.exp + other.exp + 54),
            self.mant > 0 && other.mant > 0 ==> out.mant > 0,
    {
        if self.mant == 0 || other.mant == 0 {
            assert(self.mant * other.mant == 0) by (nonlinear_arith)
                requires
                    self.mant == 0 || other.mant == 0,
            ;
            return Double::zero();
        }
        let (a, b): (u128, u128) = (self.mant as u128, other.mant as u128);
        proof {
            lemma_times_within(self@, other@);
            assert(a * b < HI * HI) by (nonlinear_arith)
                requires
                    a < HI,
                    b < HI,
            ;
        }
        round_to(a * b, 1, self.exp + other.exp)
    }

    /// `self + other`, where `self` has the larger exponent.
    fn plus_smaller(self, other: Double) -> (out: Double)
        requires
            self@.within(-4_000, 4_000),
            other@.within(-4_000, 4_000),
            self.mant > 0,
            other.mant > 0,
            self.exp >= other.exp,
        ensures
            out@ == self@.plus(other@),
            out@.within(other.exp as int, self.exp + 2),
            out.mant > 0,
    {
        let k: i32 = self.exp - other.exp;
        if k > 60 {
            proof {
                lemma_absorbs(self@, other@);
            }
            return self;
        }
        let scale: u128 = power(k as u32);
        let (a, b): (u128, u128) = (self.mant as u128, other.mant as u128);
        proof {
            lemma2_to64();
            lemma2_to64_rest();
            if k < 60 {
                lemma_pow2_strictly_increases(k as nat, 60);
            }
            lemma_pow2_pos(k as nat);
            assert(LO <= a * scale < HI * scale && HI * scale <= HI * 0x1000_0000_0000_0000)
                by (nonlinear_arith)
                requires
                    LO <= a < HI,
                    1 <= scale <= 0x1000_0000_0000_0000,
            ;
            lemma_plus_within(self@, other@);
        }
        round_to(a * scale + b, 1, other.exp)
    }

    /// `self + other`.
    pub fn plus(self, other: Double) -> (out: Double)
        requires
            self@.within(-4_000, 4_000),
            other@.within(-4_000, 4_000),
        ensures
            out@ == self@.plus(other@),
            out@.normal(),
            forall|low: int, high: int|
                #![trigger self@.within(low, high), other@.within(low, high)]
                self@.within(low, high) && other@.within(low, high) ==> out@.within(low, high + 2),
    {
        if self.mant == 0 {
            return other;
        }
        if other.mant == 0 {
            return self;
        }
        if self.exp >= other.exp {
            self.plus_smaller(other)
        } else {
            other.plus_smaller(self)
        }
    }

    /// `self - other`, where `other` is the smaller.
    pub fn minus(self, other: Double) -> (out: Double)
        requires
            self@.within(-4_000, 4_000),
            other@.within(-4_000, 4_000),
            other.mant > 0 ==> self.mant > 0 && 0 <= self.exp - other.exp <= 70 && other.mant
                <= self.mant * pow2((self.exp - other.exp) as nat),
        ensures
            out@ == self@.minus(other@),
            out@.within(
                if other.mant == 0 {
                    self.exp as int
                } else {
                    other.exp - 52
                },
                self.exp + 1,
            ),
    {
        if other.mant == 0 {
            return self;
        }
        let k: i32 = self.exp - other.exp;
        let scale: u128 = power(k as u32);
        let (a, b): (u128, u128) = (self.mant as u128, other.mant as u128);
        proof {
            lemma2_to64();
            lemma2_to64_rest();
            lemma_pow2_adds(35, 35);
            lemma_pow2_pos(k as nat);
            if k < 70 {
                lemma_pow2_strictly_increases(k as nat, 70);
            }
            assert(a * scale < HI * scale && HI * scale <= HI * (0x8_0000_0000 * 0x8_0000_0000))
                by (nonlinear_arith)
                requires
                    a < HI,
                    1 <= scale <= 0x8_0000_0000 * 0x8_0000_0000,
            ;
        }
        proof {
            lemma_minus_within(self@, other@);
        }
        let n: u128 = a * scale - b;
        if n == 0 {
            return Double::zero();
        }
        round_to(n, 1, other.exp)
    }

    /// Its place among all numbers.
    pub fn rank(self) -> (out: u128)
        requires
            self@.within(-1_000, 1_000),
        ensures
            out == self@.rank(),
    {
        if self.mant == 0 {
            0
        } else {
            let above: u128 = (self.exp + 2000) as u128;
            assert(above * HI <= 3000 * HI) by (nonlinear_arith)
                requires
                    above <= 3000,
            ;
            above * HI as u128 + self.mant as u128
        }
    }

    /// Whether it is smaller than `other`.
    pub fn less(self, other: Double) -> (r: bool)
        requires
            self@.within(-1_000, 1_000),
            other@.within(-1_000, 1_000),
        ensures
            r == self@.below(other@),
    {
        self.rank() < other.rank()
    }

    /// The whole part.
    pub fn whole_part(self) -> (out: u128)
        requires
            self@.within(-1_000, 60),
        ensures
            out == self@.whole_part(),
    {
        if self.exp >= 0 {
            proof {
                lemma_room(self.mant, self.exp);
            }
            self.mant as u128 * power(self.exp as u32)
        } else if self.exp < -120 {
            proof {
                lemma_tiny(self.mant, self.exp);
            }
            0
        } else {
            let d: u128 = power((-self.exp) as u32);
            proof {
                lemma_pow2_pos((-self.exp) as nat);
            }
            self.mant as u128 / d
        }
    }

    /// The nearest whole number, and the larger of two that are as near.
    pub fn rounded_up(self) -> (out: u128)
        requires
            self@.within(-1_000, 60),
        ensures
            out == self@.rounded_up(),
    {
        if self.exp >= 0 {
            proof {
                lemma_room(self.mant, self.exp);
            }
            let out: u128 = self.mant as u128 * power(self.exp as u32);
            assert(out as nat / 1 == out && out as nat % 1 == 0);
            out
        } else if self.exp < -120 {
            proof {
                lemma_tiny(self.mant, self.exp);
            }
            0
        } else {
            let d: u128 = power((-self.exp) as u32);
            proof {
                lemma_pow2_pos((-self.exp) as nat);
            }
            let (q, r): (u128, u128) = (self.mant as u128 / d, self.mant as u128 % d);
            if r >= d - r {
                q + 1
            } else {
                q
            }
        }
    }

    /// The number in tenths, to the nearest.
    pub fn tenths(self) -> (out: u128)
        requires
            self@.within(-1_000, 60),
        ensures
            out == self@.tenths(),
    {
        if self.exp >= 0 {
            proof {
                lemma_room(self.mant, self.exp);
            }
            10 * self.mant as u128 * power(self.exp as u32)
        } else if self.exp < -120 {
            proof {
                lemma_tiny(self.mant, self.exp);
            }
            0
        } else {
            let d: u128 = power((-self.exp) as u32);
            proof {
                lemma_pow2_pos((-self.exp) as nat);
            }
            divide_nearest(10 * self.mant as u128, d)
        }
    }
}

/// A number with a moderate exponent can be written out.
proof fn lemma_room(mant: u64, exp: i32)
    requires
        mant < HI,
        0 <= exp <= 60,
    ensures
        0 <= mant * pow2(exp as nat) <= HI * 0x1000_0000_0000_0000,
        10 * mant * pow2(exp as nat) == 10 * (mant * pow2(exp as nat)),
        (10 * mant) as int * pow2(exp as nat) == 10 * (mant * pow2(exp as nat)),
{
    lemma2_to64();
    lemma2_to64_rest();
    if exp < 60 {
        lemma_pow2_strictly_increases(exp as nat, 60);
    }
    let p = pow2(exp as nat);
    assert(0 <= mant * p <= HI * 0x1000_0000_0000_0000) by (nonlinear_arith)
        requires
            mant < HI,
            p <= 0x1000_0000_0000_0000,
    ;
    assert((10 * mant) * p == 10 * (mant * p)) by (nonlinear_arith);
}

/// A number with a very low exponent is next to nothing.
proof fn lemma_tiny(mant: u64, exp: i32)
    requires
        mant < HI,
        exp < -120,
    ensures
        mant as nat / pow2((-exp) as nat) == 0,
        2 * (mant as nat % pow2((-exp) as nat)) < pow2((-exp) as nat),
        nearest(10 * mant as nat, pow2((-exp) as nat)) == 0,
{
    lemma2_to64();
    lemma2_to64_rest();
    lemma_pow2_adds(60, 60);
    lemma_pow2_strictly_increases(120, (-exp) as nat);
    let p = pow2((-exp) as nat);
    lemma_fundamental_div_mod_converse(mant as int, p as int, 0, mant as int);
    lemma_fundamental_div_mod_converse(10 * mant as int, p as int, 0, 10 * mant as int);
}

// ── Laws ─────────────────────────────────────────────────────────────────────

/// `r` lies within half of its last place of `n / d × 2^e`, and has an even mantissa
/// where it is off by exactly that much. All is counted in units of `2^unit / d`.
pub open spec fn is_nearest(r: Binary, n: nat, d: nat, e: int, unit: int) -> bool {
    let exact = n * pow2((e - unit) as nat);
    let place = d * pow2((r.exp - unit) as nat);
    let off = exact - r.mant * place;
    &&& -place <= 2 * off <= place
    &&& 2 * off == place || 2 * off == -place ==> r.mant % 2 == 0
}

/// Rounding gives the nearest number there is, and of two that are as near the even
/// one; of nothing it gives nothing.
pub proof fn rounding_is_to_the_nearest(n: nat, d: nat, e: int)
    requires
        d > 0,
    ensures
        round(n, d, e).normal(),
        n == 0 ==> round(n, d, e) == Binary::zero(),
        n > 0 ==> round(n, d, e).mant > 0 && is_nearest(
            round(n, d, e),
            n,
            d,
            e,
            least(e, round(n, d, e).exp),
        ),
    decreases
            (if n < LO * d {
                LO * d - n
            } else {
                0
            }),
{
    if n > 0 {
        let r = round(n, d, e);
        lemma_normal(n, d, e);
        if n < LO * d {
            rounding_is_to_the_nearest(2 * n, d, e - 1);
            assert(r == round(2 * n, d, e - 1));
            if r.exp < e {
                let k = (e - r.exp) as nat;
                lemma_pow2_unfold(k);
                let h = pow2((k - 1) as nat);
                assert((2 * n) * h == n * (2 * h)) by (nonlinear_arith);
                assert((e - 1 - r.exp) as nat == (k - 1) as nat);
            } else {
                lemma_widened(n, d, e);
                lemma2_to64();
                assert(is_nearest(r, 2 * n, d, e - 1, e - 1));
                assert((r.exp - (e - 1)) as nat == 1 && (e - 1 - (e - 1)) as nat == 0);
                assert((r.exp - e) as nat == 0);
                let (m, one, two) = (r.mant, d * pow2(0), d * pow2(1));
                assert(one == d && two == 2 * d);
                assert(m * two == 2 * (m * one)) by (nonlinear_arith)
                    requires
                        two == 2 * one,
                ;
                assert((2 * n) * pow2(0) == 2 * (n * pow2(0)));
                assert(is_nearest(r, n, d, e, e));
            }
        } else {
            lemma_cut_nearest(n, d, e);
        }
    }
}

proof fn lemma_cut_nearest(n: nat, d: nat, e: int)
    requires
        d > 0,
        n >= LO * d,
    ensures
        cut(n, d, e).exp >= e,
        is_nearest(cut(n, d, e), n, d, e, e),
    decreases n - d,
{
    lemma2_to64();
    let r = cut(n, d, e);
    if n >= HI * d {
        lemma_cut_nearest(n, 2 * d, e + 1);
        let k = (r.exp - e) as nat;
        lemma_pow2_unfold(k);
        let h = pow2((k - 1) as nat);
        assert((r.exp - (e + 1)) as nat == (k - 1) as nat);
        assert((2 * d) * h == d * (2 * h)) by (nonlinear_arith);
        assert((e - e) as nat == 0 && (e + 1 - (e + 1)) as nat == 0);
    } else {
        let m = nearest(n, d);
        let (q, left) = (n / d, n % d);
        lemma_fundamental_div_mod(n as int, d as int);
        assert(d * q == q * d && (q + 1) * d == q * d + d) by (nonlinear_arith);
        lemma_pow2_unfold(1);
        if m >= HI {
            assert(q < HI) by (nonlinear_arith)
                requires
                    n < HI * d,
                    n == d * q + left,
                    left >= 0,
                    d > 0,
            ;
            assert(m == HI && m == q + 1);
            let place = d * pow2(1);
            assert(LO * place == HI * d) by (nonlinear_arith)
                requires
                    place == d * 2,
                    HI == 2 * LO,
            ;
            assert((r.exp - e) as nat == 1);
        } else {
            assert(d * pow2(0) == d);
            assert((r.exp - e) as nat == 0);
        }
    }
}

} // verus!
