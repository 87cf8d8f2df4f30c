//! How near the numbers that are computed come to the exact ones. Every number is
//! counted in units of `2^-400`, of which it is a whole number, so that everything here
//! is said of integers.

use vstd::arithmetic::div_mod::*;
use vstd::arithmetic::power2::*;
use vstd::prelude::*;

use crate::double;
use crate::double::{Binary, HI, LO};
use crate::percent;
use crate::percent::Percent;

verus! {

/// A number in units of `2^-400`.
pub open spec fn amount(a: Binary) -> nat {
    a.mant * pow2((a.exp + 400) as nat)
}

/// How many units make one.
pub open spec fn one() -> nat {
    pow2(400)
}

/// `computed` is off `exact` by no more than a part in `2^53` of itself.
pub open spec fn is_near(computed: int, exact: int) -> bool {
    -computed <= (exact - computed) * 0x20_0000_0000_0000 <= computed
}

/// What is rounded is off by no more than a part in `2^53`.
pub proof fn rounding_is_near(n: nat, d: nat, e: int)
    requires
        d > 0,
        e >= -400,
        double::round(n, d, e).exp >= -400,
    ensures
        is_near((d * amount(double::round(n, d, e))) as int, (n * pow2((e + 400) as nat)) as int),
{
    let r = double::round(n, d, e);
    double::rounding_is_to_the_nearest(n, d, e);
    let total = pow2((e + 400) as nat);
    if n == 0 {
        assert(amount(r) == 0) by (nonlinear_arith)
            requires
                amount(r) == r.mant * pow2((r.exp + 400) as nat),
                r.mant == 0,
        ;
        assert(d * amount(r) == 0) by (nonlinear_arith)
            requires
                amount(r) == 0,
        ;
        assert(n * total == 0) by (nonlinear_arith)
            requires
                n == 0,
        ;
    } else {
        double::lemma_normal(n, d, e);
        let u = double::least(e, r.exp);
        let (p, q, k) = (
            pow2((e - u) as nat),
            pow2((r.exp - u) as nat),
            pow2((u + 400) as nat),
        );
        lemma_pow2_adds((e - u) as nat, (u + 400) as nat);
        lemma_pow2_adds((r.exp - u) as nat, (u + 400) as nat);
        lemma_pow2_pos((u + 400) as nat);
        let (exact, place) = ((n * p) as int, (d * q) as int);
        let m = r.mant as int;
        let off = exact - m * place;
        let h = HI as int;
        assert(-(m * place) <= off * h <= m * place) by (nonlinear_arith)
            requires
                -place <= 2 * off <= place,
                h == 2 * LO,
                m >= LO,
                place >= 0,
        ;
        assert((n * p) * k == n * (p * k)) by (nonlinear_arith);
        assert((m * (d * q)) * k == d * (m * (q * k))) by (nonlinear_arith);
        assert(d * amount(r) == (m * place) * k);
        assert(n * total == exact * k);
        assert(-((m * place) * k) <= (exact * k - (m * place) * k) * h <= (m * place) * k)
            by (nonlinear_arith)
            requires
                -(m * place) <= off * h <= m * place,
                off == exact - m * place,
                k > 0,
        ;
    }
}

/// A count is written as a number next to it.
pub proof fn a_count_is_near(n: nat)
    requires
        n <= u64::MAX,
    ensures
        is_near(amount(double::whole(n)) as int, (n * one()) as int),
{
    double::lemma_whole_within(n);
    rounding_is_near(n, 1, 0);
    assert(1 * amount(double::whole(n)) == amount(double::whole(n)));
}

/// A quotient is near: as often as it says, the divisor goes into the dividend.
pub proof fn a_quotient_is_near(a: Binary, b: Binary)
    requires
        a.within(-200, 100),
        b.within(-100, 100),
        b.mant > 0,
        a.mant > 0 ==> a.exp - b.exp >= -300,
    ensures
        is_near((amount(b) * amount(a.div(b))) as int, (amount(a) * one()) as int),
{
    let q = a.div(b);
    let e = a.exp - b.exp;
    if a.mant == 0 {
        assert(amount(a) == 0) by (nonlinear_arith)
            requires
                amount(a) == a.mant * pow2((a.exp + 400) as nat),
                a.mant == 0,
        ;
        assert(amount(q) == 0) by (nonlinear_arith)
            requires
                amount(q) == q.mant * pow2((q.exp + 400) as nat),
                q.mant == 0,
        ;
        assert(amount(b) * amount(q) == 0 && amount(a) * one() == 0) by (nonlinear_arith)
            requires
                amount(a) == 0,
                amount(q) == 0,
        ;
    } else {
        double::lemma_div_within(a, b);
        rounding_is_near(a.mant, b.mant, e);
        let (x, y, z, k) = (
            a.mant as int,
            b.mant as int,
            pow2((e + 400) as nat) as int,
            pow2((b.exp + 400) as nat) as int,
        );
        lemma_pow2_pos((b.exp + 400) as nat);
        lemma_pow2_adds((e + 400) as nat, (b.exp + 400) as nat);
        lemma_pow2_adds((a.exp + 400) as nat, 400);
        assert((e + 400) + (b.exp + 400) == (a.exp + 400) + 400);
        let w = amount(q) as int;
        assert((x * z) * k == x * (z * k)) by (nonlinear_arith);
        assert(amount(a) * one() == x * (z * k)) by (nonlinear_arith)
            requires
                amount(a) == x * pow2((a.exp + 400) as nat),
                z * k == pow2((a.exp + 400) as nat) * one(),
        ;
        assert((y * w) * k == (y * k) * w) by (nonlinear_arith);
        lemma_near_scales(y * w, x * z, k);
    }
}

/// Nearness does not depend on the scale.
pub proof fn lemma_near_scales(computed: int, exact: int, k: int)
    requires
        is_near(computed, exact),
        k > 0,
    ensures
        is_near(computed * k, exact * k),
{
    let h = 0x20_0000_0000_0000int;
    assert(-(computed * k) <= (exact * k - computed * k) * h <= computed * k) by (nonlinear_arith)
        requires
            -computed <= (exact - computed) * h <= computed,
            k > 0,
    ;
}

/// A product is near.
pub proof fn a_product_is_near(a: Binary, b: Binary)
    requires
        a.within(-250, 100),
        b.within(-150, 100),
    ensures
        is_near((one() * amount(a.times(b))) as int, (amount(a) * amount(b)) as int),
{
    let s = a.times(b);
    let e = a.exp + b.exp;
    double::lemma_times_within(a, b);
    if a.mant == 0 || b.mant == 0 {
        assert(amount(a) * amount(b) == 0) by (nonlinear_arith)
            requires
                amount(a) == a.mant * pow2((a.exp + 400) as nat),
                amount(b) == b.mant * pow2((b.exp + 400) as nat),
                a.mant == 0 || b.mant == 0,
        ;
        assert(a.mant * b.mant == 0) by (nonlinear_arith)
            requires
                a.mant == 0 || b.mant == 0,
        ;
        assert(one() * amount(s) == 0) by (nonlinear_arith)
            requires
                amount(s) == s.mant * pow2((s.exp + 400) as nat),
                s.mant == 0,
        ;
    } else {
        rounding_is_near(a.mant * b.mant, 1, e);
        let (p, q) = (pow2((a.exp + 400) as nat) as int, pow2((b.exp + 400) as nat) as int);
        lemma_pow2_adds((a.exp + 400) as nat, (b.exp + 400) as nat);
        lemma_pow2_adds((e + 400) as nat, 400);
        lemma_pow2_pos(400);
        assert((a.exp + 400) + (b.exp + 400) == (e + 400) + 400);
        let (m, n, z, k) = (
            a.mant as int,
            b.mant as int,
            pow2((e + 400) as nat) as int,
            one() as int,
        );
        assert(((m * n) * z) * k == (m * n) * (z * k)) by (nonlinear_arith);
        assert((m * p) * (n * q) == (m * n) * (p * q)) by (nonlinear_arith);
        assert(amount(s) * k == one() * amount(s)) by (nonlinear_arith)
            requires
                k == one(),
        ;
        lemma_near_scales(1 * amount(s) as int, (m * n) * z, k);
    }
}

/// A sum is near.
pub proof fn a_sum_is_near(a: Binary, b: Binary)
    requires
        a.within(-300, 100),
        b.within(-300, 100),
    ensures
        is_near(amount(a.plus(b)) as int, (amount(a) + amount(b)) as int),
{
    if a.mant == 0 {
        assert(amount(a) == 0) by (nonlinear_arith)
            requires
                amount(a) == a.mant * pow2((a.exp + 400) as nat),
                a.mant == 0,
        ;
    } else if b.mant == 0 {
        assert(amount(b) == 0) by (nonlinear_arith)
            requires
                amount(b) == b.mant * pow2((b.exp + 400) as nat),
                b.mant == 0,
        ;
    } else if a.exp >= b.exp {
        lemma_sum_is_near(a, b);
    } else {
        lemma_sum_is_near(b, a);
        assert(a.plus(b) == b.plus(a));
    }
}

proof fn lemma_sum_is_near(a: Binary, b: Binary)
    requires
        a.within(-300, 100),
        b.within(-300, 100),
        a.mant > 0,
        b.mant > 0,
        a.exp >= b.exp,
    ensures
        is_near(amount(a.plus(b)) as int, (amount(a) + amount(b)) as int),
{
    let k = pow2((a.exp - b.exp) as nat);
    let z = pow2((b.exp + 400) as nat);
    double::lemma_sum_within(a, b, -300, 100);
    rounding_is_near(a.mant * k + b.mant, 1, b.exp);
    lemma_pow2_adds((a.exp - b.exp) as nat, (b.exp + 400) as nat);
    let (m, n) = (a.mant, b.mant);
    assert((m * k + n) * z == m * (k * z) + n * z) by (nonlinear_arith);
    assert(1 * amount(a.plus(b)) == amount(a.plus(b)));
}

/// A difference is near.
pub proof fn a_difference_is_near(a: Binary, b: Binary)
    requires
        a.within(-300, 100),
        b.within(-300, 100),
        b.mant > 0 ==> a.exp >= b.exp && b.mant <= a.scaled(b.exp),
    ensures
        is_near(amount(a.minus(b)) as int, amount(a) - amount(b)),
{
    if b.mant == 0 {
        assert(amount(b) == 0) by (nonlinear_arith)
            requires
                amount(b) == b.mant * pow2((b.exp + 400) as nat),
                b.mant == 0,
        ;
    } else {
        let k = pow2((a.exp - b.exp) as nat);
        let z = pow2((b.exp + 400) as nat);
        let (m, n) = (a.mant as int, b.mant as int);
        double::lemma_minus_within(a, b);
        rounding_is_near((m * k - n) as nat, 1, b.exp);
        lemma_pow2_adds((a.exp - b.exp) as nat, (b.exp + 400) as nat);
        assert((m * k - n) * z == m * (k * z) - n * z) by (nonlinear_arith);
        assert(1 * amount(a.minus(b)) == amount(a.minus(b)));
    }
}

// ── Percentages ──────────────────────────────────────────────────────────────

/// A share is a hundred times its count over the whole, but for a part in `2^50`.
pub proof fn a_share_is_what_it_is_of_a_hundred(part: nat, whole: nat)
    requires
        part <= u64::MAX,
        0 < whole <= u64::MAX,
    ensures
        ({
            let shown = (amount(percent::share(part, whole)) * whole) as int;
            let exact = (100 * part * one()) as int;
            -shown <= (exact - shown) * 0x4_0000_0000_0000 <= shown
        }),
{
    let (a, b, h) = (double::whole(part), double::whole(whole), double::whole(100));
    let (q, s) = (a.div(b), percent::share(part, whole));
    double::lemma_whole_within(part);
    double::lemma_whole_within(whole);
    double::lemma_div_within(a, b);
    percent::lemma_hundred();
    a_count_is_near(part);
    a_count_is_near(whole);
    a_quotient_is_near(a, b);
    a_product_is_near(q, h);
    lemma_pow2_adds(46, 354);
    assert((-46 + 400) as nat == 354);
    let p = one() as int;
    lemma_pow2_pos(400);
    assert(amount(h) == 100 * p) by (nonlinear_arith)
        requires
            amount(h) == (100 * pow2(46)) * pow2(354),
            pow2(46) * pow2(354) == p,
    ;
    let (v, w) = (amount(q) as int, amount(s) as int);
    assert(one() * amount(s) == w * p && amount(q) * amount(h) == (100 * v) * p) by (nonlinear_arith)
        requires
            amount(h) == 100 * p,
            p == one(),
            v == amount(q),
            w == amount(s),
    ;
    lemma_near_cancels(w, 100 * v, p);
    lemma_share_chain(
        part as int,
        whole as int,
        p,
        amount(a) as int,
        amount(b) as int,
        amount(q) as int,
        amount(s) as int,
    );
    assert(100 * part * one() == 100 * (part * p)) by (nonlinear_arith)
        requires
            p == one(),
    ;
}

/// Nearness does not depend on the scale.
pub proof fn lemma_near_cancels(computed: int, exact: int, k: int)
    requires
        is_near(computed * k, exact * k),
        k > 0,
    ensures
        is_near(computed, exact),
{
    let h = 0x20_0000_0000_0000int;
    assert(-computed <= (exact - computed) * h <= computed) by (nonlinear_arith)
        requires
            -(computed * k) <= (exact * k - computed * k) * h <= computed * k,
            k > 0,
    ;
}

proof fn lemma_share_chain(x: int, w: int, p: int, a: int, b: int, q: int, s: int)
    requires
        x >= 0,
        w >= 0,
        p > 0,
        a >= 0,
        b >= 0,
        q >= 0,
        s >= 0,
        is_near(a, x * p),
        is_near(b, w * p),
        is_near(b * q, a * p),
        is_near(s, 100 * q),
    ensures
        -(s * w) <= (100 * (x * p) - s * w) * 0x4_0000_0000_0000 <= s * w,
{
    let m = 0x20_0000_0000_0000int;
    let (ap, bq, xp) = (a * p, b * q, x * p);
    let (wp, t) = (w * p, s * w);
    // The dividend and the quotient, over the unit once more.
    assert((m - 1) * ap <= m * (xp * p) <= (m + 1) * ap) by (nonlinear_arith)
        requires
            (m - 1) * a <= m * xp <= (m + 1) * a,
            ap == a * p,
            p > 0,
    ;
    // The divisor and the product together.
    assert(((m - 1) * b) * (100 * (m * q)) <= (m * wp) * ((m + 1) * s)) by (nonlinear_arith)
        requires
            0 <= (m - 1) * b <= m * wp,
            0 <= 100 * (m * q) <= (m + 1) * s,
    ;
    assert((m * wp) * ((m - 1) * s) <= ((m + 1) * b) * (100 * (m * q))) by (nonlinear_arith)
        requires
            0 <= m * wp <= (m + 1) * b,
            0 <= (m - 1) * s <= 100 * (m * q),
    ;
    let ts = wp * s;
    assert((m - 1) * (100 * bq) <= (m + 1) * ts) by (nonlinear_arith)
        requires
            ((m - 1) * b) * (100 * (m * q)) <= (m * wp) * ((m + 1) * s),
            bq == b * q,
            ts == wp * s,
            m == 0x20_0000_0000_0000,
    ;
    assert((m - 1) * ts <= (m + 1) * (100 * bq)) by (nonlinear_arith)
        requires
            (m * wp) * ((m - 1) * s) <= ((m + 1) * b) * (100 * (m * q)),
            bq == b * q,
            ts == wp * s,
            m == 0x20_0000_0000_0000,
    ;
    let y = xp * p;
    assert(ts == t * p) by (nonlinear_arith)
        requires
            ts == (w * p) * s,
            t == s * w,
    ;
    lemma_constants(y, ap, bq, ts);
    let e = 0x4_0000_0000_0000int;
    assert(-t <= (100 * xp - t) * e <= t) by (nonlinear_arith)
        requires
            -(t * p) <= (100 * (xp * p) - t * p) * e <= t * p,
            p > 0,
    ;
}

proof fn lemma_constants(y: int, ap: int, bq: int, ts: int)
    requires
        y >= 0,
        ap >= 0,
        bq >= 0,
        ts >= 0,
        0x1f_ffff_ffff_ffff * ap <= 0x20_0000_0000_0000 * y <= 0x20_0000_0000_0001 * ap,
        0x1f_ffff_ffff_ffff * bq <= 0x20_0000_0000_0000 * ap <= 0x20_0000_0000_0001 * bq,
        0x1f_ffff_ffff_ffff * (100 * bq) <= 0x20_0000_0000_0001 * ts,
        0x1f_ffff_ffff_ffff * ts <= 0x20_0000_0000_0001 * (100 * bq),
    ensures
        -ts <= (100 * y - ts) * 0x4_0000_0000_0000 <= ts,
{
}

/// A sum of shares is all of them: none is nothing, and each one more adds its share,
/// but for a part in `2^53`.
pub proof fn every_share_is_added(counts: Seq<(u32, u64)>, whole: nat, pid: u32, count: u64)
    requires
        counts.len() < 0x1_0000_0000,
        whole <= u64::MAX,
    ensures
        amount(percent::summed(Seq::empty(), whole)) == 0,
        is_near(
            amount(percent::summed(counts.push((pid, count)), whole)) as int,
            (amount(percent::summed(counts, whole)) + amount(
                percent::share(count as nat, whole),
            )) as int,
        ),
        percent::summed(seq![(pid, count)], whole) == percent::share(count as nat, whole),
{
    let more = counts.push((pid, count));
    assert(more.drop_last() =~= counts);
    percent::lemma_summed_within(counts, whole);
    percent::lemma_share_within(count as nat, whole);
    a_sum_is_near(percent::summed(counts, whole), percent::share(count as nat, whole));
    assert(0 * pow2(400) == 0);
    let single = seq![(pid, count)];
    assert(single.drop_last() =~= Seq::<(u32, u64)>::empty());
    reveal_with_fuel(percent::summed, 2);
}

/// A percentage is under a bound where it is smaller, told apart as finely as numbers
/// are: a part in `2^52` below the bound it is under, a part in `2^52` above it is not.
pub proof fn under_is_smaller(p: Percent, n: nat, d: nat)
    requires
        p.valid(),
        0 < n <= u32::MAX,
        0 < d <= u32::MAX,
    ensures
        ({
            let (shown, bound) = (amount(p.value()) * d, n * one());
            &&& shown * 0x10_0000_0000_0001 < bound * 0x10_0000_0000_0000 ==> p.under(n, d)
            &&& bound * 0x10_0000_0000_0001 <= shown * 0x10_0000_0000_0000 ==> !p.under(n, d)
        }),
{
    let r = double::round(n, d, 0);
    double::lemma_ratio_within(n, d);
    rounding_is_near(n, d, 0);
    double::lemma_scaled_order(r, p.value(), -400);
    let (x, y, k) = (amount(p.value()) as int, amount(r) as int, d as int);
    let bound = (n * one()) as int;
    assert(d * amount(r) == y * k && amount(p.value()) * d == x * k) by (nonlinear_arith)
        requires
            x == amount(p.value()),
            y == amount(r),
            k == d,
    ;
    assert(x < y <==> x * k < y * k) by (nonlinear_arith)
        requires
            k > 0,
    ;
}

// ── Digits ───────────────────────────────────────────────────────────────────

/// The tenths shown are the nearest: no further off than half a tenth, and even where
/// it is exactly that much. The whole part is what it says, and the rounded number is
/// off by half at most, downwards only.
pub proof fn digits_are_the_nearest(a: Binary)
    requires
        a.within(-400, 400),
    ensures
        ({
            let (x, t, p) = (amount(a) as int, a.tenths() as int, one() as int);
            &&& -p <= 2 * (10 * x - t * p) <= p
            &&& 2 * (10 * x - t * p) == p || 2 * (10 * x - t * p) == -p ==> t % 2 == 0
        }),
        a.whole_part() * one() <= amount(a) < (a.whole_part() + 1) * one(),
        ({
            let off = 2 * (amount(a) - a.rounded_up() * one());
            -one() <= off < one()
        }),
{
    double::lemma_fraction(a);
    lemma_pow2_pos(400);
    let (n, d, x, p) = (
        a.numerator() as int,
        a.denominator() as int,
        amount(a) as int,
        one() as int,
    );
    assert(a.scaled(-400) == amount(a));
    lemma_fundamental_div_mod(n, d);
    lemma_fundamental_div_mod(10 * n, d);
    let (w, r, t) = (a.whole_part() as int, a.rounded_up() as int, a.tenths() as int);
    assert(d * (n / d) == (n / d) * d && d * ((10 * n) / d) == ((10 * n) / d) * d)
        by (nonlinear_arith);
    assert((n / d + 1) * d == (n / d) * d + d && ((10 * n) / d + 1) * d == ((10 * n) / d) * d + d)
        by (nonlinear_arith);
    let off = 2 * (10 * n - t * d);
    assert(-d <= off <= d && (off == d || off == -d ==> t % 2 == 0));
    let whole = n - w * d;
    assert(0 <= whole < d);
    let up = 2 * (n - r * d);
    assert(-d <= up < d);
    lemma_over(n, d, x, p, w);
    lemma_over(n, d, x, p, r);
    lemma_tenths_over(n, d, x, p, t);
    assert((w + 1) * p == w * p + p) by (nonlinear_arith);
    lemma_compare(whole, x - w * p, d, p);
    lemma_compare(up, 2 * (x - r * p), d, p);
    lemma_compare(off, 2 * (10 * x - t * p), d, p);
}

proof fn lemma_over(n: int, d: int, x: int, p: int, w: int)
    requires
        n * p == x * d,
    ensures
        (n - w * d) * p == (x - w * p) * d,
        (2 * (n - w * d)) * p == (2 * (x - w * p)) * d,
{
    assert((n - w * d) * p == n * p - (w * d) * p) by (nonlinear_arith);
    assert((x - w * p) * d == x * d - (w * p) * d) by (nonlinear_arith);
    assert((w * d) * p == (w * p) * d) by (nonlinear_arith);
    let (u, v) = (n - w * d, x - w * p);
    assert((2 * u) * p == 2 * (u * p) && (2 * v) * d == 2 * (v * d)) by (nonlinear_arith);
}

proof fn lemma_tenths_over(n: int, d: int, x: int, p: int, t: int)
    requires
        n * p == x * d,
    ensures
        (2 * (10 * n - t * d)) * p == (2 * (10 * x - t * p)) * d,
{
    assert((10 * n) * p == 10 * (n * p) && (10 * x) * d == 10 * (x * d)) by (nonlinear_arith);
    lemma_over(10 * n, d, 10 * x, p, t);
}

/// Two fractions over two lines compare with them alike.
proof fn lemma_compare(u: int, v: int, d: int, p: int)
    requires
        u * p == v * d,
        d > 0,
        p > 0,
    ensures
        u < d <==> v < p,
        u <= d <==> v <= p,
        u == d <==> v == p,
        -d <= u <==> -p <= v,
        u == -d <==> v == -p,
        0 <= u <==> 0 <= v,
{
    assert(u < d ==> v < p) by (nonlinear_arith)
        requires
            u * p == v * d,
            d > 0,
            p > 0,
    ;
    assert(u > d ==> v > p) by (nonlinear_arith)
        requires
            u * p == v * d,
            d > 0,
            p > 0,
    ;
    assert(u == d ==> v == p) by (nonlinear_arith)
        requires
            u * p == v * d,
            d > 0,
            p > 0,
    ;
    assert(u < -d ==> v < -p) by (nonlinear_arith)
        requires
            u * p == v * d,
            d > 0,
            p > 0,
    ;
    assert(u > -d ==> v > -p) by (nonlinear_arith)
        requires
            u * p == v * d,
            d > 0,
            p > 0,
    ;
    assert(u == -d ==> v == -p) by (nonlinear_arith)
        requires
            u * p == v * d,
            d > 0,
            p > 0,
    ;
    assert(u < 0 ==> v < 0) by (nonlinear_arith)
        requires
            u * p == v * d,
            d > 0,
            p > 0,
    ;
    assert(u > 0 ==> v > 0) by (nonlinear_arith)
        requires
            u * p == v * d,
            d > 0,
            p > 0,
    ;
    assert(u == 0 ==> v == 0) by (nonlinear_arith)
        requires
            u * p == v * d,
            d > 0,
            p > 0,
    ;
}

// ── Ratios ───────────────────────────────────────────────────────────────────

/// A count compares with a part `n / d` of a whole as it should, but for a part in
/// `2^50`.
pub proof fn a_ratio_compares(count: nat, whole: nat, n: nat, d: nat)
    requires
        count <= u64::MAX,
        0 < whole <= u64::MAX,
        0 < n <= u32::MAX,
        0 < d <= u32::MAX,
    ensures
        ({
            let share = double::whole(count).div(double::whole(whole));
            let below = share.below(double::round(n, d, 0));
            &&& (count * d) * 0x4_0000_0000_0001 < (whole * n) * 0x4_0000_0000_0000 ==> below
            &&& (whole * n) * 0x4_0000_0000_0001 <= (count * d) * 0x4_0000_0000_0000 ==> !below
        }),
{
    let (a, b) = (double::whole(count), double::whole(whole));
    let (q, r) = (a.div(b), double::round(n, d, 0));
    double::lemma_whole_within(count);
    double::lemma_whole_within(whole);
    double::lemma_div_within(a, b);
    double::lemma_ratio_within(n, d);
    a_count_is_near(count);
    a_count_is_near(whole);
    a_quotient_is_near(a, b);
    rounding_is_near(n, d, 0);
    double::lemma_scaled_order(r, q, -400);
    lemma_pow2_pos(400);
    lemma_ratio_chain(
        count as int,
        whole as int,
        n as int,
        d as int,
        one() as int,
        amount(a) as int,
        amount(b) as int,
        amount(q) as int,
        amount(r) as int,
    );
}

proof fn lemma_ratio_chain(
    x: int,
    w: int,
    n: int,
    d: int,
    u: int,
    a: int,
    b: int,
    q: int,
    r: int,
)
    requires
        x >= 0,
        w > 0,
        n > 0,
        d > 0,
        u > 0,
        a >= 0,
        b >= 0,
        q >= 0,
        r >= 0,
        is_near(a, x * u),
        is_near(b, w * u),
        is_near(b * q, a * u),
        is_near(d * r, n * u),
    ensures
        (x * d) * 0x4_0000_0000_0001 < (w * n) * 0x4_0000_0000_0000 ==> q < r,
        (w * n) * 0x4_0000_0000_0001 <= (x * d) * 0x4_0000_0000_0000 ==> q >= r,
{
    let m = 0x20_0000_0000_0000int;
    let (bq, au, xu, wu) = (b * q, a * u, x * u, w * u);
    // Everything over the unit once more, and the divisor times the quotient.
    assert((m - 1) * au <= m * (xu * u) <= (m + 1) * au) by (nonlinear_arith)
        requires
            (m - 1) * a <= m * xu <= (m + 1) * a,
            au == a * u,
            u > 0,
    ;
    assert((m - 1) * bq <= m * (wu * q) <= (m + 1) * bq) by (nonlinear_arith)
        requires
            (m - 1) * b <= m * wu <= (m + 1) * b,
            bq == b * q,
            q >= 0,
    ;
    let (qw, dxu, zn) = (q * w, d * xu, n * u * w);
    assert(wu * q == qw * u) by (nonlinear_arith)
        requires
            wu == w * u,
            qw == q * w,
    ;
    lemma_ratio_constants(xu * u, au, bq, qw * u);
    let e = 0x4_0000_0000_0000int;
    // The quotient times the whole, against the count.
    let (m2, p2) = ((m - 1) * (m - 1), (m + 1) * (m + 1));
    assert(qw * m2 <= xu * ((m + 1) * m) && xu * ((m - 1) * m) <= qw * p2) by (nonlinear_arith)
        requires
            (qw * u) * m2 <= (xu * u) * ((m + 1) * m),
            (xu * u) * ((m - 1) * m) <= (qw * u) * p2,
            u > 0,
    ;
    let (dq, dr) = (d * qw, (d * r) * w);
    assert(dq * m2 <= dxu * ((m + 1) * m) && dxu * ((m - 1) * m) <= dq * p2) by (nonlinear_arith)
        requires
            qw * m2 <= xu * ((m + 1) * m),
            xu * ((m - 1) * m) <= qw * p2,
            dq == d * qw,
            dxu == d * xu,
            d > 0,
    ;
    assert((m - 1) * dr <= m * zn <= (m + 1) * dr) by (nonlinear_arith)
        requires
            (m - 1) * (d * r) <= m * (n * u) <= (m + 1) * (d * r),
            dr == (d * r) * w,
            zn == n * u * w,
            w > 0,
    ;
    assert(q >= r ==> dq >= dr) by (nonlinear_arith)
        requires
            dq == d * (q * w),
            dr == (d * r) * w,
            d > 0,
            w > 0,
    ;
    assert(q < r ==> dq <= dr) by (nonlinear_arith)
        requires
            dq == d * (q * w),
            dr == (d * r) * w,
            d > 0,
            w > 0,
    ;
    assert(dxu == (x * d) * u && zn == (w * n) * u) by (nonlinear_arith)
        requires
            dxu == d * (x * u),
            zn == n * u * w,
    ;
    let (s, t) = (x * d, w * n);
    assert(s * (e + 1) < t * e ==> dxu * (e + 1) < zn * e) by (nonlinear_arith)
        requires
            dxu == s * u,
            zn == t * u,
            u > 0,
    ;
    assert(t * (e + 1) <= s * e ==> zn * (e + 1) <= dxu * e) by (nonlinear_arith)
        requires
            dxu == s * u,
            zn == t * u,
            u > 0,
    ;
    assert(zn > 0) by (nonlinear_arith)
        requires
            zn == n * u * w,
            n > 0,
            u > 0,
            w > 0,
    ;
    lemma_ratio_decides(dq, dr, dxu, zn);
}

proof fn lemma_ratio_constants(y: int, au: int, bq: int, qu: int)
    requires
        y >= 0,
        au >= 0,
        bq >= 0,
        qu >= 0,
        0x1f_ffff_ffff_ffff * au <= 0x20_0000_0000_0000 * y <= 0x20_0000_0000_0001 * au,
        0x1f_ffff_ffff_ffff * bq <= 0x20_0000_0000_0000 * au <= 0x20_0000_0000_0001 * bq,
        0x1f_ffff_ffff_ffff * bq <= 0x20_0000_0000_0000 * qu <= 0x20_0000_0000_0001 * bq,
    ensures
        qu * (0x1f_ffff_ffff_ffff * 0x1f_ffff_ffff_ffff) <= y * (0x20_0000_0000_0001
            * 0x20_0000_0000_0000),
        y * (0x1f_ffff_ffff_ffff * 0x20_0000_0000_0000) <= qu * (0x20_0000_0000_0001
            * 0x20_0000_0000_0001),
{
    let m = 0x20_0000_0000_0000int;
    assert(qu * ((m - 1) * (m - 1)) <= y * ((m + 1) * m)) by (nonlinear_arith)
        requires
            m == 0x20_0000_0000_0000,
            m * qu <= (m + 1) * bq,
            (m - 1) * bq <= m * au,
            (m - 1) * au <= m * y,
            y >= 0,
            au >= 0,
            bq >= 0,
            qu >= 0,
    ;
    assert(y * ((m - 1) * m) <= qu * ((m + 1) * (m + 1))) by (nonlinear_arith)
        requires
            m == 0x20_0000_0000_0000,
            (m - 1) * bq <= m * qu,
            m * au <= (m + 1) * bq,
            m * y <= (m + 1) * au,
            y >= 0,
            au >= 0,
            bq >= 0,
            qu >= 0,
    ;
}

proof fn lemma_ratio_decides(dq: int, dr: int, dxu: int, zn: int)
    requires
        dxu >= 0,
        dq >= 0,
        dr >= 0,
        zn > 0,
        dq * (0x1f_ffff_ffff_ffff * 0x1f_ffff_ffff_ffff) <= dxu * (0x20_0000_0000_0001
            * 0x20_0000_0000_0000),
        dxu * (0x1f_ffff_ffff_ffff * 0x20_0000_0000_0000) <= dq * (0x20_0000_0000_0001
            * 0x20_0000_0000_0001),
        0x1f_ffff_ffff_ffff * dr <= 0x20_0000_0000_0000 * zn <= 0x20_0000_0000_0001 * dr,
    ensures
        dxu * 0x4_0000_0000_0001 < zn * 0x4_0000_0000_0000 ==> dq < dr,
        zn * 0x4_0000_0000_0001 <= dxu * 0x4_0000_0000_0000 ==> dq > dr,
{
    let (m, e) = (0x20_0000_0000_0000int, 0x4_0000_0000_0000int);
    assert(dxu * (e + 1) < zn * e ==> dq < dr) by (nonlinear_arith)
        requires
            m == 0x20_0000_0000_0000,
            e == 0x4_0000_0000_0000,
            dq * ((m - 1) * (m - 1)) <= dxu * ((m + 1) * m),
            m * zn <= (m + 1) * dr,
            dxu >= 0,
            zn > 0,
    ;
    assert(zn * (e + 1) <= dxu * e ==> dq > dr) by (nonlinear_arith)
        requires
            m == 0x20_0000_0000_0000,
            e == 0x4_0000_0000_0000,
            dxu * ((m - 1) * m) <= dq * ((m + 1) * (m + 1)),
            (m - 1) * dr <= m * zn,
            dxu >= 0,
            zn > 0,
    ;
}

} // verus!
