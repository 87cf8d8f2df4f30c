//! Percentages in double precision: a share of an interval is one count over
//! another, times a hundred, each step rounded as [`crate::double`] rounds it.

use vstd::arithmetic::power2::*;
use vstd::prelude::*;

use crate::double;
use crate::double::{Binary, Double};
use crate::text;

verus! {

/// A count of tenths, written with one decimal.
pub open spec fn tenths_text(tenths: nat) -> Seq<char> {
    text::decimal(tenths / 10) + seq!['.', text::digit_char(tenths % 10)]
}

/// A count of tenths, written with one decimal.
pub fn write_tenths(tenths: u128) -> (out: String)
    ensures
        out@ == tenths_text(tenths as nat),
{
    let mut out = text::to_decimal(tenths / 10);
    out.push('.');
    let last = ('0' as u8 + (tenths % 10) as u8) as char;
    assert(last == text::digit_char((tenths % 10) as nat));
    out.push(last);
    out
}

// ── The number ───────────────────────────────────────────────────────────────

/// A percentage. Zero comes with a minus sign as well: as a number it is the same, but
/// it is written with the sign, and ranks below the other.
#[derive(Clone, Copy, Debug)]
pub struct Percent {
    value: Double,
    minus: bool,
}

/// `part` of `whole`, in percent; nothing of nothing.
pub open spec fn share(part: nat, whole: nat) -> Binary {
    if whole == 0 {
        Binary::zero()
    } else {
        double::whole(part).div(double::whole(whole)).times(double::whole(100))
    }
}

/// The shares that the counts of `counts` are of `whole`, added up one after the
/// other. Adding up starts from the zero with a minus sign, the one number that leaves
/// every other as it is; where nothing follows, the sign stays.
pub open spec fn summed(counts: Seq<(u32, u64)>, whole: nat) -> Binary
    decreases counts.len(),
{
    if counts.len() == 0 {
        Binary::zero()
    } else {
        summed(counts.drop_last(), whole).plus(share(counts.last().1 as nat, whole))
    }
}

/// What `n` shares add up to has a minus sign.
pub open spec fn is_signed(n: nat) -> bool {
    n == 0
}

impl Percent {
    #[verifier::type_invariant]
    spec fn sane(self) -> bool {
        self.valid()
    }

    pub closed spec fn value(self) -> Binary {
        self.value@
    }

    /// It has a minus sign.
    pub closed spec fn minus(self) -> bool {
        self.minus
    }

    /// It is `number`, without a minus sign.
    pub open spec fn reads(self, number: Binary) -> bool {
        self.value() == number && !self.minus()
    }

    /// A percentage holds anything from next to nothing up to what all the 64-bit
    /// counters can sum to that are told apart by a 32-bit key.
    pub open spec fn valid(self) -> bool {
        self.value().within(-200, 60) && (self.minus() ==> self.value() == Binary::zero())
    }

    /// `part` of `whole`, in percent; nothing of nothing.
    pub fn new(part: u64, whole: u64) -> (out: Percent)
        ensures
            out.reads(share(part as nat, whole as nat)),
            out.value().within(-111, 22),
    {
        if whole == 0 {
            return Percent::zero();
        }
        proof {
            lemma_hundred();
        }
        let ratio = Double::of(part).div(Double::of(whole));
        Percent { value: ratio.times(Double::of(100)), minus: false }
    }

    /// `n / d` percent.
    pub fn nearest_to(n: u32, d: u32) -> (out: Percent)
        requires
            d > 0,
        ensures
            out.reads(double::round(n as nat, d as nat, 0)),
            out.valid(),
    {
        Percent { value: Double::ratio(n, d), minus: false }
    }

    /// Nothing.
    pub fn zero() -> (out: Percent)
        ensures
            out.reads(Binary::zero()),
    {
        Percent { value: Double::zero(), minus: false }
    }

    /// Whether it has a minus sign.
    pub fn is_minus(&self) -> (r: bool)
        ensures
            r == self.minus(),
    {
        self.minus
    }

    /// The number itself.
    pub fn double(&self) -> (out: Double)
        ensures
            out@ == self.value(),
            self.valid(),
    {
        proof {
            use_type_invariant(self);
        }
        self.value
    }

    /// `self` is a smaller percentage than `other`.
    pub open spec fn below(self, other: Percent) -> bool {
        self.value().below(other.value())
    }

    /// Whether `self` is a smaller percentage than `other`.
    pub fn less(&self, other: &Percent) -> (r: bool)
        ensures
            r == self.below(*other),
    {
        self.double().less(other.double())
    }

    /// `self` is under `n / d` percent.
    pub open spec fn under(self, n: nat, d: nat) -> bool {
        self.value().below(double::round(n, d, 0))
    }

    /// Whether `self` is under `n / d` percent.
    pub fn is_under(&self, n: u32, d: u32) -> (r: bool)
        requires
            d > 0,
        ensures
            r == self.under(n as nat, d as nat),
    {
        self.less(&Percent::nearest_to(n, d))
    }

    /// Its place among all others: the zero with a minus sign comes first.
    pub open spec fn place(self) -> nat {
        if self.minus() {
            0
        } else {
            self.value().rank() + 1
        }
    }

    /// Its place among all others.
    pub fn rank(&self) -> (out: u128)
        ensures
            out == self.place(),
    {
        if self.minus {
            0
        } else {
            self.double().rank() + 1
        }
    }

    /// The percentage with one decimal.
    pub open spec fn shown(self) -> Seq<char> {
        let number = tenths_text(self.value().tenths());
        if self.minus() {
            seq!['-'] + number
        } else {
            number
        }
    }

    /// The percentage with one decimal, as in `12.3`.
    pub fn text(&self) -> (out: String)
        ensures
            out@ == self.shown(),
    {
        let number = write_tenths(self.double().tenths());
        if !self.minus {
            return number;
        }
        let mut out = String::new();
        out.push('-');
        out.append(number.as_str());
        assert(out@ == self.shown());
        out
    }

    /// The shares that the counts of `counts` are of `whole`, added up.
    pub fn sum(counts: &Vec<(u32, u64)>, whole: u64) -> (out: Percent)
        requires
            counts@.len() <= 0x1_0000_0000,
        ensures
            out.value() == summed(counts@, whole as nat),
            out.minus() == (counts@.len() == 0),
            out.minus() == is_signed(counts@.len()),
            out.value().within(-111, 57),
    {
        let mut sum = Double::zero();
        proof {
            lemma_full(0, sum@);
        }
        for i in 0..counts.len()
            invariant
                counts@.len() <= 0x1_0000_0000,
                sum@ == summed(counts@.take(i as int), whole as nat),
                sum@.within(-111, 57),
                sum@.scaled(-111) <= i * pow2(186),
        {
            let next = Percent::new(counts[i].1, whole);
            proof {
                let one_more = counts@.take(i + 1);
                assert(one_more.drop_last() == counts@.take(i as int));
                assert(one_more.last() == counts@[i as int]);
                lemma_one_more(sum@, next.value(), i as nat);
            }
            sum = sum.plus(next.double());
        }
        assert(counts@.take(counts@.len() as int) == counts@);
        Percent { value: sum, minus: counts.len() == 0 }
    }

    /// The shares that the counts of `counts` are of `whole`, added up and shared
    /// among `n`.
    pub fn average(counts: &Vec<(u32, u64)>, whole: u64, n: u64) -> (out: Percent)
        requires
            counts@.len() <= 0x1_0000_0000,
            n > 0,
        ensures
            out.value() == summed(counts@, whole as nat).div(double::whole(n as nat)),
            out.minus() == (counts@.len() == 0),
            out.minus() == is_signed(counts@.len()),
            out.valid(),
    {
        let sum = Percent::sum(counts, whole);
        Percent { value: sum.double().div(Double::of(n)), minus: sum.minus }
    }
}

impl Default for Percent {
    fn default() -> (out: Percent)
        ensures
            out.reads(Binary::zero()),
    {
        Percent::zero()
    }
}

impl PartialEq for Percent {
    fn eq(&self, other: &Percent) -> (r: bool) {
        self.double() == other.double()
    }
}

impl vstd::std_specs::cmp::PartialEqSpecImpl for Percent {
    open spec fn obeys_eq_spec() -> bool {
        true
    }

    open spec fn eq_spec(&self, other: &Percent) -> bool {
        self.value() == other.value()
    }
}

/// How a hundred is written.
pub proof fn lemma_hundred()
    ensures
        double::whole(100) == (Binary { mant: 100 * pow2(46), exp: -46 }),
        double::whole(100).normal(),
        double::whole(100).mant > 0,
{
    lemma2_to64();
    lemma2_to64_rest();
    double::lemma_small(100, 46);
}

/// A sum that is no larger than `n` of the largest shares keeps well inside the
/// range.
proof fn lemma_full(n: nat, sum: Binary)
    requires
        n <= 0x1_0000_0000,
        sum.within(-111, 500),
        sum.mant > 0 ==> sum.scaled(-111) <= n * pow2(186),
    ensures
        sum.within(-111, 57),
        sum.scaled(-111) <= n * pow2(186),
{
    if sum.mant == 0 {
        assert(sum.scaled(-111) == 0) by (nonlinear_arith)
            requires
                sum.scaled(-111) == sum.mant * pow2((sum.exp + 111) as nat),
                sum.mant == 0,
        ;
    } else if sum.exp > 57 {
        lemma2_to64();
        lemma2_to64_rest();
        let k = (sum.exp + 111) as nat;
        if k > 169 {
            lemma_pow2_strictly_increases(169, k);
        }
        lemma_pow2_adds(169, 17);
        lemma_pow2_pos(169);
        let p = pow2(169);
        assert(sum.mant * pow2(k) >= double::LO * p) by (nonlinear_arith)
            requires
                sum.mant >= double::LO,
                pow2(k) >= p,
                p > 0,
        ;
        assert(n * pow2(186) <= 0x1_0000_0000 * (p * 0x2_0000)) by (nonlinear_arith)
            requires
                n <= 0x1_0000_0000,
                pow2(186) == p * 0x2_0000,
                p > 0,
        ;
        assert(0x1_0000_0000 * (p * 0x2_0000) < double::LO * p) by (nonlinear_arith)
            requires
                p > 0,
                double::LO == 0x10_0000_0000_0000,
        ;
    }
}

/// One more share added to a sum of `n`.
proof fn lemma_one_more(sum: Binary, next: Binary, n: nat)
    requires
        n < 0x1_0000_0000,
        sum.within(-111, 57),
        sum.scaled(-111) <= n * pow2(186),
        next.within(-111, 22),
    ensures
        sum.plus(next).within(-111, 57),
        sum.plus(next).scaled(-111) <= (n + 1) * pow2(186),
{
    let p = pow2(186);
    assert(next.scaled(-111) <= p) by {
        let k = (next.exp + 111) as nat;
        if next.mant == 0 {
            assert(next.mant * pow2(k) == 0) by (nonlinear_arith)
                requires
                    next.mant == 0,
            ;
        } else {
            lemma2_to64();
            lemma2_to64_rest();
            lemma_pow2_adds(53, 133);
            if k < 133 {
                lemma_pow2_strictly_increases(k, 133);
            }
            assert(next.mant * pow2(k) <= double::HI * pow2(133)) by (nonlinear_arith)
                requires
                    next.mant <= double::HI,
                    pow2(k) <= pow2(133),
            ;
        }
    }
    assert(n * p + p == (n + 1) * p) by (nonlinear_arith);
    double::lemma_sum_bounded(sum, next, n + 1, 75, -111);
    lemma_full(n + 1, sum.plus(next));
}

/// The range of a share.
pub proof fn lemma_share_within(part: nat, whole: nat)
    requires
        part <= u64::MAX,
        whole <= u64::MAX,
    ensures
        share(part, whole).within(-111, 22),
{
    if whole > 0 {
        let (a, b) = (double::whole(part), double::whole(whole));
        double::lemma_whole_within(part);
        double::lemma_whole_within(whole);
        lemma_hundred();
        double::lemma_div_within(a, b);
        double::lemma_times_within(a.div(b), double::whole(100));
    }
}

/// The range of a sum of shares.
pub proof fn lemma_summed_within(counts: Seq<(u32, u64)>, whole: nat)
    requires
        counts.len() <= 0x1_0000_0000,
        whole <= u64::MAX,
    ensures
        summed(counts, whole).within(-111, 57),
        summed(counts, whole).scaled(-111) <= counts.len() * pow2(186),
    decreases counts.len(),
{
    if counts.len() == 0 {
        lemma_full(0, Binary::zero());
    } else {
        let fewer = counts.drop_last();
        lemma_summed_within(fewer, whole);
        lemma_share_within(counts.last().1 as nat, whole);
        lemma_one_more(
            summed(fewer, whole),
            share(counts.last().1 as nat, whole),
            fewer.len(),
        );
    }
}

// ── Laws ─────────────────────────────────────────────────────────────────────

/// Of counts that are shares of the same whole, the larger never reads as the
/// smaller percentage.
pub proof fn larger_counts_are_larger_shares(less: nat, more: nat, whole: nat)
    requires
        less <= more <= u64::MAX,
        whole <= u64::MAX,
    ensures
        !share(more, whole).below(share(less, whole)),
{
    if whole > 0 {
        double::lemma_whole_within(less);
        double::lemma_whole_within(more);
        double::lemma_whole_within(whole);
        double::lemma_whole_grows(less, more);
        let (a, b, c) = (double::whole(less), double::whole(more), double::whole(whole));
        double::lemma_div_grows(a, b, c);
        double::lemma_div_within(a, c);
        double::lemma_div_within(b, c);
        lemma_hundred();
        double::lemma_times_grows(a.div(c), b.div(c), double::whole(100));
    }
}

/// A process that ran for the whole of an interval reads a hundred percent.
pub proof fn the_whole_is_a_hundred(whole: nat)
    requires
        0 < whole <= u64::MAX,
    ensures
        share(whole, whole) == double::whole(100),
{
    double::lemma_whole_within(whole);
    double::lemma_div_self(double::whole(whole));
    lemma_hundred();
    double::lemma_times_one(double::whole(100));
}

/// What is shown keeps the order: a percentage that is not larger never shows a
/// larger number.
pub proof fn shown_order_follows(a: Percent, b: Percent)
    requires
        a.valid(),
        b.valid(),
        !b.below(a),
    ensures
        a.value().tenths() <= b.value().tenths(),
{
    double::lemma_digits_grow(a.value(), b.value());
}

/// The percentage counted in units of `2^-200`, of which every percentage is a whole
/// number.
pub open spec fn units(p: Percent) -> nat {
    p.value().mant * pow2((p.value().exp + 200) as nat)
}

/// Percentages rank as the numbers they are: the larger number ranks higher, and of two
/// that rank alike both are the same number. Zero with a minus sign ranks below zero
/// without.
pub proof fn percentages_rank_as_numbers(a: Percent, b: Percent)
    requires
        a.valid(),
        b.valid(),
    ensures
        units(a) < units(b) ==> a.place() < b.place(),
        a.place() <= b.place() ==> units(a) <= units(b),
        a.place() == b.place() ==> units(a) == units(b) && a.minus() == b.minus(),
        a.below(b) <==> units(a) < units(b),
        a.minus() && !b.minus() ==> a.place() < b.place(),
{
    double::lemma_scaled_order(a.value(), b.value(), -200);
    double::lemma_scaled_order(b.value(), a.value(), -200);
}

/// What is shown of a count of tenths reads back: the number before the point, ten
/// times, and the one digit behind it make the count.
pub proof fn tenths_read_back(tenths: nat)
    ensures
        ({
            let shown = tenths_text(tenths);
            let n = shown.len();
            &&& n >= 3
            &&& shown[n - 2] == '.'
            &&& '0' <= shown.last() <= '9'
            &&& text::parsed(shown.take(n - 2), tenths) matches Some(units) && 10 * units + (
            shown.last() as nat - '0' as nat) == tenths
        }),
{
    let front = text::decimal(tenths / 10);
    let shown = tenths_text(tenths);
    text::decimal_reads_back(tenths / 10, tenths);
    text::decimal_is_shortest(tenths / 10);
    assert(shown.take(shown.len() - 2) =~= front);
}

/// A percentage is shown with the sign it has and the tenths it has.
pub proof fn what_is_shown_is_the_number(p: Percent)
    ensures
        !p.minus() ==> p.shown() == tenths_text(p.value().tenths()),
        p.minus() ==> p.shown().len() > 0 && p.shown()[0] == '-' && p.shown().drop_first()
            == tenths_text(p.value().tenths()),
{
    let number = tenths_text(p.value().tenths());
    assert((seq!['-'] + number).drop_first() =~= number);
}

/// Only the sum of nothing keeps the minus sign it starts with: one share more, and it
/// is gone.
pub proof fn only_the_sum_of_nothing_is_signed(n: nat)
    ensures
        is_signed(0),
        !is_signed(n + 1),
{
}

/// To read a number is to be it, and to have no minus sign.
pub proof fn to_read_a_number_is_to_be_it(p: Percent, number: Binary)
    ensures
        p.reads(number) <==> p.value() == number && !p.minus(),
{
}

} // verus!
