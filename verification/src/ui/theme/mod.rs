//! Colours and value → style maps. Everything here is from the terminal's own
//! palette, except the two row backgrounds: those are literal RGB and take a
//! [`Background`] to suit the terminal they are drawn on. I/O wait - the metric no
//! other monitor shows - gets a reserved warm accent.

pub mod detect;

use vstd::arithmetic::power2::*;
use vstd::prelude::*;

use crate::accuracy;
use crate::double;
use crate::double::{Binary, Double};
use crate::percent::Percent;
use crate::ui::style::{Color, Style};

verus! {

/// The terminal's background, which the RGB row styles are picked for.
#[derive(Clone, Copy, Debug, PartialEq, Eq, Structural)]
pub enum Background {
    Dark,
    Light,
}

impl Default for Background {
    fn default() -> (out: Background)
        ensures
            out == Background::Dark,
    {
        Background::Dark
    }
}

/// Structural / title accent.
pub const ACCENT: Color = Color::Cyan;

/// Primary body text (the terminal's own foreground).
pub const TEXT: Color = Color::Reset;

/// Idle rows, secondary fields, empty values.
pub const DIM: Color = Color::DarkGray;

/// CPU series and gauge.
pub const CPU: Color = Color::Green;

/// I/O wait: the hero. Dusty orange, distinct from the CPU greens.
#[verifier::allow_in_spec]
pub fn io() -> Color
    returns
        Color::Indexed(173),
{
    Color::Indexed(173)
}

/// A process is "stuck on the disk" for row-highlight purposes at this I/O wait.
pub const IO_ROW_THRESHOLD: u32 = 65;

/// Below this CPU%, in hundredths of a percent, a process counts as idle.
pub const IDLE: u32 = 5;

pub open spec fn header_style() -> Style {
    Style { bold: true, ..Style::coloured(ACCENT) }
}

/// Column titles and panel titles.
pub fn header() -> (out: Style)
    ensures
        out == header_style(),
{
    Style::new().fg(ACCENT).bold()
}

/// The row under the cursor.
pub fn selected() -> (out: Style)
    ensures
        out == (Style { bold: true, reversed: true, ..Style::plain() }),
{
    Style::new().reversed().bold()
}

pub open spec fn cpu_style(percent: Percent) -> Style {
    if percent.under(IDLE as nat, 100) {
        Style::coloured(DIM)
    } else if percent.under(30, 1) {
        Style::coloured(Color::Green)
    } else if percent.under(70, 1) {
        Style::coloured(Color::Yellow)
    } else {
        Style { bold: true, ..Style::coloured(Color::Red) }
    }
}

/// CPU%: dim when idle, green → yellow → red as it climbs.
pub fn cpu_heat(percent: &Percent) -> (out: Style)
    ensures
        out == cpu_style(*percent),
{
    if percent.is_under(IDLE, 100) {
        Style::new().fg(DIM)
    } else if percent.is_under(30, 1) {
        Style::new().fg(Color::Green)
    } else if percent.is_under(70, 1) {
        Style::new().fg(Color::Yellow)
    } else {
        Style::new().fg(Color::Red).bold()
    }
}

pub open spec fn io_style(percent: Percent) -> Style {
    if percent.value() == Binary::zero() {
        Style::coloured(DIM)
    } else {
        Style { bold: !percent.under(50, 1), ..Style::coloured(io()) }
    }
}

/// I/O wait: dim when none, warm accent that bolds once a process spends a large
/// share of the interval blocked on the disk.
pub fn io_heat(percent: &Percent) -> (out: Style)
    ensures
        out == io_style(*percent),
{
    if percent.double().mant == 0 {
        return Style::new().fg(DIM);
    }
    with_bold(Style::new().fg(io()), !percent.is_under(50, 1))
}

/// The two ends of the blocked-row tint: as it starts, and at a full interval.
pub open spec fn io_row_ends(background: Background) -> ((nat, nat, nat), (nat, nat, nat)) {
    match background {
        Background::Dark => ((48, 16, 16), (128, 30, 30)),
        Background::Light => ((255, 224, 224), (244, 168, 168)),
    }
}

/// How far the wait has climbed from the threshold to a full interval; past a full
/// interval it stays there.
pub open spec fn climb(percent: Percent) -> Binary {
    if percent.under(100, 1) {
        percent.value().minus(double::whole(65)).div(double::whole(35))
    } else {
        double::whole(1)
    }
}

/// The point `t` of the way from `a` to `b`.
pub open spec fn point(a: nat, b: nat, t: Binary) -> Binary {
    if a <= b {
        double::whole(a).plus(double::whole((b - a) as nat).times(t))
    } else {
        double::whole(a).minus(double::whole((a - b) as nat).times(t))
    }
}

/// The point `t` of the way from `a` to `b`, rounded down.
pub open spec fn between(a: nat, b: nat, t: Binary) -> u8 {
    point(a, b, t).whole_part() as u8
}

pub open spec fn io_row_tint(background: Background, percent: Percent) -> Option<Color> {
    if percent.under(IO_ROW_THRESHOLD as nat, 1) {
        None
    } else {
        let (from, to) = io_row_ends(background);
        let t = climb(percent);
        Some(
            Color::Rgb(
                between(from.0, to.0, t),
                between(from.1, to.1, t),
                between(from.2, to.2, t),
            ),
        )
    }
}

/// Row background for a process blocked on I/O: none below the threshold, then a
/// red that deepens with the wait so the stuck processes light up (65% → ~100%).
/// Kept clear of the body text, which is the terminal's own foreground.
pub fn io_row_bg(background: Background, percent: &Percent) -> (out: Option<Color>)
    ensures
        out == io_row_tint(background, *percent),
{
    if percent.is_under(IO_ROW_THRESHOLD, 1) {
        return None;
    }
    let ((r0, g0, b0), (r1, g1, b1)): ((u8, u8, u8), (u8, u8, u8)) = match background {
        Background::Dark => ((48, 16, 16), (128, 30, 30)),
        Background::Light => ((255, 224, 224), (244, 168, 168)),
    };
    let value = percent.double();
    proof {
        lemma_climb(*percent);
    }
    let t = if percent.is_under(100, 1) {
        value.minus(Double::of(65)).div(Double::of(35))
    } else {
        Double::of(1)
    };
    Some(Color::Rgb(lerp(r0, r1, t), lerp(g0, g1, t), lerp(b0, b1, t)))
}

/// The point `t` of the way from `a` to `b`, rounded down.
fn lerp(a: u8, b: u8, t: Double) -> (out: u8)
    requires
        is_part(t@),
    ensures
        out == between(a as nat, b as nat, t@),
{
    proof {
        lemma_point(a as nat, b as nat, t@);
    }
    let from = Double::of(a as u64);
    let at = if a <= b {
        from.plus(Double::of((b - a) as u64).times(t))
    } else {
        from.minus(Double::of((a - b) as u64).times(t))
    };
    at.whole_part() as u8
}

/// `t` lies between nothing and all of the way.
pub open spec fn is_part(t: Binary) -> bool {
    t.within(-104, -49) && !double::whole(1).below(t)
}

pub open spec fn mem_style(bytes: nat, total: nat) -> Style {
    let share = double::whole(bytes).div(double::whole(total));
    if bytes == 0 || total == 0 {
        Style::coloured(DIM)
    } else if share.below(double::round(2, 100, 0)) {
        Style::coloured(CPU)
    } else if share.below(double::round(10, 100, 0)) {
        Style::coloured(Color::Yellow)
    } else {
        Style { bold: true, ..Style::coloured(Color::Red) }
    }
}

/// Memory: dim when the kernel reports none, warming as the process takes a
/// larger share of installed RAM.
pub fn mem_heat(bytes: u64, total: u64) -> (out: Style)
    ensures
        out == mem_style(bytes as nat, total as nat),
{
    if bytes == 0 || total == 0 {
        return Style::new().fg(DIM);
    }
    let share = Double::of(bytes).div(Double::of(total));
    if share.less(Double::ratio(2, 100)) {
        Style::new().fg(CPU)
    } else if share.less(Double::ratio(10, 100)) {
        Style::new().fg(Color::Yellow)
    } else {
        Style::new().fg(Color::Red).bold()
    }
}

pub open spec fn stripe(background: Background, index: int) -> Option<Color> {
    if index % 2 == 1 {
        Some(
            match background {
                Background::Dark => Color::Rgb(24, 24, 28),
                Background::Light => Color::Rgb(238, 238, 243),
            },
        )
    } else {
        None
    }
}

/// Alternating row tint, close enough to the background to group rows without
/// competing with the I/O highlight that overrides it.
pub fn row_stripe(background: Background, index: usize) -> (out: Option<Color>)
    ensures
        out == stripe(background, index as int),
{
    let tint = match background {
        Background::Dark => Color::Rgb(24, 24, 28),
        Background::Light => Color::Rgb(238, 238, 243),
    };
    if index % 2 == 1 {
        Some(tint)
    } else {
        None
    }
}

fn with_bold(style: Style, bold: bool) -> (out: Style)
    ensures
        out == if bold {
            Style { bold: true, ..style }
        } else {
            style
        },
{
    if bold {
        style.bold()
    } else {
        style
    }
}

// ── Laws ─────────────────────────────────────────────────────────────────────

/// The channels of a blocked row's tint.
pub open spec fn channels(background: Background, percent: Percent) -> (int, int, int) {
    let (from, to) = io_row_ends(background);
    let t = climb(percent);
    (
        between(from.0, to.0, t) as int,
        between(from.1, to.1, t) as int,
        between(from.2, to.2, t) as int,
    )
}

/// The tint deepens with the wait and never turns back: on a dark terminal every
/// channel rises towards the full tint, on a light one it falls. It stays within
/// its two ends, and reaches the full one at a whole interval.
pub proof fn the_tint_deepens(less: Percent, more: Percent)
    requires
        less.valid(),
        more.valid(),
        !less.under(IO_ROW_THRESHOLD as nat, 1),
        !more.below(less),
    ensures
        ({
            let (a, b) = (channels(Background::Dark, less), channels(Background::Dark, more));
            &&& 48 <= a.0 <= b.0 <= 128
            &&& 16 <= a.1 <= b.1 <= 30
            &&& 16 <= a.2 <= b.2 <= 30
        }),
        ({
            let (a, b) = (channels(Background::Light, less), channels(Background::Light, more));
            &&& 255 >= a.0 >= b.0 >= 244
            &&& 224 >= a.1 >= b.1 >= 168
            &&& 224 >= a.2 >= b.2 >= 168
        }),
        !more.under(100, 1) ==> channels(Background::Dark, more) == (128int, 30int, 30int)
            && channels(Background::Light, more) == (244int, 168int, 168int),
{
    lemma_climbs(less, more);
    let (t, u) = (climb(less), climb(more));
    lemma_points(48, 128, t, u);
    lemma_points(16, 30, t, u);
    lemma_points(255, 244, t, u);
    lemma_points(224, 168, t, u);
}

/// How a number of eight bits is written.
proof fn lemma_byte(n: nat)
    requires
        n <= 255,
    ensures
        double::whole(n).within(-52, -45),
        double::whole(n).scaled(-52) == n * pow2(52),
        double::whole(n).whole_part() == n,
        n > 0 ==> double::whole(n).mant > 0,
{
    lemma2_to64();
    lemma2_to64_rest();
    if n >= 128 {
        lemma_byte_at(n, 45);
    } else if n >= 64 {
        lemma_byte_at(n, 46);
    } else if n >= 32 {
        lemma_byte_at(n, 47);
    } else if n >= 16 {
        lemma_byte_at(n, 48);
    } else if n >= 8 {
        lemma_byte_at(n, 49);
    } else if n >= 4 {
        lemma_byte_at(n, 50);
    } else if n >= 2 {
        lemma_byte_at(n, 51);
    } else if n == 1 {
        lemma_byte_at(n, 52);
    } else {
        assert(double::whole(n).scaled(-52) == 0) by (nonlinear_arith)
            requires
                double::whole(n).scaled(-52) == 0 * pow2(52),
        ;
    }
}

proof fn lemma_byte_at(n: nat, j: nat)
    requires
        45 <= j <= 52,
        double::LO <= n * pow2(j) < double::HI,
    ensures
        double::whole(n).within(-52, -45),
        double::whole(n).scaled(-52) == n * pow2(52),
        double::whole(n).whole_part() == n,
        double::whole(n).mant > 0,
{
    double::lemma_small(n, j);
    double::lemma_whole_digits(n, j);
    lemma_pow2_adds(j, (52 - j) as nat);
    assert((n * pow2(j)) * pow2((52 - j) as nat) == n * (pow2(j) * pow2((52 - j) as nat)))
        by (nonlinear_arith);
}

/// Numbers of eight bits add up and compare as they should.
proof fn lemma_bytes(a: nat, b: nat)
    requires
        a <= b <= 255,
    ensures
        !double::whole(b).below(double::whole(a)),
        double::whole(a).plus(double::whole((b - a) as nat)) == double::whole(b),
        double::whole(b).minus(double::whole((b - a) as nat)) == double::whole(a),
        double::whole(a).exp <= double::whole(b).exp || a == 0,
{
    let d = (b - a) as nat;
    lemma_byte(a);
    lemma_byte(b);
    lemma_byte(d);
    double::lemma_whole_grows(a, b);
    double::lemma_whole_grows(d, b);
    double::lemma_plus_scaled(double::whole(a), double::whole(d), -52);
    double::lemma_scaled_exact(double::whole(a), -52);
    double::lemma_scaled_exact(double::whole(b), -52);
    let p = pow2(52);
    assert(a * p + d * p == b * p && b * p - d * p == a * p && d * p <= b * p) by (nonlinear_arith)
        requires
            d == b - a,
            a >= 0,
    ;
    double::lemma_minus_scaled(double::whole(b), double::whole(d), -52);
}

/// Where the climb stands.
proof fn lemma_climb(percent: Percent)
    requires
        percent.valid(),
        !percent.under(IO_ROW_THRESHOLD as nat, 1),
    ensures
        is_part(climb(percent)),
        percent.under(100, 1) ==> percent.value().exp == -46 && double::whole(65).exp == -46
            && double::whole(65).mant <= percent.value().scaled(-46) && double::whole(35).mant > 0
            && percent.value().mant > 0
            && percent.value().minus(double::whole(65)).within(-98, -45),
{
    lemma2_to64();
    lemma2_to64_rest();
    double::lemma_small(1, 52);
    double::lemma_small(65, 46);
    double::lemma_small(100, 46);
    double::lemma_small(35, 47);
    let (p, low, high, rest) = (
        percent.value(),
        double::whole(65),
        double::whole(100),
        double::whole(35),
    );
    if percent.under(100, 1) {
        assert(p.exp == -46);
        assert(low.scaled(-46) == low.mant && p.scaled(-46) == p.mant);
        double::lemma_minus_within(p, low);
        let gone = p.minus(low);
        double::lemma_minus_grows(p, high, low);
        lemma_bytes(35, 100);
        double::lemma_div_within(gone, rest);
        double::lemma_div_within(rest, rest);
        double::lemma_div_grows(gone, rest, rest);
        double::lemma_div_self(rest);
    }
}

/// The climb grows with the wait.
proof fn lemma_climbs(less: Percent, more: Percent)
    requires
        less.valid(),
        more.valid(),
        !less.under(IO_ROW_THRESHOLD as nat, 1),
        !more.below(less),
    ensures
        is_part(climb(less)),
        is_part(climb(more)),
        !climb(more).below(climb(less)),
{
    lemma_climb(less);
    lemma_climb(more);
    if more.under(100, 1) {
        let (low, rest) = (double::whole(65), double::whole(35));
        lemma2_to64();
        lemma2_to64_rest();
        double::lemma_small(65, 46);
        double::lemma_small(35, 47);
        double::lemma_minus_grows(less.value(), more.value(), low);
        double::lemma_div_grows(less.value().minus(low), more.value().minus(low), rest);
    }
}

/// What a part of the way from `a` to `b` adds up to, and where it ends.
proof fn lemma_point(a: nat, b: nat, t: Binary)
    requires
        a <= 255,
        b <= 255,
        is_part(t),
    ensures
        a <= b ==> {
            let step = double::whole((b - a) as nat).times(t);
            &&& step.within(-104, -40)
            &&& !double::whole((b - a) as nat).below(step)
            &&& point(a, b, t).within(-104, -38)
            &&& a <= point(a, b, t).whole_part() <= b
        },
        a > b ==> {
            let step = double::whole((a - b) as nat).times(t);
            &&& step.within(-104, -40)
            &&& !double::whole((a - b) as nat).below(step)
            &&& step.mant > 0 ==> step.exp <= double::whole(a).exp && step.mant
                <= double::whole(a).scaled(step.exp)
            &&& point(a, b, t).within(-156, -38)
            &&& b <= point(a, b, t).whole_part() <= a
        },
        t == double::whole(1) ==> point(a, b, t).whole_part() == b,
        double::whole(a).within(-52, -45),
        a > 0 ==> double::whole(a).mant > 0,
{
    let d: nat = if a <= b {
        (b - a) as nat
    } else {
        (a - b) as nat
    };
    let (from, to, whole, one) = (
        double::whole(a),
        double::whole(b),
        double::whole(d),
        double::whole(1),
    );
    lemma_byte(a);
    lemma_byte(b);
    lemma_byte(d);
    lemma_byte(1);
    double::lemma_times_within(whole, t);
    double::lemma_times_within(t, whole);
    double::lemma_times_within(one, whole);
    double::lemma_times_swaps(whole, t);
    double::lemma_times_swaps(whole, one);
    double::lemma_times_one(whole);
    double::lemma_times_grows(t, one, whole);
    let step = whole.times(t);
    if a <= b {
        lemma_bytes(a, b);
        double::lemma_plus_grows(from, step, whole);
        double::lemma_plus_grows(from, Binary::zero(), step);
        double::lemma_sum_within(from, step, -104, -40);
        double::lemma_digits_grow(point(a, b, t), to);
        double::lemma_digits_grow(from, point(a, b, t));
    } else {
        lemma_bytes(b, a);
        lemma_bytes(d, a);
        double::lemma_minus_falls(from, step, whole);
        double::lemma_minus_falls(from, Binary::zero(), step);
        if step.mant > 0 {
            double::lemma_scaled_order(step, from, step.exp);
            lemma2_to64();
            assert(!whole.below(step) && !from.below(whole));
            assert(!from.below(step));
            assert((step.exp - step.exp) as nat == 0);
            assert(step.mant * 1 == step.mant);
            assert(step.scaled(step.exp) == step.mant);
            double::lemma_minus_within(from, step);
        }
        double::lemma_digits_grow(to, point(a, b, t));
        double::lemma_digits_grow(point(a, b, t), from);
    }
}

/// A point further along lies nearer the end.
proof fn lemma_points(a: nat, b: nat, t: Binary, u: Binary)
    requires
        a <= 255,
        b <= 255,
        is_part(t),
        is_part(u),
        !u.below(t),
    ensures
        a <= b ==> a <= between(a, b, t) <= between(a, b, u) <= b,
        a >= b ==> a >= between(a, b, t) >= between(a, b, u) >= b,
        u == double::whole(1) ==> between(a, b, u) == b,
{
    let d: nat = if a <= b {
        (b - a) as nat
    } else {
        (a - b) as nat
    };
    let (from, whole) = (double::whole(a), double::whole(d));
    lemma_point(a, b, t);
    lemma_point(a, b, u);
    lemma_byte(a);
    lemma_byte(d);
    double::lemma_times_swaps(whole, t);
    double::lemma_times_swaps(whole, u);
    double::lemma_times_grows(t, u, whole);
    let (x, y) = (whole.times(t), whole.times(u));
    if a <= b {
        double::lemma_plus_grows(from, x, y);
        double::lemma_digits_grow(point(a, b, t), point(a, b, u));
    } else {
        double::lemma_whole_grows(d, a);
        double::lemma_minus_falls(from, x, y);
        double::lemma_digits_grow(point(a, b, u), point(a, b, t));
    }
}

/// A small whole bound is met exactly: under it are the percentages that are smaller.
pub proof fn a_whole_bound_is_exact(percent: Percent, n: nat)
    requires
        percent.valid(),
        n <= 255,
    ensures
        percent.under(n, 1) <==> accuracy::amount(percent.value()) < n * accuracy::one(),
{
    lemma_byte_amount(n);
    lemma_byte(n);
    double::lemma_scaled_order(double::whole(n), percent.value(), -400);
}

/// A number of eight bits, in units.
pub proof fn lemma_byte_amount(n: nat)
    requires
        n <= 255,
    ensures
        accuracy::amount(double::whole(n)) == n * accuracy::one(),
{
    lemma_byte(n);
    let w = double::whole(n);
    if n == 0 {
        assert(accuracy::amount(w) == 0) by (nonlinear_arith)
            requires
                accuracy::amount(w) == w.mant * pow2((w.exp + 400) as nat),
                w.mant == 0,
        ;
        assert(n * accuracy::one() == 0) by (nonlinear_arith)
            requires
                n == 0,
        ;
    } else {
        let (p, q) = (pow2((w.exp + 52) as nat), pow2(348));
        lemma_pow2_adds((w.exp + 52) as nat, 348);
        lemma_pow2_adds(52, 348);
        assert(w.mant * (p * q) == (w.mant * p) * q) by (nonlinear_arith);
        assert((n * pow2(52)) * q == n * (pow2(52) * q)) by (nonlinear_arith);
    }
}

/// CPU is dim while a process idles, then green, from thirty percent yellow, and from
/// seventy red and bold.
pub proof fn cpu_heats_up(percent: Percent)
    requires
        percent.valid(),
    ensures
        ({
            let (x, u) = (accuracy::amount(percent.value()), accuracy::one());
            let style = cpu_style(percent);
            &&& (100 * x) * 0x10_0000_0000_0001 < (5 * u) * 0x10_0000_0000_0000 ==> style
                == Style::coloured(Color::DarkGray)
            &&& (5 * u) * 0x10_0000_0000_0001 <= (100 * x) * 0x10_0000_0000_0000 && x < 30 * u
                ==> style == Style::coloured(Color::Green)
            &&& 30 * u <= x && x < 70 * u ==> style == Style::coloured(Color::Yellow)
            &&& 70 * u <= x ==> style == (Style {
                fg: Some(Color::Red),
                bold: true,
                reversed: false,
            })
        }),
{
    a_whole_bound_is_exact(percent, 30);
    a_whole_bound_is_exact(percent, 70);
    accuracy::under_is_smaller(percent, 5, 100);
    let (x, u) = (accuracy::amount(percent.value()), accuracy::one());
    lemma_pow2_pos(400);
    assert(x * 100 == 100 * x);
}

/// I/O wait is dim while there is none, then stands out, and in bold from fifty percent
/// on.
pub proof fn io_wait_stands_out(percent: Percent)
    requires
        percent.valid(),
    ensures
        ({
            let (x, u) = (accuracy::amount(percent.value()), accuracy::one());
            let style = io_style(percent);
            &&& percent.value().mant == 0 ==> style == Style::coloured(Color::DarkGray)
            &&& percent.value().mant > 0 && x < 50 * u ==> style == (Style {
                fg: Some(Color::Indexed(173)),
                bold: false,
                reversed: false,
            })
            &&& 50 * u <= x ==> style == (Style {
                fg: Some(Color::Indexed(173)),
                bold: true,
                reversed: false,
            })
        }),
{
    a_whole_bound_is_exact(percent, 50);
    let (x, u) = (accuracy::amount(percent.value()), accuracy::one());
    let p = percent.value();
    lemma_pow2_pos(400);
    if p.mant == 0 {
        assert(x == 0) by (nonlinear_arith)
            requires
                x == p.mant * pow2((p.exp + 400) as nat),
                p.mant == 0,
        ;
    }
}

/// A row is tinted from sixty-five percent of I/O wait on and not before. The tint
/// starts where that starts, and is full from a whole interval on.
pub proof fn rows_are_tinted_from_a_threshold_on(background: Background, percent: Percent)
    requires
        percent.valid(),
    ensures
        ({
            let (x, u) = (accuracy::amount(percent.value()), accuracy::one());
            let tint = io_row_tint(background, percent);
            &&& x < 65 * u <==> tint is None
            &&& x >= 65 * u ==> {
                let (r, g, b) = channels(background, percent);
                tint == Some(Color::Rgb(r as u8, g as u8, b as u8))
            }
            &&& x == 65 * u ==> tint == Some(
                match background {
                    Background::Dark => Color::Rgb(48, 16, 16),
                    Background::Light => Color::Rgb(255, 224, 224),
                },
            )
            &&& x >= 100 * u ==> tint == Some(
                match background {
                    Background::Dark => Color::Rgb(128, 30, 30),
                    Background::Light => Color::Rgb(244, 168, 168),
                },
            )
        }),
{
    a_whole_bound_is_exact(percent, 65);
    a_whole_bound_is_exact(percent, 100);
    let (x, u) = (accuracy::amount(percent.value()), accuracy::one());
    lemma_pow2_pos(400);
    if x >= 100 * u {
        the_tint_deepens(percent, percent);
    }
    if x == 65 * u {
        let (p, low, zero) = (percent.value(), double::whole(65), Binary::zero());
        lemma_byte(65);
        lemma_byte_amount(65);
        double::lemma_scaled_order(low, p, -400);
        double::lemma_scaled_order(p, low, -400);
        assert(p.rank() == low.rank());
        lemma_same_rank(p, low);
        lemma_start(p);
        assert(climb(percent) == zero);
        lemma_still(48, 128);
        lemma_still(16, 30);
        lemma_still(255, 244);
        lemma_still(224, 168);
    }
}

proof fn lemma_same_rank(a: Binary, b: Binary)
    requires
        a.within(-400, 400),
        b.within(-400, 400),
        a.rank() == b.rank(),
    ensures
        a == b,
{
}

proof fn lemma_start(p: Binary)
    requires
        p == double::whole(65),
    ensures
        p.minus(double::whole(65)).div(double::whole(35)) == Binary::zero(),
{
    lemma_byte(65);
    lemma2_to64();
    assert((p.exp - p.exp) as nat == 0);
    assert((p.mant * pow2(0) - p.mant) as nat == 0);
}

/// No part of the way is where it starts.
proof fn lemma_still(a: nat, b: nat)
    requires
        a <= 255,
        b <= 255,
    ensures
        between(a, b, Binary::zero()) == a,
{
    lemma_byte(a);
    let d: nat = if a <= b {
        (b - a) as nat
    } else {
        (a - b) as nat
    };
    let step = double::whole(d).times(Binary::zero());
    assert(double::whole(d).mant * 0 == 0);
    assert(step == Binary::zero());
}

/// Between its two ends the tint climbs evenly: a channel has come as far as the wait
/// has from its threshold to a whole interval, to the next number below or next to it.
pub proof fn the_tint_climbs_evenly(percent: Percent, a: nat, b: nat)
    requires
        percent.valid(),
        a <= 255,
        b <= 255,
        65 * accuracy::one() <= accuracy::amount(percent.value()) <= 100 * accuracy::one(),
    ensures
        ({
            let (x, u) = (accuracy::amount(percent.value()) as int, accuracy::one() as int);
            let way = (x - 65 * u) * (b - a) + 35 * (a * u);
            let channel = between(a, b, climb(percent)) as int;
            -(2 * u) <= way - 35 * (channel * u) <= 37 * u
        }),
{
    lemma_tint(percent, a, b);
}

proof fn lemma_tint(percent: Percent, a: nat, b: nat)
    requires
        percent.valid(),
        a <= 255,
        b <= 255,
        65 * accuracy::one() <= accuracy::amount(percent.value()) <= 100 * accuracy::one(),
    ensures
        ({
            let (x, u) = (accuracy::amount(percent.value()) as int, accuracy::one() as int);
            let way = (x - 65 * u) * (b - a) + 35 * (a * u);
            let channel = between(a, b, climb(percent)) as int;
            -(2 * u) <= way - 35 * (channel * u) <= 37 * u
        }),
{
    let (x, u) = (accuracy::amount(percent.value()) as int, accuracy::one() as int);
    let y = x - 65 * u;
    let d: nat = if a <= b {
        (b - a) as nat
    } else {
        (a - b) as nat
    };
    let t = climb(percent);
    let (from, whole) = (double::whole(a), double::whole(d));
    let step = whole.times(t);
    let at = point(a, b, t);
    let (k, g, s, v) = (
        accuracy::amount(t) as int,
        climbed(percent),
        accuracy::amount(step) as int,
        accuracy::amount(at) as int,
    );
    lemma_pow2_pos(400);
    a_whole_bound_is_exact(percent, 65);
    a_whole_bound_is_exact(percent, 100);
    lemma_climb(percent);
    lemma_climbed(percent);
    lemma_point(a, b, t);
    lemma_byte(d);
    lemma_byte_amount(d);
    lemma_byte_amount(a);
    // The step, in units.
    accuracy::a_product_is_near(whole, t);
    assert(accuracy::one() * accuracy::amount(step) == s * u && accuracy::amount(whole)
        * accuracy::amount(t) == (d * k) * u) by (nonlinear_arith)
        requires
            accuracy::amount(whole) == d * accuracy::one(),
            u == accuracy::one(),
            s == accuracy::amount(step),
            k == accuracy::amount(t),
    ;
    accuracy::lemma_near_cancels(s, d * k, u);
    // The point.
    if a <= b {
        accuracy::a_sum_is_near(from, step);
    } else {
        accuracy::a_difference_is_near(from, step);
    }
    accuracy::digits_are_the_nearest(at);
    // The way, as far as the step.
    lemma_step_scales(d as int, k, g, y);
    let w = at.whole_part() as int;
    assert(between(a, b, t) as int == w);
    let dy = d * y;
    assert(y * (b - a) == if a <= b {
        dy
    } else {
        -dy
    }) by (nonlinear_arith)
        requires
            a <= b ==> d == b - a,
            a > b ==> d == a - b,
            dy == d * y,
    ;
    assert(0 <= dy <= 255 * (35 * u)) by (nonlinear_arith)
        requires
            dy == d * y,
            0 <= d <= 255,
            0 <= y <= 35 * u,
    ;
    assert((w + 1) * u == w * u + u) by (nonlinear_arith);
    let au = a * u;
    assert(0 <= au <= 255 * u) by (nonlinear_arith)
        requires
            au == a * u,
            0 <= a <= 255,
            u > 0,
    ;
    lemma_tint_bounds(dy, d * g, d * k, s, v, au, w * u, u, a <= b);
}

/// How far the wait is above its threshold, as it is computed: in units, times the
/// thirty-five percent it has to go.
spec fn climbed(percent: Percent) -> int {
    if percent.under(100, 1) {
        accuracy::amount(percent.value().minus(double::whole(65))) as int
    } else {
        (35 * accuracy::one()) as int
    }
}

proof fn lemma_climbed(percent: Percent)
    requires
        percent.valid(),
        65 * accuracy::one() <= accuracy::amount(percent.value()) <= 100 * accuracy::one(),
    ensures
        accuracy::is_near(35 * accuracy::amount(climb(percent)) as int, climbed(percent)),
        accuracy::is_near(
            climbed(percent),
            accuracy::amount(percent.value()) - 65 * accuracy::one(),
        ),
{
    let u = accuracy::one() as int;
    lemma_pow2_pos(400);
    a_whole_bound_is_exact(percent, 65);
    a_whole_bound_is_exact(percent, 100);
    lemma_climb(percent);
    lemma_byte_amount(1);
    lemma_byte_amount(65);
    lemma_byte_amount(35);
    lemma_byte(65);
    lemma_byte(35);
    if percent.under(100, 1) {
        let (low, rest) = (double::whole(65), double::whole(35));
        let gone = percent.value().minus(low);
        accuracy::a_difference_is_near(percent.value(), low);
        accuracy::a_quotient_is_near(gone, rest);
        let (g, k) = (accuracy::amount(gone) as int, accuracy::amount(climb(percent)) as int);
        assert(accuracy::amount(rest) * accuracy::amount(climb(percent)) == (35 * k) * u)
            by (nonlinear_arith)
            requires
                accuracy::amount(rest) == 35 * accuracy::one(),
                u == accuracy::one(),
                k == accuracy::amount(climb(percent)),
        ;
        accuracy::lemma_near_cancels(35 * k, g, u);
    }
}

proof fn lemma_step_scales(d: int, k: int, g: int, y: int)
    requires
        d >= 0,
        accuracy::is_near(35 * k, g),
        accuracy::is_near(g, y),
    ensures
        accuracy::is_near(35 * (d * k), d * g),
        accuracy::is_near(d * g, d * y),
{
    if d == 0 {
        assert(d * k == 0 && d * g == 0 && d * y == 0) by (nonlinear_arith)
            requires
                d == 0,
        ;
    } else {
        accuracy::lemma_near_scales(35 * k, g, d);
        accuracy::lemma_near_scales(g, y, d);
        assert((35 * k) * d == 35 * (d * k) && g * d == d * g && y * d == d * y)
            by (nonlinear_arith);
    }
}

proof fn lemma_tint_bounds(
    dy: int,
    dg: int,
    dk: int,
    s: int,
    v: int,
    au: int,
    wu: int,
    u: int,
    up: bool,
)
    requires
        u > 0,
        0 <= dy <= 8925 * u,
        0 <= au <= 255 * u,
        accuracy::is_near(35 * dk, dg),
        accuracy::is_near(dg, dy),
        accuracy::is_near(s, dk),
        up ==> accuracy::is_near(v, au + s),
        !up ==> accuracy::is_near(v, au - s),
        wu <= v < wu + u,
    ensures
        ({
            let way = if up {
                dy + 35 * au
            } else {
                35 * au - dy
            };
            -(2 * u) <= way - 35 * wu <= 37 * u
        }),
{
    // Every step is off by less than a ten-thousandth of a unit of the whole.
    assert(-u <= 1_000 * (dy - dg) <= u);
    assert(-u <= 1_000 * (dg - 35 * dk) <= u);
    assert(-u <= 1_000 * (dk - s) <= u);
    assert(-u <= 1_000 * ((if up {
        au + s
    } else {
        au - s
    }) - v) <= u);
}

/// Memory is dim where there is none, green under two percent of what is installed,
/// yellow under ten, and red and bold from there on.
pub proof fn memory_heats_up(bytes: nat, total: nat)
    requires
        bytes <= u64::MAX,
        total <= u64::MAX,
    ensures
        ({
            let style = mem_style(bytes, total);
            let (e, f) = (0x4_0000_0000_0000nat, 0x4_0000_0000_0001nat);
            &&& bytes == 0 || total == 0 ==> style == Style::coloured(Color::DarkGray)
            &&& bytes > 0 && total > 0 && (bytes * 100) * f < (total * 2) * e ==> style
                == Style::coloured(Color::Green)
            &&& bytes > 0 && total > 0 && (total * 2) * f <= (bytes * 100) * e && (bytes * 100) * f
                < (total * 10) * e ==> style == Style::coloured(Color::Yellow)
            &&& bytes > 0 && total > 0 && (total * 10) * f <= (bytes * 100) * e ==> style == (Style {
                fg: Some(Color::Red),
                bold: true,
                reversed: false,
            })
        }),
{
    if bytes > 0 && total > 0 {
        accuracy::a_ratio_compares(bytes, total, 2, 100);
        accuracy::a_ratio_compares(bytes, total, 10, 100);
    }
}

/// Every second row is striped, from the second on, in a shade close to the background:
/// dark on dark and light on light.
pub proof fn stripes_alternate(index: int)
    requires
        0 <= index,
    ensures
        stripe(Background::Dark, 0) is None && stripe(Background::Light, 0) is None,
        stripe(Background::Dark, 1) == Some(Color::Rgb(24, 24, 28)),
        stripe(Background::Light, 1) == Some(Color::Rgb(238, 238, 243)),
        stripe(Background::Dark, index) == stripe(Background::Dark, index + 2),
        stripe(Background::Light, index) == stripe(Background::Light, index + 2),
        stripe(Background::Dark, index) is Some <==> stripe(Background::Dark, index + 1) is None,
        stripe(Background::Light, index) is Some <==> stripe(Background::Light, index + 1) is None,
        stripe(Background::Dark, index) matches Some(colour) ==> (colour matches Color::Rgb(r, g, b)
            && r < 64 && g < 64 && b < 64),
        stripe(Background::Light, index) matches Some(colour) ==> (colour matches Color::Rgb(r, g, b)
            && r > 192 && g > 192 && b > 192),
{
}

} // verus!
