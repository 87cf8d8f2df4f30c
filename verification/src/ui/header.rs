//! Everything above the process table: the identity line, the trend charts and
//! the summary gauges.

use std::collections::VecDeque;

use vstd::arithmetic::power2::*;
use vstd::prelude::*;

use crate::accuracy;
use crate::backend::SystemState;
use crate::bytes;
use crate::bytes::format_bytes;
use crate::double;
use crate::double::{Binary, Double};
use crate::percent;
use crate::percent::Percent;
use crate::system::Machine;
use crate::text;
use crate::ui::style;
use crate::ui::style::{push_span, push_text, Alignment, Color, Span, Style};
use crate::ui::theme;

verus! {

pub const GAUGE_WIDTH: usize = 18;

// ── Identity ─────────────────────────────────────────────────────────────────

/// Three lines over one row: wordmark left, specs centred, clock right.
#[derive(Debug)]
pub struct IdentityLine {
    pub wordmark: Vec<Span>,
    pub specs: Vec<Span>,
    pub clock: Vec<Span>,
}

/// The alignment of the three lines.
pub fn identity_alignments() -> (out: (Alignment, Alignment, Alignment))
    ensures
        out == (Alignment::Left, Alignment::Center, Alignment::Right),
{
    (Alignment::Left, Alignment::Center, Alignment::Right)
}

/// A wall-clock time, as the machine's own clock shows it.
#[derive(Clone, Copy, Debug, PartialEq, Eq, Structural)]
pub struct Time {
    pub hour: u32,
    pub minute: u32,
    pub second: u32,
}

/// `n` in base ten, with a zero in front where it is a single digit.
pub open spec fn two_digits(n: nat) -> Seq<char> {
    if n < 10 {
        seq!['0'] + text::decimal(n)
    } else {
        text::decimal(n)
    }
}

fn push_two_digits(out: &mut String, n: u32)
    ensures
        final(out)@ == old(out)@ + two_digits(n as nat),
{
    if n < 10 {
        out.push('0');
    }
    out.append(text::to_decimal(n as u128).as_str());
    assert(out@ == old(out)@ + two_digits(n as nat));
}

pub open spec fn clock_shown(time: Time) -> Seq<char> {
    two_digits(time.hour as nat) + seq![':'] + two_digits(time.minute as nat) + seq![':']
        + two_digits(time.second as nat)
}

/// A time as `hh:mm:ss`.
pub fn clock(time: Time) -> (out: String)
    ensures
        out@ == clock_shown(time),
{
    let mut out = String::new();
    push_two_digits(&mut out, time.hour);
    out.push(':');
    push_two_digits(&mut out, time.minute);
    out.push(':');
    push_two_digits(&mut out, time.second);
    assert(out@ == clock_shown(time));
    out
}

/// The host, in one line.
pub open spec fn specs_shown(machine: Machine) -> Seq<char> {
    machine.hostname@ + " · "@ + machine.cpu_model@ + " · "@ + text::decimal(machine.cores as nat)
        + " cores · "@ + bytes::shown_bytes(machine.memory_total_bytes as nat)
}

/// The wordmark, with the radar glyph standing in for the `o`, as in the logo.
pub open spec fn wordmark_shown() -> Seq<(Seq<char>, Style)> {
    let plain = Style { bold: true, ..Style::coloured(theme::TEXT) };
    let accent = Style { bold: true, ..Style::coloured(theme::io()) };
    seq![(" "@, Style::plain()), ("truet"@, plain), ("◎"@, accent), ("p"@, plain)]
}

/// The identity line. It depends on the host and the clock alone, not on any
/// snapshot: the first frame is drawn before the collector has ticked.
pub fn draw_identity(machine: &Machine, time: Time) -> (out: IdentityLine)
    ensures
        style::shown(out.wordmark@) == wordmark_shown(),
        style::shown(out.specs@) == seq![(specs_shown(*machine), Style::coloured(theme::DIM))],
        style::shown(out.clock@) == seq![
            (clock_shown(time) + seq![' '], Style::coloured(theme::ACCENT)),
        ],
{
    let mut text = machine.hostname.clone();
    text.append(" · ");
    text.append(machine.cpu_model.as_str());
    text.append(" · ");
    text.append(text::to_decimal(machine.cores as u128).as_str());
    text.append(" cores · ");
    text.append(format_bytes(machine.memory_total_bytes).as_str());
    let mut specs: Vec<Span> = Vec::new();
    push_span(&mut specs, text, Style::new().fg(theme::DIM));
    assert(style::shown(specs@) == seq![(specs_shown(*machine), Style::coloured(theme::DIM))]);

    let bold = Style::new().fg(theme::TEXT).bold();
    let mut wordmark: Vec<Span> = Vec::new();
    push_text(&mut wordmark, " ", Style::new());
    push_text(&mut wordmark, "truet", bold);
    push_text(&mut wordmark, "◎", Style::new().fg(theme::io()).bold());
    push_text(&mut wordmark, "p", bold);
    assert(style::shown(wordmark@) == wordmark_shown());

    let mut now = clock(time);
    now.push(' ');
    assert(now@ == clock_shown(time) + seq![' ']);
    let mut clock: Vec<Span> = Vec::new();
    push_span(&mut clock, now, Style::new().fg(theme::ACCENT));
    assert(style::shown(clock@) == seq![
        (clock_shown(time) + seq![' '], Style::coloured(theme::ACCENT)),
    ]);
    IdentityLine { wordmark, specs, clock }
}

// ── Charts ───────────────────────────────────────────────────────────────────

/// The axes of a chart.
#[derive(Clone, Copy, Debug)]
pub struct Axes {
    /// The last sample's place; the first is at zero.
    pub x_max: usize,
    /// The highest sample, or one percent where none reaches it.
    pub peak: Percent,
    /// Where the axis ends: a tenth above the peak.
    pub y_max: Double,
}

/// One trend chart.
#[derive(Debug)]
pub struct Chart {
    pub title: Vec<Span>,
    pub colour: Color,
    /// The samples, oldest first.
    pub points: Vec<Percent>,
    /// `None` where there is no sample, and so nothing to draw but the frame.
    pub axes: Option<Axes>,
}

pub open spec fn chart_title(label: Seq<char>, value: Seq<char>, colour: Color) -> Seq<
    (Seq<char>, Style),
> {
    seq![
        (" "@ + label + " "@, Style { bold: true, ..Style::coloured(colour) }),
        (value + " "@, Style::coloured(theme::DIM)),
    ]
}

/// `peak` is the highest of `points`, or one percent where none reaches it.
pub open spec fn is_peak(peak: Percent, points: Seq<Percent>) -> bool {
    &&& forall|i: int| 0 <= i < points.len() ==> !peak.below(#[trigger] points[i])
    &&& !peak.under(1, 1)
    &&& (exists|i: int| 0 <= i < points.len() && #[trigger] points[i] == peak) || peak.reads(
        double::whole(1),
    )
}

/// The axes span the samples actually held, so the series fills the panel rather
/// than drawing into a fixed axis it has not caught up with yet.
pub open spec fn axes_fit(axes: Option<Axes>, points: Seq<Percent>) -> bool {
    match axes {
        Some(axes) => {
            &&& points.len() > 0
            &&& axes.x_max == if points.len() > 1 {
                points.len() - 1
            } else {
                1
            }
            &&& is_peak(axes.peak, points)
            &&& axes.y_max@ == axes.peak.value().times(double::round(11, 10, 0))
        },
        None => points.len() == 0,
    }
}

/// The chart of `history`.
pub fn chart(history: &VecDeque<Percent>, label: &str, value: String, colour: Color) -> (out: Chart)
    ensures
        style::shown(out.title@) == chart_title(label@, value@, colour),
        out.colour == colour,
        out.points@ == history@,
        axes_fit(out.axes, history@),
{
    let mut name = " ".to_owned();
    name.append(label);
    name.append(" ");
    let mut figure = value;
    figure.append(" ");
    let mut title: Vec<Span> = Vec::new();
    push_span(&mut title, name, Style::new().fg(colour).bold());
    push_span(&mut title, figure, Style::new().fg(theme::DIM));
    assert(style::shown(title@) == chart_title(label@, value@, colour));

    let mut points: Vec<Percent> = Vec::new();
    let mut peak = Percent::nearest_to(1, 1);
    for i in 0..history.len()
        invariant
            points@ == history@.take(i as int),
            is_peak(peak, points@),
    {
        let sample = history[i];
        let ghost was = points@;
        points.push(sample);
        assert(points@ == history@.take(i + 1));
        proof {
            assert(points@[i as int] == sample);
            if peak.below(sample) {
                assert forall|k: int| 0 <= k < points.len() implies !sample.below(
                    #[trigger] points@[k],
                ) by {
                    if k < i {
                        assert(points@[k] == was[k]);
                    }
                }
            } else {
                if exists|k: int| 0 <= k < was.len() && #[trigger] was[k] == peak {
                    let k = choose|k: int| 0 <= k < was.len() && #[trigger] was[k] == peak;
                    assert(points@[k] == peak);
                }
            }
        }
        if peak.less(&sample) {
            peak = sample;
        }
    }
    assert(history@.take(history@.len() as int) == history@);
    let axes = if points.len() == 0 {
        None
    } else {
        let x_max: usize = if points.len() > 1 {
            points.len() - 1
        } else {
            1
        };
        let y_max = peak.double().times(Double::ratio(11, 10));
        Some(Axes { x_max, peak, y_max })
    };
    Chart { title, colour, points, axes }
}

/// The two trend charts.
pub fn draw_charts(state: &SystemState) -> (out: (Chart, Chart))
    ensures
        style::shown(out.0.title@) == chart_title(
            "cpu"@,
            state.total_cpu_percent.shown() + "%"@,
            theme::CPU,
        ),
        out.0.colour == theme::CPU,
        out.0.points@ == state.cpu_history@,
        axes_fit(out.0.axes, state.cpu_history@),
        style::shown(out.1.title@) == chart_title(
            "io wait"@,
            state.total_io_percent.shown() + "% summed over processes"@,
            theme::io(),
        ),
        out.1.colour == theme::io(),
        out.1.points@ == state.io_history@,
        axes_fit(out.1.axes, state.io_history@),
{
    let mut cpu = state.total_cpu_percent.text();
    cpu.append("%");
    let mut io = state.total_io_percent.text();
    io.append("% summed over processes");
    (
        chart(&state.cpu_history, "cpu", cpu, theme::CPU),
        chart(&state.io_history, "io wait", io, theme::io()),
    )
}

// ── Summary ──────────────────────────────────────────────────────────────────

/// The part of a gauge that `percent` fills: all of it past a hundred.
pub open spec fn filled_part(percent: Percent) -> Binary {
    let part = percent.value().div(double::whole(100));
    if double::whole(1).below(part) {
        double::whole(1)
    } else {
        part
    }
}

/// The cells a gauge fills: its width times the part, to the nearest and up where
/// two are as near.
pub open spec fn filled_cells(percent: Percent) -> nat {
    filled_part(percent).times(double::whole(GAUGE_WIDTH as nat)).rounded_up()
}

fn filled(percent: &Percent) -> (out: usize)
    ensures
        out == filled_cells(*percent),
        out <= GAUGE_WIDTH,
{
    let value = percent.double();
    proof {
        percent::lemma_hundred();
        lemma_filled(*percent);
    }
    let ratio = value.div(Double::of(100));
    let one = Double::of(1);
    let part = if one.less(ratio) {
        one
    } else {
        ratio
    };
    part.times(Double::of(GAUGE_WIDTH as u64)).rounded_up() as usize
}

/// No more cells are filled than there are.
proof fn lemma_filled(percent: Percent)
    requires
        percent.valid(),
    ensures
        filled_cells(percent) <= GAUGE_WIDTH,
        double::whole(1).within(-52, -52),
        percent.value().div(double::whole(100)).within(-207, 55),
        filled_part(percent).within(-207, -52),
        filled_part(percent).times(double::whole(GAUGE_WIDTH as nat)).within(-203, -46),
{
    let (one, width) = (double::whole(1), double::whole(18));
    lemma2_to64();
    lemma2_to64_rest();
    double::lemma_small(1, 52);
    double::lemma_whole_digits(18, 48);
    double::lemma_small(18, 48);
    percent::lemma_hundred();
    double::lemma_div_within(percent.value(), double::whole(100));
    let part = filled_part(percent);
    double::lemma_times_within(part, width);
    double::lemma_times_within(one, width);
    double::lemma_times_grows(part, one, width);
    double::lemma_times_one(width);
    double::lemma_digits_grow(part.times(width), width);
}

/// `c`, `n` times over.
pub open spec fn repeated(c: char, n: nat) -> Seq<char> {
    Seq::new(n, |i: int| c)
}

fn repeat(c: char, n: usize) -> (out: String)
    ensures
        out@ == repeated(c, n as nat),
{
    let mut out = String::new();
    assert(out@ == repeated(c, 0));
    for i in 0..n
        invariant
            out@ == repeated(c, i as nat),
    {
        out.push(c);
        assert(repeated(c, i as nat).push(c) == repeated(c, (i + 1) as nat));
    }
    out
}

pub open spec fn gauge_shown(label: Seq<char>, percent: Percent, colour: Color) -> Seq<
    (Seq<char>, Style),
> {
    let n = filled_cells(percent);
    seq![
        (" "@ + label + " "@, Style { bold: true, ..Style::coloured(colour) }),
        (repeated('━', n), Style::coloured(colour)),
        (repeated('─', (GAUGE_WIDTH - n) as nat), Style::coloured(theme::DIM)),
        (" "@ + percent.shown() + "%"@, Style::coloured(theme::TEXT)),
    ]
}

/// Append a gauge.
pub fn gauge(out: &mut Vec<Span>, label: &str, percent: &Percent, colour: Color)
    ensures
        style::shown(final(out)@) == style::shown(old(out)@) + gauge_shown(
            label@,
            *percent,
            colour,
        ),
{
    let n = filled(percent);
    let mut name = " ".to_owned();
    name.append(label);
    name.append(" ");
    let mut figure = " ".to_owned();
    figure.append(percent.text().as_str());
    figure.append("%");
    push_span(out, name, Style::new().fg(colour).bold());
    push_span(out, repeat('━', n), Style::new().fg(colour));
    push_span(out, repeat('─', GAUGE_WIDTH - n), Style::new().fg(theme::DIM));
    push_span(out, figure, Style::new().fg(theme::TEXT));
    assert(style::shown(out@) == style::shown(old(out)@) + gauge_shown(label@, *percent, colour));
}

/// `percent` is `used` of `total`; nothing where there is no total.
pub open spec fn is_share(percent: Percent, used: nat, total: nat) -> bool {
    percent.reads(percent::share(used, total)) && percent.valid()
}

/// How much of the memory is in use.
pub fn memory_percent(used: u64, total: u64) -> (out: Percent)
    ensures
        is_share(out, used as nat, total as nat),
{
    Percent::new(used, total)
}

/// What follows the gauges: memory in figures, the load average, and how many
/// processes are accounted for.
pub open spec fn figures(state: SystemState) -> Seq<(Seq<char>, Style)> {
    let dim = Style::coloured(theme::DIM);
    let gap = ("  "@, Style::plain());
    seq![
        (
            " "@ + bytes::shown_bytes(state.memory_used_bytes as nat) + " of "@
                + bytes::shown_bytes(state.memory_total_bytes as nat),
            dim,
        ),
        gap,
        ("load "@ + state.load_average@, dim),
        gap,
        (text::decimal(state.accounted as nat) + " tasks"@, dim),
    ]
}

/// The summary of `state`, where `memory` is its memory share.
pub open spec fn summary_shown(state: SystemState, memory: Percent) -> Seq<(Seq<char>, Style)> {
    gauge_shown("cpu"@, state.total_cpu_percent, theme::CPU).push(("  "@, Style::plain()))
        + gauge_shown("mem"@, memory, Color::Cyan) + figures(state)
}

/// `line` is the summary of `state`.
pub open spec fn is_summary(line: Seq<(Seq<char>, Style)>, state: SystemState) -> bool {
    exists|memory: Percent|
        {
            &&& #[trigger] is_share(
                memory,
                state.memory_used_bytes as nat,
                state.memory_total_bytes as nat,
            )
            &&& line == summary_shown(state, memory)
        }
}

/// The summary line. It counts processes, not rows: the rows are the top of each
/// metric only.
pub fn draw_summary(state: &SystemState) -> (out: Vec<Span>)
    ensures
        is_summary(style::shown(out@), *state),
{
    let dim = Style::new().fg(theme::DIM);
    let mut spans: Vec<Span> = Vec::new();
    assert(style::shown(spans@) == Seq::<(Seq<char>, Style)>::empty());
    gauge(&mut spans, "cpu", &state.total_cpu_percent, theme::CPU);
    push_text(&mut spans, "  ", Style::new());
    assert(style::shown(spans@) == gauge_shown(
        "cpu"@,
        state.total_cpu_percent,
        theme::CPU,
    ).push(("  "@, Style::plain())));
    let memory = memory_percent(state.memory_used_bytes, state.memory_total_bytes);
    gauge(&mut spans, "mem", &memory, Color::Cyan);
    let ghost gauges = style::shown(spans@);
    let mut in_use = " ".to_owned();
    in_use.append(format_bytes(state.memory_used_bytes).as_str());
    in_use.append(" of ");
    in_use.append(format_bytes(state.memory_total_bytes).as_str());
    push_span(&mut spans, in_use, dim);
    push_text(&mut spans, "  ", Style::new());
    let mut load = "load ".to_owned();
    load.append(state.load_average.as_str());
    push_span(&mut spans, load, dim);
    push_text(&mut spans, "  ", Style::new());
    let mut tasks = text::to_decimal(state.accounted as u128);
    tasks.append(" tasks");
    push_span(&mut spans, tasks, dim);
    assert(style::shown(spans@) == gauges + figures(*state));
    assert(style::shown(spans@) == summary_shown(*state, memory));
    spans
}

// ── Laws ─────────────────────────────────────────────────────────────────────

/// A gauge is always as wide as it is meant to be.
pub proof fn a_gauge_keeps_its_width(percent: Percent)
    requires
        percent.valid(),
    ensures
        filled_cells(percent) <= GAUGE_WIDTH,
        repeated('━', filled_cells(percent)).len() + repeated(
            '─',
            (GAUGE_WIDTH - filled_cells(percent)) as nat,
        ).len() == GAUGE_WIDTH,
{
    lemma_filled(percent);
}

/// A gauge never falls back as its percentage climbs.
pub proof fn a_gauge_fills_with_its_percentage(less: Percent, more: Percent)
    requires
        less.valid(),
        more.valid(),
        !more.below(less),
    ensures
        filled_cells(less) <= filled_cells(more),
{
    lemma_filled(less);
    lemma_filled(more);
    percent::lemma_hundred();
    lemma2_to64();
    lemma2_to64_rest();
    double::lemma_small(18, 48);
    let width = double::whole(GAUGE_WIDTH as nat);
    double::lemma_div_grows(less.value(), more.value(), double::whole(100));
    double::lemma_times_grows(filled_part(less), filled_part(more), width);
    double::lemma_digits_grow(filled_part(less).times(width), filled_part(more).times(width));
}

/// A clock shows its three numbers in two digits each, with colons between them.
pub proof fn a_clock_reads_back(time: Time)
    requires
        time.hour < 100,
        time.minute < 100,
        time.second < 100,
    ensures
        ({
            let shown = clock_shown(time);
            &&& shown.len() == 8
            &&& text::parsed(shown.subrange(0, 2), 99) == Some(time.hour as nat)
            &&& shown[2] == ':'
            &&& text::parsed(shown.subrange(3, 5), 99) == Some(time.minute as nat)
            &&& shown[5] == ':'
            &&& text::parsed(shown.subrange(6, 8), 99) == Some(time.second as nat)
        }),
{
    lemma_two_digits(time.hour as nat);
    lemma_two_digits(time.minute as nat);
    lemma_two_digits(time.second as nat);
    let shown = clock_shown(time);
    assert(shown.subrange(0, 2) =~= two_digits(time.hour as nat));
    assert(shown.subrange(3, 5) =~= two_digits(time.minute as nat));
    assert(shown.subrange(6, 8) =~= two_digits(time.second as nat));
}

proof fn lemma_two_digits(n: nat)
    requires
        n < 100,
    ensures
        two_digits(n).len() == 2,
        text::parsed(two_digits(n), 99) == Some(n),
{
    reveal_with_fuel(text::decimal, 2);
    text::decimal_reads_back(n, 99);
    text::digits_count_in_tens(seq!['0'], n % 10, 99);
    if n < 10 {
        text::digits_count_in_tens(seq!['0'], 0, 99);
        assert(seq!['0'] + text::decimal(n) =~= seq!['0'].push(text::digit_char(n)));
        assert(seq!['0'] =~= seq![('0' as nat + 0) as char]);
    }
}

/// A gauge fills as much of its eighteen cells as its percentage is of a hundred: within
/// half a cell, and a hundredth of one for rounding. From a hundred on it is full.
pub proof fn a_gauge_fills_in_proportion(percent: Percent)
    requires
        percent.valid(),
    ensures
        ({
            let (x, u) = (accuracy::amount(percent.value()) as int, accuracy::one() as int);
            let cells = filled_cells(percent) as int;
            &&& x <= 100 * u ==> -(51 * u) <= 18 * x - 100 * (cells * u) <= 51 * u
            &&& x >= 100 * u ==> cells == 18
        }),
{
    let (p, hundred, one, width) = (
        percent.value(),
        double::whole(100),
        double::whole(1),
        double::whole(18),
    );
    lemma_filled(percent);
    percent::lemma_hundred();
    lemma2_to64();
    lemma2_to64_rest();
    lemma_pow2_pos(400);
    double::lemma_small(1, 52);
    double::lemma_small(18, 48);
    double::lemma_whole_digits(18, 48);
    double::lemma_times_one(width);
    double::lemma_div_self(hundred);
    theme::a_whole_bound_is_exact(percent, 100);
    let (q, part) = (p.div(hundred), filled_part(percent));
    let (x, u) = (accuracy::amount(p) as int, accuracy::one() as int);
    if x >= 100 * u {
        double::lemma_div_grows(hundred, p, hundred);
        assert(q.rank() >= one.rank());
        assert(part == one);
    }
    if x <= 100 * u {
        theme::lemma_byte_amount(100);
        double::lemma_scaled_order(p, hundred, -400);
        double::lemma_div_grows(p, hundred, hundred);
        assert(part == q);
        lemma_cells(percent);
    }
}

proof fn lemma_cells(percent: Percent)
    requires
        percent.valid(),
        filled_part(percent) == percent.value().div(double::whole(100)),
    ensures
        ({
            let (x, u) = (accuracy::amount(percent.value()) as int, accuracy::one() as int);
            -(51 * u) <= 18 * x - 100 * (filled_cells(percent) * u) <= 51 * u
        }),
{
    let (p, hundred, width) = (percent.value(), double::whole(100), double::whole(18));
    let q = p.div(hundred);
    let s = q.times(width);
    lemma_filled(percent);
    percent::lemma_hundred();
    lemma2_to64();
    lemma2_to64_rest();
    lemma_pow2_pos(400);
    double::lemma_small(18, 48);
    theme::lemma_byte_amount(100);
    theme::lemma_byte_amount(18);
    accuracy::a_quotient_is_near(p, hundred);
    accuracy::a_product_is_near(q, width);
    accuracy::digits_are_the_nearest(s);
    let (x, k, v, u) = (
        accuracy::amount(p) as int,
        accuracy::amount(q) as int,
        accuracy::amount(s) as int,
        accuracy::one() as int,
    );
    assert(accuracy::amount(hundred) * accuracy::amount(q) == (100 * k) * u && accuracy::one()
        * accuracy::amount(s) == v * u && accuracy::amount(q) * accuracy::amount(width) == (18 * k)
        * u) by (nonlinear_arith)
        requires
            accuracy::amount(hundred) == 100 * accuracy::one(),
            accuracy::amount(width) == 18 * accuracy::one(),
            k == accuracy::amount(q),
            v == accuracy::amount(s),
            u == accuracy::one(),
    ;
    accuracy::lemma_near_cancels(100 * k, x, u);
    accuracy::lemma_near_cancels(v, 18 * k, u);
    let cells = filled_cells(percent) as int;
    assert(0 <= cells * u <= 18 * u) by (nonlinear_arith)
        requires
            0 <= cells <= 18,
            u > 0,
    ;
    lemma_cell_bounds(x, k, v, cells * u, u);
}

proof fn lemma_cell_bounds(x: int, k: int, v: int, filled: int, u: int)
    requires
        u > 0,
        0 <= filled <= 18 * u,
        accuracy::is_near(100 * k, x),
        accuracy::is_near(v, 18 * k),
        -u <= 2 * (v - filled) < u,
    ensures
        -(51 * u) <= 18 * x - 100 * filled <= 51 * u,
{
    assert(-u <= 10_000 * (18 * k - v) <= u);
    assert(-u <= 10_000 * (x - 100 * k) <= u);
}

/// The peak is no lower than any sample nor than one percent, and the axes leave a tenth
/// above it; sideways they end with the last sample.
pub proof fn the_axes_hold_every_sample(axes: Axes, points: Seq<Percent>, i: int)
    requires
        axes_fit(Some(axes), points),
        axes.peak.valid(),
        0 <= i < points.len(),
        points[i].valid(),
    ensures
        accuracy::amount(points[i].value()) <= accuracy::amount(axes.peak.value()),
        accuracy::one() <= accuracy::amount(axes.peak.value()),
        (exists|k: int| 0 <= k < points.len() && #[trigger] points[k] == axes.peak)
            || accuracy::amount(axes.peak.value()) == accuracy::one(),
        points.len() > 1 ==> axes.x_max == points.len() - 1,
        points.len() == 1 ==> axes.x_max == 1,
        axes.x_max >= i,
        accuracy::amount(axes.peak.value()) <= accuracy::amount(axes.y_max@),
        ({
            let (p, y) = (
                accuracy::amount(axes.peak.value()) as int,
                accuracy::amount(axes.y_max@) as int,
            );
            -p <= 1_000 * (10 * y - 11 * p) <= p
        }),
{
    let (peak, sample) = (axes.peak, points[i]);
    assert(!peak.below(sample));
    double::lemma_scaled_order(sample.value(), peak.value(), -400);
    theme::a_whole_bound_is_exact(peak, 1);
    theme::lemma_byte_amount(1);
    let tenth = double::round(11, 10, 0);
    lemma2_to64();
    lemma2_to64_rest();
    double::lemma_ratio_within(11, 10);
    double::lemma_small(1, 52);
    double::lemma_times_one(peak.value());
    double::lemma_times_within(peak.value(), tenth);
    double::lemma_times_within(tenth, peak.value());
    double::lemma_times_swaps(peak.value(), tenth);
    double::lemma_round_ranks(1, 1, 11, 10, 0);
    double::lemma_times_grows(double::whole(1), tenth, peak.value());
    double::lemma_scaled_order(peak.value(), axes.y_max@, -400);
    accuracy::a_product_is_near(peak.value(), tenth);
    accuracy::rounding_is_near(11, 10, 0);
    lemma_pow2_pos(400);
    let (p, y, t, u) = (
        accuracy::amount(peak.value()) as int,
        accuracy::amount(axes.y_max@) as int,
        accuracy::amount(tenth) as int,
        accuracy::one() as int,
    );
    assert(p > 0);
    accuracy::lemma_near_scales(10 * t, 11 * u, p);
    lemma_a_tenth_above(p, y, t, u);
}

proof fn lemma_a_tenth_above(p: int, y: int, t: int, u: int)
    requires
        p > 0,
        y >= 0,
        u > 0,
        accuracy::is_near(u * y, p * t),
        accuracy::is_near((10 * t) * p, (11 * u) * p),
    ensures
        -p <= 1_000 * (10 * y - 11 * p) <= p,
{
    let (a, b, c) = (p * t, u * y, u * p);
    assert((10 * t) * p == 10 * a && (11 * u) * p == 11 * c) by (nonlinear_arith)
        requires
            a == p * t,
            c == u * p,
    ;
    assert(b >= 0 && c >= 0) by (nonlinear_arith)
        requires
            b == u * y,
            c == u * p,
            u > 0,
            y >= 0,
            p > 0,
    ;
    assert(-c <= 1_000 * (10 * b - 11 * c) <= c);
    assert(-p <= 1_000 * (10 * y - 11 * p) <= p) by (nonlinear_arith)
        requires
            -(u * p) <= 1_000 * (10 * (u * y) - 11 * (u * p)) <= u * p,
            u > 0,
    ;
}

/// A gauge shows its label, then as many full cells as it fills and as many empty ones
/// as it does not, eighteen in all, and then its percentage.
pub proof fn a_gauge_shows_what_it_fills(label: Seq<char>, percent: Percent, colour: Color)
    requires
        percent.valid(),
    ensures
        ({
            let shown = gauge_shown(label, percent, colour);
            &&& shown.len() == 4
            &&& text::occurs(shown[0].0, label)
            &&& shown[1].0.len() == filled_cells(percent)
            &&& shown[1].0.len() + shown[2].0.len() == 18
            &&& shown[1].1.fg == Some(colour)
            &&& text::occurs(shown[3].0, percent.shown())
        }),
{
    lemma_filled(percent);
    text::what_is_put_in_is_found(" "@, label, " "@);
    text::what_is_put_in_is_found(" "@, percent.shown(), "%"@);
}

/// The specs name the host, its processor, its cores and its memory, in that order.
pub proof fn the_specs_name_the_host(machine: Machine)
    ensures
        text::begins(specs_shown(machine), machine.hostname@),
        text::occurs(specs_shown(machine), machine.cpu_model@),
        text::occurs(specs_shown(machine), text::decimal(machine.cores as nat) + " cores"@),
        text::occurs(
            specs_shown(machine),
            bytes::shown_bytes(machine.memory_total_bytes as nat),
        ),
{
    let (host, model, cores, memory) = (
        machine.hostname@,
        machine.cpu_model@,
        text::decimal(machine.cores as nat),
        bytes::shown_bytes(machine.memory_total_bytes as nat),
    );
    let all = specs_shown(machine);
    let dot = " · "@;
    reveal_strlit(" cores");
    reveal_strlit(" cores · ");
    let tail = seq![' ', '·', ' '];
    assert(" cores · "@ =~= " cores"@ + tail);
    text::a_text_begins_with_its_front(
        host,
        dot + model + dot + cores + " cores · "@ + memory,
        host,
    );
    assert(all =~= host + (dot + model + dot + cores + " cores · "@ + memory));
    text::what_is_put_in_is_found(host + dot, model, dot + cores + " cores · "@ + memory);
    assert(all =~= host + dot + model + (dot + cores + " cores · "@ + memory));
    text::what_is_put_in_is_found(
        host + dot + model + dot,
        cores + " cores"@,
        tail + memory,
    );
    assert(all =~= host + dot + model + dot + (cores + " cores"@) + (tail + memory));
    let none = Seq::<char>::empty();
    text::what_is_put_in_is_found(host + dot + model + dot + cores + " cores · "@, memory, none);
    assert(all =~= host + dot + model + dot + cores + " cores · "@ + memory + none);
}

/// The summary shows the CPU gauge, the memory gauge, how much memory is in use of how
/// much, the load, and last how many processes are accounted for.
pub proof fn the_summary_shows_every_figure(line: Seq<(Seq<char>, Style)>, state: SystemState)
    requires
        is_summary(line, state),
    ensures
        line.len() == 14,
        text::occurs(line[3].0, state.total_cpu_percent.shown()),
        text::occurs(
            line[9].0,
            bytes::shown_bytes(state.memory_used_bytes as nat) + " of "@ + bytes::shown_bytes(
                state.memory_total_bytes as nat,
            ),
        ),
        line[11].0 == "load "@ + state.load_average@,
        line.last().0 == text::decimal(state.accounted as nat) + " tasks"@,
        exists|memory: Percent|
            {
                &&& #[trigger] is_share(
                    memory,
                    state.memory_used_bytes as nat,
                    state.memory_total_bytes as nat,
                )
                &&& text::occurs(line[8].0, memory.shown())
                &&& line[6].0.len() == filled_cells(memory)
            },
{
    let memory = choose|memory: Percent|
        {
            &&& #[trigger] is_share(
                memory,
                state.memory_used_bytes as nat,
                state.memory_total_bytes as nat,
            )
            &&& line == summary_shown(state, memory)
        };
    let (first, second, third) = (
        gauge_shown("cpu"@, state.total_cpu_percent, theme::CPU),
        gauge_shown("mem"@, memory, Color::Cyan),
        figures(state),
    );
    lemma_places(first, ("  "@, Style::plain()), second, third);
    lemma_figure(state.total_cpu_percent.shown());
    lemma_figure(memory.shown());
    lemma_in_use(
        bytes::shown_bytes(state.memory_used_bytes as nat),
        bytes::shown_bytes(state.memory_total_bytes as nat),
    );
}

proof fn lemma_places(
    first: Seq<(Seq<char>, Style)>,
    gap: (Seq<char>, Style),
    second: Seq<(Seq<char>, Style)>,
    third: Seq<(Seq<char>, Style)>,
)
    requires
        first.len() == 4,
        second.len() == 4,
        third.len() == 5,
    ensures
        ({
            let line = first.push(gap) + second + third;
            &&& line.len() == 14
            &&& line[3] == first[3]
            &&& line[6] == second[1]
            &&& line[8] == second[3]
            &&& line[9] == third[0]
            &&& line[11] == third[2]
            &&& line.last() == third[4]
        }),
{
}

proof fn lemma_figure(figure: Seq<char>)
    ensures
        text::occurs(" "@ + figure + "%"@, figure),
{
    text::what_is_put_in_is_found(" "@, figure, "%"@);
}

proof fn lemma_in_use(used: Seq<char>, total: Seq<char>)
    ensures
        text::occurs(" "@ + used + " of "@ + total, used + " of "@ + total),
{
    text::a_tail_is_found(" "@, used, " of "@, total);
}

/// A chart's title names it in its colour, and then its figure.
pub proof fn a_chart_is_named(label: Seq<char>, value: Seq<char>, colour: Color)
    ensures
        ({
            let title = chart_title(label, value, colour);
            &&& title.len() == 2
            &&& text::occurs(title[0].0, label)
            &&& title[0].1.fg == Some(colour)
            &&& text::begins(title[1].0, value)
        }),
{
    text::what_is_put_in_is_found(" "@, label, " "@);
    text::a_text_begins_with_its_front(value, " "@, value);
}

/// The wordmark stands in bold behind a blank, and of its three pieces the glyph alone
/// is in the accent of I/O wait.
pub proof fn the_wordmark_stands_in_bold(i: int)
    requires
        1 <= i < 4,
    ensures
        wordmark_shown().len() == 4,
        wordmark_shown()[i].1.bold && !wordmark_shown()[i].1.reversed,
        wordmark_shown()[i].1.fg == Some(theme::io()) <==> i == 2,
        wordmark_shown()[1].0 == "truet"@ && wordmark_shown()[2].0 == "◎"@
            && wordmark_shown()[3].0 == "p"@,
{
}

} // verus!
