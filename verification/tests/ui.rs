//! What a frame shows. The frames are put on a test terminal, panel by panel, so
//! that the assertions read what a user would.

use std::collections::VecDeque;

use ratatui::backend::TestBackend;
use ratatui::layout::{Constraint, Layout, Rect};
use ratatui::text::Line;
use ratatui::widgets::{Block, BorderType, Cell, Row, Table, TableState};
use ratatui::{Frame, Terminal};

use truetop::backend::SystemState;
use truetop::bytes::format_bytes;
use truetop::double::Double;
use truetop::metrics::{CpuMetrics, IoMetrics, MemMetrics, ProcessMetrics};
use truetop::percent::Percent;
use truetop::ranking::rank;
use truetop::system::Machine;
use truetop::ui::app::{App, Key, Sort};
use truetop::ui::header::{
    chart, clock, draw_charts, draw_identity, draw_summary, gauge, memory_percent, Time,
    GAUGE_WIDTH,
};
use truetop::ui::session::{Event, KeyKind, Session};
use truetop::ui::status::draw_status;
use truetop::ui::style::{Alignment, Color, Span, Style};
use truetop::ui::table::{
    self, columns, matches_filter, matches_needle, process_row, visible, Asked, Width,
};
use truetop::ui::theme::{
    cpu_heat, header, io, io_heat, io_row_bg, mem_heat, row_stripe, selected, Background, ACCENT,
    CPU, DIM, TEXT,
};
use truetop::ui::layout::{lay_out, Area, Panels};
use truetop::ui::{draw, draw_panels};

const NOON: Time = Time {
    hour: 12,
    minute: 0,
    second: 5,
};

fn percent(value: u32) -> Percent {
    Percent::nearest_to(value, 1)
}

fn float(number: Double) -> f64 {
    number.mant as f64 * 2f64.powi(number.exp)
}

/// Shares of all sizes, and those just around the values where something changes.
fn shares() -> Vec<Percent> {
    let mut out = vec![Percent::zero()];
    for value in [5, 500, 3_000, 5_000, 6_500, 7_000, 10_000] {
        for delta in [-2i64, -1, 0, 1, 2] {
            out.push(Percent::new((value * 100_000 + delta) as u64, 1_000_000_000));
        }
        out.push(Percent::nearest_to(value as u32, 100));
    }
    for tenths in 0..1200 {
        out.push(Percent::nearest_to(tenths, 10));
        out.push(Percent::nearest_to(2 * tenths + 1, 20));
    }
    let mut n: u64 = 5;
    for i in 0..3000u64 {
        n = n.wrapping_mul(6364136223846793005).wrapping_add(1442695040888963407);
        out.push(Percent::new(n >> (i % 64), 1_000_000_000 + n % 50_000));
        out.push(Percent::new(n % 1_000_000_000, 1_000_000_000));
        out.push(Percent::new(n >> (i % 64), n.rotate_left(20)));
    }
    out
}

// ── format_bytes ─────────────────────────────────────────────────────────────

#[test]
fn format_bytes_keeps_raw_count_below_one_kib() {
    assert_eq!(format_bytes(0), "0 B");
    assert_eq!(format_bytes(1023), "1023 B");
}

#[test]
fn format_bytes_scales_to_higher_units() {
    assert_eq!(format_bytes(1024), "1.0 K");
    assert_eq!(format_bytes(1536), "1.5 K");
    assert_eq!(format_bytes(1024 * 1024), "1.0 M");
}

#[test]
fn format_bytes_caps_at_terabytes() {
    assert!(format_bytes(u64::MAX).ends_with(" T"));
}

/// The same in floating point.
fn float_bytes(bytes: u64) -> String {
    let units = ["B", "K", "M", "G", "T"];
    let mut value = bytes as f64;
    let mut unit = 0;
    while value >= 1024.0 && unit < 4 {
        value /= 1024.0;
        unit += 1;
    }
    if unit == 0 {
        format!("{bytes} B")
    } else {
        format!("{value:.1} {}", units[unit])
    }
}

#[test]
fn format_bytes_agrees_with_floating_point() {
    let mut n: u64 = 1;
    for i in 0..4000u64 {
        n = n.wrapping_mul(6364136223846793005).wrapping_add(1442695040888963407);
        let value = n >> (i % 64);
        assert_eq!(format_bytes(value), float_bytes(value), "{value}");
    }
    for shift in 0..64 {
        for delta in [0u64, 1, 2, 3] {
            let value = (1u64 << shift).wrapping_sub(delta);
            assert_eq!(format_bytes(value), float_bytes(value), "{value}");
        }
    }
    // Ties go to the even digit.
    assert_eq!(format_bytes(1024 + 256), "1.2 K");
    assert_eq!(format_bytes(1024 + 768), "1.8 K");
}

// ── percent ──────────────────────────────────────────────────────────────────

#[test]
fn a_percentage_is_written_with_one_decimal() {
    assert_eq!(percent(0).text(), "0.0");
    assert_eq!(percent(80).text(), "80.0");
    assert_eq!(Percent::new(1, 3).text(), "33.3");
    assert_eq!(Percent::new(2, 3).text(), "66.7");
    assert_eq!(Percent::new(1, 800).text(), "0.1");
    // A millisecond and a half of a second: the nearest double to 0.15 is below it.
    assert_eq!(Percent::new(1_500_000, 1_000_000_000).text(), "0.1");
    assert_eq!(Percent::nearest_to(25, 100).text(), "0.2");
    assert_eq!(Percent::nearest_to(75, 100).text(), "0.8");
    assert_eq!(Percent::new(7, 0).text(), "0.0");
    assert_eq!(Percent::new(u64::MAX, 1).text(), "1844674407370955161600.0");
}

#[test]
fn shares_agree_with_floating_point() {
    let mut n: u64 = 1;
    for i in 0..6000u64 {
        n = n.wrapping_mul(6364136223846793005).wrapping_add(1442695040888963407);
        let part = n >> (i % 64);
        let whole = (n.rotate_left(29) >> (i % 61)).max(1);
        for whole in [whole, 1_000_000_000, 1_000_000_000 + i, u64::MAX - i] {
            let expected = part as f64 / whole as f64 * 100.0;
            let got = Percent::new(part, whole);
            assert_eq!(float(got.double()), expected, "{part} of {whole}");
            assert_eq!(got.text(), format!("{expected:.1}"), "{part} of {whole}");
        }
    }
}

#[test]
fn doubles_agree_with_floating_point() {
    let numbers: Vec<Double> = shares().iter().step_by(7).map(|p| p.double()).collect();
    for (i, &a) in numbers.iter().enumerate() {
        let x = float(a);
        assert_eq!(a.whole_part(), x as u128, "{x}");
        assert_eq!(a.rounded_up(), x.round() as u128, "{x}");
        for &b in &numbers[i % 17..(i % 17 + 40)] {
            let y = float(b);
            assert_eq!(float(a.plus(b)), x + y, "{x} + {y}");
            assert_eq!(float(a.times(b)), x * y, "{x} * {y}");
            if y > 0.0 {
                assert_eq!(float(a.div(b)), x / y, "{x} / {y}");
            }
            if x >= y && y > 0.0 && a.exp >= b.exp && a.exp - b.exp <= 70 {
                assert_eq!(float(a.minus(b)), x - y, "{x} - {y}");
            }
            assert_eq!(a.less(b), x < y, "{x} < {y}");
            assert_eq!(a.rank() < b.rank(), x < y, "{x} < {y}");
        }
    }
    for n in [0, 1, 3, 1 << 53, (1 << 53) + 1, (1 << 54) + 2, u64::MAX - 1023, u64::MAX] {
        assert_eq!(float(Double::of(n)), n as f64);
    }
    assert_eq!(float(Double::ratio(5, 100)), 0.05);
    assert_eq!(float(Double::ratio(2, 100)), 0.02);
    assert_eq!(float(Double::ratio(10, 100)), 0.10);
    assert_eq!(float(Double::ratio(11, 10)), 1.1);
    assert_eq!(float(Double::ratio(0, 7)), 0.0);
    assert_eq!(float(Double::ratio(u32::MAX, 1)), u32::MAX as f64);
}

#[test]
fn percentages_compare_by_value() {
    assert!(Percent::new(1, 3) == Percent::new(2, 6));
    assert!(Percent::new(1, 3).less(&Percent::new(34, 100)));
    assert!(!Percent::new(34, 100).less(&Percent::new(1, 3)));
    // Too near for a double to tell apart.
    let big = u64::MAX;
    assert!(Percent::new(big - 1, big) == Percent::new(big, big));
    let all = shares();
    for (a, b) in all.iter().zip(all.iter().skip(31)) {
        let (x, y) = (float(a.double()), float(b.double()));
        assert_eq!(a.less(b), x < y);
        assert_eq!(a == b, x == y);
        if x <= y {
            let tenths = |p: &Percent| p.text().replace('.', "").parse::<u128>().expect("digits");
            assert!(tenths(a) <= tenths(b));
        }
    }
}

#[test]
fn the_zero_of_an_empty_sum_is_written_with_its_sign() {
    let empty = Percent::sum(&vec![], 7);
    let none: [f64; 0] = [];
    let expected: f64 = none.iter().sum();
    assert_eq!(empty.text(), format!("{expected:.1}"));
    // As a number it is zero.
    assert!(empty == Percent::zero());
    assert!(!empty.less(&Percent::zero()) && !Percent::zero().less(&empty));
    assert_eq!(io_heat(&empty), Style::new().fg(DIM));
    // But it ranks below it, as doubles do by their total order.
    assert!(expected.total_cmp(&0.0).is_lt());
    assert!(empty.rank() < Percent::zero().rank());
    assert!(Percent::zero().rank() < Percent::new(1, u64::MAX).rank());
    let all = vec![row(1, "a", empty, None, Some(empty)), row(2, "b", percent(0), None, None)];
    assert_eq!(visible(&all, Sort::Cpu, true, ""), vec![1, 0]);
    assert_eq!(visible(&all, Sort::Io, true, ""), vec![1, 0]);
    assert_eq!(visible(&all, Sort::Mem, true, ""), vec![0, 1]);
    let state = SystemState {
        total_cpu_percent: empty,
        total_io_percent: empty,
        ..SystemState::default()
    };
    let (_, wait) = draw_charts(&state);
    assert_eq!(text_of(&wait.title), " io wait -0.0% summed over processes ");
    assert!(text_of(&draw_summary(&state)).starts_with(" cpu ────────────────── -0.0% "));
}

#[test]
fn a_ranking_puts_the_largest_first_and_keeps_ties() {
    let keys = vec![5, 80, 5, 5, 90];
    assert_eq!(rank(&keys), vec![4, 1, 0, 2, 3]);
    assert!(rank(&vec![]).is_empty());
}

// ── the view ─────────────────────────────────────────────────────────────────

#[test]
fn re_pressing_the_active_column_reverses_it() {
    let mut app = App::new(Background::Dark);
    assert!(app.descending);
    app.set_sort(Sort::Cpu);
    assert!(!app.descending);
    app.set_sort(Sort::Mem);
    assert!(app.descending);
}

#[test]
fn filter_editing_captures_keys_instead_of_commands() {
    let mut app = App::new(Background::Dark);
    app.handle_key(Key::Char('/'));
    for c in "fio".chars() {
        app.handle_key(Key::Char(c));
    }
    assert_eq!(app.filter, "fio");
    assert!(!app.handle_key(Key::Char('q')));
    assert_eq!(app.filter, "fioq");
    app.handle_key(Key::Esc);
    assert!(app.filter.is_empty());
}

#[test]
fn space_toggles_pause() {
    let mut app = App::new(Background::Dark);
    app.handle_key(Key::Char(' '));
    assert!(app.paused);
    app.handle_key(Key::Char(' '));
    assert!(!app.paused);
}

#[test]
fn the_cursor_moves_by_rows_and_pages() {
    let mut app = App::new(Background::Dark);
    app.note_frame(25, 13);
    assert_eq!((app.rows, app.page), (25, 10));
    let mut press = |key: Key| {
        assert!(!app.handle_key(key));
        app.selected.unwrap()
    };
    assert_eq!(press(Key::Up), 24);
    assert_eq!(press(Key::Down), 0);
    assert_eq!(press(Key::Char('j')), 1);
    assert_eq!(press(Key::Char('k')), 0);
    assert_eq!(press(Key::PageDown), 10);
    assert_eq!(press(Key::PageDown), 20);
    assert_eq!(press(Key::PageDown), 24);
    assert_eq!(press(Key::PageUp), 14);
    assert_eq!(press(Key::Home), 0);
    assert_eq!(press(Key::PageUp), 0);
    assert_eq!(press(Key::End), 24);
    assert_eq!(press(Key::Other), 24);
    assert_eq!(press(Key::Char('m')), 0);
    assert!(app.handle_key(Key::Char('q')));
    assert!(app.handle_key(Key::Esc));
}

#[test]
fn a_shorter_frame_pulls_the_cursor_back() {
    let mut app = App::new(Background::Dark);
    app.note_frame(25, 2);
    assert_eq!(app.page, 1);
    app.handle_key(Key::End);
    app.note_frame(3, 20);
    assert_eq!(app.selected, Some(2));
    app.note_frame(0, 20);
    assert_eq!(app.selected, Some(0));
}

#[test]
fn editing_the_filter_ends_with_enter_and_undoes_with_backspace() {
    let mut app = App::new(Background::Dark);
    app.handle_key(Key::Char('/'));
    app.handle_key(Key::Char('é'));
    app.handle_key(Key::Char('x'));
    app.handle_key(Key::Backspace);
    assert_eq!(app.filter, "é");
    app.handle_key(Key::Up);
    assert!(app.editing_filter);
    app.handle_key(Key::Enter);
    assert!(!app.editing_filter);
    assert_eq!(app.filter, "é");
    app.handle_key(Key::Char('/'));
    app.handle_key(Key::Backspace);
    app.handle_key(Key::Backspace);
    assert_eq!(app.filter, "");
}

#[test]
fn only_a_change_draws_a_frame() {
    let mut session = Session::new(Background::Light);
    assert!(session.turn(false, None).draw);
    assert!(!session.turn(false, None).draw);
    assert!(!session.turn(false, Some(Event::Other)).draw);
    for kind in [KeyKind::Repeat, KeyKind::Release] {
        let turn = session.turn(false, Some(Event::Key(Key::Char('q'), kind)));
        assert!(!turn.draw && !turn.quit);
    }
    assert!(session.turn(true, None).draw);
    assert!(session.turn(false, Some(Event::Resize)).draw);
    let turn = session.turn(false, Some(Event::Key(Key::Char(' '), KeyKind::Press)));
    assert!(turn.draw && !turn.quit);
    assert!(!session.wants_snapshot());
    session.turn(false, Some(Event::Key(Key::Char(' '), KeyKind::Press)));
    assert!(session.wants_snapshot());
    let turn = session.turn(false, Some(Event::Key(Key::Char('q'), KeyKind::Press)));
    assert!(turn.draw && turn.quit);
}

// ── whole frames ─────────────────────────────────────────────────────────────

const WIDTH: u16 = 120;
const HEIGHT: u16 = 24;

fn text_of(spans: &[Span]) -> String {
    spans.iter().map(|span| span.text.as_str()).collect()
}

fn align(alignment: Alignment) -> ratatui::layout::Alignment {
    match alignment {
        Alignment::Left => ratatui::layout::Alignment::Left,
        Alignment::Center => ratatui::layout::Alignment::Center,
        Alignment::Right => ratatui::layout::Alignment::Right,
    }
}

fn put(frame: &mut Frame, spans: &[Span], alignment: Alignment, area: Rect) {
    frame.render_widget(Line::from(text_of(spans)).alignment(align(alignment)), area);
}

fn put_table(frame: &mut Frame, table: &table::Table, area: Rect) {
    let cells = |cells: &[table::Cell]| {
        cells
            .iter()
            .map(|c| Cell::from(Line::from(c.text.clone()).alignment(align(c.align))))
            .collect::<Vec<Cell>>()
    };
    let widths = columns().into_iter().map(|column| match column.width {
        Width::Length(n) => Constraint::Length(n),
        Width::Fill(n) => Constraint::Fill(n),
    });
    let rows = table.rows.iter().map(|row| Row::new(cells(&row.cells)));
    let widget = Table::new(rows, widths)
        .header(Row::new(cells(&table.header)))
        .block(
            Block::bordered()
                .border_type(BorderType::Rounded)
                .title_top(Line::from(table.title.clone())),
        )
        .column_spacing(1);
    frame.render_stateful_widget(widget, area, &mut TableState::default());
}

fn lines(terminal: &Terminal<TestBackend>, width: u16, height: u16) -> Vec<String> {
    let buffer = terminal.backend().buffer();
    (0..height)
        .map(|y| {
            (0..width)
                .filter_map(|x| buffer.cell((x, y)).map(|cell| cell.symbol()))
                .collect()
        })
        .collect()
}

fn test_machine() -> Machine {
    Machine {
        hostname: "testhost".into(),
        cpu_model: "Test CPU".into(),
        cores: 8,
        memory_total_bytes: 16 << 30,
    }
}

fn plain(area: Rect) -> Area {
    Area {
        x: area.x,
        y: area.y,
        width: area.width,
        height: area.height,
    }
}

fn rect(area: Area) -> Rect {
    Rect::new(area.x, area.y, area.width, area.height)
}

fn rows(state: &SystemState) -> Vec<String> {
    let machine = test_machine();
    let mut terminal = Terminal::new(TestBackend::new(WIDTH, HEIGHT)).expect("test terminal");
    terminal
        .draw(|frame| {
            let mut app = App::new(Background::Dark);
            let screen = draw(state, &machine, &mut app, NOON, plain(frame.area()));
            let areas = screen.areas;
            put(frame, &screen.identity.wordmark, Alignment::Left, rect(areas.identity));
            put(frame, &screen.identity.specs, Alignment::Center, rect(areas.identity));
            put(frame, &screen.identity.clock, Alignment::Right, rect(areas.identity));
            put(frame, &screen.summary, Alignment::Left, rect(areas.summary));
            put_table(frame, &screen.table, rect(areas.table));
            put(frame, &screen.status, Alignment::Left, rect(areas.status));
        })
        .expect("draw");
    lines(&terminal, WIDTH, HEIGHT)
}

/// Row 0 without the right-aligned clock, which moves every second.
fn identity_line(state: &SystemState) -> String {
    const CLOCK: usize = 10;
    rows(state)[0]
        .chars()
        .take(WIDTH as usize - CLOCK)
        .collect()
}

fn status_line(state: &SystemState) -> String {
    rows(state).pop().expect("a status row")
}

fn summary_line(state: &SystemState) -> String {
    rows(state)
        .into_iter()
        .find(|row| row.contains("load "))
        .expect("a summary row")
}

/// The renderer draws its first frame before the collector has ticked. The
/// header used to read its core count off that empty snapshot and rendered
/// "0 cores" into the README's demo, so what it shows must not depend on the
/// metrics at all.
#[test]
fn the_identity_line_does_not_depend_on_the_snapshot() {
    let populated = SystemState {
        processes: vec![ProcessMetrics {
            pid: 1,
            name: "init".into(),
            ..ProcessMetrics::default()
        }],
        memory_used_bytes: 4 << 30,
        memory_total_bytes: 8 << 30,
        load_average: "1.50".into(),
        ..SystemState::default()
    };
    let before_the_first_tick = identity_line(&SystemState::default());

    assert_eq!(before_the_first_tick, identity_line(&populated));
    assert!(
        before_the_first_tick.contains("8 cores"),
        "{before_the_first_tick}"
    );
}

/// The count used to come off the row list, which holds the top of each
/// metric and so stops at 512 however many processes are running.
#[test]
fn the_summary_counts_processes_not_visible_rows() {
    let state = SystemState {
        processes: vec![ProcessMetrics::default()],
        accounted: 4242,
        ..SystemState::default()
    };
    let summary = summary_line(&state);

    assert!(summary.contains("4242 tasks"), "{summary}");
}

#[test]
fn a_saturated_map_is_said_out_loud() {
    let full = SystemState {
        at_capacity: true,
        ..SystemState::default()
    };
    assert!(status_line(&full).contains("at capacity"), "{full:?}");
    assert!(!status_line(&SystemState::default()).contains("at capacity"));
}

#[test]
fn the_identity_line_states_the_host_it_was_given() {
    let machine = test_machine();
    let mut terminal = Terminal::new(TestBackend::new(90, 1)).expect("test terminal");
    terminal
        .draw(|frame| {
            let line = draw_identity(&machine, NOON);
            put(frame, &line.wordmark, Alignment::Left, frame.area());
            put(frame, &line.specs, Alignment::Center, frame.area());
            put(frame, &line.clock, Alignment::Right, frame.area());
        })
        .expect("draw");
    let line = lines(&terminal, 90, 1).remove(0);

    assert!(line.starts_with(" truet◎p "), "{line}");
    assert!(
        line.contains("testhost · Test CPU · 8 cores · 16.0 G"),
        "{line}"
    );
    assert!(line.ends_with("12:00:05 "), "{line}");
}

fn all_of(panels: Panels) -> [Area; 6] {
    [
        panels.identity,
        panels.charts.0,
        panels.charts.1,
        panels.summary,
        panels.table,
        panels.status,
    ]
}

#[test]
fn the_panels_share_out_the_screen() {
    for (x, y) in [(0, 0), (3, 7)] {
        for width in [0, 1, 2, 3, 10, 79, 80, 81, 119, 120, 213] {
            for height in [12, 13, 14, 15, 20, 23, 24, 25, 50, 61] {
                let area = Area { x, y, width, height };
                let at = |below: u16, lines: u16| Area {
                    x,
                    y: y + below,
                    width,
                    height: lines,
                };
                let got = lay_out(area);
                assert_eq!(got.identity, at(0, 1), "{area:?}");
                assert_eq!(got.summary, at(10, 1), "{area:?}");
                assert_eq!(got.table, at(11, height - 12), "{area:?}");
                assert_eq!(got.status, at(height - 1, 1), "{area:?}");
                let first = width.div_ceil(2);
                assert_eq!(
                    got.charts.0,
                    Area {
                        width: first,
                        ..at(1, 9)
                    },
                    "{area:?}"
                );
                assert_eq!(
                    got.charts.1,
                    Area {
                        x: x + first,
                        width: width / 2,
                        ..at(1, 9)
                    },
                    "{area:?}"
                );
            }
        }
    }
}

#[test]
fn a_low_screen_gives_up_its_charts_first() {
    // The lines of identity, charts, summary, table and status.
    let lines = [
        [0, 0, 0, 0, 0],
        [0, 1, 0, 0, 0],
        [1, 0, 1, 0, 0],
        [1, 1, 1, 0, 0],
        [1, 1, 1, 0, 1],
        [1, 2, 1, 0, 1],
        [1, 3, 1, 0, 1],
        [1, 4, 1, 0, 1],
        [1, 5, 1, 0, 1],
        [1, 6, 1, 0, 1],
        [1, 7, 1, 0, 1],
        [1, 8, 1, 0, 1],
        [1, 9, 1, 0, 1],
    ];
    for y in [0, 1, 5, 333, 60_000, u16::MAX - 12] {
        for width in [0, 1, 79, 80] {
            for (height, lines) in lines.iter().enumerate() {
                let area = Area {
                    x: 2,
                    y,
                    width,
                    height: height as u16,
                };
                let got = lay_out(area);
                let mut below = y;
                let mut next = |height: u16| {
                    let part = Area {
                        y: below,
                        height,
                        ..area
                    };
                    below += height;
                    part
                };
                assert_eq!(got.identity, next(lines[0]), "{area:?}");
                let charts = next(lines[1]);
                let first = width.div_ceil(2);
                assert_eq!(
                    got.charts,
                    (
                        Area {
                            width: first,
                            ..charts
                        },
                        Area {
                            x: 2 + first,
                            width: width / 2,
                            ..charts
                        }
                    ),
                    "{area:?}"
                );
                assert_eq!(got.summary, next(lines[2]), "{area:?}");
                assert_eq!(got.table, next(lines[3]), "{area:?}");
                assert_eq!(got.status, next(lines[4]), "{area:?}");
                assert_eq!(below, y + height as u16);
            }
        }
    }
}

#[test]
fn panels_stay_within_the_screen() {
    for height in 0..30 {
        let area = Area {
            x: 2,
            y: 5,
            width: 80,
            height,
        };
        for part in all_of(lay_out(area)) {
            assert!(part.x >= 2 && part.x + part.width <= 82, "{area:?}");
            assert!(part.y >= 5 && part.y + part.height <= 5 + height, "{area:?}");
        }
    }
}

#[test]
fn the_tallest_screen_is_laid_out_too() {
    let area = Area {
        x: 0,
        y: 0,
        width: u16::MAX,
        height: u16::MAX,
    };
    let got = lay_out(area);
    assert_eq!(got.table.height, u16::MAX - 12);
    assert_eq!(got.status.y, u16::MAX - 1);
    assert_eq!((got.charts.0.width, got.charts.1.width), (32768, 32767));
}

#[test]
fn a_page_is_the_table_without_its_borders_and_header() {
    let machine = test_machine();
    let state = SystemState::default();
    let mut app = App::new(Background::Dark);
    let areas = lay_out(Area {
        x: 0,
        y: 0,
        width: WIDTH,
        height: HEIGHT,
    });
    let screen = draw_panels(&state, &machine, &mut app, NOON, areas);
    assert_eq!(screen.areas, areas);
    assert_eq!((app.rows, app.page), (0, HEIGHT as usize - 12 - 3));
}

#[test]
fn the_clock_pads_to_two_digits() {
    let time = Time {
        hour: 9,
        minute: 41,
        second: 7,
    };
    assert_eq!(clock(time), "09:41:07");
}

#[test]
fn the_status_line_lights_the_active_sort_key() {
    let mut app = App::new(Background::Dark);
    app.set_sort(Sort::Io);
    let spans = draw_status(&app, &SystemState::default());
    assert_eq!(
        text_of(&spans),
        " q quit   ↑↓ nav   sort  c  m  i    / filter   space pause   "
    );
    let lit: Vec<&str> = spans
        .iter()
        .filter(|span| span.style.reversed)
        .map(|span| span.text.as_str())
        .collect();
    assert_eq!(lit, vec![" i "]);

    app.filter.push_str("fio");
    app.paused = true;
    let spans = draw_status(&app, &SystemState::default());
    assert!(text_of(&spans).ends_with("  filter \"fio\"  paused"));
    assert_eq!(spans.last().unwrap().style, Style::new().fg(io()).bold());

    app.editing_filter = true;
    let spans = draw_status(&app, &SystemState::default());
    assert_eq!(
        text_of(&spans),
        " filter: fio_   enter to accept, esc to clear"
    );
    assert_eq!(spans[0].style, Style::new().fg(ACCENT));
}

#[test]
fn a_gauge_fills_by_its_share() {
    let cells = |value: Percent| {
        let mut spans = Vec::new();
        gauge(&mut spans, "cpu", &value, CPU);
        assert_eq!(spans[0].text, " cpu ");
        let (full, empty) = (spans[1].text.chars().count(), spans[2].text.chars().count());
        assert_eq!(full + empty, GAUGE_WIDTH);
        (full, spans[3].text.clone())
    };
    assert_eq!(cells(percent(0)), (0, " 0.0%".to_owned()));
    assert_eq!(cells(percent(50)), (9, " 50.0%".to_owned()));
    assert_eq!(cells(Percent::nearest_to(25, 9)), (1, " 2.8%".to_owned()));
    assert_eq!(cells(Percent::new(1, 37)), (0, " 2.7%".to_owned()));
    assert_eq!(cells(percent(100)), (18, " 100.0%".to_owned()));
    assert_eq!(cells(percent(900)), (18, " 900.0%".to_owned()));
    for share in shares() {
        let value = float(share.double());
        let filled = ((value / 100.0).clamp(0.0, 1.0) * GAUGE_WIDTH as f64).round() as usize;
        assert_eq!(cells(share), (filled, format!(" {value:.1}%")));
    }
}

#[test]
fn the_summary_is_two_gauges_and_the_figures() {
    let state = SystemState {
        total_cpu_percent: percent(25),
        memory_used_bytes: 4 << 30,
        memory_total_bytes: 16 << 30,
        load_average: "0.52".into(),
        accounted: 7,
        ..SystemState::default()
    };
    assert_eq!(
        text_of(&draw_summary(&state)),
        " cpu ━━━━━───────────── 25.0%   mem ━━━━━───────────── 25.0% 4.0 G of 16.0 G  load 0.52  7 tasks"
    );
    assert!(memory_percent(5, 0) == Percent::zero());
}

#[test]
fn a_chart_spans_the_samples_it_holds() {
    let history: VecDeque<Percent> = [percent(3), percent(40), percent(12)].into_iter().collect();
    let cpu = chart(&history, "cpu", "12.0%".to_owned(), CPU);
    assert_eq!(text_of(&cpu.title), " cpu 12.0% ");
    assert_eq!(cpu.points.len(), 3);
    let axes = cpu.axes.expect("axes");
    assert_eq!(axes.x_max, 2);
    assert!(axes.peak == percent(40));
    assert_eq!(float(axes.y_max), 40.0 * 1.1);

    let flat: VecDeque<Percent> = [Percent::zero()].into_iter().collect();
    let axes = chart(&flat, "cpu", String::new(), CPU).axes.expect("axes");
    assert_eq!(axes.x_max, 1);
    assert!(axes.peak == percent(1));
    assert_eq!(float(axes.y_max), 1.1);
    assert!(chart(&VecDeque::new(), "cpu", String::new(), CPU).axes.is_none());
    for samples in shares().chunks(120) {
        let history: VecDeque<Percent> = samples.iter().copied().collect();
        let axes = chart(&history, "cpu", String::new(), CPU).axes.expect("axes");
        let peak = samples.iter().map(|p| float(p.double())).fold(1.0, f64::max);
        assert_eq!(float(axes.y_max), peak * 1.1);
    }

    let state = SystemState {
        total_cpu_percent: percent(25),
        total_io_percent: percent(150),
        cpu_history: flat,
        ..SystemState::default()
    };
    let (cpu, wait) = draw_charts(&state);
    assert_eq!(text_of(&cpu.title), " cpu 25.0% ");
    assert_eq!(text_of(&wait.title), " io wait 150.0% summed over processes ");
    assert_eq!((cpu.colour, wait.colour), (CPU, io()));
    assert_eq!(cpu.points.len(), 1);
    assert!(wait.axes.is_none());
}

// ── the table ────────────────────────────────────────────────────────────────

/// Ranked differently by every sort key, so an assertion on one order cannot
/// pass under another. `cc1plus` has no I/O wait and `sleep` no RSS.
fn processes() -> Vec<ProcessMetrics> {
    vec![
        row(10, "fio", percent(5), Some(2 << 20), Some(percent(90))),
        row(20, "cc1plus", percent(80), Some(512 << 20), None),
        row(31, "chrome", Percent::nearest_to(5, 10), Some(900 << 20), Some(percent(1))),
        row(42, "sleep", percent(0), None, Some(Percent::nearest_to(2, 10))),
    ]
}

fn row(
    pid: u32,
    name: &str,
    cpu_percent: Percent,
    rss_bytes: Option<u64>,
    io_wait_percent: Option<Percent>,
) -> ProcessMetrics {
    ProcessMetrics {
        pid,
        name: name.to_owned(),
        user: Some("ramos".into()),
        cpu: CpuMetrics { cpu_percent },
        mem: rss_bytes.map(|rss_bytes| MemMetrics { rss_bytes }),
        io: io_wait_percent.map(|io_wait_percent| IoMetrics { io_wait_percent }),
    }
}

fn pids(sort: Sort, descending: bool, filter: &str) -> Vec<u32> {
    let all = processes();
    visible(&all, sort, descending, filter)
        .iter()
        .map(|&i| all[i].pid)
        .collect()
}

#[test]
fn each_sort_key_ranks_by_its_own_column() {
    assert_eq!(pids(Sort::Cpu, true, ""), [20, 10, 31, 42]);
    assert_eq!(pids(Sort::Mem, true, ""), [31, 20, 10, 42]);
    assert_eq!(pids(Sort::Io, true, ""), [10, 31, 42, 20]);
}

#[test]
fn ascending_reverses_the_ranking() {
    assert_eq!(pids(Sort::Cpu, false, ""), [42, 31, 10, 20]);
}

#[test]
fn the_filter_matches_a_name_case_insensitively_or_a_pid_by_substring() {
    assert_eq!(pids(Sort::Cpu, true, "FIO"), [10]);
    assert_eq!(pids(Sort::Cpu, true, "3"), [31]);
    assert!(pids(Sort::Cpu, true, "zzz").is_empty());
}

#[test]
fn the_filter_lowers_both_sides() {
    let mut p = row(7, "KWorker/É", percent(0), None, None);
    assert!(matches_filter(&p, "kworker/é"));
    assert!(matches_filter(&p, "É"));
    assert!(matches_filter(&p, ""));
    assert!(!matches_filter(&p, "x"));
    p.name = "init".to_owned();
    assert!(matches_filter(&p, "NIT"));
    assert!(matches_needle("fio", 31, "31"));
    assert!(matches_needle("fio", 31, "io"));
    assert!(!matches_needle("FIO", 31, "io"));
}

#[test]
fn every_matching_row_shows_once() {
    let mut seen = pids(Sort::Io, false, "");
    seen.sort_unstable();
    assert_eq!(seen, [10, 20, 31, 42]);
    assert_eq!(pids(Sort::Io, true, "E"), [31, 42]);
}

#[test]
fn equal_rows_keep_their_order_and_reverse_with_it() {
    let all = vec![
        row(1, "a", percent(5), None, None),
        row(2, "b", Percent::nearest_to(50, 10), None, None),
        row(3, "c", percent(9), None, None),
    ];
    assert_eq!(visible(&all, Sort::Cpu, true, ""), vec![2, 0, 1]);
    assert_eq!(visible(&all, Sort::Cpu, false, ""), vec![1, 0, 2]);
    assert_eq!(visible(&all, Sort::Io, true, ""), vec![0, 1, 2]);
}

const BORDER: &str = "│╭╮╰╯─";

/// Every line of a rendered frame, borders and padding squeezed out so a row
/// reads as the cells it holds.
fn render(sort: Sort, descending: bool, filter: &str) -> Vec<String> {
    let state = SystemState {
        processes: processes(),
        memory_total_bytes: 16 << 30,
        ..SystemState::default()
    };
    let mut terminal = Terminal::new(TestBackend::new(64, 8)).expect("test terminal");
    terminal
        .draw(|frame| {
            let table = table::draw(
                &state,
                Asked {
                    background: Background::Dark,
                    sort,
                    descending,
                    filter,
                },
            );
            put_table(frame, &table, frame.area());
        })
        .expect("draw");
    lines(&terminal, 64, 8)
        .into_iter()
        .map(|line| {
            line.replace(|c| BORDER.contains(c), " ")
                .split_whitespace()
                .collect::<Vec<_>>()
                .join(" ")
        })
        .collect()
}

fn line_for<'a>(lines: &'a [String], name: &str) -> &'a str {
    lines
        .iter()
        .find(|line| line.contains(name))
        .unwrap_or_else(|| panic!("no rendered row for {name}: {lines:#?}"))
}

#[test]
fn a_process_the_kernel_gave_no_value_for_renders_a_dash() {
    let lines = render(Sort::Cpu, true, "");
    assert_eq!(line_for(&lines, "sleep"), "42 ramos sleep 0.0 - 0.2");
    assert_eq!(
        line_for(&lines, "cc1plus"),
        "20 ramos cc1plus 80.0 512.0 M -"
    );
}

#[test]
fn only_the_active_column_carries_the_sort_arrow() {
    let header = |sort, descending| render(sort, descending, "")[1].clone();
    assert!(header(Sort::Cpu, true).contains("Cpu% ▾"));
    assert!(header(Sort::Cpu, false).contains("Cpu% ▴"));
    let by_memory = header(Sort::Mem, true);
    assert!(by_memory.contains("Mem ▾"), "{by_memory}");
    assert!(!by_memory.contains("Cpu% ▾"), "{by_memory}");
}

#[test]
fn the_title_names_the_active_filter() {
    assert!(render(Sort::Cpu, true, "")[0].contains("processes"));
    assert!(render(Sort::Cpu, true, "fio")[0].contains("processes matching \"fio\""));
}

#[test]
fn a_row_is_styled_by_what_its_process_does() {
    let fio = &processes()[0];
    let r = process_row(0, fio, 16 << 30, Background::Dark);
    let styles: Vec<Style> = r.cells.iter().map(|cell| cell.style).collect();
    assert_eq!(styles[0], Style::new().fg(TEXT));
    assert_eq!(styles[1], Style::new().fg(DIM));
    assert_eq!(styles[3], Style::new().fg(Color::Green));
    assert_eq!(styles[4], Style::new().fg(CPU));
    assert_eq!(styles[5], Style::new().fg(io()).bold());
    // Blocked: the tint outranks the stripe.
    assert_eq!(r.bg, io_row_bg(Background::Dark, &percent(90)));
    assert_eq!(
        process_row(1, fio, 16 << 30, Background::Dark).bg,
        io_row_bg(Background::Dark, &percent(90))
    );
    let sleep = &processes()[3];
    let r = process_row(1, sleep, 16 << 30, Background::Light);
    assert_eq!(r.cells[0].style, Style::new().fg(DIM));
    assert_eq!(r.bg, row_stripe(Background::Light, 1));
    let nobody = ProcessMetrics::default();
    assert_eq!(process_row(0, &nobody, 0, Background::Dark).cells[1].text, "-");
}

// ── the theme ────────────────────────────────────────────────────────────────

/// Body text is the terminal's own foreground, so a stripe fixed dark is
/// unreadable the moment the terminal is light. Each has to suit its own.
#[test]
fn the_row_tints_suit_the_background_they_are_drawn_on() {
    let Some(Color::Rgb(dark, ..)) = row_stripe(Background::Dark, 1) else {
        panic!("the dark theme stripes rows");
    };
    let Some(Color::Rgb(light, ..)) = row_stripe(Background::Light, 1) else {
        panic!("the light theme stripes rows");
    };
    assert!(dark < 64, "a dark stripe should stay dark, got {dark}");
    assert!(light > 192, "a light stripe should stay light, got {light}");
}

#[test]
fn only_alternate_rows_are_striped() {
    assert_eq!(row_stripe(Background::Dark, 0), None);
    assert!(row_stripe(Background::Dark, 1).is_some());
}

#[test]
fn a_blocked_row_is_tinted_on_either_background() {
    for background in [Background::Dark, Background::Light] {
        assert_eq!(io_row_bg(background, &Percent::nearest_to(649, 10)), None);
        assert!(io_row_bg(background, &percent(90)).is_some(), "{background:?}");
    }
}

#[test]
fn the_tint_runs_from_the_threshold_to_a_full_interval() {
    let tint = |background, value| io_row_bg(background, &percent(value));
    assert_eq!(tint(Background::Dark, 65), Some(Color::Rgb(48, 16, 16)));
    assert_eq!(tint(Background::Dark, 100), Some(Color::Rgb(128, 30, 30)));
    assert_eq!(tint(Background::Dark, 250), Some(Color::Rgb(128, 30, 30)));
    // 71.43% of the way.
    assert_eq!(tint(Background::Dark, 90), Some(Color::Rgb(105, 26, 26)));
    assert_eq!(tint(Background::Light, 65), Some(Color::Rgb(255, 224, 224)));
    assert_eq!(tint(Background::Light, 90), Some(Color::Rgb(247, 184, 184)));
    assert_eq!(tint(Background::Light, 100), Some(Color::Rgb(244, 168, 168)));
}

#[test]
fn heat_follows_the_value() {
    let of = |colour| Style::new().fg(colour);
    assert_eq!(cpu_heat(&Percent::nearest_to(4, 100)), of(DIM));
    assert_eq!(cpu_heat(&Percent::nearest_to(5, 100)), of(Color::Green));
    assert_eq!(cpu_heat(&percent(30)), of(Color::Yellow));
    assert_eq!(cpu_heat(&percent(70)), of(Color::Red).bold());
    assert_eq!(io_heat(&percent(0)), of(DIM));
    assert_eq!(io_heat(&percent(49)), of(io()));
    assert_eq!(io_heat(&percent(50)), of(io()).bold());
    assert_eq!(mem_heat(0, 100), of(DIM));
    assert_eq!(mem_heat(5, 0), of(DIM));
    assert_eq!(mem_heat(1, 100), of(CPU));
    assert_eq!(mem_heat(2, 100), of(Color::Yellow));
    assert_eq!(mem_heat(10, 100), of(Color::Red).bold());
    assert_eq!(header(), of(ACCENT).bold());
    assert_eq!(selected(), Style::new().bold().reversed());
}

/// The tint as it comes out in floating point.
fn float_tint(background: Background, percent: f64) -> Option<Color> {
    if percent < 65.0 {
        return None;
    }
    let ((r0, g0, b0), (r1, g1, b1)) = match background {
        Background::Dark => ((48.0, 16.0, 16.0), (128.0, 30.0, 30.0)),
        Background::Light => ((255.0, 224.0, 224.0), (244.0, 168.0, 168.0)),
    };
    let t = ((percent - 65.0) / (100.0 - 65.0)).clamp(0.0, 1.0);
    let lerp = |a: f64, b: f64| (a + (b - a) * t) as u8;
    Some(Color::Rgb(lerp(r0, r1), lerp(g0, g1), lerp(b0, b1)))
}

#[test]
fn styles_agree_with_floating_point() {
    for share in shares() {
        let value = float(share.double());
        for background in [Background::Dark, Background::Light] {
            assert_eq!(io_row_bg(background, &share), float_tint(background, value), "{value}");
        }
        let colour = if value < 0.05 {
            DIM
        } else if value < 30.0 {
            Color::Green
        } else if value < 70.0 {
            Color::Yellow
        } else {
            Color::Red
        };
        let heat = Style::new().fg(colour);
        assert_eq!(cpu_heat(&share), if value >= 70.0 { heat.bold() } else { heat }, "{value}");
        let heat = if value <= 0.0 {
            Style::new().fg(DIM)
        } else if value >= 50.0 {
            Style::new().fg(io()).bold()
        } else {
            Style::new().fg(io())
        };
        assert_eq!(io_heat(&share), heat, "{value}");
    }
    let mut n: u64 = 17;
    for i in 0..4000u64 {
        n = n.wrapping_mul(6364136223846793005).wrapping_add(1442695040888963407);
        let total = (n >> (i % 50)).max(1);
        for bytes in [total / 50, total / 50 + 1, total / 10, total / 10 + 1, n % total, total] {
            let share = bytes as f64 / total as f64;
            let expected = if bytes == 0 {
                Style::new().fg(DIM)
            } else if share < 0.02 {
                Style::new().fg(CPU)
            } else if share < 0.10 {
                Style::new().fg(Color::Yellow)
            } else {
                Style::new().fg(Color::Red).bold()
            };
            assert_eq!(mem_heat(bytes, total), expected, "{bytes} of {total}");
        }
    }
}

#[test]
fn the_tint_deepens_and_never_turns_back() {
    let mut all = shares();
    all.retain(|share| !share.less(&percent(65)));
    all.sort_by_key(|share| share.double().rank());
    for pair in all.windows(2) {
        for (background, rises) in [(Background::Dark, true), (Background::Light, false)] {
            let rgb = |share: &Percent| match io_row_bg(background, share) {
                Some(Color::Rgb(r, g, b)) => [r, g, b],
                _ => panic!("a blocked row is tinted"),
            };
            for (less, more) in rgb(&pair[0]).into_iter().zip(rgb(&pair[1])) {
                assert!(if rises { less <= more } else { less >= more });
            }
        }
    }
}

#[test]
fn a_gauge_never_falls_back() {
    let mut all = shares();
    all.sort_by_key(|share| share.double().rank());
    let mut was = 0;
    for share in all {
        let mut spans = Vec::new();
        gauge(&mut spans, "cpu", &share, CPU);
        let full = spans[1].text.chars().count();
        assert!(was <= full && full <= GAUGE_WIDTH);
        was = full;
    }
}
