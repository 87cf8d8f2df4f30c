//! The renderer's half: what each frame shows, decided from an immutable snapshot
//! and the view state, down to the text and style of every span. Putting those on
//! a terminal is left to the binary.

use vstd::prelude::*;

use crate::backend::SystemState;
use crate::system::Machine;

pub mod app;
pub mod header;
pub mod layout;
pub mod session;
pub mod status;
pub mod style;
pub mod table;
pub mod theme;

verus! {

/// One frame, panel by panel, and where each panel stands.
#[derive(Debug)]
pub struct Screen {
    pub areas: layout::Panels,
    pub identity: header::IdentityLine,
    pub charts: (header::Chart, header::Chart),
    pub summary: Vec<style::Span>,
    pub table: table::Table,
    pub status: Vec<style::Span>,
}

/// What the view asks of the table.
pub open spec fn asks(view: table::Asked, app: app::AppState) -> bool {
    &&& view.background == app.background
    &&& view.sort == app.sort
    &&& view.descending == app.descending
    &&& view.filter@ == app.filter
}

/// `chart` plots `history` under a title.
pub open spec fn plots(
    chart: header::Chart,
    history: Seq<crate::percent::Percent>,
    label: Seq<char>,
    value: Seq<char>,
    colour: style::Color,
) -> bool {
    &&& style::shown(chart.title@) == header::chart_title(label, value, colour)
    &&& chart.colour == colour
    &&& chart.points@ == history
    &&& header::axes_fit(chart.axes, history)
}

/// `screen` shows `state` on `machine` at `time`, as a view that is `before` asks; the
/// status line is that of the view `after` it has taken note of the frame.
pub open spec fn is_frame(
    screen: Screen,
    state: SystemState,
    machine: Machine,
    time: header::Time,
    before: app::AppState,
    after: app::AppState,
) -> bool {
    &&& style::shown(screen.identity.wordmark@) == header::wordmark_shown()
    &&& style::shown(screen.identity.specs@) == seq![
        (header::specs_shown(machine), style::Style::coloured(theme::DIM)),
    ]
    &&& style::shown(screen.identity.clock@) == seq![
        (header::clock_shown(time) + seq![' '], style::Style::coloured(theme::ACCENT)),
    ]
    &&& plots(
        screen.charts.0,
        state.cpu_history@,
        "cpu"@,
        state.total_cpu_percent.shown() + "%"@,
        theme::CPU,
    )
    &&& plots(
        screen.charts.1,
        state.io_history@,
        "io wait"@,
        state.total_io_percent.shown() + "% summed over processes"@,
        theme::io(),
    )
    &&& header::is_summary(style::shown(screen.summary@), state)
    &&& exists|view: table::Asked| #[trigger]
        asks(view, before) && table::is_table(screen.table, state, view)
    &&& after == before.drawn(screen.table.rows@.len() as usize, screen.areas.table.height)
    &&& style::shown(screen.status@) == status::status_line(after, state.at_capacity)
}

/// The frame that shows `state` on `machine` as `app` asks, on a screen of `area`.
pub fn draw(
    state: &SystemState,
    machine: &Machine,
    app: &mut app::App,
    time: header::Time,
    area: layout::Area,
) -> (out: Screen)
    requires
        area.addressable(),
    ensures
        layout::fills(out.areas, area),
        is_frame(out, *state, *machine, time, old(app)@, final(app)@),
{
    draw_panels(state, machine, app, time, layout::lay_out(area))
}

/// The frame that shows `state` on `machine` as `app` asks, with its panels in
/// `areas`. The view takes note of what the frame holds, and the status line is drawn
/// after that.
pub fn draw_panels(
    state: &SystemState,
    machine: &Machine,
    app: &mut app::App,
    time: header::Time,
    areas: layout::Panels,
) -> (out: Screen)
    ensures
        out.areas == areas,
        is_frame(out, *state, *machine, time, old(app)@, final(app)@),
{
    let identity = header::draw_identity(machine, time);
    let charts = header::draw_charts(state);
    let summary = header::draw_summary(state);
    let table = {
        let view = table::Asked {
            background: app.background,
            sort: app.sort,
            descending: app.descending,
            filter: app.filter.as_str(),
        };
        let table = table::draw(state, view);
        assert(asks(view, app@) && table::is_table(table, *state, view));
        table
    };
    app.note_frame(table.rows.len(), areas.table.height);
    let status = status::draw_status(app, state);
    Screen { areas, identity, charts, summary, table, status }
}

// ── Laws ─────────────────────────────────────────────────────────────────────

/// Drawing the same frame again changes nothing in the view.
pub proof fn redrawing_changes_nothing(app: app::AppState, rows: usize, height: u16)
    ensures
        app.drawn(rows, height).drawn(rows, height) == app.drawn(rows, height),
{
}

/// A frame shows its snapshot: the first chart plots CPU and the second I/O wait, each
/// named with its own total; the table is in the order and under the filter of the view,
/// and the view takes note of as many rows as are drawn.
pub proof fn a_frame_shows_its_snapshot(
    screen: Screen,
    state: SystemState,
    machine: Machine,
    time: header::Time,
    before: app::AppState,
    after: app::AppState,
)
    requires
        is_frame(screen, state, machine, time, before, after),
    ensures
        style::shown(screen.identity.specs@).len() == 1,
        style::shown(screen.identity.specs@)[0].0 == header::specs_shown(machine),
        style::shown(screen.identity.clock@).len() == 1,
        crate::text::begins(
            style::shown(screen.identity.clock@)[0].0,
            header::clock_shown(time),
        ),
        screen.charts.0.points@ == state.cpu_history@,
        screen.charts.1.points@ == state.io_history@,
        crate::text::begins(
            style::shown(screen.charts.0.title@)[1].0,
            state.total_cpu_percent.shown(),
        ),
        crate::text::begins(
            style::shown(screen.charts.1.title@)[1].0,
            state.total_io_percent.shown(),
        ),
        screen.charts.0.colour != screen.charts.1.colour,
        exists|view: table::Asked| #[trigger]
            asks(view, before) && table::is_table(screen.table, state, view),
        after.rows == screen.table.rows@.len() as usize,
        after.sort == before.sort && after.descending == before.descending && after.filter
            == before.filter && after.paused == before.paused,
        style::shown(screen.status@) == status::status_line(after, state.at_capacity),
        header::is_summary(style::shown(screen.summary@), state),
{
    let (cpu, io) = (state.total_cpu_percent.shown(), state.total_io_percent.shown());
    crate::text::a_text_begins_with_its_front(header::clock_shown(time), seq![' '], cpu);
    crate::text::a_text_begins_with_its_front(cpu, "%"@ + " "@, cpu);
    assert(cpu + "%"@ + " "@ =~= cpu + ("%"@ + " "@));
    crate::text::a_text_begins_with_its_front(io, "% summed over processes"@ + " "@, io);
    assert(io + "% summed over processes"@ + " "@ =~= io + ("% summed over processes"@ + " "@));
}

} // verus!
