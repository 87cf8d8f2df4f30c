//! The status line: the keys, and what the view and the collector are doing.

use vstd::prelude::*;

use crate::backend::SystemState;
use crate::ui::app;
use crate::ui::app::{App, Sort};
use crate::ui::style;
use crate::ui::style::{push_span, push_text, Span, Style};
use crate::ui::theme;

verus! {

/// A key and what it does.
pub open spec fn key_hint(key: Seq<char>, does: Seq<char>) -> Seq<(Seq<char>, Style)> {
    seq![
        (key, Style::coloured(theme::ACCENT)),
        (" "@ + does + "   "@, Style::coloured(theme::DIM)),
    ]
}

fn push_key(out: &mut Vec<Span>, key: &str, does: &str)
    ensures
        style::shown(final(out)@) == style::shown(old(out)@) + key_hint(key@, does@),
{
    push_text(out, key, Style::new().fg(theme::ACCENT));
    let mut text = " ".to_owned();
    text.append(does);
    text.append("   ");
    push_span(out, text, Style::new().fg(theme::DIM));
    assert(style::shown(out@) == style::shown(old(out)@) + key_hint(key@, does@));
}

/// The style of a sort key: lit where it is the active one.
pub open spec fn sort_look(sort: Sort, active: Sort) -> Style {
    if sort == active {
        Style { bold: true, reversed: true, ..Style::coloured(theme::ACCENT) }
    } else {
        Style::coloured(theme::DIM)
    }
}

/// The `c` / `m` / `i` sort keys with the active one lit and the rest dim, so a
/// sort change is legible at a glance - the active key moves as it is pressed.
pub open spec fn sort_keys(active: Sort) -> Seq<(Seq<char>, Style)> {
    seq![
        ("sort "@, Style::coloured(theme::DIM)),
        (" c "@, sort_look(Sort::Cpu, active)),
        (" m "@, sort_look(Sort::Mem, active)),
        (" i "@, sort_look(Sort::Io, active)),
        ("   "@, Style::plain()),
    ]
}

fn sort_style(sort: Sort, active: Sort) -> (out: Style)
    ensures
        out == sort_look(sort, active),
{
    if sort == active {
        Style::new().fg(theme::ACCENT).bold().reversed()
    } else {
        Style::new().fg(theme::DIM)
    }
}

/// Append the sort keys.
pub fn push_sort_keys(spans: &mut Vec<Span>, active: Sort)
    ensures
        style::shown(final(spans)@) == style::shown(old(spans)@) + sort_keys(active),
{
    push_text(spans, "sort ", Style::new().fg(theme::DIM));
    push_text(spans, " c ", sort_style(Sort::Cpu, active));
    push_text(spans, " m ", sort_style(Sort::Mem, active));
    push_text(spans, " i ", sort_style(Sort::Io, active));
    push_text(spans, "   ", Style::new());
    assert(style::shown(spans@) == style::shown(old(spans)@) + sort_keys(active));
}

/// The line while the filter is being edited.
pub open spec fn editing_line(filter: Seq<char>) -> Seq<(Seq<char>, Style)> {
    seq![
        (" filter: "@, Style::coloured(theme::ACCENT)),
        (filter + "_"@, Style::coloured(theme::TEXT)),
        ("   enter to accept, esc to clear"@, Style::coloured(theme::DIM)),
    ]
}

/// A notice that stands out.
pub open spec fn notice(text: Seq<char>) -> (Seq<char>, Style) {
    (text, Style { bold: true, ..Style::coloured(theme::io()) })
}

/// What follows the keys: the active filter, whether the view is paused, and
/// whether the counter map is full.
pub open spec fn notices(app: app::AppState, at_capacity: bool) -> Seq<(Seq<char>, Style)> {
    (if app.filter.len() > 0 {
        seq![("  filter \""@ + app.filter + "\""@, Style::coloured(theme::ACCENT))]
    } else {
        seq![]
    }) + (if app.paused {
        seq![notice("  paused"@)]
    } else {
        seq![]
    }) + (if at_capacity {
        seq![notice("  at capacity, raise --max-processes"@)]
    } else {
        seq![]
    })
}

/// The status line.
pub open spec fn status_line(app: app::AppState, at_capacity: bool) -> Seq<(Seq<char>, Style)> {
    if app.editing_filter {
        editing_line(app.filter)
    } else {
        seq![(" "@, Style::plain())] + key_hint("q"@, "quit"@) + key_hint("↑↓"@, "nav"@)
            + sort_keys(app.sort) + key_hint("/"@, "filter"@) + key_hint("space"@, "pause"@)
            + notices(app, at_capacity)
    }
}

/// The status line of a frame.
pub fn draw_status(app: &App, state: &SystemState) -> (out: Vec<Span>)
    ensures
        style::shown(out@) == status_line(app@, state.at_capacity),
{
    let mut spans: Vec<Span> = Vec::new();
    assert(style::shown(spans@) == Seq::<(Seq<char>, Style)>::empty());
    if app.editing_filter {
        push_text(&mut spans, " filter: ", Style::new().fg(theme::ACCENT));
        let mut typed = app.filter.clone();
        typed.append("_");
        push_span(&mut spans, typed, Style::new().fg(theme::TEXT));
        push_text(
            &mut spans,
            "   enter to accept, esc to clear",
            Style::new().fg(theme::DIM),
        );
        assert(style::shown(spans@) == editing_line(app.filter@));
        return spans;
    }
    push_text(&mut spans, " ", Style::new());
    assert(style::shown(spans@) == seq![(" "@, Style::plain())]);
    push_key(&mut spans, "q", "quit");
    push_key(&mut spans, "↑↓", "nav");
    push_sort_keys(&mut spans, app.sort);
    push_key(&mut spans, "/", "filter");
    push_key(&mut spans, "space", "pause");
    let ghost keys = style::shown(spans@);
    let loud = Style::new().fg(theme::io()).bold();
    if !is_empty(&app.filter) {
        let mut active = "  filter \"".to_owned();
        active.append(app.filter.as_str());
        active.append("\"");
        push_span(&mut spans, active, Style::new().fg(theme::ACCENT));
    }
    if app.paused {
        push_text(&mut spans, "  paused", loud);
    }
    if state.at_capacity {
        push_text(&mut spans, "  at capacity, raise --max-processes", loud);
    }
    assert(style::shown(spans@) == keys + notices(app@, state.at_capacity));
    spans
}

fn is_empty(s: &String) -> (r: bool)
    ensures
        r == (s@.len() == 0),
{
    crate::text::to_chars(s.as_str()).len() == 0
}

// ── Laws ─────────────────────────────────────────────────────────────────────

/// Outside of editing, the line ends with the capacity notice exactly when the
/// map is full: a saturated map is said out loud.
pub proof fn a_full_map_is_said_out_loud(app: app::AppState)
    requires
        !app.editing_filter,
    ensures
        status_line(app, true) == status_line(app, false).push(
            notice("  at capacity, raise --max-processes"@),
        ),
{
    assert(notices(app, true) == notices(app, false).push(
        notice("  at capacity, raise --max-processes"@),
    ));
    let keys = seq![(" "@, Style::plain())] + key_hint("q"@, "quit"@) + key_hint("↑↓"@, "nav"@)
        + sort_keys(app.sort) + key_hint("/"@, "filter"@) + key_hint("space"@, "pause"@);
    assert(keys + notices(app, true) == (keys + notices(app, false)).push(
        notice("  at capacity, raise --max-processes"@),
    ));
}

/// Of the three sort keys exactly the active one is lit: `c` for CPU, `m` for memory and
/// `i` for I/O wait.
pub proof fn only_the_active_key_is_lit(active: Sort)
    ensures
        ({
            let keys = sort_keys(active);
            &&& keys[1].0 == " c "@ && (keys[1].1.reversed <==> active == Sort::Cpu)
            &&& keys[2].0 == " m "@ && (keys[2].1.reversed <==> active == Sort::Mem)
            &&& keys[3].0 == " i "@ && (keys[3].1.reversed <==> active == Sort::Io)
            &&& forall|i: int|
                0 <= i < keys.len() && i != 1 && i != 2 && i != 3 ==> !(
                #[trigger] keys[i]).1.reversed
        }),
{
}

/// A paused view says so, and a view that is not does not.
pub proof fn a_paused_view_says_so(app: app::AppState, at_capacity: bool)
    requires
        !app.editing_filter,
        app.filter.len() == 0,
    ensures
        app.paused && !at_capacity ==> status_line(app, at_capacity).last() == notice("  paused"@),
        app.paused && !at_capacity ==> status_line(app, at_capacity).last().1.bold,
        !app.paused && !at_capacity ==> status_line(app, at_capacity).len() + 1 == status_line(
            (app::AppState { paused: true, ..app }),
            at_capacity,
        ).len(),
{
}

/// An active filter is shown between quotes; none is shown where there is none.
pub proof fn an_active_filter_is_shown(app: app::AppState)
    requires
        !app.editing_filter,
        !app.paused,
    ensures
        app.filter.len() > 0 ==> status_line(app, false).last().0 == "  filter \""@ + app.filter
            + "\""@,
        app.filter.len() > 0 ==> status_line(app, false).len() == status_line(
            (app::AppState { filter: Seq::empty(), ..app }),
            false,
        ).len() + 1,
{
}

/// While a filter is typed, the line shows it as it stands, with a cursor behind it,
/// and neither the keys nor a notice.
pub proof fn an_edited_filter_is_shown_as_it_stands(app: app::AppState, at_capacity: bool)
    requires
        app.editing_filter,
    ensures
        status_line(app, at_capacity).len() == 3,
        status_line(app, at_capacity)[1].0 == app.filter + "_"@,
        status_line(app, at_capacity) == status_line(app, !at_capacity),
{
}

/// Outside of editing, the line explains its keys from left to right: `q` quits, the
/// arrows move, then the sort keys, the slash filters and the space bar pauses.
pub proof fn the_keys_are_explained(app: app::AppState, at_capacity: bool)
    requires
        !app.editing_filter,
    ensures
        ({
            let line = status_line(app, at_capacity);
            &&& line.len() >= 14
            &&& line[1].0 == "q"@ && line[2].0 == " "@ + "quit"@ + "   "@
            &&& line[3].0 == "↑↓"@ && line[4].0 == " "@ + "nav"@ + "   "@
            &&& line[6].0 == " c "@ && line[7].0 == " m "@ && line[8].0 == " i "@
            &&& line[10].0 == "/"@ && line[11].0 == " "@ + "filter"@ + "   "@
            &&& line[12].0 == "space"@ && line[13].0 == " "@ + "pause"@ + "   "@
        }),
{
    let (a, b, c, d, e, f) = (
        seq![(" "@, Style::plain())],
        key_hint("q"@, "quit"@),
        key_hint("↑↓"@, "nav"@),
        sort_keys(app.sort),
        key_hint("/"@, "filter"@),
        key_hint("space"@, "pause"@),
    );
    let line = status_line(app, at_capacity);
    assert(line == a + b + c + d + e + f + notices(app, at_capacity));
    assert(line[1] == b[0] && line[2] == b[1]);
    assert(line[3] == c[0] && line[4] == c[1]);
    assert(line[6] == d[1] && line[7] == d[2] && line[8] == d[3]);
    assert(line[10] == e[0] && line[11] == e[1]);
    assert(line[12] == f[0] && line[13] == f[1]);
}

} // verus!
