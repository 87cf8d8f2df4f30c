//! Where the panels of a frame stand on the screen.

use ratatui::layout::{Constraint, Layout, Rect};
use vstd::prelude::*;

verus! {

/// A rectangle of the screen, in characters.
#[derive(Clone, Copy, Debug, PartialEq, Eq, Structural)]
pub struct Area {
    pub x: u16,
    pub y: u16,
    pub width: u16,
    pub height: u16,
}

impl Area {
    /// Its far edges can be counted to.
    pub open spec fn addressable(self) -> bool {
        self.x + self.width <= u16::MAX && self.y + self.height <= u16::MAX
    }

    /// `other` lies within it.
    pub open spec fn encloses(self, other: Area) -> bool {
        &&& self.x <= other.x && other.x + other.width <= self.x + self.width
        &&& self.y <= other.y && other.y + other.height <= self.y + self.height
    }
}

/// How many lines of the screen a panel takes.
#[derive(Clone, Copy, Debug, PartialEq, Eq, Structural)]
pub enum Extent {
    /// So many lines.
    Length(u16),
    /// At least so many, and what the others leave.
    Min(u16),
}

// ── Splitting ────────────────────────────────────────────────────────────────

/// The lines all panels of a fixed length take together.
pub open spec fn fixed(extents: Seq<Extent>) -> nat
    decreases extents.len(),
{
    if extents.len() == 0 {
        0
    } else {
        fixed(extents.drop_last()) + match extents.last() {
            Extent::Length(n) => n as nat,
            Extent::Min(_) => 0,
        }
    }
}

/// The `k`th panel takes what the others leave, and they all take fixed lengths.
pub open spec fn grows_at(extents: Seq<Extent>, k: int) -> bool {
    &&& 0 <= k < extents.len()
    &&& extents[k] == Extent::Min(0)
    &&& forall|i: int| 0 <= i < extents.len() && i != k ==> #[trigger] extents[i] is Length
}

/// One panel grows, and the others are fixed.
pub open spec fn one_grows(extents: Seq<Extent>) -> bool {
    exists|k: int| grows_at(extents, k)
}

/// `parts` stand one below the other, without a gap, from the top of `area` to its
/// bottom.
pub open spec fn stacked(parts: Seq<Area>, area: Area) -> bool {
    &&& parts.first().y == area.y
    &&& forall|i: int, j: int|
        0 <= i < parts.len() && j == i + 1 && j < parts.len() ==> (#[trigger] parts[j]).y == (
        #[trigger] parts[i]).y + parts[i].height
    &&& parts.last().y + parts.last().height == area.y + area.height
}

/// Every part is as high as `extents` ask, and the growing one takes what they leave of
/// `height` lines.
pub open spec fn met(parts: Seq<Area>, extents: Seq<Extent>, height: nat) -> bool {
    forall|i: int|
        0 <= i < parts.len() ==> (#[trigger] parts[i]).height == match extents[i] {
            Extent::Length(n) => n as int,
            Extent::Min(_) => height - fixed(extents),
        }
}

/// `ratatui::layout::Layout::split` on a vertical layout cuts an area into one part
/// per constraint, each as wide as the area and within it. Where one part grows, they
/// stand below one another from top to bottom: a gap between two, or at an end, weighs
/// more with its solver than any length. Where there is room for the fixed lengths as
/// well, those are met exactly. Where there is not, its solver gives the growing part
/// nothing and has neighbours be as alike as can be, which for the panels of a frame
/// leaves one way to share the lines: [`panel_lines`].
#[verifier::external_body]
fn split_down(area: Area, extents: &Vec<Extent>) -> (out: Vec<Area>)
    requires
        area.addressable(),
    ensures
        out@.len() == extents@.len(),
        forall|i: int| 0 <= i < out@.len() ==> area.encloses(#[trigger] out@[i]),
        forall|i: int|
            0 <= i < out@.len() ==> (#[trigger] out@[i]).x == area.x && out@[i].width
                == area.width,
        one_grows(extents@) ==> stacked(out@, area),
        one_grows(extents@) && fixed(extents@) <= area.height ==> met(
            out@,
            extents@,
            area.height as nat,
        ),
        extents@ == panel_list() ==> forall|i: int|
            0 <= i < out@.len() ==> (#[trigger] out@[i]).height == panel_lines(
                area.height as nat,
            )[i],
{
    let constraints = extents.iter().map(|extent| match extent {
        Extent::Length(n) => Constraint::Length(*n),
        Extent::Min(n) => Constraint::Min(*n),
    });
    Layout::vertical(constraints)
        .split(Rect::new(area.x, area.y, area.width, area.height))
        .iter()
        .map(|part| Area { x: part.x, y: part.y, width: part.width, height: part.height })
        .collect()
}

/// `ratatui::layout::Layout::split` on a horizontal layout of two parts that ask for
/// the same percentage of an area: both are as high as the area and within it. Of two
/// halves the first gets the odd column, and the second follows it without a gap.
#[verifier::external_body]
fn split_across(area: Area, percentage: u16) -> (out: (Area, Area))
    requires
        area.addressable(),
    ensures
        area.encloses(out.0) && area.encloses(out.1),
        out.0.height == area.height && out.1.height == area.height,
        percentage == 50 ==> out.0.x == area.x && out.0.width == (area.width + 1) / 2 && out.1.x
            == area.x + out.0.width && out.1.width == area.width / 2,
{
    let parts = Layout::horizontal([
        Constraint::Percentage(percentage),
        Constraint::Percentage(percentage),
    ]).split(Rect::new(area.x, area.y, area.width, area.height));
    let plain = |r: Rect| Area { x: r.x, y: r.y, width: r.width, height: r.height };
    (plain(parts[0]), plain(parts[1]))
}

// ── The panels ───────────────────────────────────────────────────────────────

/// The panels' lines, top to bottom: identity, charts, summary, table and status.
pub open spec fn panel_list() -> Seq<Extent> {
    seq![
        Extent::Length(1),
        Extent::Length(9),
        Extent::Length(1),
        Extent::Min(0),
        Extent::Length(1),
    ]
}

/// The panels' lines, top to bottom.
pub fn panels() -> (out: Vec<Extent>)
    ensures
        out@ == panel_list(),
{
    let out = vec![
        Extent::Length(1),
        Extent::Length(9),
        Extent::Length(1),
        Extent::Min(0),
        Extent::Length(1),
    ];
    assert(out@ =~= panel_list());
    out
}

/// The lines each of them gets on a screen of `height` lines. The table takes what the
/// others leave; on a screen too low for them the charts give way first.
pub open spec fn panel_lines(height: nat) -> Seq<int> {
    if height >= FIXED {
        seq![1, 9, 1, height - FIXED, 1]
    } else if height >= 4 {
        seq![1, height - 3, 1, 0, 1]
    } else if height == 3 {
        seq![1, 1, 1, 0, 0]
    } else if height == 2 {
        seq![1, 0, 1, 0, 0]
    } else if height == 1 {
        seq![0, 1, 0, 0, 0]
    } else {
        seq![0, 0, 0, 0, 0]
    }
}

/// The lines all panels but the table take.
pub const FIXED: u16 = 12;

/// Where each panel of a frame stands; the charts stand side by side.
#[derive(Clone, Copy, Debug, PartialEq, Eq)]
pub struct Panels {
    pub identity: Area,
    pub charts: (Area, Area),
    pub summary: Area,
    pub table: Area,
    pub status: Area,
}

/// `panel` is as wide as `area`, at its left, and takes `lines` from `below` its top.
pub open spec fn spans(panel: Area, area: Area, below: int, lines: int) -> bool {
    &&& panel.x == area.x && panel.width == area.width
    &&& panel.y == area.y + below && panel.height == lines
}

/// `panels` stand below one another in `area`, each with the lines it gets: identity,
/// charts, summary, table and status. The two charts share their lines, and the odd
/// column goes to the first.
pub open spec fn fills(panels: Panels, area: Area) -> bool {
    let lines = panel_lines(area.height as nat);
    &&& spans(panels.identity, area, 0, lines[0])
    &&& panels.charts.0 == (Area {
        x: area.x,
        y: (area.y + lines[0]) as u16,
        width: ((area.width + 1) / 2) as u16,
        height: lines[1] as u16,
    })
    &&& panels.charts.1 == (Area {
        x: (area.x + (area.width + 1) / 2) as u16,
        y: (area.y + lines[0]) as u16,
        width: area.width / 2,
        height: lines[1] as u16,
    })
    &&& spans(panels.summary, area, lines[0] + lines[1], lines[2])
    &&& spans(panels.table, area, lines[0] + lines[1] + lines[2], lines[3])
    &&& spans(panels.status, area, lines[0] + lines[1] + lines[2] + lines[3], lines[4])
}

/// Where the panels stand on a screen of `area`.
pub fn lay_out(area: Area) -> (out: Panels)
    requires
        area.addressable(),
    ensures
        fills(out, area),
{
    let extents = panels();
    let rows = split_down(area, &extents);
    proof {
        assert(grows_at(extents@, 3));
        assert(area.encloses(rows@[1]));
    }
    let charts = split_across(rows[1], 50);
    Panels { identity: rows[0], charts, summary: rows[2], table: rows[3], status: rows[4] }
}

// ── Laws ─────────────────────────────────────────────────────────────────────

/// However high the screen is, its lines are all given out and none is given twice.
pub proof fn every_line_is_given_out(height: nat)
    ensures
        ({
            let lines = panel_lines(height);
            &&& lines.len() == panel_list().len()
            &&& forall|i: int| 0 <= i < lines.len() ==> 0 <= #[trigger] lines[i]
            &&& lines[0] + lines[1] + lines[2] + lines[3] + lines[4] == height
        }),
{
}

/// Where there is room for the fixed panels, each gets the lines it asks for, and
/// otherwise no more; the table never takes a line from them.
pub proof fn fixed_panels_come_first(height: nat)
    ensures
        fixed(panel_list()) == FIXED,
        forall|i: int|
            0 <= i < 5 ==> match #[trigger] panel_list()[i] {
                Extent::Length(n) => panel_lines(height)[i] <= n && (height >= FIXED
                    ==> panel_lines(height)[i] == n),
                Extent::Min(_) => height <= FIXED ==> panel_lines(height)[i] == 0,
            },
{
    let all = panel_list();
    assert(all.drop_last().drop_last().drop_last().drop_last().drop_last().len() == 0);
    reveal_with_fuel(fixed, 6);
}

/// From twelve lines on, the identity, the summary and the status take a line each and
/// the charts nine; the table takes what is left.
pub proof fn the_table_takes_what_is_left(height: nat)
    requires
        height >= 12,
    ensures
        ({
            let lines = panel_lines(height);
            &&& lines[0] == 1 && lines[2] == 1 && lines[4] == 1
            &&& lines[1] == 9
            &&& lines[3] + 12 == height
        }),
{
}

/// On a screen too low for all of them the table gives way first and the charts next:
/// the one-line panels keep their line down to four lines.
pub proof fn the_charts_give_way_next(height: nat)
    requires
        4 <= height <= 12,
    ensures
        ({
            let lines = panel_lines(height);
            &&& lines[0] == 1 && lines[2] == 1 && lines[4] == 1
            &&& lines[3] == 0
            &&& lines[1] + 3 == height
        }),
{
}

/// The panels fill the screen from its top to its bottom without a gap or an overlap,
/// each as wide as it is, but for the two charts, which stand side by side and share
/// its width to within a column.
pub proof fn the_panels_fill_the_screen(panels: Panels, area: Area)
    requires
        area.addressable(),
        fills(panels, area),
    ensures
        panels.identity.y == area.y,
        panels.charts.0.y == panels.identity.y + panels.identity.height,
        panels.charts.1.y == panels.charts.0.y,
        panels.charts.1.height == panels.charts.0.height,
        panels.summary.y == panels.charts.0.y + panels.charts.0.height,
        panels.table.y == panels.summary.y + panels.summary.height,
        panels.status.y == panels.table.y + panels.table.height,
        panels.status.y + panels.status.height == area.y + area.height,
        panels.identity.width == area.width && panels.summary.width == area.width
            && panels.table.width == area.width && panels.status.width == area.width,
        panels.identity.x == area.x && panels.summary.x == area.x && panels.table.x == area.x
            && panels.status.x == area.x,
        panels.charts.0.x == area.x,
        panels.charts.1.x == panels.charts.0.x + panels.charts.0.width,
        panels.charts.0.width + panels.charts.1.width == area.width,
        0 <= panels.charts.0.width - panels.charts.1.width <= 1,
{
}

} // verus!
