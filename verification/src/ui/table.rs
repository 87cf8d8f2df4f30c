//! The process table: filtering, sorting, and the per-row styling that makes a
//! blocked process visible without reading the column.

use vstd::prelude::*;

use crate::backend::SystemState;
use crate::bytes;
use crate::bytes::format_bytes;
use crate::metrics::ProcessMetrics;
use crate::double;
use crate::percent;
use crate::percent::Percent;
use crate::ranking;
use crate::text;
use crate::ui::app::Sort;
use crate::ui::style::{Alignment, Color, Style};
use crate::ui::theme;
use crate::ui::theme::Background;

verus! {

pub const COL_CPU: usize = 3;

pub const COL_MEM: usize = 4;

pub const COL_IO: usize = 5;

// ── Columns ──────────────────────────────────────────────────────────────────

/// How much of the table's width a column takes.
#[derive(Clone, Copy, Debug, PartialEq, Eq, Structural)]
pub enum Width {
    /// So many characters.
    Length(u16),
    /// Its share of what the others leave.
    Fill(u16),
}

/// A column of the table.
#[derive(Clone, Copy, Debug)]
pub struct Column {
    pub title: &'static str,
    pub width: Width,
    pub align: Alignment,
}

impl View for Column {
    type V = (Seq<char>, Width, Alignment);

    open spec fn view(&self) -> (Seq<char>, Width, Alignment) {
        (self.title@, self.width, self.align)
    }
}

/// The columns, left to right; [`process_row`] emits cells in this order.
pub open spec fn column_list() -> Seq<(Seq<char>, Width, Alignment)> {
    seq![
        ("Pid"@, Width::Length(7), Alignment::Right),
        ("User"@, Width::Length(9), Alignment::Left),
        ("Program"@, Width::Fill(1), Alignment::Left),
        ("Cpu%"@, Width::Length(8), Alignment::Right),
        ("Mem"@, Width::Length(10), Alignment::Right),
        ("IO Wait"@, Width::Length(9), Alignment::Right),
    ]
}

/// The columns, left to right.
pub fn columns() -> (out: Vec<Column>)
    ensures
        out@.map_values(|c: Column| c@) == column_list(),
{
    let out = vec![
        Column { title: "Pid", width: Width::Length(7), align: Alignment::Right },
        Column { title: "User", width: Width::Length(9), align: Alignment::Left },
        Column { title: "Program", width: Width::Fill(1), align: Alignment::Left },
        Column { title: "Cpu%", width: Width::Length(8), align: Alignment::Right },
        Column { title: "Mem", width: Width::Length(10), align: Alignment::Right },
        Column { title: "IO Wait", width: Width::Length(9), align: Alignment::Right },
    ];
    assert(out@.map_values(|c: Column| c@) =~= column_list());
    out
}

// ── Filtering ────────────────────────────────────────────────────────────────

/// The text `str::to_lowercase` makes of a text.
pub uninterp spec fn lowercase(s: Seq<char>) -> Seq<char>;

/// Every character of `s` is an ASCII one.
pub open spec fn is_ascii(s: Seq<char>) -> bool {
    forall|i: int| 0 <= i < s.len() ==> #[trigger] s[i] as nat <= 0x7f
}

/// `s` with its capital letters, as far as they are ASCII, made small.
pub open spec fn ascii_lowercase(s: Seq<char>) -> Seq<char> {
    s.map_values(
        |c: char|
            if 'A' <= c <= 'Z' {
                (c as nat + 0x20) as char
            } else {
                c
            },
    )
}

/// `str::to_lowercase` is a function of the text alone. Of ASCII text it makes the
/// capital letters small and leaves everything else as it is. Which other letters
/// it maps to which is Unicode's to say and is not spelled out here.
#[verifier::external_body]
fn lowered(s: &str) -> (out: String)
    ensures
        out@ == lowercase(s@),
        is_ascii(s@) ==> out@ == ascii_lowercase(s@),
{
    s.to_lowercase()
}

/// Whether `needle` occurs in a name or in the digits of a pid.
pub fn matches_needle(name: &str, pid: u32, needle: &str) -> (r: bool)
    ensures
        r == (text::occurs(name@, needle@) || text::occurs(text::decimal(pid as nat), needle@)),
{
    text::contains(name, needle) || text::contains(
        text::to_decimal(pid as u128).as_str(),
        needle,
    )
}

/// The filter lets `p` through: it is empty, or occurs in the name, whatever the
/// case of either, or in the digits of the pid.
pub open spec fn passes(p: ProcessMetrics, filter: Seq<char>) -> bool {
    filter.len() == 0 || text::occurs(lowercase(p.name@), lowercase(filter)) || text::occurs(
        text::decimal(p.pid as nat),
        lowercase(filter),
    )
}

/// Whether the filter lets `p` through. Of ASCII texts it is known what their case
/// is ignored to mean.
pub fn matches_filter(p: &ProcessMetrics, filter: &str) -> (r: bool)
    ensures
        r == passes(*p, filter@),
        is_ascii(p.name@) && is_ascii(filter@) ==> r == (filter@.len() == 0 || text::occurs(
            ascii_lowercase(p.name@),
            ascii_lowercase(filter@),
        ) || text::occurs(text::decimal(p.pid as nat), ascii_lowercase(filter@))),
{
    if text::to_chars(filter).len() == 0 {
        return true;
    }
    let needle = lowered(filter);
    let name = lowered(p.name.as_str());
    matches_needle(name.as_str(), p.pid, needle.as_str())
}

// ── Sorting ──────────────────────────────────────────────────────────────────

/// The resident bytes of `p`; a process the kernel gave none ranks as zero.
pub open spec fn mem_bytes(p: ProcessMetrics) -> u64 {
    match p.mem {
        Some(mem) => mem.rss_bytes,
        None => 0,
    }
}

/// The place of `p` among all values of the column. A process the kernel gave no RSS
/// or I/O wait ranks with those at zero rather than dropping out, which is what the `-` cells
/// stand for.
pub open spec fn rank_of(p: ProcessMetrics, sort: Sort) -> nat {
    match sort {
        Sort::Cpu => p.cpu.cpu_percent.place(),
        Sort::Mem => mem_bytes(p) as nat,
        Sort::Io => match p.io {
            Some(io) => io.io_wait_percent.place(),
            None => 1,
        },
    }
}

/// Row `i` stands above row `j` when the largest come first: it is larger, or as
/// large and came first.
pub open spec fn above(processes: Seq<ProcessMetrics>, sort: Sort, i: int, j: int) -> bool {
    let (a, b) = (rank_of(processes[i], sort), rank_of(processes[j], sort));
    b < a || (a == b && i < j)
}

/// `down` holds exactly the rows the filter lets through, the largest first.
pub open spec fn is_descending(
    down: Seq<usize>,
    processes: Seq<ProcessMetrics>,
    sort: Sort,
    filter: Seq<char>,
) -> bool {
    &&& forall|k: int|
        0 <= k < down.len() ==> #[trigger] down[k] < processes.len() && passes(
            processes[down[k] as int],
            filter,
        )
    &&& forall|i: int|
        0 <= i < processes.len() && passes(#[trigger] processes[i], filter) ==> down.contains(
            i as usize,
        )
    &&& forall|a: int, b: int|
        0 <= a < b < down.len() ==> above(
            processes,
            sort,
            #[trigger] down[a] as int,
            #[trigger] down[b] as int,
        )
}

/// `order` holds exactly the rows the filter lets through, in the order asked
/// for: the largest first, or that order reversed.
pub open spec fn is_visible(
    order: Seq<usize>,
    processes: Seq<ProcessMetrics>,
    sort: Sort,
    descending: bool,
    filter: Seq<char>,
) -> bool {
    is_descending(
        if descending {
            order
        } else {
            order.reverse()
        },
        processes,
        sort,
        filter,
    )
}

/// The place of `p` among all values of the column.
fn rank_key(p: &ProcessMetrics, sort: Sort) -> (out: u128)
    ensures
        out == rank_of(*p, sort),
{
    match sort {
        Sort::Cpu => p.cpu.cpu_percent.rank(),
        Sort::Mem => mem_of(p) as u128,
        Sort::Io => io_of(p).rank(),
    }
}

/// The rows this frame will hold, as indices into `processes`: filtered, then
/// ordered by the active column.
pub fn visible(
    processes: &Vec<ProcessMetrics>,
    sort: Sort,
    descending: bool,
    filter: &str,
) -> (out: Vec<usize>)
    ensures
        is_visible(out@, processes@, sort, descending, filter@),
{
    let mut kept: Vec<usize> = Vec::new();
    let mut keys: Vec<u128> = Vec::new();
    for i in 0..processes.len()
        invariant
            kept.len() == keys.len(),
            kept.len() <= i,
            forall|k: int|
                0 <= k < kept.len() ==> #[trigger] kept@[k] < i && passes(
                    processes@[kept@[k] as int],
                    filter@,
                ),
            forall|a: int, b: int|
                0 <= a < b < kept.len() ==> #[trigger] kept@[a] < #[trigger] kept@[b],
            forall|k: int|
                0 <= k < keys.len() ==> #[trigger] keys@[k] == rank_of(
                    processes@[kept@[k] as int],
                    sort,
                ),
            forall|j: int|
                0 <= j < i && passes(#[trigger] processes@[j], filter@) ==> kept@.contains(
                    j as usize,
                ),
    {
        let ghost was = kept@;
        if matches_filter(&processes[i], filter) {
            kept.push(i);
            keys.push(rank_key(&processes[i], sort));
            proof {
                assert(kept@[was.len() as int] == i);
                assert forall|j: int|
                    0 <= j < i + 1 && passes(
                        #[trigger] processes@[j],
                        filter@,
                    ) implies kept@.contains(j as usize) by {
                    if j < i {
                        let k = choose|k: int| 0 <= k < was.len() && was[k] == j as usize;
                        assert(kept@[k] == j as usize);
                    }
                }
            }
        }
    }
    let order = ranking::rank(&keys);
    let count: usize = order.len();
    let mut out: Vec<usize> = Vec::new();
    for a in 0..count
        invariant
            count == order.len(),
            kept.len() == keys.len(),
            ranking::is_ranking(order@, keys@),
            out.len() == a,
            forall|b: int|
                0 <= b < a ==> #[trigger] out@[b] == kept@[order@[if descending {
                    b
                } else {
                    count - 1 - b
                }] as int],
    {
        let at: usize = if descending {
            a
        } else {
            count - 1 - a
        };
        assert(order@[at as int] < keys@.len());
        out.push(kept[order[at]]);
    }
    proof {
        let down = if descending {
            out@
        } else {
            out@.reverse()
        };
        assert forall|k: int| 0 <= k < count implies #[trigger] down[k]
            == kept@[order@[k] as int] && order@[k] < kept.len() by {
            if descending {
                assert(out@[k] == kept@[order@[k] as int]);
            } else {
                assert(out@[count - 1 - k] == kept@[order@[k] as int]);
            }
        }
        assert forall|i: int|
            0 <= i < processes@.len() && passes(
                #[trigger] processes@[i],
                filter@,
            ) implies down.contains(i as usize) by {
            let k = choose|k: int| 0 <= k < kept.len() && kept@[k] == i as usize;
            assert(order@.contains(k as usize));
            let b = choose|b: int| 0 <= b < order.len() && order@[b] == k as usize;
            assert(down[b] == i as usize);
        }
        assert forall|a: int, b: int| 0 <= a < b < down.len() implies above(
            processes@,
            sort,
            #[trigger] down[a] as int,
            #[trigger] down[b] as int,
        ) by {
            let (i, j) = (order@[a] as int, order@[b] as int);
            assert(down[a] == kept@[i] && down[b] == kept@[j]);
            assert(ranking::before(keys@, i, j));
            assert(keys@[i] == rank_of(processes@[kept@[i] as int], sort));
            assert(keys@[j] == rank_of(processes@[kept@[j] as int], sort));
        }
    }
    out
}

// ── Rows ─────────────────────────────────────────────────────────────────────

/// One cell of the table.
#[derive(Debug)]
pub struct Cell {
    pub text: String,
    pub align: Alignment,
    pub style: Style,
}

impl View for Cell {
    type V = (Seq<char>, Alignment, Style);

    open spec fn view(&self) -> (Seq<char>, Alignment, Style) {
        (self.text@, self.align, self.style)
    }
}

/// What a run of cells shows.
pub open spec fn shown(cells: Seq<Cell>) -> Seq<(Seq<char>, Alignment, Style)> {
    cells.map_values(|c: Cell| c@)
}

/// One row of the table: its cells, and its background where it has one.
#[derive(Debug)]
pub struct Row {
    pub cells: Vec<Cell>,
    pub bg: Option<Color>,
}

/// The share of the interval `p` was blocked on I/O; none where the kernel gave
/// no value.
pub fn io_of(p: &ProcessMetrics) -> (out: Percent)
    ensures
        out.place() == rank_of(*p, Sort::Io),
        match p.io {
            Some(io) => out == io.io_wait_percent,
            None => out.reads(double::Binary::zero()),
        },
{
    match p.io {
        Some(io) => io.io_wait_percent,
        None => Percent::zero(),
    }
}

pub open spec fn io_shown(p: ProcessMetrics) -> Seq<char> {
    match p.io {
        Some(io) => io.io_wait_percent.shown(),
        None => "-"@,
    }
}

/// The I/O-wait cell's text.
pub fn io_text(p: &ProcessMetrics) -> (out: String)
    ensures
        out@ == io_shown(*p),
{
    match p.io {
        Some(io) => io.io_wait_percent.text(),
        None => "-".to_owned(),
    }
}

pub open spec fn io_look(p: ProcessMetrics) -> Style {
    match p.io {
        Some(io) => theme::io_style(io.io_wait_percent),
        None => Style::coloured(theme::DIM),
    }
}

/// The I/O-wait cell's style.
pub fn io_style(p: &ProcessMetrics) -> (out: Style)
    ensures
        out == io_look(*p),
{
    match p.io {
        Some(io) => theme::io_heat(&io.io_wait_percent),
        None => Style::new().fg(theme::DIM),
    }
}

/// The resident bytes of `p`; zero where the kernel gave none.
pub fn mem_of(p: &ProcessMetrics) -> (out: u64)
    ensures
        out == mem_bytes(*p),
{
    match p.mem {
        Some(mem) => mem.rss_bytes,
        None => 0,
    }
}

pub open spec fn mem_shown(p: ProcessMetrics) -> Seq<char> {
    match p.mem {
        Some(mem) => bytes::shown_bytes(mem.rss_bytes as nat),
        None => "-"@,
    }
}

/// The memory cell's text.
pub fn mem_text(p: &ProcessMetrics) -> (out: String)
    ensures
        out@ == mem_shown(*p),
{
    match p.mem {
        Some(mem) => format_bytes(mem.rss_bytes),
        None => "-".to_owned(),
    }
}

/// The style of the cells that name a process: dim where it is idle.
pub open spec fn name_look(p: ProcessMetrics) -> Style {
    Style::coloured(
        if p.cpu.cpu_percent.under(theme::IDLE as nat, 100) {
            theme::DIM
        } else {
            theme::TEXT
        },
    )
}

/// The cells of `p`'s row.
pub open spec fn row_cells(p: ProcessMetrics, memory_total: u64) -> Seq<
    (Seq<char>, Alignment, Style),
> {
    seq![
        (text::decimal(p.pid as nat), Alignment::Right, name_look(p)),
        (
            match p.user {
                Some(user) => user@,
                None => "-"@,
            },
            Alignment::Left,
            Style::coloured(theme::DIM),
        ),
        (p.name@, Alignment::Left, name_look(p)),
        (p.cpu.cpu_percent.shown(), Alignment::Right, theme::cpu_style(p.cpu.cpu_percent)),
        (
            mem_shown(p),
            Alignment::Right,
            theme::mem_style(mem_bytes(p) as nat, memory_total as nat),
        ),
        (io_shown(p), Alignment::Right, io_look(p)),
    ]
}

/// The background of `p`'s row, the `index`th from the top: a blocked process
/// outranks the striping that only groups rows.
pub open spec fn row_background(
    index: int,
    p: ProcessMetrics,
    background: Background,
) -> Option<Color> {
    let tint = match p.io {
        Some(io) => theme::io_row_tint(background, io.io_wait_percent),
        None => None,
    };
    match tint {
        Some(colour) => Some(colour),
        None => theme::stripe(background, index),
    }
}

fn cell(text: String, align: Alignment, style: Style) -> (out: Cell)
    ensures
        out@ == (text@, align, style),
{
    Cell { text, align, style }
}

/// The row of `p`, the `index`th from the top.
pub fn process_row(
    index: usize,
    p: &ProcessMetrics,
    memory_total: u64,
    background: Background,
) -> (out: Row)
    ensures
        shown(out.cells@) == row_cells(*p, memory_total),
        out.bg == row_background(index as int, *p, background),
{
    let idle = p.cpu.cpu_percent.is_under(theme::IDLE, 100);
    let name_style = Style::new().fg(
        if idle {
            theme::DIM
        } else {
            theme::TEXT
        },
    );
    let user = match &p.user {
        Some(user) => user.clone(),
        None => "-".to_owned(),
    };
    let cells = vec![
        cell(text::to_decimal(p.pid as u128), Alignment::Right, name_style),
        cell(user, Alignment::Left, Style::new().fg(theme::DIM)),
        cell(p.name.clone(), Alignment::Left, name_style),
        cell(
            p.cpu.cpu_percent.text(),
            Alignment::Right,
            theme::cpu_heat(&p.cpu.cpu_percent),
        ),
        cell(mem_text(p), Alignment::Right, theme::mem_heat(mem_of(p), memory_total)),
        cell(io_text(p), Alignment::Right, io_style(p)),
    ];
    assert(shown(cells@) =~= row_cells(*p, memory_total));
    let tint = match p.io {
        Some(io) => theme::io_row_bg(background, &io.io_wait_percent),
        None => None,
    };
    let bg = match tint {
        Some(colour) => Some(colour),
        None => theme::row_stripe(background, index),
    };
    Row { cells, bg }
}

// ── The table ────────────────────────────────────────────────────────────────

/// What the view asks of the table.
#[derive(Clone, Copy, Debug)]
pub struct Asked<'a> {
    pub background: Background,
    pub sort: Sort,
    pub descending: bool,
    pub filter: &'a str,
}

/// The table of one frame.
#[derive(Debug)]
pub struct Table {
    /// The panel's title, in the style of [`theme::header`].
    pub title: String,
    pub header: Vec<Cell>,
    pub rows: Vec<Row>,
}

/// A column's title, with an arrow for the direction where it is the active one.
pub open spec fn column_title(i: int, sort: Sort, descending: bool) -> Seq<char> {
    let title = column_list()[i].0;
    if i == sort.at() {
        title + if descending {
            " ▾"@
        } else {
            " ▴"@
        }
    } else {
        title
    }
}

pub open spec fn panel_title(filter: Seq<char>) -> Seq<char> {
    if filter.len() == 0 {
        " processes "@
    } else {
        " processes matching \""@ + filter + "\" "@
    }
}

/// The header row: every column's title, the active one with its arrow.
pub fn header_row(sort: Sort, descending: bool) -> (out: Vec<Cell>)
    ensures
        out@.len() == column_list().len(),
        forall|i: int|
            0 <= i < out@.len() ==> (#[trigger] out@[i])@ == (
                column_title(i, sort, descending),
                column_list()[i].2,
                theme::header_style(),
            ),
{
    let all = columns();
    let ghost seen = all@.map_values(|c: Column| c@);
    let arrow = if descending {
        " ▾"
    } else {
        " ▴"
    };
    let mut out: Vec<Cell> = Vec::new();
    for i in 0..all.len()
        invariant
            seen == all@.map_values(|c: Column| c@),
            seen == column_list(),
            arrow@ == if descending {
                " ▾"@
            } else {
                " ▴"@
            },
            out@.len() == i,
            forall|k: int|
                0 <= k < i ==> (#[trigger] out@[k])@ == (
                    column_title(k, sort, descending),
                    column_list()[k].2,
                    theme::header_style(),
                ),
    {
        assert(seen[i as int] == all@[i as int]@);
        let mut title = all[i].title.to_owned();
        if i == sort.column() {
            title.append(arrow);
        }
        out.push(cell(title, all[i].align, theme::header()));
    }
    assert(all.len() == column_list().len()) by {
        assert(seen.len() == all@.len());
    }
    out
}

/// The panel's title, which names the active filter.
pub fn title(filter: &str) -> (out: String)
    ensures
        out@ == panel_title(filter@),
{
    if text::to_chars(filter).len() == 0 {
        return " processes ".to_owned();
    }
    let mut out = " processes matching \"".to_owned();
    out.append(filter);
    out.append("\" ");
    out
}

/// `rows` are those of `processes` in `order`, top to bottom.
pub open spec fn rows_show(
    rows: Seq<Row>,
    order: Seq<usize>,
    state: SystemState,
    background: Background,
) -> bool {
    &&& rows.len() == order.len()
    &&& forall|k: int|
        0 <= k < rows.len() ==> shown((#[trigger] rows[k]).cells@) == row_cells(
            state.processes@[order[k] as int],
            state.memory_total_bytes,
        ) && rows[k].bg == row_background(k, state.processes@[order[k] as int], background)
}

/// `rows` are those the view asks for, top to bottom.
pub open spec fn shows_visible(rows: Seq<Row>, state: SystemState, view: Asked) -> bool {
    exists|order: Seq<usize>|
        {
            &&& #[trigger] rows_show(rows, order, state, view.background)
            &&& is_visible(order, state.processes@, view.sort, view.descending, view.filter@)
        }
}

/// `table` is the one the view asks for: title, header and rows.
pub open spec fn is_table(table: Table, state: SystemState, view: Asked) -> bool {
    &&& table.title@ == panel_title(view.filter@)
    &&& table.header@.len() == column_list().len()
    &&& forall|i: int|
        0 <= i < table.header@.len() ==> (#[trigger] table.header@[i])@ == (
            column_title(i, view.sort, view.descending),
            column_list()[i].2,
            theme::header_style(),
        )
    &&& shows_visible(table.rows@, state, view)
}

/// The table of one frame. How many rows it holds lets the caller clamp the
/// selection and size a page jump.
pub fn draw(state: &SystemState, view: Asked) -> (out: Table)
    ensures
        is_table(out, *state, view),
{
    let order = visible(&state.processes, view.sort, view.descending, view.filter);
    let mut rows: Vec<Row> = Vec::new();
    assert forall|k: int| 0 <= k < order.len() implies #[trigger] order@[k]
        < state.processes@.len() by {
        if !view.descending {
            assert(order@.reverse()[order.len() - 1 - k] == order@[k]);
        }
    }
    for k in 0..order.len()
        invariant
            forall|j: int| 0 <= j < order.len() ==> #[trigger] order@[j] < state.processes@.len(),
            rows@.len() == k,
            forall|j: int|
                0 <= j < k ==> shown((#[trigger] rows@[j]).cells@) == row_cells(
                    state.processes@[order@[j] as int],
                    state.memory_total_bytes,
                ) && rows@[j].bg == row_background(
                    j,
                    state.processes@[order@[j] as int],
                    view.background,
                ),
    {
        assert(order@[k as int] < state.processes@.len());
        rows.push(
            process_row(
                k,
                &state.processes[order[k]],
                state.memory_total_bytes,
                view.background,
            ),
        );
    }
    let title = title(view.filter);
    let header = header_row(view.sort, view.descending);
    assert(is_visible(order@, state.processes@, view.sort, view.descending, view.filter@));
    assert(rows_show(rows@, order@, *state, view.background));
    Table { title, header, rows }
}

// ── Laws ─────────────────────────────────────────────────────────────────────

/// The rows and their order are settled: no two different orders answer the same
/// view.
pub proof fn the_order_is_unique(
    a: Seq<usize>,
    b: Seq<usize>,
    processes: Seq<ProcessMetrics>,
    sort: Sort,
    descending: bool,
    filter: Seq<char>,
)
    requires
        processes.len() <= usize::MAX,
        is_visible(a, processes, sort, descending, filter),
        is_visible(b, processes, sort, descending, filter),
    ensures
        a == b,
{
    let (x, y) = if descending {
        (a, b)
    } else {
        (a.reverse(), b.reverse())
    };
    lemma_same_start(x, y, processes, sort, filter, x.len() as int);
    lemma_same_start(y, x, processes, sort, filter, y.len() as int);
    assert(x.take(x.len() as int) == x && y.take(y.len() as int) == y);
    assert(x =~= y);
    assert(a.reverse().reverse() == a && b.reverse().reverse() == b);
}

/// Two descending orders of the same rows begin alike.
proof fn lemma_same_start(
    a: Seq<usize>,
    b: Seq<usize>,
    processes: Seq<ProcessMetrics>,
    sort: Sort,
    filter: Seq<char>,
    n: int,
)
    requires
        processes.len() <= usize::MAX,
        is_descending(a, processes, sort, filter),
        is_descending(b, processes, sort, filter),
        0 <= n <= a.len(),
    ensures
        n <= b.len(),
        a.take(n) == b.take(n),
    decreases n,
{
    if n > 0 {
        let i = n - 1;
        lemma_same_start(a, b, processes, sort, filter, i);
        let x = a[i];
        assert(passes(processes[x as int], filter));
        assert(b.contains((x as int) as usize));
        let p = choose|p: int| 0 <= p < b.len() && b[p] == x;
        if p < i {
            assert(a.take(i)[p] == b.take(i)[p]);
            assert(above(processes, sort, a[p] as int, a[i] as int));
            assert(false);
        }
        let y = b[i];
        if x != y {
            assert(passes(processes[y as int], filter));
            assert(a.contains((y as int) as usize));
            let q = choose|q: int| 0 <= q < a.len() && a[q] == y;
            if q < i {
                assert(a.take(i)[q] == b.take(i)[q]);
                assert(above(processes, sort, b[q] as int, b[i] as int));
                assert(false);
            }
            assert(above(processes, sort, b[i] as int, b[p] as int));
            assert(above(processes, sort, a[i] as int, a[q] as int));
            assert(false);
        }
        assert(a.take(n) == a.take(i).push(x));
        assert(b.take(n) == b.take(i).push(y));
    }
}

/// Asking for ascending order shows the descending rows upside down.
pub proof fn ascending_reverses_the_ranking(
    order: Seq<usize>,
    processes: Seq<ProcessMetrics>,
    sort: Sort,
    filter: Seq<char>,
)
    ensures
        is_visible(order, processes, sort, true, filter) == is_visible(
            order.reverse(),
            processes,
            sort,
            false,
            filter,
        ),
{
    assert(order.reverse().reverse() == order);
}

/// The case of the filter and of a name do not matter: processes with the same pid
/// and names that differ only in case pass the same filters, and so do filters that
/// differ only in case. An empty filter lets every process through.
pub proof fn the_filter_ignores_case(
    p: ProcessMetrics,
    q: ProcessMetrics,
    a: Seq<char>,
    b: Seq<char>,
)
    requires
        p.pid == q.pid,
        lowercase(p.name@) == lowercase(q.name@),
        a.len() > 0,
        b.len() > 0,
        lowercase(a) == lowercase(b),
    ensures
        passes(p, a) == passes(q, b),
        passes(p, seq![]),
{
}

/// No process is shown twice, so a frame never holds more rows than there are
/// processes.
pub proof fn no_row_shows_twice(
    order: Seq<usize>,
    processes: Seq<ProcessMetrics>,
    sort: Sort,
    descending: bool,
    filter: Seq<char>,
)
    requires
        is_visible(order, processes, sort, descending, filter),
    ensures
        order.no_duplicates(),
        order.len() <= processes.len(),
{
    let down = if descending {
        order
    } else {
        order.reverse()
    };
    assert forall|a: int, b: int| 0 <= a < b < down.len() implies down[a] != down[b] by {
        assert(above(processes, sort, down[a] as int, down[b] as int));
    }
    assert forall|a: int, b: int| 0 <= a < b < order.len() implies order[a] != order[b] by {
        if !descending {
            assert(order[a] == down[down.len() - 1 - a] && order[b] == down[down.len() - 1 - b]);
        }
    }
    let indices = down.map_values(|i: usize| i as int);
    indices.unique_seq_to_set();
    vstd::set_lib::lemma_int_range(0, processes.len() as int);
    assert forall|i: int| indices.to_set().contains(i) implies vstd::set_lib::set_int_range(
        0,
        processes.len() as int,
    ).contains(i) by {
        let k = choose|k: int| 0 <= k < indices.len() && indices[k] == i;
        assert(down[k] < processes.len());
    }
    vstd::set_lib::lemma_len_subset(
        indices.to_set(),
        vstd::set_lib::set_int_range(0, processes.len() as int),
    );
}

/// Only the active column carries the arrow.
pub proof fn one_column_carries_the_arrow(i: int, sort: Sort, descending: bool)
    requires
        0 <= i < column_list().len(),
        i != sort.at(),
    ensures
        column_title(i, sort, descending) == column_list()[i].0,
        column_title(sort.at() as int, sort, descending).len() == column_list()[sort.at() as int].0
            .len() + 2,
{
    reveal_strlit(" ▾");
    reveal_strlit(" ▴");
}

/// Sorted by memory, down the table no row has more resident bytes than the one above
/// it, counting none as zero; ascending, none has fewer.
pub proof fn no_row_outweighs_the_one_above(
    order: Seq<usize>,
    processes: Seq<ProcessMetrics>,
    descending: bool,
    filter: Seq<char>,
    a: int,
    b: int,
)
    requires
        is_visible(order, processes, Sort::Mem, descending, filter),
        0 <= a < b < order.len(),
    ensures
        order[a] < processes.len() && order[b] < processes.len(),
        ({
            let (upper, lower) = if descending {
                (processes[order[a] as int], processes[order[b] as int])
            } else {
                (processes[order[b] as int], processes[order[a] as int])
            };
            match (upper.mem, lower.mem) {
                (Some(u), Some(l)) => u.rss_bytes >= l.rss_bytes,
                (None, Some(l)) => l.rss_bytes == 0,
                (_, None) => true,
            }
        }),
{
    lemma_upper_ranks(order, processes, Sort::Mem, descending, filter, a, b);
}

/// Sorted by CPU, down the table no row has a larger percentage than the one above it;
/// ascending, none has a smaller one.
pub proof fn no_row_outruns_the_one_above(
    order: Seq<usize>,
    processes: Seq<ProcessMetrics>,
    descending: bool,
    filter: Seq<char>,
    a: int,
    b: int,
)
    requires
        is_visible(order, processes, Sort::Cpu, descending, filter),
        0 <= a < b < order.len(),
        processes[order[a] as int].cpu.cpu_percent.valid(),
        processes[order[b] as int].cpu.cpu_percent.valid(),
    ensures
        ({
            let (upper, lower) = if descending {
                (processes[order[a] as int], processes[order[b] as int])
            } else {
                (processes[order[b] as int], processes[order[a] as int])
            };
            percent::units(upper.cpu.cpu_percent) >= percent::units(lower.cpu.cpu_percent)
        }),
{
    lemma_upper_ranks(order, processes, Sort::Cpu, descending, filter, a, b);
    let (p, q) = (processes[order[a] as int], processes[order[b] as int]);
    percent::percentages_rank_as_numbers(p.cpu.cpu_percent, q.cpu.cpu_percent);
    percent::percentages_rank_as_numbers(q.cpu.cpu_percent, p.cpu.cpu_percent);
}

/// Sorted by I/O wait, down the table no row has a larger percentage than the one above
/// it, counting none as zero; ascending, none has a smaller one.
pub proof fn no_row_outwaits_the_one_above(
    order: Seq<usize>,
    processes: Seq<ProcessMetrics>,
    descending: bool,
    filter: Seq<char>,
    a: int,
    b: int,
)
    requires
        is_visible(order, processes, Sort::Io, descending, filter),
        0 <= a < b < order.len(),
        processes[order[a] as int].io matches Some(io) ==> io.io_wait_percent.valid(),
        processes[order[b] as int].io matches Some(io) ==> io.io_wait_percent.valid(),
    ensures
        ({
            let (upper, lower) = if descending {
                (processes[order[a] as int], processes[order[b] as int])
            } else {
                (processes[order[b] as int], processes[order[a] as int])
            };
            match (upper.io, lower.io) {
                (Some(u), Some(l)) => percent::units(u.io_wait_percent) >= percent::units(
                    l.io_wait_percent,
                ),
                (None, Some(l)) => l.io_wait_percent.value().mant == 0,
                (_, None) => true,
            }
        }),
{
    lemma_upper_ranks(order, processes, Sort::Io, descending, filter, a, b);
    let (p, q) = (processes[order[a] as int], processes[order[b] as int]);
    if p.io is Some && q.io is Some {
        percent::percentages_rank_as_numbers(p.io->0.io_wait_percent, q.io->0.io_wait_percent);
        percent::percentages_rank_as_numbers(q.io->0.io_wait_percent, p.io->0.io_wait_percent);
    }
}

proof fn lemma_upper_ranks(
    order: Seq<usize>,
    processes: Seq<ProcessMetrics>,
    sort: Sort,
    descending: bool,
    filter: Seq<char>,
    a: int,
    b: int,
)
    requires
        is_visible(order, processes, sort, descending, filter),
        0 <= a < b < order.len(),
    ensures
        order[a] < processes.len() && order[b] < processes.len(),
        descending ==> above(processes, sort, order[a] as int, order[b] as int),
        !descending ==> above(processes, sort, order[b] as int, order[a] as int),
{
    if !descending {
        let down = order.reverse();
        let n = order.len();
        assert(down[n - 1 - b] == order[b] && down[n - 1 - a] == order[a]);
        assert(above(processes, sort, down[n - 1 - b] as int, down[n - 1 - a] as int));
    }
}

/// Rows that the column cannot tell apart keep the order they came in, and are turned
/// round with the rest.
pub proof fn equal_rows_keep_their_order(
    order: Seq<usize>,
    processes: Seq<ProcessMetrics>,
    descending: bool,
    filter: Seq<char>,
    a: int,
    b: int,
)
    requires
        0 <= a < b < order.len(),
    ensures
        is_visible(order, processes, Sort::Mem, descending, filter) && processes[order[a] as int].mem
            == processes[order[b] as int].mem ==> if descending {
            order[a] < order[b]
        } else {
            order[a] > order[b]
        },
        is_visible(order, processes, Sort::Cpu, descending, filter)
            && processes[order[a] as int].cpu == processes[order[b] as int].cpu ==> if descending {
            order[a] < order[b]
        } else {
            order[a] > order[b]
        },
        is_visible(order, processes, Sort::Io, descending, filter) && processes[order[a] as int].io
            == processes[order[b] as int].io ==> if descending {
            order[a] < order[b]
        } else {
            order[a] > order[b]
        },
{
    lemma_ties(order, processes, Sort::Mem, descending, filter, a, b);
    lemma_ties(order, processes, Sort::Cpu, descending, filter, a, b);
    lemma_ties(order, processes, Sort::Io, descending, filter, a, b);
}

proof fn lemma_ties(
    order: Seq<usize>,
    processes: Seq<ProcessMetrics>,
    sort: Sort,
    descending: bool,
    filter: Seq<char>,
    a: int,
    b: int,
)
    requires
        0 <= a < b < order.len(),
    ensures
        is_visible(order, processes, sort, descending, filter) && rank_of(
            processes[order[a] as int],
            sort,
        ) == rank_of(processes[order[b] as int], sort) ==> if descending {
            order[a] < order[b]
        } else {
            order[a] > order[b]
        },
{
    if is_visible(order, processes, sort, descending, filter) {
        lemma_upper_ranks(order, processes, sort, descending, filter, a, b);
    }
}

/// Exactly the processes the filter lets through are shown.
pub proof fn a_process_is_shown_if_it_passes(
    order: Seq<usize>,
    processes: Seq<ProcessMetrics>,
    sort: Sort,
    descending: bool,
    filter: Seq<char>,
    i: usize,
)
    requires
        is_visible(order, processes, sort, descending, filter),
        i < processes.len(),
    ensures
        order.contains(i) <==> passes(processes[i as int], filter),
{
    let down = if descending {
        order
    } else {
        order.reverse()
    };
    let n = order.len();
    if passes(processes[i as int], filter) {
        assert(down.contains((i as int) as usize));
        let k = choose|k: int| 0 <= k < down.len() && down[k] == i;
        if descending {
            assert(order[k] == i);
        } else {
            assert(order[n - 1 - k] == i);
        }
    }
    if order.contains(i) {
        let k = choose|k: int| 0 <= k < order.len() && order[k] == i;
        if descending {
            assert(down[k] == i);
        } else {
            assert(down[n - 1 - k] == i);
        }
    }
}

/// A process passes when its name, in small letters, holds the filter in small letters
/// anywhere, or when the digits of its pid do, or when there is no filter; and not
/// otherwise.
pub proof fn the_filter_is_looked_for_anywhere(
    p: ProcessMetrics,
    filter: Seq<char>,
    front: Seq<char>,
    back: Seq<char>,
)
    ensures
        lowercase(p.name@) == front + lowercase(filter) + back ==> passes(p, filter),
        text::decimal(p.pid as nat) == front + lowercase(filter) + back ==> passes(p, filter),
        filter.len() == 0 ==> passes(p, filter),
        passes(p, filter) && filter.len() > 0 ==> exists|f: Seq<char>, b: Seq<char>|
            lowercase(p.name@) == #[trigger] (f + lowercase(filter) + b) || text::decimal(
                p.pid as nat,
            ) == f + lowercase(filter) + b,
{
    let needle = lowercase(filter);
    text::what_is_put_in_is_found(front, needle, back);
    if passes(p, filter) && filter.len() > 0 {
        if text::occurs(lowercase(p.name@), needle) {
            text::what_is_found_is_there(lowercase(p.name@), needle);
        } else {
            text::what_is_found_is_there(text::decimal(p.pid as nat), needle);
        }
    }
}

/// Every cell stands under the title it belongs to: the pid, the owner or a dash, the
/// name, the CPU percentage, the resident bytes or a dash, and the I/O wait or a dash;
/// each aligned as its column is.
pub proof fn every_cell_stands_under_its_title(p: ProcessMetrics, memory_total: u64, i: int)
    requires
        0 <= i < column_list().len(),
    ensures
        row_cells(p, memory_total).len() == column_list().len(),
        row_cells(p, memory_total)[i].1 == column_list()[i].2,
        column_list()[i].0 == "Pid"@ ==> text::parsed(
            row_cells(p, memory_total)[i].0,
            u32::MAX as nat,
        ) == Some(p.pid as nat),
        column_list()[i].0 == "User"@ ==> row_cells(p, memory_total)[i].0 == match p.user {
            Some(user) => user@,
            None => "-"@,
        },
        column_list()[i].0 == "Program"@ ==> row_cells(p, memory_total)[i].0 == p.name@,
        column_list()[i].0 == "Cpu%"@ ==> row_cells(p, memory_total)[i].0
            == p.cpu.cpu_percent.shown(),
        column_list()[i].0 == "Mem"@ ==> row_cells(p, memory_total)[i].0 == match p.mem {
            Some(mem) => bytes::shown_bytes(mem.rss_bytes as nat),
            None => "-"@,
        },
        column_list()[i].0 == "IO Wait"@ ==> row_cells(p, memory_total)[i].0 == match p.io {
            Some(io) => io.io_wait_percent.shown(),
            None => "-"@,
        },
{
    reveal_strlit("Pid");
    reveal_strlit("User");
    reveal_strlit("Program");
    reveal_strlit("Cpu%");
    reveal_strlit("Mem");
    reveal_strlit("IO Wait");
    text::decimal_reads_back(p.pid as nat, u32::MAX as nat);
    assert("Pid"@[0] == 'P' && "User"@[0] == 'U' && "Program"@[0] == 'P');
    assert("Cpu%"@[0] == 'C' && "Mem"@[0] == 'M' && "IO Wait"@[0] == 'I');
    assert("Pid"@[1] == 'i' && "Program"@[1] == 'r');
}

/// A blocked process is tinted wherever its row stands; any other row is tinted on
/// every second line alone.
pub proof fn a_blocked_row_outranks_the_striping(
    index: int,
    other: int,
    p: ProcessMetrics,
    background: Background,
)
    ensures
        p.io matches Some(io) && theme::io_row_tint(background, io.io_wait_percent) is Some
            ==> row_background(index, p, background) == row_background(other, p, background)
            && row_background(index, p, background) == theme::io_row_tint(
            background,
            p.io->0.io_wait_percent,
        ),
        (p.io matches Some(io) ==> theme::io_row_tint(background, io.io_wait_percent) is None)
            ==> row_background(index, p, background) == theme::stripe(background, index),
{
}

/// Every figure is drawn in the heat of its own value, and the pid and the name of a
/// process are dim exactly where its CPU figure is.
pub proof fn every_figure_has_its_own_heat(p: ProcessMetrics, memory_total: u64)
    ensures
        ({
            let cells = row_cells(p, memory_total);
            &&& cells[3].2 == theme::cpu_style(p.cpu.cpu_percent)
            &&& p.mem matches Some(mem) ==> cells[4].2 == theme::mem_style(
                mem.rss_bytes as nat,
                memory_total as nat,
            )
            &&& p.mem is None ==> cells[4].2 == Style::coloured(Color::DarkGray)
            &&& p.io matches Some(io) ==> cells[5].2 == theme::io_style(io.io_wait_percent)
            &&& p.io is None ==> cells[5].2 == Style::coloured(Color::DarkGray)
            &&& cells[0].2.fg == Some(Color::DarkGray) <==> cells[3].2.fg == Some(Color::DarkGray)
            &&& cells[2].2 == cells[0].2
            &&& cells[0].2.fg == Some(Color::DarkGray) || cells[0].2.fg == Some(Color::Reset)
        }),
{
}

/// The arrow points down where the largest come first and up where the smallest do.
pub proof fn the_arrow_points_the_way_of_the_order(sort: Sort)
    ensures
        ({
            let i = sort.at() as int;
            &&& column_title(i, sort, true) == column_list()[i].0 + " ▾"@
            &&& column_title(i, sort, false) == column_list()[i].0 + " ▴"@
        }),
{
}

/// The panel names the filter that is active, and none where none is.
pub proof fn the_title_names_the_filter(filter: Seq<char>)
    ensures
        filter.len() > 0 ==> text::occurs(panel_title(filter), "\""@ + filter + "\""@),
        panel_title(Seq::empty()) == " processes "@,
{
    reveal_strlit(" processes matching \"");
    reveal_strlit("\" ");
    reveal_strlit("\"");
    let (front, back) = (" processes matching "@, " "@);
    reveal_strlit(" processes matching ");
    reveal_strlit(" ");
    text::what_is_put_in_is_found(front, "\""@ + filter + "\""@, back);
    assert(" processes matching \""@ =~= front + "\""@);
    assert("\" "@ =~= "\""@ + back);
    if filter.len() > 0 {
        assert(panel_title(filter) =~= front + ("\""@ + filter + "\""@) + back);
    }
}

/// A table has one row for every process the filter lets through, and each shows one:
/// its pid stands in the first cell.
pub proof fn a_table_has_a_row_for_each(table: Table, state: SystemState, view: Asked, i: usize)
    requires
        is_table(table, state, view),
        i < state.processes@.len(),
        passes(state.processes@[i as int], view.filter@),
    ensures
        exists|k: int|
            0 <= k < table.rows@.len() && #[trigger] shown(table.rows@[k].cells@)[0].0
                == text::decimal(state.processes@[i as int].pid as nat),
{
    let order = choose|order: Seq<usize>|
        {
            &&& #[trigger] rows_show(table.rows@, order, state, view.background)
            &&& is_visible(order, state.processes@, view.sort, view.descending, view.filter@)
        };
    a_process_is_shown_if_it_passes(
        order,
        state.processes@,
        view.sort,
        view.descending,
        view.filter@,
        i,
    );
    let k = choose|k: int| 0 <= k < order.len() && order[k] == i;
    lemma_row_of(table.rows@, order, state, view.background, k);
}

proof fn lemma_row_of(
    rows: Seq<Row>,
    order: Seq<usize>,
    state: SystemState,
    background: Background,
    k: int,
)
    requires
        rows_show(rows, order, state, background),
        0 <= k < order.len(),
    ensures
        k < rows.len(),
        shown(rows[k].cells@)[0].0 == text::decimal(state.processes@[order[k] as int].pid as nat),
{
    assert(shown(rows[k].cells@) == row_cells(
        state.processes@[order[k] as int],
        state.memory_total_bytes,
    ));
}

/// Every title fits its column with the arrow behind it, and one column, that of the
/// program, takes what the others leave.
pub proof fn every_title_fits_its_column(i: int)
    requires
        0 <= i < column_list().len(),
    ensures
        column_list()[i].1 matches Width::Length(n) ==> column_list()[i].0.len() + 2 <= n,
        column_list()[i].1 is Fill <==> column_list()[i].0 == "Program"@,
{
    reveal_strlit("Pid");
    reveal_strlit("User");
    reveal_strlit("Program");
    reveal_strlit("Cpu%");
    reveal_strlit("Mem");
    reveal_strlit("IO Wait");
    assert("IO Wait"@[0] == 'I' && "Program"@[0] == 'P');
    assert("Program"@.len() == 7 && "Pid"@.len() == 3 && "Mem"@.len() == 3);
    assert("User"@.len() == 4 && "Cpu%"@.len() == 4);
}

/// Figures stand at the right of their column and names at the left of theirs.
pub proof fn figures_stand_right_and_names_left(i: int)
    requires
        0 <= i < column_list().len(),
    ensures
        column_list().len() == 6,
        i == 1 || i == 2 ==> column_list()[i].2 == Alignment::Left,
        i != 1 && i != 2 ==> column_list()[i].2 == Alignment::Right,
        column_list()[1].0 == "User"@ && column_list()[2].0 == "Program"@,
{
}

/// A table has a header cell for every column, in its alignment, and the first that is
/// in it is the column's title.
pub proof fn a_table_has_a_header_for_each(table: Table, state: SystemState, view: Asked, i: int)
    requires
        is_table(table, state, view),
        0 <= i < 6,
    ensures
        table.header@.len() == 6,
        text::begins(table.header@[i].text@, column_list()[i].0),
        table.header@[i].align == column_list()[i].2,
        table.header@[i].style == (Style { fg: Some(Color::Cyan), bold: true, reversed: false }),
        table.title@ == panel_title(view.filter@),
{
    assert(column_list().len() == 6);
    let cell = table.header@[i];
    assert(cell@ == (
        column_title(i, view.sort, view.descending),
        column_list()[i].2,
        theme::header_style(),
    ));
    let title = column_list()[i].0;
    text::a_text_begins_with_its_front(title, " ▾"@, title);
    text::a_text_begins_with_its_front(title, " ▴"@, title);
    text::a_text_begins_with_its_front(title, Seq::empty(), title);
    assert(title + Seq::<char>::empty() =~= title);
}

} // verus!
