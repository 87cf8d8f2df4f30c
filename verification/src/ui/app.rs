//! The renderer's view state, and what keys do to it. None of it reaches the
//! collector.

use vstd::prelude::*;

use crate::ui::table::{COL_CPU, COL_IO, COL_MEM};
use crate::ui::theme::Background;

verus! {

/// The column the rows are ranked by.
#[derive(Clone, Copy, Debug, PartialEq, Eq, Structural)]
pub enum Sort {
    Cpu,
    Mem,
    Io,
}

impl Sort {
    /// Where the column stands in the table.
    pub open spec fn at(self) -> usize {
        match self {
            Sort::Cpu => COL_CPU,
            Sort::Mem => COL_MEM,
            Sort::Io => COL_IO,
        }
    }

    /// Where the column stands in the table.
    pub fn column(self) -> (out: usize)
        ensures
            out == self.at(),
    {
        match self {
            Sort::Cpu => COL_CPU,
            Sort::Mem => COL_MEM,
            Sort::Io => COL_IO,
        }
    }
}

/// The keys that are told apart.
#[derive(Clone, Copy, Debug, PartialEq, Eq, Structural)]
pub enum Key {
    Char(char),
    Esc,
    Enter,
    Backspace,
    Up,
    Down,
    PageUp,
    PageDown,
    Home,
    End,
    Other,
}

/// Renderer-owned view state.
#[derive(Debug)]
pub struct App {
    pub background: Background,
    /// The row under the cursor.
    pub selected: Option<usize>,
    pub sort: Sort,
    pub descending: bool,
    pub filter: String,
    pub editing_filter: bool,
    pub paused: bool,
    /// Rows the last draw produced, and the height of one page of them.
    pub rows: usize,
    pub page: usize,
}

/// [`App`] over a mathematical text.
#[verifier::ext_equal]
pub ghost struct AppState {
    pub background: Background,
    pub selected: Option<usize>,
    pub sort: Sort,
    pub descending: bool,
    pub filter: Seq<char>,
    pub editing_filter: bool,
    pub paused: bool,
    pub rows: usize,
    pub page: usize,
}

impl View for App {
    type V = AppState;

    open spec fn view(&self) -> AppState {
        AppState {
            background: self.background,
            selected: self.selected,
            sort: self.sort,
            descending: self.descending,
            filter: self.filter@,
            editing_filter: self.editing_filter,
            paused: self.paused,
            rows: self.rows,
            page: self.page,
        }
    }
}

impl AppState {
    /// How the renderer starts.
    pub open spec fn initial(background: Background) -> AppState {
        AppState {
            background,
            selected: Some(0),
            sort: Sort::Cpu,
            descending: true,
            filter: seq![],
            editing_filter: false,
            paused: false,
            rows: 0,
            page: 10,
        }
    }

    /// With the cursor on row `index`.
    pub open spec fn selecting(self, index: int) -> AppState {
        AppState { selected: Some(index as usize), ..self }
    }

    /// The row under the cursor; the first where there is none.
    pub open spec fn current(self) -> usize {
        match self.selected {
            Some(index) => index,
            None => 0,
        }
    }

    /// The last row.
    pub open spec fn last(self) -> int {
        if self.rows > 0 {
            self.rows - 1
        } else {
            0
        }
    }

    /// Ranked by `sort`: re-pressing the active column reverses it; a new column
    /// starts descending. Either way the cursor goes to the first row.
    pub open spec fn sorted_by(self, sort: Sort) -> AppState {
        AppState {
            sort,
            descending: if self.sort == sort {
                !self.descending
            } else {
                true
            },
            ..self
        }.selecting(0)
    }

    /// After a key pressed while the filter is being edited.
    pub open spec fn edited(self, key: Key) -> AppState {
        match key {
            Key::Esc => AppState { filter: seq![], editing_filter: false, ..self }.selecting(0),
            Key::Enter => AppState { editing_filter: false, ..self }.selecting(0),
            Key::Backspace => AppState {
                filter: if self.filter.len() > 0 {
                    self.filter.drop_last()
                } else {
                    self.filter
                },
                ..self
            }.selecting(0),
            Key::Char(c) => AppState { filter: self.filter.push(c), ..self }.selecting(0),
            _ => self,
        }
    }

    /// After a key pressed otherwise.
    pub open spec fn commanded(self, key: Key) -> AppState {
        let (current, last) = (self.current() as int, self.last());
        match key {
            Key::Down | Key::Char('j') => self.selecting(
                if current >= last {
                    0
                } else {
                    current + 1
                },
            ),
            Key::Up | Key::Char('k') => self.selecting(
                if current == 0 {
                    last
                } else {
                    current - 1
                },
            ),
            Key::PageDown => self.selecting(
                if current + self.page <= last {
                    current + self.page
                } else {
                    last
                },
            ),
            Key::PageUp => self.selecting(
                if current >= self.page {
                    current - self.page
                } else {
                    0
                },
            ),
            Key::Home => self.selecting(0),
            Key::End => self.selecting(last),
            Key::Char('c') => self.sorted_by(Sort::Cpu),
            Key::Char('m') => self.sorted_by(Sort::Mem),
            Key::Char('i') => self.sorted_by(Sort::Io),
            Key::Char('/') => AppState { editing_filter: true, ..self },
            Key::Char(' ') => AppState { paused: !self.paused, ..self },
            _ => self,
        }
    }

    /// After a key.
    pub open spec fn pressed(self, key: Key) -> AppState {
        if self.editing_filter {
            self.edited(key)
        } else {
            self.commanded(key)
        }
    }

    /// The key asks to quit. While the filter is being edited none does.
    pub open spec fn quits(self, key: Key) -> bool {
        !self.editing_filter && (key == Key::Char('q') || key == Key::Esc)
    }

    /// After a frame that held `rows` rows in a table `height` lines high.
    pub open spec fn drawn(self, rows: usize, height: u16) -> AppState {
        let page = if height > 4 {
            (height - 3) as usize
        } else {
            1
        };
        let next = AppState { rows, page, ..self };
        if next.current() >= rows {
            next.selecting(next.last())
        } else {
            next
        }
    }
}

impl App {
    pub fn new(background: Background) -> (out: App)
        ensures
            out@ == AppState::initial(background),
    {
        App {
            background,
            selected: Some(0),
            sort: Sort::Cpu,
            descending: true,
            filter: String::new(),
            editing_filter: false,
            paused: false,
            rows: 0,
            page: 10,
        }
    }

    /// Apply a keypress; returns `true` if the user asked to quit.
    pub fn handle_key(&mut self, key: Key) -> (quit: bool)
        ensures
            final(self)@ == old(self)@.pressed(key),
            quit == old(self)@.quits(key),
    {
        if self.editing_filter {
            self.edit_filter(key);
            return false;
        }
        let last: usize = self.rows.saturating_sub(1);
        let current: usize = match self.selected {
            Some(index) => index,
            None => 0,
        };
        match key {
            Key::Char('q') | Key::Esc => return true,
            Key::Down | Key::Char('j') => self.select(
                if current >= last {
                    0
                } else {
                    current + 1
                },
            ),
            Key::Up | Key::Char('k') => self.select(
                if current == 0 {
                    last
                } else {
                    current - 1
                },
            ),
            Key::PageDown => {
                let next: usize = current.saturating_add(self.page);
                self.select(
                    if next <= last {
                        next
                    } else {
                        last
                    },
                )
            },
            Key::PageUp => self.select(current.saturating_sub(self.page)),
            Key::Home => self.select(0),
            Key::End => self.select(last),
            Key::Char('c') => self.set_sort(Sort::Cpu),
            Key::Char('m') => self.set_sort(Sort::Mem),
            Key::Char('i') => self.set_sort(Sort::Io),
            Key::Char('/') => self.editing_filter = true,
            Key::Char(' ') => self.paused = !self.paused,
            _ => {},
        }
        false
    }

    fn edit_filter(&mut self, key: Key)
        ensures
            final(self)@ == old(self)@.edited(key),
    {
        match key {
            Key::Esc => {
                self.filter.clear();
                self.editing_filter = false;
            },
            Key::Enter => self.editing_filter = false,
            Key::Backspace => {
                self.filter.pop();
            },
            Key::Char(c) => self.filter.push(c),
            _ => return ,
        }
        self.select(0);
    }

    fn select(&mut self, index: usize)
        ensures
            final(self)@ == old(self)@.selecting(index as int),
    {
        self.selected = Some(index);
    }

    /// Re-pressing the active column reverses it; a new column starts descending.
    pub fn set_sort(&mut self, sort: Sort)
        ensures
            final(self)@ == old(self)@.sorted_by(sort),
    {
        if self.sort == sort {
            self.descending = !self.descending;
        } else {
            self.sort = sort;
            self.descending = true;
        }
        self.select(0);
    }

    /// Take note of what a frame held: its rows, and the height of the table they
    /// are in, whose borders and header row are not selectable. A cursor past the
    /// end moves to the last row.
    pub fn note_frame(&mut self, rows: usize, height: u16)
        ensures
            final(self)@ == old(self)@.drawn(rows, height),
    {
        self.rows = rows;
        let inner: u16 = height.saturating_sub(3);
        self.page =
        if inner > 1 {
            inner as usize
        } else {
            1
        };
        let current: usize = match self.selected {
            Some(index) => index,
            None => 0,
        };
        if current >= rows {
            self.select(rows.saturating_sub(1));
        }
    }
}

// ── Laws ─────────────────────────────────────────────────────────────────────

/// After a frame the cursor is on a row of it - the first, where it has none.
pub proof fn the_cursor_stays_on_a_row(app: AppState, rows: usize, height: u16)
    ensures
        ({
            let after = app.drawn(rows, height);
            &&& rows > 0 ==> after.current() < rows
            &&& rows == 0 ==> after.current() == 0
            &&& after.page >= 1
        }),
{
}

/// No key moves a cursor that is on a row off the rows.
pub proof fn keys_keep_the_cursor_on_a_row(app: AppState, key: Key)
    requires
        app.rows > 0,
        app.current() < app.rows,
    ensures
        app.pressed(key).current() < app.rows,
{
}

/// While the filter is being edited, a character extends it whatever it would
/// otherwise command, and takes one backspace to undo.
pub proof fn editing_captures_keys(app: AppState, c: char)
    requires
        app.editing_filter,
    ensures
        app.pressed(Key::Char(c)).filter == app.filter.push(c),
        !app.quits(Key::Char(c)),
        app.pressed(Key::Char(c)).pressed(Key::Backspace).filter == app.filter,
        app.pressed(Key::Char(c)).sort == app.sort,
        app.pressed(Key::Char(c)).paused == app.paused,
{
    assert(app.filter.push(c).drop_last() == app.filter);
}

/// Pressing the active column twice leaves the order as it was.
pub proof fn reversing_twice_changes_nothing(app: AppState, sort: Sort)
    requires
        app.sort == sort,
    ensures
        app.sorted_by(sort).descending == !app.descending,
        app.sorted_by(sort).sorted_by(sort).descending == app.descending,
        app.sorted_by(sort).sorted_by(sort).sort == app.sort,
{
}

/// Stepping down and up again comes back to the same row, around the ends too.
pub proof fn down_then_up_returns(app: AppState)
    requires
        !app.editing_filter,
        app.rows > 0,
        app.current() < app.rows,
    ensures
        app.pressed(Key::Down).pressed(Key::Up).current() == app.current(),
        app.pressed(Key::Up).pressed(Key::Down).current() == app.current(),
{
}

/// Pausing twice resumes.
pub proof fn pausing_twice_resumes(app: AppState)
    requires
        !app.editing_filter,
    ensures
        app.pressed(Key::Char(' ')).paused == !app.paused,
        app.pressed(Key::Char(' ')).pressed(Key::Char(' ')) == app,
{
}

/// The sort keys rank by the column they are named after, and by no other: `c` by CPU,
/// `m` by memory, `i` by I/O wait. A new column starts with the largest on top, and its
/// own key turns it round; the cursor goes to the first row.
pub proof fn every_column_has_its_key(app: AppState)
    requires
        !app.editing_filter,
    ensures
        app.pressed(Key::Char('c')).sort == Sort::Cpu,
        app.pressed(Key::Char('m')).sort == Sort::Mem,
        app.pressed(Key::Char('i')).sort == Sort::Io,
        forall|key: Key| #[trigger]
            app.pressed(key).sort != app.sort ==> app.pressed(key).descending && app.pressed(
                key,
            ).selected == Some(0usize),
        app.sort == Sort::Cpu ==> app.pressed(Key::Char('c')).descending == !app.descending,
        app.sort == Sort::Mem ==> app.pressed(Key::Char('m')).descending == !app.descending,
        app.sort == Sort::Io ==> app.pressed(Key::Char('i')).descending == !app.descending,
        app.sort != Sort::Cpu ==> app.pressed(Key::Char('c')).descending,
        app.sort != Sort::Mem ==> app.pressed(Key::Char('m')).descending,
        app.sort != Sort::Io ==> app.pressed(Key::Char('i')).descending,
        app.pressed(Key::Char('c')).selected == Some(0usize),
        app.pressed(Key::Char('m')).selected == Some(0usize),
        app.pressed(Key::Char('i')).selected == Some(0usize),
{
}

/// A key does one thing: only the sort keys touch the order, only the space bar pauses,
/// only the slash opens the filter, and what the filter says changes while it is open
/// alone. No key touches the background or what the last frame held.
pub proof fn a_key_does_one_thing(app: AppState, key: Key)
    ensures
        ({
            let after = app.pressed(key);
            &&& after.background == app.background && after.rows == app.rows && after.page
                == app.page
            &&& (after.sort != app.sort || after.descending != app.descending)
                ==> !app.editing_filter && (key == Key::Char('c') || key == Key::Char('m') || key
                == Key::Char('i'))
            &&& after.paused != app.paused <==> !app.editing_filter && key == Key::Char(' ')
            &&& after.filter != app.filter ==> app.editing_filter
            &&& after.editing_filter && !app.editing_filter <==> !app.editing_filter && key
                == Key::Char('/')
            &&& app.editing_filter && !after.editing_filter <==> app.editing_filter && (key
                == Key::Enter || key == Key::Esc)
        }),
{
}

/// The movement keys: one row down or up, around the ends; a page down or up, as far as
/// there are rows; to the first row and to the last. `j` and `k` are the arrows.
pub proof fn the_cursor_goes_where_the_key_says(app: AppState)
    requires
        !app.editing_filter,
        app.rows > 0,
        app.current() < app.rows,
    ensures
        ({
            let (at, n, page) = (app.current() as int, app.rows as int, app.page as int);
            &&& app.pressed(Key::Down).current() == (at + 1) % n
            &&& app.pressed(Key::Up).current() == (at + n - 1) % n
            &&& app.pressed(Key::Char('j')) == app.pressed(Key::Down)
            &&& app.pressed(Key::Char('k')) == app.pressed(Key::Up)
            &&& at + page < n ==> app.pressed(Key::PageDown).current() == at + page
            &&& at + page >= n ==> app.pressed(Key::PageDown).current() == n - 1
            &&& page <= at ==> app.pressed(Key::PageUp).current() == at - page
            &&& page > at ==> app.pressed(Key::PageUp).current() == 0
            &&& app.pressed(Key::Home).current() == 0
            &&& app.pressed(Key::End).current() == n - 1
        }),
{
    let (at, n) = (app.current() as int, app.rows as int);
    if at + 1 < n {
        vstd::arithmetic::div_mod::lemma_small_mod((at + 1) as nat, n as nat);
    } else {
        vstd::arithmetic::div_mod::lemma_mod_self_0(n);
    }
    if at == 0 {
        vstd::arithmetic::div_mod::lemma_small_mod((n - 1) as nat, n as nat);
    } else {
        vstd::arithmetic::div_mod::lemma_mod_add_multiples_vanish(at - 1, n);
        vstd::arithmetic::div_mod::lemma_small_mod((at - 1) as nat, n as nat);
    }
}

/// `q` and escape quit, but not out of the filter, where escape clears it and enter
/// keeps it; no other key quits.
pub proof fn leaving_takes_a_key_for_it(app: AppState, key: Key)
    ensures
        app.quits(key) ==> key == Key::Char('q') || key == Key::Esc,
        !app.editing_filter ==> app.quits(Key::Char('q')) && app.quits(Key::Esc),
        app.editing_filter ==> !app.quits(key),
        app.editing_filter ==> app.pressed(Key::Esc).filter.len() == 0,
        app.editing_filter ==> app.pressed(Key::Enter).filter == app.filter,
        app.quits(key) ==> app.pressed(key) == app,
{
}

/// What is typed into the filter is what it says: from an empty one, the characters in
/// the order they came.
pub proof fn the_filter_says_what_was_typed(app: AppState, typed: Seq<char>)
    requires
        app.editing_filter,
    ensures
        typing(app, typed).filter == app.filter + typed,
        typing(app, typed).editing_filter,
        typing(app, typed).sort == app.sort,
        typing(app, typed).paused == app.paused,
    decreases typed.len(),
{
    if typed.len() > 0 {
        the_filter_says_what_was_typed(app, typed.drop_last());
        assert(app.filter + typed =~= (app.filter + typed.drop_last()).push(typed.last()));
    } else {
        assert(app.filter + typed =~= app.filter);
    }
}

/// The view once `typed` has been typed.
pub open spec fn typing(app: AppState, typed: Seq<char>) -> AppState
    decreases typed.len(),
{
    if typed.len() == 0 {
        app
    } else {
        typing(app, typed.drop_last()).pressed(Key::Char(typed.last()))
    }
}

/// The view opens ranked by CPU with the largest on top, on the first row, with no
/// filter, and running.
pub proof fn the_view_opens_on_the_busiest(background: Background)
    ensures
        ({
            let app = AppState::initial(background);
            &&& app.background == background
            &&& app.sort == Sort::Cpu && app.descending
            &&& app.current() == 0 && app.filter.len() == 0
            &&& !app.editing_filter && !app.paused
            &&& app.rows == 0 && app.page == 10
        }),
{
}

/// A frame leaves the cursor where it is if that row is still there, and takes note of
/// its rows and of a page: the table's lines without its two borders and its header.
pub proof fn a_frame_moves_only_a_lost_cursor(app: AppState, rows: usize, height: u16)
    ensures
        ({
            let after = app.drawn(rows, height);
            &&& after.rows == rows
            &&& height >= 4 ==> after.page == height - 3
            &&& height <= 4 ==> after.page == 1
            &&& app.current() < rows ==> after.selected == app.selected
            &&& app.current() >= rows && rows > 0 ==> after.current() == rows - 1
            &&& rows == 0 ==> after.current() == 0
            &&& after.sort == app.sort && after.descending == app.descending && after.filter
                == app.filter && after.paused == app.paused && after.editing_filter
                == app.editing_filter && after.background == app.background
        }),
{
}

/// The active column is the one whose title names it.
pub proof fn a_sort_stands_under_its_title()
    ensures
        crate::ui::table::column_list()[Sort::Cpu.at() as int].0 == "Cpu%"@,
        crate::ui::table::column_list()[Sort::Mem.at() as int].0 == "Mem"@,
        crate::ui::table::column_list()[Sort::Io.at() as int].0 == "IO Wait"@,
{
}

/// Outside of the filter only the movement and the sort keys move the cursor, and in a
/// table without rows they all leave it on the first.
pub proof fn only_movement_moves_the_cursor(app: AppState, key: Key)
    requires
        !app.editing_filter,
    ensures
        app.pressed(key).selected != app.selected ==> key == Key::Down || key == Key::Up || key
            == Key::PageDown || key == Key::PageUp || key == Key::Home || key == Key::End || key
            == Key::Char('j') || key == Key::Char('k') || key == Key::Char('c') || key == Key::Char(
            'm',
        ) || key == Key::Char('i'),
        app.rows == 0 && app.current() == 0 ==> app.pressed(key).current() == 0,
        app.selected is None ==> app.current() == 0,
{
}

/// In the filter, what can be typed is typed, backspace takes the last character back,
/// and either puts the cursor on the first row, as leaving the filter does; all other
/// keys do nothing.
pub proof fn backspace_takes_a_character_back(app: AppState, c: char)
    requires
        app.editing_filter,
    ensures
        app.pressed(Key::Char(c)).pressed(Key::Backspace).filter == app.filter,
        app.filter.len() == 0 ==> app.pressed(Key::Backspace).filter == app.filter,
        app.pressed(Key::Char(c)).current() == 0,
        app.pressed(Key::Backspace).current() == 0,
        app.pressed(Key::Enter).current() == 0,
        app.pressed(Key::Esc).current() == 0,
        app.pressed(Key::Down) == app && app.pressed(Key::Up) == app && app.pressed(Key::PageDown)
            == app && app.pressed(Key::PageUp) == app && app.pressed(Key::Home) == app
            && app.pressed(Key::End) == app,
{
    assert(app.filter.push(c).drop_last() =~= app.filter);
}

} // verus!
