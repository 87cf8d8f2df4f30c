//! The event loop's decisions: when a newer snapshot is taken up, what an event
//! does, and when a frame is drawn. It only redraws when the snapshot or the input
//! changes - an idle truetop costs nothing.

use vstd::prelude::*;

use crate::ui::app;
use crate::ui::app::{App, Key};
use crate::ui::theme::Background;

verus! {

/// What a key does. Some terminals report only that it goes down.
#[derive(Clone, Copy, Debug, PartialEq, Eq, Structural)]
pub enum KeyKind {
    Press,
    Repeat,
    Release,
}

/// The terminal events that are told apart.
#[derive(Clone, Copy, Debug, PartialEq, Eq, Structural)]
pub enum Event {
    /// Something happens to a key. It counts when it goes down, not when it is held or
    /// let go.
    Key(Key, KeyKind),
    Resize,
    Other,
}

/// What one turn of the loop calls for.
#[derive(Clone, Copy, Debug, PartialEq, Eq, Structural)]
pub struct Turn {
    /// Draw a frame.
    pub draw: bool,
    /// Leave the loop, once that is done.
    pub quit: bool,
}

/// The loop's own state.
#[derive(Debug)]
pub struct Session {
    pub app: App,
    /// Something has changed since the last frame.
    pub redraw: bool,
}

/// [`Session`] over mathematical values.
#[verifier::ext_equal]
pub ghost struct Loop {
    pub app: app::AppState,
    pub redraw: bool,
}

impl View for Session {
    type V = Loop;

    open spec fn view(&self) -> Loop {
        Loop { app: self.app@, redraw: self.redraw }
    }
}

impl Loop {
    /// After one turn: `fresh` says that a newer snapshot has been taken up.
    pub open spec fn turned(self, fresh: bool, event: Option<Event>) -> Loop {
        Loop {
            app: match event {
                Some(Event::Key(key, KeyKind::Press)) => self.app.pressed(key),
                _ => self.app,
            },
            redraw: false,
        }
    }

    /// What that turn calls for.
    pub open spec fn turn(self, fresh: bool, event: Option<Event>) -> Turn {
        Turn {
            draw: self.redraw || fresh || match event {
                Some(Event::Key(_, KeyKind::Press)) => true,
                Some(Event::Resize) => true,
                _ => false,
            },
            quit: match event {
                Some(Event::Key(key, KeyKind::Press)) => self.app.quits(key),
                _ => false,
            },
        }
    }
}

impl Loop {
    /// A newer snapshot is to be taken up.
    pub open spec fn wants(self) -> bool {
        !self.app.paused
    }

    /// Before the first frame.
    pub open spec fn begun(background: Background) -> Loop {
        Loop { app: app::AppState::initial(background), redraw: true }
    }
}

impl Session {
    /// Before the first frame, which is drawn whatever comes.
    pub fn new(background: Background) -> (out: Session)
        ensures
            out@ == (Loop { app: app::AppState::initial(background), redraw: true }),
            out@ == Loop::begun(background),
    {
        Session { app: App::new(background), redraw: true }
    }

    /// Whether a newer snapshot is to be taken up: not while paused.
    pub fn wants_snapshot(&self) -> (r: bool)
        ensures
            r == !self@.app.paused,
            r == self@.wants(),
    {
        !self.app.paused
    }

    /// One turn of the loop: a newer snapshot may have been taken up, and an event
    /// may have come.
    pub fn turn(&mut self, fresh: bool, event: Option<Event>) -> (out: Turn)
        ensures
            final(self)@ == old(self)@.turned(fresh, event),
            out == old(self)@.turn(fresh, event),
    {
        if fresh {
            self.redraw = true;
        }
        let mut quit = false;
        match event {
            Some(Event::Key(key, KeyKind::Press)) => {
                quit = self.app.handle_key(key);
                self.redraw = true;
            },
            Some(Event::Resize) => self.redraw = true,
            _ => {},
        }
        let draw = self.redraw;
        self.redraw = false;
        Turn { draw, quit }
    }
}

// ── Laws ─────────────────────────────────────────────────────────────────────

/// Once a frame is drawn, nothing is drawn again until a snapshot is taken up, a
/// key goes down or the terminal is resized.
pub proof fn an_idle_loop_draws_nothing(state: Loop, fresh: bool, event: Option<Event>)
    ensures
        ({
            let after = state.turned(fresh, event);
            &&& !after.turn(false, None).draw
            &&& !after.turn(false, Some(Event::Other)).draw
            &&& forall|key: Key| !(#[trigger] after.turn(
                false,
                Some(Event::Key(key, KeyKind::Release)),
            )).draw
            &&& after.turned(false, None) == after
            &&& forall|key: Key| (#[trigger] after.turn(false, Some(Event::Key(key, KeyKind::Press)))).draw
            &&& after.turn(true, None).draw
            &&& after.turn(false, Some(Event::Resize)).draw
        }),
{
}

/// Only a key that goes down is heard: one that is held or let go changes nothing and
/// neither quits nor draws, and no other event changes the view or quits.
pub proof fn only_a_pressed_key_is_heard(state: Loop, fresh: bool, key: Key)
    ensures
        state.turned(fresh, Some(Event::Key(key, KeyKind::Press))).app == state.app.pressed(key),
        state.turn(fresh, Some(Event::Key(key, KeyKind::Press))).quit == state.app.quits(key),
        state.turned(fresh, Some(Event::Key(key, KeyKind::Repeat))).app == state.app,
        state.turned(fresh, Some(Event::Key(key, KeyKind::Release))).app == state.app,
        !state.turn(fresh, Some(Event::Key(key, KeyKind::Repeat))).quit,
        !state.turn(fresh, Some(Event::Key(key, KeyKind::Release))).quit,
        state.turn(fresh, Some(Event::Key(key, KeyKind::Repeat))).draw == (state.redraw || fresh),
        state.turned(fresh, Some(Event::Resize)).app == state.app,
        state.turned(fresh, Some(Event::Other)).app == state.app,
        state.turned(fresh, None).app == state.app,
        !state.turn(fresh, Some(Event::Resize)).quit,
        !state.turn(fresh, Some(Event::Other)).quit,
        !state.turn(fresh, None).quit,
{
}

/// The first frame is drawn whatever comes, and a paused view takes up no snapshot until
/// the space bar lets it go on.
pub proof fn a_paused_view_takes_nothing_up(state: Loop, background: Background)
    ensures
        Loop::begun(background).turn(false, None).draw,
        Loop::begun(background).wants(),
        state.app.paused ==> !state.wants(),
        !state.app.editing_filter ==> state.turned(
            false,
            Some(Event::Key(Key::Char(' '), KeyKind::Press)),
        ).wants() == !state.wants(),
{
}

} // verus!
