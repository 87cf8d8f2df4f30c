//! The terminal's background, resolved once before the alternate screen is
//! entered: the query writes an OSC sequence and reads the reply off the same
//! stdin the renderer polls, so asking later would race the event loop.

use terminal_colorsaurus::{theme_mode, QueryOptions, ThemeMode};
use vstd::prelude::*;

use crate::ui::theme::Background;

verus! {

/// The background to draw for.
pub open spec fn settled(requested: Option<Background>, answer: Option<Background>) -> Background {
    match (requested, answer) {
        (Some(background), _) => background,
        (None, Some(background)) => background,
        (None, None) => Background::Dark,
    }
}

/// `requested` when the operator named one, else what the terminal answered.
/// Dark when it did not: tmux does not forward the query, and a pipe or a dumb
/// terminal has nothing to answer with.
pub fn resolve_with(requested: Option<Background>, answer: Option<Background>) -> (out: Background)
    ensures
        out == match (requested, answer) {
            (Some(background), _) => background,
            (None, Some(background)) => background,
            (None, None) => Background::Dark,
        },
        out == settled(requested, answer),
{
    match requested {
        Some(background) => background,
        None => match answer {
            Some(background) => background,
            None => Background::Dark,
        },
    }
}

/// `requested` when the operator named one; else the terminal is asked, and its
/// answer settled by [`resolve_with`]. A terminal's answer rests on the terminal
/// alone, so nothing is said of it here.
pub fn resolve(requested: Option<Background>) -> (out: Background)
    ensures
        requested matches Some(background) ==> out == background,
{
    match requested {
        Some(background) => background,
        None => resolve_with(None, detect()),
    }
}

/// `terminal_colorsaurus::theme_mode` asks the terminal whether it is dark or
/// light, and fails where nothing answers. What comes back depends on the
/// terminal, so the contract promises nothing of it.
#[verifier::external_body]
fn detect() -> (out: Option<Background>)
{
    match theme_mode(QueryOptions::default()) {
        Ok(ThemeMode::Light) => Some(Background::Light),
        Ok(ThemeMode::Dark) => Some(Background::Dark),
        Err(_) => None,
    }
}

// ── Laws ─────────────────────────────────────────────────────────────────────

/// The operator has the first word, the terminal the second, and where neither speaks
/// it is dark.
pub proof fn the_operator_is_heard_first(named: Background, answer: Option<Background>)
    ensures
        settled(Some(named), answer) == named,
        settled(None, Some(named)) == named,
        settled(None, None) == Background::Dark,
{
}

} // verus!
