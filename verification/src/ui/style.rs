//! Styled text, as plain values.

use vstd::prelude::*;

verus! {

/// The colours the renderer uses. All but the RGB ones come from the terminal's
/// own palette.
#[derive(Clone, Copy, Debug, PartialEq, Eq, Structural)]
pub enum Color {
    Reset,
    Cyan,
    DarkGray,
    Green,
    Yellow,
    Red,
    Indexed(u8),
    Rgb(u8, u8, u8),
}

/// How a piece of text is drawn. `None` leaves the colour as it is.
#[derive(Clone, Copy, Debug, PartialEq, Eq, Structural)]
pub struct Style {
    pub fg: Option<Color>,
    pub bold: bool,
    pub reversed: bool,
}

impl Style {
    /// The style that changes nothing.
    pub open spec fn plain() -> Style {
        Style { fg: None, bold: false, reversed: false }
    }

    /// A foreground colour and nothing else.
    pub open spec fn coloured(colour: Color) -> Style {
        Style { fg: Some(colour), ..Style::plain() }
    }

    /// The style that changes nothing.
    pub fn new() -> (out: Style)
        ensures
            out == Style::plain(),
    {
        Style { fg: None, bold: false, reversed: false }
    }

    /// `self` with another foreground colour.
    pub fn fg(self, colour: Color) -> (out: Style)
        ensures
            out == (Style { fg: Some(colour), ..self }),
    {
        Style { fg: Some(colour), ..self }
    }

    /// `self` in bold.
    pub fn bold(self) -> (out: Style)
        ensures
            out == (Style { bold: true, ..self }),
    {
        Style { bold: true, ..self }
    }

    /// `self` with foreground and background exchanged.
    pub fn reversed(self) -> (out: Style)
        ensures
            out == (Style { reversed: true, ..self }),
    {
        Style { reversed: true, ..self }
    }
}

/// Where text stands in the space it is given.
#[derive(Clone, Copy, Debug, PartialEq, Eq, Structural)]
pub enum Alignment {
    Left,
    Center,
    Right,
}

/// A piece of text drawn in one style.
#[derive(Debug)]
pub struct Span {
    pub text: String,
    pub style: Style,
}

impl View for Span {
    type V = (Seq<char>, Style);

    open spec fn view(&self) -> (Seq<char>, Style) {
        (self.text@, self.style)
    }
}

/// What a run of spans shows.
pub open spec fn shown(spans: Seq<Span>) -> Seq<(Seq<char>, Style)> {
    spans.map_values(|span: Span| span@)
}

/// Append `text` in `style`.
pub fn push_span(out: &mut Vec<Span>, text: String, style: Style)
    ensures
        shown(final(out)@) == shown(old(out)@).push((text@, style)),
{
    out.push(Span { text, style });
    assert(shown(out@) == shown(old(out)@).push((text@, style)));
}

/// Append `text` as it is.
pub fn push_text(out: &mut Vec<Span>, text: &str, style: Style)
    ensures
        shown(final(out)@) == shown(old(out)@).push((text@, style)),
{
    push_span(out, text.to_owned(), style);
}

// ── Laws ─────────────────────────────────────────────────────────────────────

/// The plain style changes nothing, and a coloured one the colour alone.
pub proof fn a_colour_changes_the_colour_alone(colour: Color)
    ensures
        Style::plain() == (Style { fg: None, bold: false, reversed: false }),
        Style::coloured(colour) == (Style { fg: Some(colour), bold: false, reversed: false }),
{
}

} // verus!
