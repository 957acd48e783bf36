//! Plain-value model of terminal colours and styles, and of styled text spans.

use vstd::prelude::*;

verus! {

/// A terminal colour.
#[derive(Debug, Clone, Copy, PartialEq, Eq, Structural)]
pub enum Color {
    Reset,
    Black,
    Red,
    Green,
    Yellow,
    Blue,
    Magenta,
    Cyan,
    Gray,
    DarkGray,
    LightRed,
    LightGreen,
    LightYellow,
    LightBlue,
    LightMagenta,
    LightCyan,
    White,
    Rgb(u8, u8, u8),
    Indexed(u8),
}

/// A set of text modifiers, one bit each.
#[derive(Debug, Clone, Copy, PartialEq, Eq, Structural)]
pub struct Modifier {
    pub bits: u16,
}

impl Modifier {
    /// No modifier.
    pub fn empty() -> (m: Modifier)
        ensures
            m.bits == 0,
    {
        Modifier { bits: 0 }
    }

    /// Bold text.
    pub fn bold() -> (m: Modifier)
        ensures
            m.bits == 1,
    {
        Modifier { bits: 1 }
    }
}

/// Colours and modifiers applied to a piece of text; `None` leaves the
/// terminal's current value in place.
#[derive(Debug, Clone, Copy, PartialEq, Eq, Structural)]
pub struct Style {
    pub fg: Option<Color>,
    pub bg: Option<Color>,
    pub underline_color: Option<Color>,
    pub add_modifier: Modifier,
    pub sub_modifier: Modifier,
}

/// The style that changes nothing.
pub open spec fn plain_style() -> Style {
    Style {
        fg: None,
        bg: None,
        underline_color: None,
        add_modifier: Modifier { bits: 0 },
        sub_modifier: Modifier { bits: 0 },
    }
}

/// `s` with foreground `c`.
pub open spec fn with_fg(s: Style, c: Color) -> Style {
    Style { fg: Some(c), ..s }
}

/// `s` with underline colour `c`.
pub open spec fn with_underline(s: Style, c: Color) -> Style {
    Style { underline_color: Some(c), ..s }
}

/// `s` with the modifiers `m` switched on.
pub open spec fn with_modifier(s: Style, m: Modifier) -> Style {
    Style {
        add_modifier: Modifier { bits: s.add_modifier.bits | m.bits },
        sub_modifier: Modifier { bits: s.sub_modifier.bits & !m.bits },
        ..s
    }
}

impl Style {
    /// The style that changes nothing.
    pub fn new() -> (s: Style)
        ensures
            s == plain_style(),
    {
        Style {
            fg: None,
            bg: None,
            underline_color: None,
            add_modifier: Modifier::empty(),
            sub_modifier: Modifier::empty(),
        }
    }

    /// This style with foreground `color`.
    pub fn fg(self, color: Color) -> (s: Style)
        ensures
            s == with_fg(self, color),
    {
        Style { fg: Some(color), ..self }
    }

    /// This style with background `color`.
    pub fn bg(self, color: Color) -> (s: Style)
        ensures
            s == (Style { bg: Some(color), ..self }),
    {
        Style { bg: Some(color), ..self }
    }

    /// This style with underline colour `color`.
    pub fn underline_color(self, color: Color) -> (s: Style)
        ensures
            s == with_underline(self, color),
    {
        Style { underline_color: Some(color), ..self }
    }

    /// This style with the modifiers `m` switched on (and no longer switched off).
    pub fn add_modifier(self, m: Modifier) -> (s: Style)
        ensures
            s == with_modifier(self, m),
    {
        Style {
            add_modifier: Modifier { bits: self.add_modifier.bits | m.bits },
            sub_modifier: Modifier { bits: self.sub_modifier.bits & !m.bits },
            ..self
        }
    }
}

impl Default for Style {
    fn default() -> (s: Style)
        ensures
            s == plain_style(),
    {
        Style::new()
    }
}

/// A piece of text drawn in one style.
#[derive(Debug, Clone, PartialEq, Eq)]
pub struct Span {
    pub content: String,
    pub style: Style,
}

impl View for Span {
    type V = (Seq<char>, Style);

    open spec fn view(&self) -> (Seq<char>, Style) {
        (self.content@, self.style)
    }
}

/// The views of a sequence of spans.
pub open spec fn spans_view(v: Seq<Span>) -> Seq<(Seq<char>, Style)> {
    v.map_values(|s: Span| s@)
}

impl Span {
    /// `content` in the plain style.
    pub fn raw(content: &str) -> (s: Span)
        ensures
            s@ == (content@, plain_style()),
    {
        Span { content: content.to_owned(), style: Style::new() }
    }

    /// `content` in `style`.
    pub fn styled(content: &str, style: Style) -> (s: Span)
        ensures
            s@ == (content@, style),
    {
        Span { content: content.to_owned(), style }
    }
}

/// One row of text on screen.
#[derive(Debug, Clone, PartialEq, Eq)]
pub struct Line {
    pub spans: Vec<Span>,
}

impl View for Line {
    type V = Seq<(Seq<char>, Style)>;

    open spec fn view(&self) -> Seq<(Seq<char>, Style)> {
        spans_view(self.spans@)
    }
}

/// The views of a sequence of rows.
pub open spec fn lines_view(v: Seq<Line>) -> Seq<Seq<(Seq<char>, Style)>> {
    v.map_values(|l: Line| l@)
}

} // verus!
