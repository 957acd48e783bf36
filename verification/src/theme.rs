//! Frontend settings that shape a message's rows, and the styles they pick.

use vstd::prelude::*;

use crate::style::{Color, Modifier, Style, plain_style, with_fg, with_modifier};

verus! {

/// Light or dark terminal background.
#[derive(Debug, Clone, Copy, PartialEq, Eq, Structural)]
pub enum Theme {
    Dark,
    Light,
}

/// Colour family for user names.
#[derive(Debug, Clone, Copy, PartialEq, Eq, Structural)]
pub enum Palette {
    Pastel,
    Vibrant,
    Warm,
    Cool,
}

/// The settings that decide how messages are laid out.
#[derive(Debug, Clone, PartialEq, Eq)]
pub struct FrontendConfig {
    pub show_datetimes: bool,
    pub datetime_format: String,
    pub username_shown: bool,
    pub right_align_usernames: bool,
    pub margin: u16,
    pub theme: Theme,
    pub palette: Palette,
}

/// Style of a highlighted user name.
pub open spec fn name_highlight_style(theme: Theme) -> Style {
    match theme {
        Theme::Dark => with_modifier(
            Style { bg: Some(Color::LightBlue), ..with_fg(plain_style(), Color::Black) },
            Modifier { bits: 1 },
        ),
        Theme::Light => with_modifier(
            Style { bg: Some(Color::Blue), ..with_fg(plain_style(), Color::White) },
            Modifier { bits: 1 },
        ),
    }
}

/// Style of the time a message was sent.
pub open spec fn datetime_style(theme: Theme) -> Style {
    match theme {
        Theme::Dark => with_fg(plain_style(), Color::Rgb(173, 173, 184)),
        Theme::Light => with_fg(plain_style(), Color::Rgb(62, 62, 72)),
    }
}

/// Style of the author of a system message.
pub open spec fn system_chat_style() -> Style {
    with_modifier(with_fg(plain_style(), Color::Red), Modifier { bits: 1 })
}

/// Style of a fuzzy search match.
pub open spec fn search_style() -> Style {
    with_modifier(with_fg(plain_style(), Color::Red), Modifier { bits: 1 })
}

/// Style of a highlighted user name.
pub fn highlight_name(theme: Theme) -> (s: Style)
    ensures
        s == name_highlight_style(theme),
{
    match theme {
        Theme::Dark => Style::new().fg(Color::Black).bg(Color::LightBlue).add_modifier(
            Modifier::bold(),
        ),
        Theme::Light => Style::new().fg(Color::White).bg(Color::Blue).add_modifier(
            Modifier::bold(),
        ),
    }
}

/// Style of the time a message was sent.
pub fn datetime(theme: Theme) -> (s: Style)
    ensures
        s == datetime_style(theme),
{
    match theme {
        Theme::Dark => Style::new().fg(Color::Rgb(173, 173, 184)),
        Theme::Light => Style::new().fg(Color::Rgb(62, 62, 72)),
    }
}

/// Style of the author of a system message.
pub fn system_chat() -> (s: Style)
    ensures
        s == system_chat_style(),
{
    Style::new().fg(Color::Red).add_modifier(Modifier::bold())
}

/// Style of a fuzzy search match.
pub fn search() -> (s: Style)
    ensures
        s == search_style(),
{
    Style::new().fg(Color::Red).add_modifier(Modifier::bold())
}

} // verus!
