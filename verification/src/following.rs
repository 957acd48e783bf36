//! The list of followed channels: moving the selection and acting on keys.

use vstd::prelude::*;

verus! {

/// A channel the user follows.
#[derive(Debug, Clone, PartialEq, Eq)]
pub struct Following {
    pub broadcaster_id: String,
    pub broadcaster_login: String,
    pub broadcaster_name: String,
    pub followed_at: String,
}

/// The channels the user follows.
#[derive(Debug, Clone, PartialEq, Eq)]
pub struct FollowingList {
    pub total: u64,
    pub data: Vec<Following>,
}

/// A key the user pressed.
#[derive(Debug, Clone, Copy, PartialEq, Eq, Structural)]
pub enum Key {
    Char(char),
    Ctrl(char),
    Esc,
    Enter,
    ScrollUp,
    ScrollDown,
    Other,
}

/// Something that happened in the terminal.
#[derive(Debug, Clone, Copy, PartialEq, Eq, Structural)]
pub enum Event {
    Input(Key),
    Other,
}

/// What the chat connection is asked to do.
#[derive(Debug, Clone, PartialEq, Eq)]
pub enum TwitchAction {
    Join(String),
}

/// What the terminal is asked to do.
#[derive(Debug, Clone, PartialEq, Eq)]
pub enum TerminalAction {
    Quit,
    BackOneLayer,
    Enter(TwitchAction),
}

/// The selection after moving down a list of `len` entries: the first entry
/// when none was selected, else the next one, stopping at the last.
pub open spec fn next_selection(selected: Option<usize>, len: nat) -> Option<usize> {
    match selected {
        Some(i) => if i >= len - 1 {
            Some((len - 1) as usize)
        } else {
            Some((i + 1) as usize)
        },
        None => Some(0),
    }
}

/// The selection after moving up: the first entry when none was selected,
/// else the previous one, stopping at the first.
pub open spec fn previous_selection(selected: Option<usize>) -> Option<usize> {
    match selected {
        Some(i) => if i == 0 {
            Some(0)
        } else {
            Some((i - 1) as usize)
        },
        None => Some(0),
    }
}

/// The followed channels shown as a selectable, focusable list.
#[derive(Debug, Clone)]
pub struct FollowingWidget {
    focused: bool,
    following: FollowingList,
    selected: Option<usize>,
}

impl FollowingWidget {
    /// Whether the widget has focus.
    pub closed spec fn focus(&self) -> bool {
        self.focused
    }

    /// The selected entry, if any.
    pub closed spec fn selection(&self) -> Option<usize> {
        self.selected
    }

    /// The list shown, its total count included.
    pub closed spec fn list(&self) -> FollowingList {
        self.following
    }

    /// The channels listed.
    pub open spec fn channels(&self) -> Seq<Following> {
        self.list().data@
    }

    /// An unfocused list of `following` with nothing selected.
    pub fn new(following: FollowingList) -> (w: Self)
        ensures
            !w.focus(),
            w.selection() is None,
            w.list() == following,
    {
        FollowingWidget { focused: false, following, selected: None }
    }

    /// Moves the selection down (see `next_selection`).
    pub fn next(&mut self)
        requires
            old(self).selection() is Some ==> old(self).channels().len() > 0,
        ensures
            final(self).selection() == next_selection(
                old(self).selection(),
                old(self).channels().len(),
            ),
            final(self).focus() == old(self).focus(),
            final(self).list() == old(self).list(),
    {
        let len = self.following.data.len();
        let i = match self.selected {
            Some(i) => {
                if i >= len - 1 {
                    len - 1
                } else {
                    i + 1
                }
            },
            None => 0,
        };
        self.selected = Some(i);
    }

    /// Moves the selection up (see `previous_selection`).
    pub fn previous(&mut self)
        ensures
            final(self).selection() == previous_selection(old(self).selection()),
            final(self).focus() == old(self).focus(),
            final(self).list() == old(self).list(),
    {
        let i = match self.selected {
            Some(i) => {
                if i == 0 {
                    0
                } else {
                    i - 1
                }
            },
            None => 0,
        };
        self.selected = Some(i);
    }

    /// Clears the selection.
    pub fn unselect(&mut self)
        ensures
            final(self).selection() is None,
            final(self).focus() == old(self).focus(),
            final(self).list() == old(self).list(),
    {
        self.selected = None;
    }

    /// Whether the widget has focus.
    pub fn is_focused(&self) -> (b: bool)
        ensures
            b == self.focus(),
    {
        self.focused
    }

    /// Gives focus away, or takes it.
    pub fn toggle_focus(&mut self)
        ensures
            final(self).focus() == !old(self).focus(),
            final(self).selection() == old(self).selection(),
            final(self).list() == old(self).list(),
    {
        self.focused = !self.focused;
    }

    /// The selected entry, if any.
    pub fn selected(&self) -> (s: Option<usize>)
        ensures
            s == self.selection(),
    {
        self.selected
    }

    /// The channels listed.
    pub fn following(&self) -> (f: &FollowingList)
        ensures
            *f == self.list(),
    {
        &self.following
    }

    /// The position shown under the list: the selected entry counted from
    /// one (one when nothing is selected), and the number of entries.
    pub fn position(&self) -> (p: (usize, usize))
        requires
            self.selection() matches Some(i) ==> i < usize::MAX,
        ensures
            p.0 == match self.selection() {
                Some(i) => i + 1,
                None => 1,
            },
            p.1 == self.channels().len(),
    {
        let shown = match self.selected {
            Some(i) => i + 1,
            None => 1,
        };
        (shown, self.following.data.len())
    }

    /// Acts on a key: `q` quits; Esc clears the selection, gives focus away
    /// and goes back one layer; scrolling moves the selection; Enter on a
    /// selected channel clears the selection, gives focus away and joins the
    /// channel by its login. Other events do nothing.
    pub fn event(&mut self, event: &Event) -> (action: Option<TerminalAction>)
        requires
            *event != Event::Input(Key::Ctrl('p')),
            *event == Event::Input(Key::ScrollDown) && old(self).selection() is Some ==> old(self).channels().len() > 0,
            *event == Event::Input(Key::Enter) ==> (old(self).selection() matches Some(i) ==> i
                < old(self).channels().len()),
        ensures
            final(self).list() == old(self).list(),
            match *event {
                Event::Input(Key::Char('q')) => action == Some(TerminalAction::Quit)
                    && final(self).selection() == old(self).selection()
                    && final(self).focus() == old(self).focus(),
                Event::Input(Key::Esc) => action == Some(TerminalAction::BackOneLayer)
                    && final(self).selection() is None && final(self).focus() == !old(self).focus(),
                Event::Input(Key::ScrollDown) => action is None && final(self).selection()
                    == next_selection(old(self).selection(), old(self).channels().len())
                    && final(self).focus() == old(self).focus(),
                Event::Input(Key::ScrollUp) => action is None && final(self).selection()
                    == previous_selection(old(self).selection()) && final(self).focus() == old(self).focus(),
                Event::Input(Key::Enter) => match old(self).selection() {
                    Some(i) => action matches Some(TerminalAction::Enter(TwitchAction::Join(c)))
                        && c@ == old(self).channels()[i as int].broadcaster_login@
                        && final(self).selection() is None && final(self).focus() == !old(self).focus(),
                    None => action is None && final(self).selection() is None && final(self).focus() == old(self).focus(),
                },
                _ => action is None && final(self).selection() == old(self).selection()
                    && final(self).focus() == old(self).focus(),
            },
    {
        match event {
            Event::Input(key) => {
                match key {
                    Key::Char(c) => {
                        if *c == 'q' {
                            return Some(TerminalAction::Quit);
                        }
                    },
                    Key::Esc => {
                        self.unselect();
                        self.toggle_focus();
                        return Some(TerminalAction::BackOneLayer);
                    },
                    Key::ScrollDown => self.next(),
                    Key::ScrollUp => self.previous(),
                    Key::Enter => {
                        if let Some(i) = self.selected {
                            self.toggle_focus();
                            self.unselect();
                            let channel = self.following.data[i].broadcaster_login.clone();
                            return Some(TerminalAction::Enter(TwitchAction::Join(channel)));
                        }
                    },
                    _ => {},
                }
            },
            Event::Other => {},
        }
        None
    }
}

/// Moving down from any entry, or from no selection, never leaves a
/// non-empty list.
pub proof fn lemma_next_stays_in_list(selected: Option<usize>, len: nat)
    requires
        0 < len <= usize::MAX,
        selected matches Some(i) ==> i < len,
    ensures
        next_selection(selected, len) matches Some(j) && j < len,
{
}

/// Moving up never leaves a list that holds the current selection.
pub proof fn lemma_previous_stays_in_list(selected: Option<usize>, len: nat)
    requires
        0 < len,
        selected matches Some(i) ==> i < len,
    ensures
        previous_selection(selected) matches Some(j) && j < len,
{
}

/// Moving down and then up returns to an entry that is not the last.
pub proof fn lemma_next_then_previous(i: usize, len: nat)
    requires
        i + 1 < len <= usize::MAX,
    ensures
        previous_selection(next_selection(Some(i), len)) == Some(i),
{
}

/// Moving up and then down returns to an entry that is not the first.
pub proof fn lemma_previous_then_next(i: usize, len: nat)
    requires
        0 < i < len,
    ensures
        next_selection(previous_selection(Some(i)), len) == Some(i),
{
}

/// The last entry stays selected when moving down, the first when moving up.
pub proof fn lemma_selection_stops_at_ends(len: nat)
    requires
        0 < len <= usize::MAX,
    ensures
        next_selection(Some((len - 1) as usize), len) == Some((len - 1) as usize),
        previous_selection(Some(0)) == Some(0usize),
{
}

} // verus!
