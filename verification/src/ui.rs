//! The monitoring view's state and the texts it shows: key handling, tab
//! cycling, scrolling, and the labels of events.

use vstd::prelude::*;
use vstd::string::*;

use crate::text::{decimal, decimal_string, join_first, joined};

verus! {

/// How many tabs the view has (events, statistics, domains).
pub const TAB_COUNT: usize = 3;

/// A key press, as the view understands it.
#[derive(Clone, Copy, Debug, PartialEq, Eq)]
pub enum Key {
    Quit,
    ToggleHelp,
    TogglePause,
    NextTab,
    ScrollUp,
    ScrollDown,
    ScrollTop,
    ClearEvents,
    Other,
}

/// The view's meaning of a typed character.
pub open spec fn char_key(c: char) -> Key {
    if c == 'q' {
        Key::Quit
    } else if c == '?' {
        Key::ToggleHelp
    } else if c == ' ' || c == 'p' {
        Key::TogglePause
    } else if c == 'k' {
        Key::ScrollUp
    } else if c == 'j' {
        Key::ScrollDown
    } else if c == 'g' {
        Key::ScrollTop
    } else if c == 'c' {
        Key::ClearEvents
    } else {
        Key::Other
    }
}

/// The view's meaning of a typed character.
pub fn key_for_char(c: char) -> (r: Key)
    ensures
        r == char_key(c),
{
    if c == 'q' {
        Key::Quit
    } else if c == '?' {
        Key::ToggleHelp
    } else if c == ' ' || c == 'p' {
        Key::TogglePause
    } else if c == 'k' {
        Key::ScrollUp
    } else if c == 'j' {
        Key::ScrollDown
    } else if c == 'g' {
        Key::ScrollTop
    } else if c == 'c' {
        Key::ClearEvents
    } else {
        Key::Other
    }
}

/// What a key press asks of the program around the view.
#[derive(Clone, Copy, Debug, PartialEq, Eq)]
pub enum KeyEffect {
    /// Leave the view.
    Quit,
    /// Draw again; nothing else.
    Redraw,
    /// Monitoring is now paused (`true`) or running (`false`).
    PauseChanged(bool),
    /// Forget the recorded events.
    ClearEvents,
}

/// The state of the monitoring view.
#[derive(Clone, Copy, Debug, PartialEq, Eq)]
pub struct ViewState {
    pub scroll_state: usize,
    pub show_help: bool,
    pub paused: bool,
    pub selected_tab: usize,
}

/// The tab after `t`, cycling through `TAB_COUNT` tabs.
pub open spec fn next_tab(t: int) -> int {
    (t + 1) % (TAB_COUNT as int)
}

/// The state after a key press and what it asks of the program: `Quit`
/// leaves; help and pause toggle; `NextTab` cycles the tabs; scrolling moves
/// one line (not above the top) or to the top; `ClearEvents` returns to the
/// top and asks for the events to be forgotten; other keys change nothing.
pub open spec fn after_key(v: ViewState, key: Key) -> (ViewState, KeyEffect) {
    match key {
        Key::Quit => (v, KeyEffect::Quit),
        Key::ToggleHelp => (ViewState { show_help: !v.show_help, ..v }, KeyEffect::Redraw),
        Key::TogglePause => (ViewState { paused: !v.paused, ..v }, KeyEffect::PauseChanged(!v.paused)),
        Key::NextTab => (
            ViewState { selected_tab: next_tab(v.selected_tab as int) as usize, ..v },
            KeyEffect::Redraw,
        ),
        Key::ScrollUp => (
            ViewState {
                scroll_state: if v.scroll_state > 0 {
                    (v.scroll_state - 1) as usize
                } else {
                    0
                },
                ..v
            },
            KeyEffect::Redraw,
        ),
        Key::ScrollDown => (
            ViewState { scroll_state: (v.scroll_state + 1) as usize, ..v },
            KeyEffect::Redraw,
        ),
        Key::ScrollTop => (ViewState { scroll_state: 0, ..v }, KeyEffect::Redraw),
        Key::ClearEvents => (ViewState { scroll_state: 0, ..v }, KeyEffect::ClearEvents),
        Key::Other => (v, KeyEffect::Redraw),
    }
}

impl ViewState {
    /// The first tab, at the top, running, without help.
    pub fn new() -> (r: Self)
        ensures
            r.scroll_state == 0,
            !r.show_help,
            !r.paused,
            r.selected_tab == 0,
    {
        ViewState { scroll_state: 0, show_help: false, paused: false, selected_tab: 0 }
    }

    /// Handles one key press; see `after_key`. Key presses that would
    /// overflow a counter are left out.
    pub fn handle_key(&mut self, key: Key) -> (r: KeyEffect)
        requires
            key is NextTab ==> old(self).selected_tab < usize::MAX,
            key is ScrollDown ==> old(self).scroll_state < usize::MAX,
        ensures
            (*final(self), r) == after_key(*old(self), key),
    {
        match key {
            Key::Quit => KeyEffect::Quit,
            Key::ToggleHelp => {
                self.show_help = !self.show_help;
                KeyEffect::Redraw
            },
            Key::TogglePause => {
                self.paused = !self.paused;
                KeyEffect::PauseChanged(self.paused)
            },
            Key::NextTab => {
                self.selected_tab = (self.selected_tab + 1) % TAB_COUNT;
                KeyEffect::Redraw
            },
            Key::ScrollUp => {
                if self.scroll_state > 0 {
                    self.scroll_state = self.scroll_state - 1;
                }
                KeyEffect::Redraw
            },
            Key::ScrollDown => {
                self.scroll_state = self.scroll_state + 1;
                KeyEffect::Redraw
            },
            Key::ScrollTop => {
                self.scroll_state = 0;
                KeyEffect::Redraw
            },
            Key::ClearEvents => {
                self.scroll_state = 0;
                KeyEffect::ClearEvents
            },
            Key::Other => KeyEffect::Redraw,
        }
    }
}

/// The state after a key event and what it asks of the program: a press is
/// handled as `after_key` says; any other event (a release or a repeat)
/// changes nothing.
pub open spec fn after_event(v: ViewState, key: Key, pressed: bool) -> (ViewState, KeyEffect) {
    if pressed {
        after_key(v, key)
    } else {
        (v, KeyEffect::Redraw)
    }
}

impl ViewState {
    /// Handles one key event; see `after_event`. Presses that would overflow
    /// a counter are left out, as in `handle_key`.
    pub fn handle_event(&mut self, key: Key, pressed: bool) -> (r: KeyEffect)
        requires
            pressed && key is NextTab ==> old(self).selected_tab < usize::MAX,
            pressed && key is ScrollDown ==> old(self).scroll_state < usize::MAX,
        ensures
            (*final(self), r) == after_event(*old(self), key, pressed),
    {
        if pressed {
            self.handle_key(key)
        } else {
            KeyEffect::Redraw
        }
    }
}

/// Every key press keeps the selected tab among the tabs: `NextTab` moves to
/// the next one, and every other key leaves it where it is.
pub proof fn lemma_keys_keep_tab(v: ViewState, key: Key)
    requires
        v.selected_tab < TAB_COUNT,
    ensures
        after_key(v, key).0.selected_tab < TAB_COUNT,
        key is NextTab ==> after_key(v, key).0.selected_tab == next_tab(v.selected_tab as int),
        !(key is NextTab) ==> after_key(v, key).0.selected_tab == v.selected_tab,
{
}

/// Three `NextTab` presses return to the tab they started from.
pub proof fn lemma_three_tabs_return(v: ViewState)
    requires
        v.selected_tab < TAB_COUNT,
    ensures
        after_key(after_key(after_key(v, Key::NextTab).0, Key::NextTab).0, Key::NextTab).0.selected_tab
            == v.selected_tab,
{
}

/// Only `TogglePause` changes whether the view is paused; it flips it and
/// hands the new value to the program (which passes it to the watcher), and
/// no other key asks for that. Only `ToggleHelp` changes whether help shows.
pub proof fn lemma_pause_and_help(v: ViewState, key: Key)
    ensures
        (after_key(v, key).0.paused != v.paused) <==> key is TogglePause,
        key is TogglePause ==> after_key(v, key).1 == KeyEffect::PauseChanged(
            after_key(v, key).0.paused,
        ),
        after_key(v, key).1 is PauseChanged ==> key is TogglePause,
        (after_key(v, key).0.show_help != v.show_help) <==> key is ToggleHelp,
{
}

/// A key event that is not a press changes nothing.
pub proof fn lemma_non_press_changes_nothing(v: ViewState, key: Key)
    ensures
        after_event(v, key, false) == (v, KeyEffect::Redraw),
{
}

/// Cycling through the tabs always lands on a tab, and `TAB_COUNT` steps
/// from a tab return to it.
pub proof fn lemma_tabs_cycle(t: int)
    requires
        0 <= t < TAB_COUNT,
    ensures
        0 <= next_tab(t) < TAB_COUNT,
        next_tab(next_tab(next_tab(t))) == t,
{
}

/// Toggling help, or pause, twice leaves the view as it was.
pub proof fn lemma_toggles_undo(v: ViewState)
    ensures
        after_key(after_key(v, Key::ToggleHelp).0, Key::ToggleHelp).0 == v,
        after_key(after_key(v, Key::TogglePause).0, Key::TogglePause).0 == v,
{
}

/// How old an event is, in whole seconds below a minute, whole minutes below
/// an hour, and whole hours beyond.
pub open spec fn age_text(secs: nat) -> Seq<char> {
    if secs < 60 {
        decimal(secs) + "s"@
    } else if secs < 3600 {
        decimal(secs / 60) + "m"@
    } else {
        decimal(secs / 3600) + "h"@
    }
}

/// How old an event is, in whole seconds below a minute, whole minutes below
/// an hour, and whole hours beyond.
pub fn age_label(secs: u64) -> (r: String)
    ensures
        r@ == age_text(secs as nat),
{
    let (n, unit) = if secs < 60 {
        (secs, "s")
    } else if secs < 3600 {
        (secs / 60, "m")
    } else {
        (secs / 3600, "h")
    };
    let mut out = decimal_string(n);
    out.append(unit);
    out
}

/// The removed parameters as the event list shows them: all of them joined
/// with commas when there are at most three, else the first three and how
/// many more.
pub open spec fn removed_summary_text(removed: Seq<Seq<char>>) -> Seq<char> {
    if removed.len() <= 3 {
        joined(removed, ", "@)
    } else {
        joined(removed.take(3), ", "@) + ", +"@ + decimal((removed.len() - 3) as nat) + " more"@
    }
}

/// The removed parameters as the event list shows them.
pub fn removed_summary(removed: &Vec<String>) -> (r: String)
    ensures
        r@ == removed_summary_text(removed.deep_view()),
{
    let n = removed.len();
    if n <= 3 {
        proof {
            assert(removed.deep_view().take(n as int) =~= removed.deep_view());
        }
        join_first(removed, n, ", ")
    } else {
        let mut out = join_first(removed, 3, ", ");
        out.append(", +");
        let more = decimal_string((n - 3) as u64);
        out.append(more.as_str());
        out.append(" more");
        out
    }
}

/// The removed parameters as the compact event list shows them: `No
/// params`, a count of them beyond three, or all of them after a dash.
pub open spec fn removed_label_text(removed: Seq<Seq<char>>) -> Seq<char> {
    if removed.len() == 0 {
        "No params"@
    } else if removed.len() > 3 {
        "-"@ + decimal(removed.len()) + " params"@
    } else {
        "-"@ + joined(removed, ", "@)
    }
}

/// The removed parameters as the compact event list shows them.
pub fn removed_label(removed: &Vec<String>) -> (r: String)
    ensures
        r@ == removed_label_text(removed.deep_view()),
{
    let n = removed.len();
    if n == 0 {
        "No params".to_owned()
    } else if n > 3 {
        let mut out = "-".to_owned();
        let count = decimal_string(n as u64);
        out.append(count.as_str());
        out.append(" params");
        out
    } else {
        let mut out = "-".to_owned();
        let all = join_first(removed, n, ", ");
        proof {
            assert(removed.deep_view().take(n as int) =~= removed.deep_view());
        }
        out.append(all.as_str());
        out
    }
}

/// A list of up to three removed names is shown whole, the names joined by
/// `, `; a longer list is shown as the summary of its first three names
/// followed by how many more there are (at least one).
pub proof fn lemma_removed_summary_shape(removed: Seq<Seq<char>>)
    ensures
        removed.len() <= 3 ==> removed_summary_text(removed) == joined(removed, ", "@),
        removed.len() > 3 ==> removed.len() - 3 >= 1 && removed_summary_text(removed)
            == removed_summary_text(removed.take(3)) + ", +"@ + decimal((removed.len() - 3) as nat)
            + " more"@,
{
    if removed.len() > 3 {
        assert(removed.take(3).take(3) =~= removed.take(3));
    }
}

} // verus!
