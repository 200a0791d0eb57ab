//! What a key press means, by what has the input.

use vstd::prelude::*;
use crate::app::panes::{Pane, Screen};
use crate::app::session_view::Scroll;

verus! {

/// A key of the terminal.
#[derive(Debug, Clone, Copy, PartialEq, Eq, Structural)]
pub enum Key {
    Char(char),
    Enter,
    Esc,
    Backspace,
    Left,
    Right,
    Up,
    Down,
    Home,
    End,
    PageUp,
    PageDown,
    F(u8),
    Other,
}

/// What is open over the screens.
#[derive(Debug, Clone, Copy, PartialEq, Eq, Structural)]
pub enum Overlay {
    Nothing,
    Help,
    Prompt,
    Selector,
    Search,
    Confirm,
}

/// Who gets a key press.
#[derive(Debug, Clone, Copy, PartialEq, Eq, Structural)]
pub enum InputOwner {
    /// A message, which any key dismisses.
    Message,
    Prompt,
    Selector,
    Search,
    Confirm,
    Help,
    Screen(Screen),
}

/// Who gets a key press: a message before everything else, then the dialog that
/// is open, then the screen.
pub open spec fn owner(message: bool, overlay: Overlay, screen: Screen) -> InputOwner {
    if message {
        InputOwner::Message
    } else {
        match overlay {
            Overlay::Prompt => InputOwner::Prompt,
            Overlay::Selector => InputOwner::Selector,
            Overlay::Search => InputOwner::Search,
            Overlay::Confirm => InputOwner::Confirm,
            Overlay::Help => InputOwner::Help,
            Overlay::Nothing => InputOwner::Screen(screen),
        }
    }
}

/// Who gets a key press.
pub fn input_owner(message: bool, overlay: Overlay, screen: Screen) -> (r: InputOwner)
    ensures
        r == owner(message, overlay, screen),
{
    if message {
        return InputOwner::Message;
    }
    match overlay {
        Overlay::Prompt => InputOwner::Prompt,
        Overlay::Selector => InputOwner::Selector,
        Overlay::Search => InputOwner::Search,
        Overlay::Confirm => InputOwner::Confirm,
        Overlay::Help => InputOwner::Help,
        Overlay::Nothing => InputOwner::Screen(screen),
    }
}

/// Whether a key closes the help.
pub fn closes_help(key: Key) -> (r: bool)
    ensures
        r == (key == Key::Char('?') || key == Key::Esc || key == Key::Char('q')),
{
    match key {
        Key::Char(c) => c == '?' || c == 'q',
        Key::Esc => true,
        _ => false,
    }
}

/// What the browser does on a key.
#[derive(Debug, Clone, Copy, PartialEq, Eq, Structural)]
pub enum BrowserAction {
    Quit,
    Help,
    Search,
    Sessions,
    CopyCommand,
    NextSort,
    NextView,
    Start,
    Chat,
    Benchmark,
    Edit,
    Enter,
    Back,
    Down,
    Up,
    First,
    Last,
    Least,
    Greatest,
    Increase,
    Decrease,
    Favorite,
    NewProfile,
    RenameProfile,
    DuplicateProfile,
    Download,
    ResetOption,
    DeleteProfile,
    Refresh,
    Nothing,
}

/// What the browser's keys depend on.
#[derive(Debug, Clone, Copy, PartialEq, Eq, Structural)]
pub struct BrowserFacts {
    pub focus: Pane,
    /// Whether the live tree of the Hub is shown.
    pub online: bool,
    /// How many arrangements the catalog has.
    pub views: usize,
    /// Whether the selection can be downloaded.
    pub download: bool,
}

/// What the browser does on a letter or sign.
pub open spec fn browser_char(c: char, f: BrowserFacts) -> BrowserAction {
    if c == 'q' {
        BrowserAction::Quit
    } else if c == '?' {
        BrowserAction::Help
    } else if c == '/' {
        BrowserAction::Search
    } else if c == 't' {
        BrowserAction::Sessions
    } else if c == 'y' {
        BrowserAction::CopyCommand
    } else if c == 's' {
        if f.focus == Pane::Model && f.online {
            BrowserAction::NextSort
        } else if f.focus == Pane::Model && f.views > 1 {
            BrowserAction::NextView
        } else {
            BrowserAction::Start
        }
    } else if c == 'C' {
        BrowserAction::Chat
    } else if c == 'b' {
        BrowserAction::Benchmark
    } else if c == 'l' {
        BrowserAction::Enter
    } else if c == 'h' {
        BrowserAction::Back
    } else if c == 'j' {
        BrowserAction::Down
    } else if c == 'k' {
        BrowserAction::Up
    } else if c == 'g' {
        BrowserAction::First
    } else if c == 'G' {
        BrowserAction::Last
    } else if c == '+' || c == '=' || c == ']' {
        BrowserAction::Increase
    } else if c == '-' || c == '[' {
        BrowserAction::Decrease
    } else if c == 'e' {
        BrowserAction::Edit
    } else if c == 'f' {
        BrowserAction::Favorite
    } else if c == 'a' {
        BrowserAction::NewProfile
    } else if c == 'r' {
        BrowserAction::RenameProfile
    } else if c == 'D' {
        BrowserAction::DuplicateProfile
    } else if c == 'd' {
        if f.focus == Pane::Model && f.download {
            BrowserAction::Download
        } else if f.focus == Pane::Options {
            BrowserAction::ResetOption
        } else {
            BrowserAction::DeleteProfile
        }
    } else {
        BrowserAction::Nothing
    }
}

/// What the browser does on a key. On options, `Enter` edits and `Home` and `End`
/// go to the least and the greatest value; everywhere else they move.
pub open spec fn browser_does(key: Key, f: BrowserFacts) -> BrowserAction {
    match key {
        Key::Char(c) => browser_char(c, f),
        Key::Enter => if f.focus == Pane::Options {
            BrowserAction::Edit
        } else {
            BrowserAction::Enter
        },
        Key::Right => BrowserAction::Enter,
        Key::Left => BrowserAction::Back,
        Key::Down => BrowserAction::Down,
        Key::Up => BrowserAction::Up,
        Key::Home => if f.focus == Pane::Options {
            BrowserAction::Least
        } else {
            BrowserAction::First
        },
        Key::End => if f.focus == Pane::Options {
            BrowserAction::Greatest
        } else {
            BrowserAction::Last
        },
        Key::F(n) => if n == 5 {
            BrowserAction::Refresh
        } else {
            BrowserAction::Nothing
        },
        _ => BrowserAction::Nothing,
    }
}

fn on_browser_char(c: char, f: &BrowserFacts) -> (r: BrowserAction)
    ensures
        r == browser_char(c, *f),
{
    match c {
        'q' => BrowserAction::Quit,
        '?' => BrowserAction::Help,
        '/' => BrowserAction::Search,
        't' => BrowserAction::Sessions,
        'y' => BrowserAction::CopyCommand,
        's' => if f.focus == Pane::Model && f.online {
            BrowserAction::NextSort
        } else if f.focus == Pane::Model && f.views > 1 {
            BrowserAction::NextView
        } else {
            BrowserAction::Start
        },
        'C' => BrowserAction::Chat,
        'b' => BrowserAction::Benchmark,
        'l' => BrowserAction::Enter,
        'h' => BrowserAction::Back,
        'j' => BrowserAction::Down,
        'k' => BrowserAction::Up,
        'g' => BrowserAction::First,
        'G' => BrowserAction::Last,
        '+' | '=' | ']' => BrowserAction::Increase,
        '-' | '[' => BrowserAction::Decrease,
        'e' => BrowserAction::Edit,
        'f' => BrowserAction::Favorite,
        'a' => BrowserAction::NewProfile,
        'r' => BrowserAction::RenameProfile,
        'D' => BrowserAction::DuplicateProfile,
        'd' => if f.focus == Pane::Model && f.download {
            BrowserAction::Download
        } else if f.focus == Pane::Options {
            BrowserAction::ResetOption
        } else {
            BrowserAction::DeleteProfile
        },
        _ => BrowserAction::Nothing,
    }
}

/// What the browser does on a key.
pub fn on_key_browser(key: Key, f: &BrowserFacts) -> (r: BrowserAction)
    ensures
        r == browser_does(key, *f),
{
    match key {
        Key::Char(c) => on_browser_char(c, f),
        Key::Enter => if f.focus == Pane::Options {
            BrowserAction::Edit
        } else {
            BrowserAction::Enter
        },
        Key::Right => BrowserAction::Enter,
        Key::Left => BrowserAction::Back,
        Key::Down => BrowserAction::Down,
        Key::Up => BrowserAction::Up,
        Key::Home => if f.focus == Pane::Options {
            BrowserAction::Least
        } else {
            BrowserAction::First
        },
        Key::End => if f.focus == Pane::Options {
            BrowserAction::Greatest
        } else {
            BrowserAction::Last
        },
        Key::F(n) => if n == 5 {
            BrowserAction::Refresh
        } else {
            BrowserAction::Nothing
        },
        _ => BrowserAction::Nothing,
    }
}

/// What the list of jobs does on a key.
#[derive(Debug, Clone, Copy, PartialEq, Eq, Structural)]
pub enum SessionsAction {
    Quit,
    Help,
    Close,
    Down,
    Up,
    First,
    Last,
    Stop,
    Kill,
    Restart,
    Remove,
    CopyEndpoint,
    CopyCommand,
    Logs,
    Refresh,
    Nothing,
}

/// What the list of jobs does on a key.
pub open spec fn sessions_does(key: Key) -> SessionsAction {
    match key {
        Key::Char(c) => if c == 'q' {
            SessionsAction::Quit
        } else if c == '?' {
            SessionsAction::Help
        } else if c == 't' {
            SessionsAction::Close
        } else if c == 'j' {
            SessionsAction::Down
        } else if c == 'k' {
            SessionsAction::Up
        } else if c == 'g' {
            SessionsAction::First
        } else if c == 'G' {
            SessionsAction::Last
        } else if c == 'x' {
            SessionsAction::Stop
        } else if c == 'K' {
            SessionsAction::Kill
        } else if c == 'R' {
            SessionsAction::Restart
        } else if c == 'd' {
            SessionsAction::Remove
        } else if c == 'c' {
            SessionsAction::CopyEndpoint
        } else if c == 'y' {
            SessionsAction::CopyCommand
        } else if c == 'L' || c == 'l' {
            SessionsAction::Logs
        } else {
            SessionsAction::Nothing
        },
        Key::Esc => SessionsAction::Close,
        Key::Down => SessionsAction::Down,
        Key::Up => SessionsAction::Up,
        Key::Home => SessionsAction::First,
        Key::End => SessionsAction::Last,
        Key::Right => SessionsAction::Logs,
        Key::Enter => SessionsAction::Logs,
        Key::F(n) => if n == 5 {
            SessionsAction::Refresh
        } else {
            SessionsAction::Nothing
        },
        _ => SessionsAction::Nothing,
    }
}

/// What the list of jobs does on a key.
pub fn on_key_sessions(key: Key) -> (r: SessionsAction)
    ensures
        r == sessions_does(key),
{
    match key {
        Key::Char(c) => match c {
            'q' => SessionsAction::Quit,
            '?' => SessionsAction::Help,
            't' => SessionsAction::Close,
            'j' => SessionsAction::Down,
            'k' => SessionsAction::Up,
            'g' => SessionsAction::First,
            'G' => SessionsAction::Last,
            'x' => SessionsAction::Stop,
            'K' => SessionsAction::Kill,
            'R' => SessionsAction::Restart,
            'd' => SessionsAction::Remove,
            'c' => SessionsAction::CopyEndpoint,
            'y' => SessionsAction::CopyCommand,
            'L' | 'l' => SessionsAction::Logs,
            _ => SessionsAction::Nothing,
        },
        Key::Esc => SessionsAction::Close,
        Key::Down => SessionsAction::Down,
        Key::Up => SessionsAction::Up,
        Key::Home => SessionsAction::First,
        Key::End => SessionsAction::Last,
        Key::Right => SessionsAction::Logs,
        Key::Enter => SessionsAction::Logs,
        Key::F(n) => if n == 5 {
            SessionsAction::Refresh
        } else {
            SessionsAction::Nothing
        },
        _ => SessionsAction::Nothing,
    }
}

/// What the log view does on a key.
#[derive(Debug, Clone, Copy, PartialEq, Eq, Structural)]
pub enum LogAction {
    Quit,
    Close,
    Scroll(Scroll),
    Reload,
    Nothing,
}

/// What the log view does on a key: lines by one, pages by ten.
pub open spec fn log_does(key: Key) -> LogAction {
    match key {
        Key::Char(c) => if c == 'q' {
            LogAction::Quit
        } else if c == 'L' || c == 'h' {
            LogAction::Close
        } else if c == 'j' {
            LogAction::Scroll(Scroll::Down(1))
        } else if c == 'k' {
            LogAction::Scroll(Scroll::Up(1))
        } else if c == 'g' {
            LogAction::Scroll(Scroll::Top)
        } else if c == 'G' {
            LogAction::Scroll(Scroll::Bottom)
        } else {
            LogAction::Nothing
        },
        Key::Esc => LogAction::Close,
        Key::Left => LogAction::Close,
        Key::Down => LogAction::Scroll(Scroll::Down(1)),
        Key::Up => LogAction::Scroll(Scroll::Up(1)),
        Key::PageDown => LogAction::Scroll(Scroll::Down(10)),
        Key::PageUp => LogAction::Scroll(Scroll::Up(10)),
        Key::Home => LogAction::Scroll(Scroll::Top),
        Key::End => LogAction::Scroll(Scroll::Bottom),
        Key::F(n) => if n == 5 {
            LogAction::Reload
        } else {
            LogAction::Nothing
        },
        _ => LogAction::Nothing,
    }
}

/// What the log view does on a key.
pub fn on_key_logs(key: Key) -> (r: LogAction)
    ensures
        r == log_does(key),
{
    match key {
        Key::Char(c) => match c {
            'q' => LogAction::Quit,
            'L' | 'h' => LogAction::Close,
            'j' => LogAction::Scroll(Scroll::Down(1)),
            'k' => LogAction::Scroll(Scroll::Up(1)),
            'g' => LogAction::Scroll(Scroll::Top),
            'G' => LogAction::Scroll(Scroll::Bottom),
            _ => LogAction::Nothing,
        },
        Key::Esc => LogAction::Close,
        Key::Left => LogAction::Close,
        Key::Down => LogAction::Scroll(Scroll::Down(1)),
        Key::Up => LogAction::Scroll(Scroll::Up(1)),
        Key::PageDown => LogAction::Scroll(Scroll::Down(10)),
        Key::PageUp => LogAction::Scroll(Scroll::Up(10)),
        Key::Home => LogAction::Scroll(Scroll::Top),
        Key::End => LogAction::Scroll(Scroll::Bottom),
        Key::F(n) => if n == 5 {
            LogAction::Reload
        } else {
            LogAction::Nothing
        },
        _ => LogAction::Nothing,
    }
}

/// While a message or a dialog is open, no key reaches the screen behind it.
pub proof fn law_dialogs_keep_keys_from_the_screen(message: bool, overlay: Overlay, screen: Screen)
    ensures
        owner(message, overlay, screen) is Screen <==> !message && overlay is Nothing,
{
}

/// Only on the options do keys change an option's value by going to an end or by
/// going back to its default.
pub proof fn law_options_are_changed_from_their_pane(key: Key, f: BrowserFacts)
    ensures
        browser_does(key, f) == BrowserAction::ResetOption || browser_does(key, f)
            == BrowserAction::Least || browser_does(key, f) == BrowserAction::Greatest ==> f.focus
            == Pane::Options,
        browser_does(key, f) == BrowserAction::Download ==> f.focus == Pane::Model && f.download,
{
}

/// In the browser each key does what the help says of it, whatever is shown.
pub proof fn law_browser_keys_do_what_the_help_says(f: BrowserFacts)
    ensures
        browser_does(Key::Char('j'), f) == BrowserAction::Down && browser_does(Key::Down, f)
            == BrowserAction::Down,
        browser_does(Key::Char('k'), f) == BrowserAction::Up && browser_does(Key::Up, f)
            == BrowserAction::Up,
        browser_does(Key::Char('l'), f) == BrowserAction::Enter && browser_does(Key::Right, f)
            == BrowserAction::Enter,
        browser_does(Key::Char('h'), f) == BrowserAction::Back && browser_does(Key::Left, f)
            == BrowserAction::Back,
        browser_does(Key::Char('g'), f) == BrowserAction::First && browser_does(Key::Char('G'), f)
            == BrowserAction::Last,
        browser_does(Key::Char('/'), f) == BrowserAction::Search,
        browser_does(Key::Char('a'), f) == BrowserAction::NewProfile,
        browser_does(Key::Char('r'), f) == BrowserAction::RenameProfile,
        browser_does(Key::Char('D'), f) == BrowserAction::DuplicateProfile,
        browser_does(Key::Char('f'), f) == BrowserAction::Favorite,
        browser_does(Key::Char('e'), f) == BrowserAction::Edit,
        browser_does(Key::Char('+'), f) == BrowserAction::Increase && browser_does(
            Key::Char(']'),
            f,
        ) == BrowserAction::Increase,
        browser_does(Key::Char('-'), f) == BrowserAction::Decrease && browser_does(
            Key::Char('['),
            f,
        ) == BrowserAction::Decrease,
        browser_does(Key::Char('C'), f) == BrowserAction::Chat,
        browser_does(Key::Char('b'), f) == BrowserAction::Benchmark,
        browser_does(Key::Char('y'), f) == BrowserAction::CopyCommand,
        browser_does(Key::Char('t'), f) == BrowserAction::Sessions,
        browser_does(Key::F(5), f) == BrowserAction::Refresh,
        browser_does(Key::Char('?'), f) == BrowserAction::Help,
        browser_does(Key::Char('q'), f) == BrowserAction::Quit,
{
}

/// Some keys do what the pane is for: on profiles and options `s` starts a server, and
/// on models it sorts or arranges them; `d` downloads a model, resets an option and
/// deletes a profile; `Home` and `End` go to the ends of a list, or of an option's
/// values.
pub proof fn law_keys_follow_the_pane(f: BrowserFacts)
    ensures
        f.focus != Pane::Model ==> browser_does(Key::Char('s'), f) == BrowserAction::Start,
        f.focus == Pane::Model && f.online ==> browser_does(Key::Char('s'), f)
            == BrowserAction::NextSort,
        f.focus == Pane::Model && !f.online && f.views > 1 ==> browser_does(Key::Char('s'), f)
            == BrowserAction::NextView,
        f.focus == Pane::Profile ==> browser_does(Key::Char('d'), f)
            == BrowserAction::DeleteProfile,
        f.focus == Pane::Options ==> browser_does(Key::Char('d'), f) == BrowserAction::ResetOption,
        f.focus == Pane::Model && f.download ==> browser_does(Key::Char('d'), f)
            == BrowserAction::Download,
        f.focus == Pane::Options ==> browser_does(Key::Home, f) == BrowserAction::Least
            && browser_does(Key::End, f) == BrowserAction::Greatest && browser_does(Key::Enter, f)
            == BrowserAction::Edit,
        f.focus != Pane::Options ==> browser_does(Key::Home, f) == BrowserAction::First
            && browser_does(Key::End, f) == BrowserAction::Last && browser_does(Key::Enter, f)
            == BrowserAction::Enter,
{
}

/// Among the jobs and in a log each key does what the help says of it, and a key that
/// the help does not name does nothing there.
pub proof fn law_job_keys_do_what_the_help_says(c: char)
    ensures
        sessions_does(Key::Char('x')) == SessionsAction::Stop,
        sessions_does(Key::Char('K')) == SessionsAction::Kill,
        sessions_does(Key::Char('R')) == SessionsAction::Restart,
        sessions_does(Key::Char('L')) == SessionsAction::Logs,
        sessions_does(Key::Char('c')) == SessionsAction::CopyEndpoint,
        sessions_does(Key::Char('d')) == SessionsAction::Remove,
        sessions_does(Key::Char('y')) == SessionsAction::CopyCommand,
        sessions_does(Key::Char('j')) == SessionsAction::Down && sessions_does(Key::Char('k'))
            == SessionsAction::Up,
        sessions_does(Key::Char('g')) == SessionsAction::First && sessions_does(Key::Char('G'))
            == SessionsAction::Last,
        sessions_does(Key::Char('t')) == SessionsAction::Close && sessions_does(Key::Esc)
            == SessionsAction::Close,
        sessions_does(Key::F(5)) == SessionsAction::Refresh,
        sessions_does(Key::Char(c)) == SessionsAction::Kill ==> c == 'K',
        sessions_does(Key::Char(c)) == SessionsAction::Stop ==> c == 'x',
        sessions_does(Key::Char(c)) == SessionsAction::Remove ==> c == 'd',
        log_does(Key::Char('j')) == LogAction::Scroll(Scroll::Down(1)),
        log_does(Key::Char('k')) == LogAction::Scroll(Scroll::Up(1)),
        log_does(Key::PageDown) == LogAction::Scroll(Scroll::Down(10)),
        log_does(Key::PageUp) == LogAction::Scroll(Scroll::Up(10)),
        log_does(Key::Char('g')) == LogAction::Scroll(Scroll::Top),
        log_does(Key::Char('G')) == LogAction::Scroll(Scroll::Bottom),
        log_does(Key::Esc) == LogAction::Close && log_does(Key::F(5)) == LogAction::Reload,
{
}

} // verus!
