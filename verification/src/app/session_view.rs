//! The list of jobs and the log viewer: what is selected and how far the log is
//! scrolled.

use vstd::prelude::*;
use crate::app::panes;
use crate::app::panes::{moved, nearest, ListState};

verus! {

/// What the side pane of the job list shows.
#[derive(Debug, Clone, Copy, PartialEq, Eq, Structural)]
pub enum SessionPane {
    Detail,
    Logs,
}

/// The state of the job list and the log viewer.
#[derive(Debug)]
pub struct SessionViewState {
    pub pane: SessionPane,
    pub detail_pane_visible: bool,
    pub selection: ListState,
    pub log_lines: Vec<String>,
    /// Whether the view stays at the end of the log.
    pub log_follow: bool,
    /// The first line shown, where it does not.
    pub log_scroll: u16,
}

impl Default for SessionViewState {
    fn default() -> (r: Self)
        ensures
            r.pane == SessionPane::Detail,
            r.detail_pane_visible,
            r.selection.cursor is None,
            r.log_lines@.len() == 0,
            r.log_follow,
            r.log_scroll == 0,
    {
        SessionViewState {
            pane: SessionPane::Detail,
            detail_pane_visible: true,
            selection: ListState::new(),
            log_lines: Vec::new(),
            log_follow: true,
            log_scroll: 0,
        }
    }
}

/// A change of the log's position.
#[derive(Debug, Clone, Copy, PartialEq, Eq, Structural)]
pub enum Scroll {
    Down(u16),
    Up(u16),
    Top,
    Bottom,
}

/// The first line after a change of position; it stays in what can be counted.
pub open spec fn scrolled(at: u16, by: Scroll) -> u16 {
    match by {
        Scroll::Down(n) => if at + n > u16::MAX {
            u16::MAX
        } else {
            (at + n) as u16
        },
        Scroll::Up(n) => if at < n {
            0
        } else {
            (at - n) as u16
        },
        Scroll::Top => 0,
        Scroll::Bottom => at,
    }
}

impl SessionViewState {
    /// Everything but the selection is the same.
    pub open spec fn same_but_selection(self, other: Self) -> bool {
        &&& self.pane == other.pane
        &&& self.detail_pane_visible == other.detail_pane_visible
        &&& self.log_lines == other.log_lines
        &&& self.log_follow == other.log_follow
        &&& self.log_scroll == other.log_scroll
    }

    /// Selects the first of `count` jobs.
    pub fn select_first(&mut self, count: usize)
        ensures
            final(self).selection.cursor == panes::at_top(count as int),
            final(self).same_but_selection(*old(self)),
    {
        self.selection.select(
            if count == 0 {
                None
            } else {
                Some(0)
            },
        );
    }

    /// Selects the last of `count` jobs.
    pub fn select_last(&mut self, count: usize)
        ensures
            final(self).selection.cursor == (if count == 0 {
                None
            } else {
                Some((count - 1) as usize)
            }),
            final(self).same_but_selection(*old(self)),
    {
        self.selection.select(
            if count == 0 {
                None
            } else {
                Some(count - 1)
            },
        );
    }

    /// Keeps the selection among `count` jobs.
    pub fn sync_selection(&mut self, count: usize)
        ensures
            final(self).selection.cursor == nearest(old(self).selection.cursor, count as int),
            final(self).same_but_selection(*old(self)),
    {
        if count == 0 {
            self.selection.select(None);
            return;
        }
        let at: usize = match self.selection.selected() {
            Some(i) => i,
            None => 0,
        };
        self.selection.select(
            Some(
                if at < count {
                    at
                } else {
                    count - 1
                },
            ),
        );
    }

    /// Moves the selection among `count` jobs; it stops at both ends.
    pub fn move_selection(&mut self, delta: isize, count: usize)
        ensures
            final(self).selection.cursor == (if count == 0 {
                None
            } else {
                Some(moved(old(self).selection.cursor, delta as int, count as int) as usize)
            }),
            final(self).same_but_selection(*old(self)),
    {
        if count == 0 {
            self.selection.select(None);
            return;
        }
        let to = panes::step(self.selection.selected(), delta, count);
        self.selection.select(Some(to));
    }

    /// Scrolls the log. Every way but to the bottom stops following its end.
    pub fn scroll(&mut self, by: Scroll)
        ensures
            final(self).log_scroll == scrolled(old(self).log_scroll, by),
            final(self).log_follow == (by is Bottom),
            final(self).selection == old(self).selection,
            final(self).pane == old(self).pane,
            final(self).detail_pane_visible == old(self).detail_pane_visible,
            final(self).log_lines == old(self).log_lines,
    {
        match by {
            Scroll::Down(n) => {
                self.log_follow = false;
                self.log_scroll = if self.log_scroll > u16::MAX - n {
                    u16::MAX
                } else {
                    self.log_scroll + n
                };
            },
            Scroll::Up(n) => {
                self.log_follow = false;
                self.log_scroll = if self.log_scroll < n {
                    0
                } else {
                    self.log_scroll - n
                };
            },
            Scroll::Top => {
                self.log_follow = false;
                self.log_scroll = 0;
            },
            Scroll::Bottom => {
                self.log_follow = true;
            },
        }
    }

    /// Shows a log from its end.
    pub fn show_log(&mut self, lines: Vec<String>)
        ensures
            final(self).log_lines == lines,
            final(self).log_follow,
            final(self).log_scroll == 0,
            final(self).selection == old(self).selection,
            final(self).pane == old(self).pane,
            final(self).detail_pane_visible == old(self).detail_pane_visible,
    {
        self.log_lines = lines;
        self.log_follow = true;
        self.log_scroll = 0;
    }
}

/// Whatever was selected, after the list of jobs changed the selection is one of
/// its jobs, and nothing is selected exactly where there is no job.
pub proof fn law_selection_follows_the_list(cursor: Option<usize>, count: int)
    requires
        0 <= count <= usize::MAX,
    ensures
        nearest(cursor, count) is None <==> count == 0,
        nearest(cursor, count) is Some ==> nearest(cursor, count)->0 < count,
        nearest(nearest(cursor, count), count) == nearest(cursor, count),
{
}

/// Scrolling up takes back what scrolling down moved, and both stop at the ends.
pub proof fn law_scrolling_back_returns(at: u16, n: u16)
    requires
        at + n <= u16::MAX,
    ensures
        scrolled(scrolled(at, Scroll::Down(n)), Scroll::Up(n)) == at,
        scrolled(at, Scroll::Down(n)) == at + n,
        scrolled(at, Scroll::Top) == 0,
{
}

} // verus!
