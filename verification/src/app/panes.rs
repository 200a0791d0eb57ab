//! The panes of the browser and the lists in them.

use vstd::prelude::*;

verus! {

/// The screens.
#[derive(Debug, Clone, Copy, PartialEq, Eq, Structural)]
pub enum Screen {
    /// The columns of runtimes, models, profiles and options.
    Browser,
    /// The running servers and downloads.
    Sessions,
    /// The log of one server.
    Logs,
}

/// The panes that can have the focus, from left to right.
#[derive(Debug, Clone, Copy, PartialEq, Eq, PartialOrd, Ord, Structural)]
pub enum Pane {
    Runtime,
    Model,
    Profile,
    Options,
}

impl Pane {
    /// How far to the right a pane stands.
    pub open spec fn place(self) -> int {
        match self {
            Pane::Runtime => 0,
            Pane::Model => 1,
            Pane::Profile => 2,
            Pane::Options => 3,
        }
    }

    /// The pane to the right; the last one has none and stays.
    pub fn next(self) -> (r: Self)
        ensures
            r.place() == (if self.place() < 3 {
                self.place() + 1
            } else {
                3
            }),
    {
        match self {
            Pane::Runtime => Pane::Model,
            Pane::Model => Pane::Profile,
            Pane::Profile => Pane::Options,
            Pane::Options => Pane::Options,
        }
    }

    /// The pane to the left; the first one has none and stays.
    pub fn prev(self) -> (r: Self)
        ensures
            r.place() == (if self.place() > 0 {
                self.place() - 1
            } else {
                0
            }),
    {
        match self {
            Pane::Runtime => Pane::Runtime,
            Pane::Model => Pane::Runtime,
            Pane::Profile => Pane::Model,
            Pane::Options => Pane::Profile,
        }
    }

    /// How far to the right the pane stands.
    pub fn index(self) -> (r: usize)
        ensures
            r == self.place(),
    {
        match self {
            Pane::Runtime => 0,
            Pane::Model => 1,
            Pane::Profile => 2,
            Pane::Options => 3,
        }
    }

    /// The heading of a pane.
    pub open spec fn heading(self) -> Seq<char> {
        match self {
            Pane::Runtime => "Runtime"@,
            Pane::Model => "Model"@,
            Pane::Profile => "Profile"@,
            Pane::Options => "Options"@,
        }
    }

    /// The heading of the pane.
    pub fn title(self) -> (r: &'static str)
        ensures
            r@ == self.heading(),
    {
        match self {
            Pane::Runtime => "Runtime",
            Pane::Model => "Model",
            Pane::Profile => "Profile",
            Pane::Options => "Options",
        }
    }
}

/// Two panes at one place are the same pane.
pub proof fn law_places_tell_panes_apart(a: Pane, b: Pane)
    ensures
        a.place() == b.place() <==> a == b,
        0 <= a.place() < 4,
{
}

/// Which entry of a list is selected.
#[derive(Debug, Clone, Copy, PartialEq, Eq, Structural)]
pub struct ListState {
    pub cursor: Option<usize>,
}

impl ListState {
    /// Nothing is selected.
    pub fn new() -> (r: ListState)
        ensures
            r.cursor is None,
    {
        ListState { cursor: None }
    }

    /// Selects an entry, or none.
    pub fn select(&mut self, index: Option<usize>)
        ensures
            final(self).cursor == index,
    {
        self.cursor = index;
    }

    /// The selected entry.
    pub fn selected(&self) -> (r: Option<usize>)
        ensures
            r == self.cursor,
    {
        self.cursor
    }
}

/// The selected entry, or the first where none is selected.
pub open spec fn cursor_or_first(cursor: Option<usize>) -> int {
    match cursor {
        Some(i) => i as int,
        None => 0,
    }
}

/// Where the selection goes when it moves by `delta` in a list: it stops at both
/// ends.
pub open spec fn moved(cursor: Option<usize>, delta: int, len: int) -> int {
    let to = cursor_or_first(cursor) + delta;
    if to < 0 {
        0
    } else if to >= len {
        len - 1
    } else {
        to
    }
}

/// The selection of a list that was just filled.
pub open spec fn at_top(len: int) -> Option<usize> {
    if len == 0 {
        None
    } else {
        Some(0)
    }
}

/// Where the selection goes when it moves in a list that is not empty.
pub fn step(cursor: Option<usize>, delta: isize, len: usize) -> (r: usize)
    requires
        len > 0,
    ensures
        r == moved(cursor, delta as int, len as int),
{
    let from: usize = match cursor {
        Some(i) => i,
        None => 0,
    };
    let to: i128 = from as i128 + delta as i128;
    if to < 0 {
        0
    } else if to >= len as i128 {
        len - 1
    } else {
        to as usize
    }
}

/// The position nearest to a selection in a list.
pub open spec fn nearest(cursor: Option<usize>, len: int) -> Option<usize> {
    if len == 0 {
        None
    } else if cursor_or_first(cursor) < len {
        Some(cursor_or_first(cursor) as usize)
    } else {
        Some((len - 1) as usize)
    }
}

/// A list of entries with its selection.
#[derive(Debug)]
pub struct PaneList<T> {
    pub items: Vec<T>,
    pub state: ListState,
}

impl<T> PaneList<T> {
    /// The selection, if there is one, is of an entry that exists.
    pub open spec fn wf(self) -> bool {
        self.state.cursor is Some ==> self.state.cursor->0 < self.items@.len()
    }

    /// The selected entry.
    pub open spec fn chosen(self) -> Option<T> {
        match self.state.cursor {
            Some(i) => if i < self.items@.len() {
                Some(self.items@[i as int])
            } else {
                None
            },
            None => None,
        }
    }

    /// A list with its first entry selected.
    pub fn new(items: Vec<T>) -> (r: PaneList<T>)
        ensures
            r.items == items,
            r.state.cursor == at_top(items@.len() as int),
            r.wf(),
    {
        let mut list = PaneList { items, state: ListState::new() };
        list.select_first();
        list
    }

    /// The selected entry.
    pub fn selected(&self) -> (r: Option<&T>)
        ensures
            match r {
                Some(t) => self.chosen() == Some(*t),
                None => self.chosen() is None,
            },
    {
        match self.state.selected() {
            Some(i) => if i < self.items.len() {
                Some(&self.items[i])
            } else {
                None
            },
            None => None,
        }
    }

    /// Whether the list has no entry.
    pub fn is_empty(&self) -> (r: bool)
        ensures
            r == (self.items@.len() == 0),
    {
        self.items.len() == 0
    }

    /// Other entries, with the first selected.
    pub fn replace(&mut self, items: Vec<T>)
        ensures
            final(self).items == items,
            final(self).state.cursor == at_top(items@.len() as int),
            final(self).wf(),
    {
        self.items = items;
        self.select_first();
    }

    /// Moves the selection. It stops at both ends, and an empty list stays as it
    /// is.
    pub fn move_by(&mut self, delta: isize)
        ensures
            final(self).items == old(self).items,
            final(self).state.cursor == (if old(self).items@.len() == 0 {
                old(self).state.cursor
            } else {
                Some(
                    moved(
                        old(self).state.cursor,
                        delta as int,
                        old(self).items@.len() as int,
                    ) as usize,
                )
            }),
            old(self).wf() ==> final(self).wf(),
    {
        if self.items.len() == 0 {
            return;
        }
        let to = step(self.state.selected(), delta, self.items.len());
        self.state.select(Some(to));
    }

    /// Selects the first entry, or nothing in an empty list.
    pub fn select_first(&mut self)
        ensures
            final(self).items == old(self).items,
            final(self).state.cursor == at_top(old(self).items@.len() as int),
            final(self).wf(),
    {
        if self.items.len() == 0 {
            self.state.select(None);
        } else {
            self.state.select(Some(0));
        }
    }

    /// Selects the entry nearest to a position.
    pub fn select_near(&mut self, cursor: Option<usize>)
        ensures
            final(self).items == old(self).items,
            final(self).state.cursor == nearest(cursor, old(self).items@.len() as int),
            final(self).wf(),
    {
        let n = self.items.len();
        let at: usize = match cursor {
            Some(i) => i,
            None => 0,
        };
        self.state.select(
            if n == 0 {
                None
            } else if at < n {
                Some(at)
            } else {
                Some(n - 1)
            },
        );
    }

    /// Selects the last entry; an empty list stays as it is.
    pub fn select_last(&mut self)
        ensures
            final(self).items == old(self).items,
            final(self).state.cursor == (if old(self).items@.len() == 0 {
                old(self).state.cursor
            } else {
                Some((old(self).items@.len() - 1) as usize)
            }),
            old(self).wf() ==> final(self).wf(),
    {
        if self.items.len() != 0 {
            self.state.select(Some(self.items.len() - 1));
        }
    }
}

/// A step back undoes a step, where neither meets an end of the list.
pub proof fn law_opposite_steps_cancel(cursor: usize, delta: int, len: int)
    requires
        0 <= cursor + delta < len,
        cursor < len <= usize::MAX,
    ensures
        moved(Some(moved(Some(cursor), delta, len) as usize), -delta, len) == cursor,
{
}

/// A selection never leaves the list.
pub proof fn law_selection_stays_in_the_list(cursor: Option<usize>, delta: int, len: int)
    requires
        len > 0,
    ensures
        0 <= moved(cursor, delta, len) < len,
{
}

/// The panes stand in the order of their choices, and moving by one in a list goes to
/// the entry beside, down or up.
pub proof fn law_steps_go_to_the_next(cursor: usize, len: int)
    requires
        cursor < len <= usize::MAX,
    ensures
        Pane::Runtime.place() < Pane::Model.place() < Pane::Profile.place()
            < Pane::Options.place(),
        moved(Some(cursor), 1, len) == if cursor + 1 < len {
            cursor + 1
        } else {
            len - 1
        },
        moved(Some(cursor), -1, len) == if cursor > 0 {
            cursor - 1
        } else {
            0
        },
{
}

} // verus!
