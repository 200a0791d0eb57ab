//! The dialog that has the input, and the message shown over it.

use vstd::prelude::*;
use crate::app::editor::{Confirm, Message, Prompt, Selector};
use crate::app::keys::Overlay;
use crate::app::search::ModelSearch;

verus! {

/// A dialog.
#[derive(Debug)]
pub enum Modal {
    Help,
    Prompt(Prompt),
    Selector(Selector),
    Search(ModelSearch),
    Confirm(Confirm),
}

impl Modal {
    /// Which dialog it is.
    pub open spec fn overlay(self) -> Overlay {
        match self {
            Modal::Help => Overlay::Help,
            Modal::Prompt(_) => Overlay::Prompt,
            Modal::Selector(_) => Overlay::Selector,
            Modal::Search(_) => Overlay::Search,
            Modal::Confirm(_) => Overlay::Confirm,
        }
    }
}

/// At most one dialog, and apart from it a message.
#[derive(Debug)]
pub struct Modals {
    pub active: Option<Modal>,
    pub message: Option<Message>,
}

impl Default for Modals {
    fn default() -> (r: Self)
        ensures
            r.active is None,
            r.message is None,
    {
        Modals { active: None, message: None }
    }
}

/// Which dialog is open.
pub open spec fn open_overlay(active: Option<Modal>) -> Overlay {
    match active {
        Some(m) => m.overlay(),
        None => Overlay::Nothing,
    }
}

/// What is open after a dialog of one sort was opened, or closed where it was
/// open.
pub open spec fn switched(active: Option<Modal>, sort: Overlay, to: Option<Modal>) -> Option<Modal> {
    if to is Some {
        to
    } else if open_overlay(active) == sort {
        None
    } else {
        active
    }
}

impl Modals {
    /// Which dialog is open.
    pub fn overlay(&self) -> (r: Overlay)
        ensures
            r == open_overlay(self.active),
    {
        match &self.active {
            None => Overlay::Nothing,
            Some(Modal::Help) => Overlay::Help,
            Some(Modal::Prompt(_)) => Overlay::Prompt,
            Some(Modal::Selector(_)) => Overlay::Selector,
            Some(Modal::Search(_)) => Overlay::Search,
            Some(Modal::Confirm(_)) => Overlay::Confirm,
        }
    }

    /// Whether the help is open.
    pub fn help(&self) -> (r: bool)
        ensures
            r == (open_overlay(self.active) == Overlay::Help),
    {
        match &self.active {
            Some(Modal::Help) => true,
            _ => false,
        }
    }

    /// Opens the help in place of any dialog, or closes it where it is open.
    pub fn set_help(&mut self, open: bool)
        ensures
            final(self).active == switched(
                old(self).active,
                Overlay::Help,
                if open {
                    Some(Modal::Help)
                } else {
                    None
                },
            ),
            final(self).message == old(self).message,
    {
        if open {
            self.active = Some(Modal::Help);
        } else if self.help() {
            self.active = None;
        }
    }

    /// The open dialog, where it is a prompt.
    pub fn prompt(&self) -> (r: Option<&Prompt>)
        ensures
            match r {
                Some(v) => self.active == Some(Modal::Prompt(*v)),
                None => open_overlay(self.active) != Overlay::Prompt,
            },
    {
        match &self.active {
            Some(Modal::Prompt(value)) => Some(value),
            _ => None,
        }
    }

    /// Opens a prompt in place of any dialog, or closes the one that is open.
    pub fn set_prompt(&mut self, value: Option<Prompt>)
        ensures
            final(self).active == switched(
                old(self).active,
                Overlay::Prompt,
                match value {
                    Some(v) => Some(Modal::Prompt(v)),
                    None => None,
                },
            ),
            final(self).message == old(self).message,
    {
        match value {
            Some(v) => {
                self.active = Some(Modal::Prompt(v));
            },
            None => {
                if self.prompt().is_some() {
                    self.active = None;
                }
            },
        }
    }

    /// The open dialog for changing, where it is a prompt.
    pub fn prompt_mut(&mut self) -> (r: Option<&mut Prompt>)
        ensures
            match r {
                Some(v) => old(self).active == Some(Modal::Prompt(*v)) && final(self).active == Some(
                    Modal::Prompt(*final(v)),
                ),
                None => open_overlay(old(self).active) != Overlay::Prompt && final(self).active
                    == old(self).active,
            },
            final(self).message == old(self).message,
    {
        match &mut self.active {
            Some(Modal::Prompt(value)) => Some(value),
            _ => None,
        }
    }

    /// The open dialog, where it is a list of values.
    pub fn selector(&self) -> (r: Option<&Selector>)
        ensures
            match r {
                Some(v) => self.active == Some(Modal::Selector(*v)),
                None => open_overlay(self.active) != Overlay::Selector,
            },
    {
        match &self.active {
            Some(Modal::Selector(value)) => Some(value),
            _ => None,
        }
    }

    /// Opens a list of values in place of any dialog, or closes the one that is open.
    pub fn set_selector(&mut self, value: Option<Selector>)
        ensures
            final(self).active == switched(
                old(self).active,
                Overlay::Selector,
                match value {
                    Some(v) => Some(Modal::Selector(v)),
                    None => None,
                },
            ),
            final(self).message == old(self).message,
    {
        match value {
            Some(v) => {
                self.active = Some(Modal::Selector(v));
            },
            None => {
                if self.selector().is_some() {
                    self.active = None;
                }
            },
        }
    }

    /// The open dialog for changing, where it is a list of values.
    pub fn selector_mut(&mut self) -> (r: Option<&mut Selector>)
        ensures
            match r {
                Some(v) => old(self).active == Some(Modal::Selector(*v)) && final(self).active == Some(
                    Modal::Selector(*final(v)),
                ),
                None => open_overlay(old(self).active) != Overlay::Selector && final(self).active
                    == old(self).active,
            },
            final(self).message == old(self).message,
    {
        match &mut self.active {
            Some(Modal::Selector(value)) => Some(value),
            _ => None,
        }
    }

    /// Closes the open dialog where it is a list of values, and hands it out.
    pub fn take_selector(&mut self) -> (r: Option<Selector>)
        ensures
            match r {
                Some(v) => old(self).active == Some(Modal::Selector(v)) && final(self).active is None,
                None => open_overlay(old(self).active) != Overlay::Selector && final(self).active
                    == old(self).active,
            },
            final(self).message == old(self).message,
    {
        if self.selector().is_none() {
            return None;
        }
        match self.active.take() {
            Some(Modal::Selector(value)) => Some(value),
            _ => None,
        }
    }

    /// The open dialog, where it is a search.
    pub fn search(&self) -> (r: Option<&ModelSearch>)
        ensures
            match r {
                Some(v) => self.active == Some(Modal::Search(*v)),
                None => open_overlay(self.active) != Overlay::Search,
            },
    {
        match &self.active {
            Some(Modal::Search(value)) => Some(value),
            _ => None,
        }
    }

    /// Opens a search in place of any dialog, or closes the one that is open.
    pub fn set_search(&mut self, value: Option<ModelSearch>)
        ensures
            final(self).active == switched(
                old(self).active,
                Overlay::Search,
                match value {
                    Some(v) => Some(Modal::Search(v)),
                    None => None,
                },
            ),
            final(self).message == old(self).message,
    {
        match value {
            Some(v) => {
                self.active = Some(Modal::Search(v));
            },
            None => {
                if self.search().is_some() {
                    self.active = None;
                }
            },
        }
    }

    /// The open dialog for changing, where it is a search.
    pub fn search_mut(&mut self) -> (r: Option<&mut ModelSearch>)
        ensures
            match r {
                Some(v) => old(self).active == Some(Modal::Search(*v)) && final(self).active == Some(
                    Modal::Search(*final(v)),
                ),
                None => open_overlay(old(self).active) != Overlay::Search && final(self).active
                    == old(self).active,
            },
            final(self).message == old(self).message,
    {
        match &mut self.active {
            Some(Modal::Search(value)) => Some(value),
            _ => None,
        }
    }

    /// The open dialog, where it is a confirmation.
    pub fn confirm(&self) -> (r: Option<&Confirm>)
        ensures
            match r {
                Some(v) => self.active == Some(Modal::Confirm(*v)),
                None => open_overlay(self.active) != Overlay::Confirm,
            },
    {
        match &self.active {
            Some(Modal::Confirm(value)) => Some(value),
            _ => None,
        }
    }

    /// Opens a confirmation in place of any dialog, or closes the one that is open.
    pub fn set_confirm(&mut self, value: Option<Confirm>)
        ensures
            final(self).active == switched(
                old(self).active,
                Overlay::Confirm,
                match value {
                    Some(v) => Some(Modal::Confirm(v)),
                    None => None,
                },
            ),
            final(self).message == old(self).message,
    {
        match value {
            Some(v) => {
                self.active = Some(Modal::Confirm(v));
            },
            None => {
                if self.confirm().is_some() {
                    self.active = None;
                }
            },
        }
    }

    /// Closes the open dialog where it is a confirmation, and hands it out.
    pub fn take_confirm(&mut self) -> (r: Option<Confirm>)
        ensures
            match r {
                Some(v) => old(self).active == Some(Modal::Confirm(v)) && final(self).active is None,
                None => open_overlay(old(self).active) != Overlay::Confirm && final(self).active
                    == old(self).active,
            },
            final(self).message == old(self).message,
    {
        if self.confirm().is_none() {
            return None;
        }
        match self.active.take() {
            Some(Modal::Confirm(value)) => Some(value),
            _ => None,
        }
    }
}

/// Closing a dialog that is not open closes no other.
pub proof fn law_closing_an_absent_dialog_keeps_the_open_one(active: Option<Modal>, sort: Overlay)
    requires
        open_overlay(active) != sort,
    ensures
        switched(active, sort, None) == active,
{
}

/// Opening a dialog takes the input from every other, and closing it leaves none
/// open.
pub proof fn law_one_dialog_has_the_input(active: Option<Modal>, dialog: Modal)
    ensures
        switched(active, dialog.overlay(), Some(dialog)) == Some(dialog),
        switched(switched(active, dialog.overlay(), Some(dialog)), dialog.overlay(), None) is None,
{
}

} // verus!
