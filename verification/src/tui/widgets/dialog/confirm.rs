//! A yes/no question, answered with `y`/`n`, or by moving the focus and
//! pressing Enter.
use vstd::prelude::*;

use crate::tui::keys::{KeyCode, KeyEvent};

verus! {

pub struct ConfirmDialog {
    pub message: String,
    pub focus: ConfirmFocus,
}

#[derive(Debug, Clone, Copy, PartialEq, Eq, Structural)]
pub enum ConfirmFocus {
    Yes,
    No,
}

#[derive(Debug, Clone, Copy, PartialEq, Eq, Structural)]
pub enum ConfirmOutcome {
    Pending,
    Confirmed,
    Cancelled,
}

pub open spec fn other_focus(f: ConfirmFocus) -> ConfirmFocus {
    match f {
        ConfirmFocus::Yes => ConfirmFocus::No,
        ConfirmFocus::No => ConfirmFocus::Yes,
    }
}

/// The answer a key gives with `focus` on one of the buttons: `y` and `n`
/// answer directly, Esc cancels, Enter takes the focused button, and Tab
/// or an arrow only moves the focus.
pub open spec fn confirm_outcome(focus: ConfirmFocus, code: KeyCode) -> ConfirmOutcome {
    match code {
        KeyCode::Char(c) => if c == 'y' || c == 'Y' {
            ConfirmOutcome::Confirmed
        } else if c == 'n' || c == 'N' {
            ConfirmOutcome::Cancelled
        } else {
            ConfirmOutcome::Pending
        },
        KeyCode::Esc => ConfirmOutcome::Cancelled,
        KeyCode::Enter => match focus {
            ConfirmFocus::Yes => ConfirmOutcome::Confirmed,
            ConfirmFocus::No => ConfirmOutcome::Cancelled,
        },
        _ => ConfirmOutcome::Pending,
    }
}

pub open spec fn moves_focus(code: KeyCode) -> bool {
    code == KeyCode::Tab || code == KeyCode::Left || code == KeyCode::Right
}

impl ConfirmDialog {
    /// A question with the focus on No.
    pub fn new(message: &str) -> (d: ConfirmDialog)
        ensures
            d.message@ == message@,
            d.focus == ConfirmFocus::No,
    {
        ConfirmDialog { message: message.to_owned(), focus: ConfirmFocus::No }
    }

    pub fn handle_key(&mut self, key: KeyEvent) -> (r: ConfirmOutcome)
        ensures
            r == confirm_outcome(old(self).focus, key.code),
            final(self).message == old(self).message,
            final(self).focus == if moves_focus(key.code) {
                other_focus(old(self).focus)
            } else {
                old(self).focus
            },
    {
        match key.code {
            KeyCode::Char(c) => {
                if c == 'y' || c == 'Y' {
                    ConfirmOutcome::Confirmed
                } else if c == 'n' || c == 'N' {
                    ConfirmOutcome::Cancelled
                } else {
                    ConfirmOutcome::Pending
                }
            },
            KeyCode::Esc => ConfirmOutcome::Cancelled,
            KeyCode::Tab | KeyCode::Left | KeyCode::Right => {
                self.focus = match self.focus {
                    ConfirmFocus::Yes => ConfirmFocus::No,
                    ConfirmFocus::No => ConfirmFocus::Yes,
                };
                ConfirmOutcome::Pending
            },
            KeyCode::Enter => match self.focus {
                ConfirmFocus::Yes => ConfirmOutcome::Confirmed,
                ConfirmFocus::No => ConfirmOutcome::Cancelled,
            },
            _ => ConfirmOutcome::Pending,
        }
    }
}

/// Moving the focus twice brings it back.
pub proof fn lemma_focus_toggle_twice(f: ConfirmFocus)
    ensures
        other_focus(other_focus(f)) == f,
{
}

} // verus!
