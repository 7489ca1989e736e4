//! The dialogs shown over the panels.
pub mod confirm;
pub mod text_input;

use vstd::prelude::*;

use self::confirm::{ConfirmDialog, ConfirmOutcome};
use self::text_input::{TextInputDialog, TextInputOutcome};
use crate::paths::{path_file_name, path_file_name_of};
use crate::text::decimal_string;
use crate::tui::dialog::list::{list_cursor, list_outcome, ListDialog, ListOutcome};
use crate::tui::keys::KeyEvent;
use crate::tui::panels::ActivePanel;

verus! {

pub enum Dialog {
    Confirm(ConfirmDialog),
    TextInput(TextInputDialog),
    List(ListDialog),
}

#[derive(Debug, Clone, PartialEq, Eq)]
pub enum DialogOutcome {
    Pending,
    Confirmed,
    Cancelled,
    Submitted(String),
    Selected(usize),
    Removed(usize),
}

impl Dialog {
    /// Hands a key to the dialog shown and reports its answer.
    pub fn handle_key(&mut self, key: KeyEvent) -> (r: DialogOutcome)
        requires
            match *old(self) {
                Dialog::TextInput(d) => text_input::key_allowed(d.value@, d.cursor as int, key.code),
                Dialog::Confirm(_) => true,
                Dialog::List(d) => key.code == crate::tui::keys::KeyCode::Down ==> d.cursor < usize::MAX,
            },
        ensures
            match (*old(self), *final(self)) {
                (Dialog::Confirm(before), Dialog::Confirm(after)) => {
                    &&& after.focus == if confirm::moves_focus(key.code) {
                        confirm::other_focus(before.focus)
                    } else {
                        before.focus
                    }
                    &&& after.message == before.message
                    &&& match confirm::confirm_outcome(before.focus, key.code) {
                        ConfirmOutcome::Pending => r is Pending,
                        ConfirmOutcome::Confirmed => r is Confirmed,
                        ConfirmOutcome::Cancelled => r is Cancelled,
                    }
                },
                (Dialog::TextInput(before), Dialog::TextInput(after)) => {
                    &&& (after.value@, after.cursor as int) == text_input::edit_step(
                        before.value@,
                        before.cursor as int,
                        key.code,
                    )
                    &&& after.title == before.title
                    &&& after.masked == before.masked
                    &&& key.code == crate::tui::keys::KeyCode::Enter ==> (r matches DialogOutcome::Submitted(v)
                        && v@ == before.value@)
                    &&& key.code == crate::tui::keys::KeyCode::Esc ==> r is Cancelled
                    &&& key.code != crate::tui::keys::KeyCode::Enter && key.code != crate::tui::keys::KeyCode::Esc
                        ==> r is Pending
                },
                (Dialog::List(before), Dialog::List(after)) => {
                    &&& after.cursor == list_cursor(before.items@.len(), before.cursor, key.code)
                    &&& after.items == before.items
                    &&& after.title == before.title
                    &&& after.removable == before.removable
                    &&& match list_outcome(before.items@.len(), before.cursor, before.removable, key.code) {
                        ListOutcome::Pending => r is Pending,
                        ListOutcome::Selected(i) => r == DialogOutcome::Selected(i),
                        ListOutcome::Removed(i) => r == DialogOutcome::Removed(i),
                        ListOutcome::Cancelled => r is Cancelled,
                    }
                },
                _ => false,
            },
    {
        match self {
            Dialog::Confirm(dialog) => match dialog.handle_key(key) {
                ConfirmOutcome::Pending => DialogOutcome::Pending,
                ConfirmOutcome::Confirmed => DialogOutcome::Confirmed,
                ConfirmOutcome::Cancelled => DialogOutcome::Cancelled,
            },
            Dialog::TextInput(dialog) => match dialog.handle_key(key) {
                TextInputOutcome::Pending => DialogOutcome::Pending,
                TextInputOutcome::Submitted(value) => DialogOutcome::Submitted(value),
                TextInputOutcome::Cancelled => DialogOutcome::Cancelled,
            },
            Dialog::List(dialog) => match dialog.handle_key(key) {
                ListOutcome::Pending => DialogOutcome::Pending,
                ListOutcome::Selected(index) => DialogOutcome::Selected(index),
                ListOutcome::Removed(index) => DialogOutcome::Removed(index),
                ListOutcome::Cancelled => DialogOutcome::Cancelled,
            },
        }
    }
}

/// What a dialog was opened for.
#[derive(Debug, Clone, Copy, PartialEq, Eq, Structural)]
pub enum PendingAction {
    Mkdir,
    Rename,
    Delete,
    SubmitPassword,
    AddBookmark,
}

/// What follows a dialog's answer.
#[derive(Debug, Clone, PartialEq, Eq)]
pub enum Followup {
    Nothing,
    /// The password prompt was dismissed: the connection attempt ends.
    CancelPasswordPrompt,
    Delete(ActivePanel),
    Mkdir(ActivePanel, String),
    Rename(ActivePanel, String),
    SendPassword(String),
    AddBookmark(String),
    OpenBookmark(usize),
    RemoveBookmark(usize),
}

/// The answer handled: whether the dialog closes, whether what it was
/// opened for is used up, and what to do next.
pub struct DialogStep {
    pub close: bool,
    pub take_pending: bool,
    pub followup: Followup,
}

/// What follows each answer: a pending answer changes nothing; cancelling
/// ends a password prompt; confirming deletes; a submitted value makes,
/// renames, sends a password or names a bookmark, as the dialog was
/// opened for; a picked bookmark is opened (the dialog closes) and a
/// removed one is dropped (the list stays open).
pub open spec fn followup_of(outcome: DialogOutcome, pending: Option<PendingAction>, panel: ActivePanel) -> (bool, bool, Followup) {
    match outcome {
        DialogOutcome::Pending => (false, false, Followup::Nothing),
        DialogOutcome::Cancelled => (true, true, if pending == Some(PendingAction::SubmitPassword) {
            Followup::CancelPasswordPrompt
        } else {
            Followup::Nothing
        }),
        DialogOutcome::Confirmed => (true, true, if pending == Some(PendingAction::Delete) {
            Followup::Delete(panel)
        } else {
            Followup::Nothing
        }),
        DialogOutcome::Submitted(value) => (true, true, match pending {
            Some(PendingAction::Mkdir) => Followup::Mkdir(panel, value),
            Some(PendingAction::Rename) => Followup::Rename(panel, value),
            Some(PendingAction::SubmitPassword) => Followup::SendPassword(value),
            Some(PendingAction::AddBookmark) => Followup::AddBookmark(value),
            _ => Followup::Nothing,
        }),
        DialogOutcome::Selected(i) => (true, false, Followup::OpenBookmark(i)),
        DialogOutcome::Removed(i) => (false, false, Followup::RemoveBookmark(i)),
    }
}

pub fn dialog_followup(outcome: DialogOutcome, pending: Option<PendingAction>, panel: ActivePanel) -> (step: DialogStep)
    ensures
        (step.close, step.take_pending, step.followup) == followup_of(outcome, pending, panel),
{
    match outcome {
        DialogOutcome::Pending => DialogStep { close: false, take_pending: false, followup: Followup::Nothing },
        DialogOutcome::Cancelled => DialogStep {
            close: true,
            take_pending: true,
            followup: match pending {
                Some(PendingAction::SubmitPassword) => Followup::CancelPasswordPrompt,
                _ => Followup::Nothing,
            },
        },
        DialogOutcome::Confirmed => DialogStep {
            close: true,
            take_pending: true,
            followup: match pending {
                Some(PendingAction::Delete) => Followup::Delete(panel),
                _ => Followup::Nothing,
            },
        },
        DialogOutcome::Submitted(value) => DialogStep {
            close: true,
            take_pending: true,
            followup: match pending {
                Some(PendingAction::Mkdir) => Followup::Mkdir(panel, value),
                Some(PendingAction::Rename) => Followup::Rename(panel, value),
                Some(PendingAction::SubmitPassword) => Followup::SendPassword(value),
                Some(PendingAction::AddBookmark) => Followup::AddBookmark(value),
                _ => Followup::Nothing,
            },
        },
        DialogOutcome::Selected(i) => DialogStep { close: true, take_pending: false, followup: Followup::OpenBookmark(i) },
        DialogOutcome::Removed(i) => DialogStep { close: false, take_pending: false, followup: Followup::RemoveBookmark(i) },
    }
}

/// The question asked before deleting `targets`: the one name, quoted
/// (`?` for a path without one), or how many items; none when there is
/// nothing to delete.
pub open spec fn delete_question(targets: Seq<Seq<char>>) -> Option<Seq<char>> {
    if targets.len() == 0 {
        None
    } else if targets.len() == 1 {
        Some("Delete \""@ + match path_file_name_of(targets[0]) {
            Some(n) => n,
            None => "?"@,
        } + "\"?"@)
    } else {
        Some("Delete "@ + crate::text::decimal(targets.len()) + " selected items?"@)
    }
}

pub fn delete_prompt(targets: &Vec<String>) -> (r: Option<String>)
    ensures
        match r {
            Some(m) => delete_question(targets@.map_values(|t: String| t@)) == Some(m@),
            None => delete_question(targets@.map_values(|t: String| t@)) is None,
        },
{
    let ghost ts = targets@.map_values(|t: String| t@);
    if targets.len() == 0 {
        return None;
    }
    if targets.len() == 1 {
        assert(ts[0] == targets@[0]@);
        let name: String = match path_file_name(targets[0].as_str()) {
            Some(n) => n,
            None => "?".to_owned(),
        };
        let mut m: String = "Delete \"".to_owned();
        m.append(name.as_str());
        m.append("\"?");
        Some(m)
    } else {
        let mut m: String = "Delete ".to_owned();
        let count: String = decimal_string(targets.len() as u64);
        m.append(count.as_str());
        m.append(" selected items?");
        Some(m)
    }
}

} // verus!
