//! A dialog listing items to pick one from, and optionally remove one.
use vstd::prelude::*;

use crate::tui::keys::{KeyCode, KeyEvent};

verus! {

pub struct ListDialog {
    pub title: String,
    pub items: Vec<String>,
    pub cursor: usize,
    pub removable: bool,
}

#[derive(Debug, Clone, Copy, PartialEq, Eq, Structural)]
pub enum ListOutcome {
    Pending,
    Selected(usize),
    Removed(usize),
    Cancelled,
}

/// The answer a key gives: Enter picks the item at the cursor and F8
/// removes it (when removing is offered), if there are items; Esc
/// cancels.
pub open spec fn list_outcome(items: nat, cursor: usize, removable: bool, code: KeyCode) -> ListOutcome {
    match code {
        KeyCode::Enter => if items > 0 {
            ListOutcome::Selected(cursor)
        } else {
            ListOutcome::Pending
        },
        KeyCode::F(n) => if n == 8 && removable && items > 0 {
            ListOutcome::Removed(cursor)
        } else {
            ListOutcome::Pending
        },
        KeyCode::Esc => ListOutcome::Cancelled,
        _ => ListOutcome::Pending,
    }
}

/// Where the cursor goes: up and down, staying on the items.
pub open spec fn list_cursor(items: nat, cursor: usize, code: KeyCode) -> int {
    match code {
        KeyCode::Up => if cursor > 0 {
            cursor - 1
        } else {
            0
        },
        KeyCode::Down => if cursor + 1 < items {
            cursor + 1
        } else {
            cursor as int
        },
        _ => cursor as int,
    }
}

impl ListDialog {
    pub fn new(title: &str, items: Vec<String>) -> (d: ListDialog)
        ensures
            d.title@ == title@,
            d.items@ == items@,
            d.cursor == 0,
            !d.removable,
    {
        ListDialog { title: title.to_owned(), items, cursor: 0, removable: false }
    }

    /// The same dialog, offering removal or not.
    pub fn removable(self, removable: bool) -> (d: ListDialog)
        ensures
            d.title == self.title,
            d.items == self.items,
            d.cursor == self.cursor,
            d.removable == removable,
    {
        let mut d = self;
        d.removable = removable;
        d
    }

    pub fn handle_key(&mut self, key: KeyEvent) -> (r: ListOutcome)
        requires
            key.code == KeyCode::Down ==> old(self).cursor < usize::MAX,
        ensures
            r == list_outcome(old(self).items@.len(), old(self).cursor, old(self).removable, key.code),
            final(self).cursor == list_cursor(old(self).items@.len(), old(self).cursor, key.code),
            final(self).items == old(self).items,
            final(self).title == old(self).title,
            final(self).removable == old(self).removable,
            old(self).cursor < old(self).items@.len() ==> final(self).cursor < final(self).items@.len(),
    {
        match key.code {
            KeyCode::Up => {
                self.cursor = if self.cursor > 0 {
                    self.cursor - 1
                } else {
                    0
                };
                ListOutcome::Pending
            },
            KeyCode::Down => {
                if self.cursor + 1 < self.items.len() {
                    self.cursor = self.cursor + 1;
                }
                ListOutcome::Pending
            },
            KeyCode::Enter => {
                if self.items.len() > 0 {
                    ListOutcome::Selected(self.cursor)
                } else {
                    ListOutcome::Pending
                }
            },
            KeyCode::F(n) => {
                if n == 8 && self.removable && self.items.len() > 0 {
                    ListOutcome::Removed(self.cursor)
                } else {
                    ListOutcome::Pending
                }
            },
            KeyCode::Esc => ListOutcome::Cancelled,
            _ => ListOutcome::Pending,
        }
    }
}

impl ListDialog {
    /// Drops the item at `index` (after its bookmark was removed), keeping
    /// the cursor on an item.
    pub fn remove_item(&mut self, index: usize)
        requires
            index < old(self).items@.len(),
        ensures
            final(self).items@ == old(self).items@.remove(index as int),
            final(self).cursor == if old(self).cursor >= final(self).items@.len() {
                if final(self).items@.len() > 0 {
                    final(self).items@.len() - 1
                } else {
                    0
                }
            } else {
                old(self).cursor as int
            },
            final(self).title == old(self).title,
            final(self).removable == old(self).removable,
    {
        self.items.remove(index);
        if self.cursor >= self.items.len() {
            self.cursor = if self.items.len() > 0 {
                self.items.len() - 1
            } else {
                0
            };
        }
    }
}

} // verus!
