//! A one-line text field in a dialog, with a cursor that moves over the
//! characters; optionally masked for passwords.
use vstd::prelude::*;

use crate::text::{chars_of, string_of};
use crate::tui::keys::{KeyCode, KeyEvent};

verus! {

pub struct TextInputDialog {
    pub title: String,
    pub value: String,
    pub masked: bool,
    pub cursor: usize,
}

#[derive(Debug, Clone, PartialEq, Eq)]
pub enum TextInputOutcome {
    Pending,
    Submitted(String),
    Cancelled,
}

/// `s` with `c` inserted before position `i`, or at the end when `i` is
/// past it.
pub open spec fn insert_at(s: Seq<char>, i: int, c: char) -> Seq<char> {
    if i <= s.len() {
        s.insert(i, c)
    } else {
        s.insert(s.len() as int, c)
    }
}

/// The value and cursor after a key: arrows, Home and End move the
/// cursor; Backspace removes the character before it and Delete the one
/// under it; a character is inserted at it.
pub open spec fn edit_step(value: Seq<char>, cursor: int, code: KeyCode) -> (Seq<char>, int) {
    match code {
        KeyCode::Left => (value, if cursor > 0 {
            cursor - 1
        } else {
            0
        }),
        KeyCode::Right => (value, if cursor + 1 <= value.len() {
            cursor + 1
        } else {
            value.len() as int
        }),
        KeyCode::Home => (value, 0),
        KeyCode::End => (value, value.len() as int),
        KeyCode::Backspace => if cursor > 0 {
            (value.remove(cursor - 1), cursor - 1)
        } else {
            (value, cursor)
        },
        KeyCode::Delete => if cursor < value.len() {
            (value.remove(cursor), cursor)
        } else {
            (value, cursor)
        },
        KeyCode::Char(c) => (insert_at(value, cursor, c), cursor + 1),
        _ => (value, cursor),
    }
}

/// What a key needs of the cursor: Backspace one at most at the end, and
/// room to count one further for a character or Right.
pub open spec fn key_allowed(value: Seq<char>, cursor: int, code: KeyCode) -> bool {
    &&& (code == KeyCode::Backspace && cursor > 0 ==> cursor <= value.len())
    &&& (code is Char || code == KeyCode::Right ==> cursor < usize::MAX)
}

impl TextInputDialog {
    /// A field holding `initial_value`, the cursor at its end.
    pub fn new(title: &str, initial_value: &str) -> (d: TextInputDialog)
        ensures
            d.title@ == title@,
            d.value@ == initial_value@,
            !d.masked,
            d.cursor == initial_value@.len(),
    {
        let value: String = initial_value.to_owned();
        let cursor: usize = initial_value.unicode_len();
        TextInputDialog { title: title.to_owned(), value, masked: false, cursor }
    }

    /// An empty field whose characters are not shown.
    pub fn new_masked(title: &str) -> (d: TextInputDialog)
        ensures
            d.title@ == title@,
            d.value@.len() == 0,
            d.masked,
            d.cursor == 0,
    {
        TextInputDialog { title: title.to_owned(), value: String::new(), masked: true, cursor: 0 }
    }

    /// Enter submits the value, Esc cancels, and any other key edits.
    pub fn handle_key(&mut self, key: KeyEvent) -> (r: TextInputOutcome)
        requires
            key_allowed(old(self).value@, old(self).cursor as int, key.code),
        ensures
            key.code == KeyCode::Enter ==> (r matches TextInputOutcome::Submitted(v) && v@ == old(self).value@),
            key.code == KeyCode::Esc ==> r is Cancelled,
            key.code != KeyCode::Enter && key.code != KeyCode::Esc ==> r is Pending,
            (final(self).value@, final(self).cursor as int) == edit_step(old(self).value@, old(self).cursor as int, key.code),
            final(self).title == old(self).title,
            final(self).masked == old(self).masked,
            old(self).cursor <= old(self).value@.len() ==> final(self).cursor <= final(self).value@.len(),
    {
        let count: usize = self.value.unicode_len();
        match key.code {
            KeyCode::Enter => TextInputOutcome::Submitted(self.value.clone()),
            KeyCode::Esc => TextInputOutcome::Cancelled,
            KeyCode::Left => {
                self.cursor = if self.cursor > 0 {
                    self.cursor - 1
                } else {
                    0
                };
                TextInputOutcome::Pending
            },
            KeyCode::Right => {
                self.cursor = if self.cursor + 1 <= count {
                    self.cursor + 1
                } else {
                    count
                };
                TextInputOutcome::Pending
            },
            KeyCode::Home => {
                self.cursor = 0;
                TextInputOutcome::Pending
            },
            KeyCode::End => {
                self.cursor = count;
                TextInputOutcome::Pending
            },
            KeyCode::Backspace => {
                if self.cursor > 0 {
                    self.remove_char_at(self.cursor - 1);
                    self.cursor = self.cursor - 1;
                }
                TextInputOutcome::Pending
            },
            KeyCode::Delete => {
                if self.cursor < count {
                    self.remove_char_at(self.cursor);
                }
                TextInputOutcome::Pending
            },
            KeyCode::Char(c) => {
                self.insert_char_at(self.cursor, c);
                self.cursor = self.cursor + 1;
                TextInputOutcome::Pending
            },
            _ => TextInputOutcome::Pending,
        }
    }

    fn insert_char_at(&mut self, index: usize, ch: char)
        ensures
            final(self).value@ == insert_at(old(self).value@, index as int, ch),
            final(self).title == old(self).title,
            final(self).masked == old(self).masked,
            final(self).cursor == old(self).cursor,
    {
        let mut v: Vec<char> = chars_of(self.value.as_str());
        let at: usize = if index <= v.len() {
            index
        } else {
            v.len()
        };
        v.insert(at, ch);
        self.value = string_of(&v);
    }

    fn remove_char_at(&mut self, index: usize)
        requires
            index < old(self).value@.len(),
        ensures
            final(self).value@ == old(self).value@.remove(index as int),
            final(self).title == old(self).title,
            final(self).masked == old(self).masked,
            final(self).cursor == old(self).cursor,
    {
        let mut v: Vec<char> = chars_of(self.value.as_str());
        v.remove(index);
        self.value = string_of(&v);
    }
}

} // verus!
