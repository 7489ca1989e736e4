//! The search screen: a pattern being typed, with a cursor, and the
//! matching entries found so far, one of them selected.
use vstd::prelude::*;

use super::dialog::text_input::insert_at;
use crate::filesystem::{Entry, EntryView};
use crate::text::{chars_of, string_of};
use crate::tui::keys::{KeyCode, KeyEvent};

verus! {

pub struct SearchView {
    pub pattern: String,
    pub cursor: usize,
    pub results: Vec<Entry>,
    pub selected: usize,
    pub truncated: bool,
}

#[derive(Debug, Clone, Copy, PartialEq, Eq, Structural)]
pub enum SearchOutcome {
    Pending,
    PatternChanged,
    Open,
    Cancel,
}

pub struct SearchViewState {
    pub pattern: Seq<char>,
    pub cursor: int,
    pub results: Seq<EntryView>,
    pub selected: int,
    pub truncated: bool,
}

pub open spec fn entry_views(s: Seq<Entry>) -> Seq<EntryView> {
    s.map_values(|e: Entry| e@)
}

impl View for SearchView {
    type V = SearchViewState;

    open spec fn view(&self) -> SearchViewState {
        SearchViewState {
            pattern: self.pattern@,
            cursor: self.cursor as int,
            results: entry_views(self.results@),
            selected: self.selected as int,
            truncated: self.truncated,
        }
    }
}

/// Whether a key edits the pattern: Backspace with a character before
/// the cursor, Delete with one under it, or a character typed without
/// Control.
pub open spec fn edits_pattern(s: SearchViewState, key: KeyEvent) -> bool {
    match key.code {
        KeyCode::Backspace => s.cursor > 0,
        KeyCode::Delete => s.cursor < s.pattern.len(),
        KeyCode::Char(_) => !key.modifiers.control,
        _ => false,
    }
}

/// What a key does to the search screen.
pub open spec fn search_step(s: SearchViewState, key: KeyEvent) -> SearchViewState {
    match key.code {
        KeyCode::Up => SearchViewState { selected: if s.selected > 0 {
            s.selected - 1
        } else {
            0
        }, ..s },
        KeyCode::Down => SearchViewState { selected: if s.selected + 1 < s.results.len() {
            s.selected + 1
        } else {
            s.selected
        }, ..s },
        KeyCode::Left => SearchViewState { cursor: if s.cursor > 0 {
            s.cursor - 1
        } else {
            0
        }, ..s },
        KeyCode::Right => SearchViewState { cursor: if s.cursor + 1 <= s.pattern.len() {
            s.cursor + 1
        } else {
            s.pattern.len() as int
        }, ..s },
        KeyCode::Home => SearchViewState { cursor: 0, ..s },
        KeyCode::End => SearchViewState { cursor: s.pattern.len() as int, ..s },
        KeyCode::Backspace => if s.cursor > 0 {
            SearchViewState { pattern: s.pattern.remove(s.cursor - 1), cursor: s.cursor - 1, ..s }
        } else {
            s
        },
        KeyCode::Delete => if s.cursor < s.pattern.len() {
            SearchViewState { pattern: s.pattern.remove(s.cursor), ..s }
        } else {
            s
        },
        KeyCode::Char(c) => if !key.modifiers.control {
            SearchViewState { pattern: insert_at(s.pattern, s.cursor, c), cursor: s.cursor + 1, ..s }
        } else {
            s
        },
        _ => s,
    }
}

/// What a key needs of the state: Backspace one at most at the end, and
/// room to count one further for a character, Right or Down.
pub open spec fn search_key_allowed(s: SearchViewState, key: KeyEvent) -> bool {
    &&& (key.code == KeyCode::Backspace && s.cursor > 0 ==> s.cursor <= s.pattern.len())
    &&& (key.code is Char || key.code == KeyCode::Right ==> s.cursor < usize::MAX)
    &&& (key.code == KeyCode::Down ==> s.selected < usize::MAX)
}

impl SearchView {
    pub fn new() -> (v: SearchView)
        ensures
            v@.pattern.len() == 0,
            v@.cursor == 0,
            v@.results.len() == 0,
            v@.selected == 0,
            !v@.truncated,
    {
        let v = SearchView { pattern: String::new(), cursor: 0, results: Vec::new(), selected: 0, truncated: false };
        proof {
            assert(entry_views(v.results@) =~= Seq::<EntryView>::empty());
        }
        v
    }

    /// Esc cancels and Enter opens the selection; other keys move the
    /// selection or the cursor, or edit the pattern.
    pub fn handle_key(&mut self, key: KeyEvent) -> (r: SearchOutcome)
        requires
            search_key_allowed(old(self)@, key),
        ensures
            final(self)@ == search_step(old(self)@, key),
            r == if key.code == KeyCode::Esc {
                SearchOutcome::Cancel
            } else if key.code == KeyCode::Enter {
                SearchOutcome::Open
            } else if edits_pattern(old(self)@, key) {
                SearchOutcome::PatternChanged
            } else {
                SearchOutcome::Pending
            },
            old(self)@.cursor <= old(self)@.pattern.len() ==> final(self)@.cursor <= final(self)@.pattern.len(),
    {
        let count: usize = self.pattern.unicode_len();
        match key.code {
            KeyCode::Esc => SearchOutcome::Cancel,
            KeyCode::Enter => SearchOutcome::Open,
            KeyCode::Up => {
                self.selected = if self.selected > 0 {
                    self.selected - 1
                } else {
                    0
                };
                SearchOutcome::Pending
            },
            KeyCode::Down => {
                if self.selected + 1 < self.results.len() {
                    self.selected = self.selected + 1;
                }
                SearchOutcome::Pending
            },
            KeyCode::Left => {
                self.cursor = if self.cursor > 0 {
                    self.cursor - 1
                } else {
                    0
                };
                SearchOutcome::Pending
            },
            KeyCode::Right => {
                self.cursor = if self.cursor + 1 <= count {
                    self.cursor + 1
                } else {
                    count
                };
                SearchOutcome::Pending
            },
            KeyCode::Home => {
                self.cursor = 0;
                SearchOutcome::Pending
            },
            KeyCode::End => {
                self.cursor = count;
                SearchOutcome::Pending
            },
            KeyCode::Backspace => {
                if self.cursor > 0 {
                    self.remove_char_at(self.cursor - 1);
                    self.cursor = self.cursor - 1;
                    SearchOutcome::PatternChanged
                } else {
                    SearchOutcome::Pending
                }
            },
            KeyCode::Delete => {
                if self.cursor < count {
                    self.remove_char_at(self.cursor);
                    SearchOutcome::PatternChanged
                } else {
                    SearchOutcome::Pending
                }
            },
            KeyCode::Char(c) => {
                if !key.modifiers.control {
                    self.insert_char_at(self.cursor, c);
                    self.cursor = self.cursor + 1;
                    SearchOutcome::PatternChanged
                } else {
                    SearchOutcome::Pending
                }
            },
            _ => SearchOutcome::Pending,
        }
    }

    /// Resets for a new search: no results, the first selected, not
    /// truncated. The pattern stays.
    pub fn start(&mut self)
        ensures
            final(self)@ == (SearchViewState { results: Seq::empty(), selected: 0, truncated: false, ..old(self)@ }),
    {
        self.results.clear();
        self.selected = 0;
        self.truncated = false;
        proof {
            assert(entry_views(self.results@) =~= Seq::<EntryView>::empty());
        }
    }

    /// Adds a match found.
    pub fn push_result(&mut self, entry: Entry)
        ensures
            final(self)@ == (SearchViewState { results: old(self)@.results.push(entry@), ..old(self)@ }),
    {
        let ghost prev = self.results@;
        let ghost ev = entry@;
        self.results.push(entry);
        proof {
            assert(entry_views(self.results@) =~= entry_views(prev).push(ev));
        }
    }

    /// Marks the search done, and whether it stopped at its limit.
    pub fn finish(&mut self, truncated: bool)
        ensures
            final(self)@ == (SearchViewState { truncated, ..old(self)@ }),
    {
        self.truncated = truncated;
    }

    /// The selected match, if the selection is on one.
    pub fn selected_entry(&self) -> (r: Option<&Entry>)
        ensures
            match r {
                Some(e) => 0 <= self@.selected < self@.results.len() && e@ == self@.results[self@.selected],
                None => self@.selected >= self@.results.len(),
            },
    {
        if self.selected < self.results.len() {
            Some(&self.results[self.selected])
        } else {
            None
        }
    }

    fn insert_char_at(&mut self, index: usize, ch: char)
        ensures
            final(self)@ == (SearchViewState { pattern: insert_at(old(self)@.pattern, index as int, ch), ..old(self)@ }),
    {
        let mut v: Vec<char> = chars_of(self.pattern.as_str());
        let at: usize = if index <= v.len() {
            index
        } else {
            v.len()
        };
        v.insert(at, ch);
        self.pattern = string_of(&v);
    }

    fn remove_char_at(&mut self, index: usize)
        requires
            index < old(self)@.pattern.len(),
        ensures
            final(self)@ == (SearchViewState { pattern: old(self)@.pattern.remove(index as int), ..old(self)@ }),
    {
        let mut v: Vec<char> = chars_of(self.pattern.as_str());
        v.remove(index);
        self.pattern = string_of(&v);
    }
}

impl Default for SearchView {
    fn default() -> (v: SearchView)
        ensures
            v@.pattern.len() == 0,
            v@.cursor == 0,
            v@.results.len() == 0,
            v@.selected == 0,
            !v@.truncated,
    {
        SearchView::new()
    }
}

} // verus!
