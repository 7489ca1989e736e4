//! Saved places: a local path, or a path on a named host.
use vstd::prelude::*;

use crate::paths::{path_join, path_joined};
use super::{warning_texts, FileContents, StartupWarning};

verus! {

#[derive(Debug, Clone, PartialEq, Eq)]
pub struct Bookmark {
    pub label: String,
    pub path: String,
    pub host: Option<String>,
}

pub struct BookmarkView {
    pub label: Seq<char>,
    pub path: Seq<char>,
    pub host: Option<Seq<char>>,
}

impl View for Bookmark {
    type V = BookmarkView;

    open spec fn view(&self) -> BookmarkView {
        BookmarkView {
            label: self.label@,
            path: self.path@,
            host: match self.host {
                Some(h) => Some(h@),
                None => None,
            },
        }
    }
}

/// The bookmarks, in the order they were added.
pub struct Bookmarks(Vec<Bookmark>);

pub open spec fn bookmark_views(s: Seq<Bookmark>) -> Seq<BookmarkView> {
    s.map_values(|b: Bookmark| b@)
}

impl View for Bookmarks {
    type V = Seq<BookmarkView>;

    closed spec fn view(&self) -> Seq<BookmarkView> {
        bookmark_views(self.0@)
    }
}

impl Default for Bookmarks {
    fn default() -> (r: Bookmarks)
        ensures
            r@.len() == 0,
    {
        let r = Bookmarks(Vec::new());
        proof {
            assert(bookmark_views(r.0@) =~= Seq::<BookmarkView>::empty());
        }
        r
    }
}

impl Bookmarks {
    /// The bookmarks read from the bookmarks file, in its order.
    pub fn from_list(list: Vec<Bookmark>) -> (r: Bookmarks)
        ensures
            r@ == bookmark_views(list@),
    {
        Bookmarks(list)
    }

    pub fn iter(&self) -> (r: &[Bookmark])
        ensures
            bookmark_views(r@) == self@,
    {
        self.0.as_slice()
    }

    pub fn len(&self) -> (r: usize)
        ensures
            r == self@.len(),
    {
        self.0.len()
    }

    pub fn is_empty(&self) -> (r: bool)
        ensures
            r == (self@.len() == 0),
    {
        self.0.len() == 0
    }

    pub fn get(&self, index: usize) -> (r: Option<&Bookmark>)
        ensures
            match r {
                Some(b) => index < self@.len() && b@ == self@[index as int],
                None => index >= self@.len(),
            },
    {
        if index < self.0.len() {
            Some(&self.0[index])
        } else {
            None
        }
    }

    /// Adds a bookmark after the others.
    pub fn add(&mut self, bookmark: Bookmark)
        ensures
            final(self)@ == old(self)@.push(bookmark@),
    {
        let ghost prev = self.0@;
        let ghost bv = bookmark@;
        self.0.push(bookmark);
        proof {
            assert(bookmark_views(self.0@) =~= bookmark_views(prev).push(bv));
        }
    }

    /// Removes and returns the bookmark at `index`, if there is one.
    pub fn remove(&mut self, index: usize) -> (r: Option<Bookmark>)
        ensures
            match r {
                Some(b) => index < old(self)@.len() && b@ == old(self)@[index as int] && final(self)@ == old(
                    self,
                )@.remove(index as int),
                None => index >= old(self)@.len() && final(self)@ == old(self)@,
            },
    {
        if index < self.0.len() {
            let ghost prev = self.0@;
            let b: Bookmark = self.0.remove(index);
            proof {
                assert(bookmark_views(self.0@) =~= bookmark_views(prev).remove(index as int));
            }
            Some(b)
        } else {
            None
        }
    }
}

/// The bookmarks, given what was found of `bookmarks.toml`: none when it
/// is missing, none and a warning when it cannot be parsed, else those it
/// lists, in its order.
pub fn load(file: FileContents<Vec<Bookmark>>) -> (r: (Bookmarks, Vec<StartupWarning>))
    ensures
        match file {
            FileContents::Missing => r.0@.len() == 0 && r.1@.len() == 0,
            FileContents::Unparsable(e) => r.0@.len() == 0 && warning_texts(r.1@) == seq![
                "failed to parse bookmarks.toml: "@ + e@,
            ],
            FileContents::Parsed(list) => r.0@ == bookmark_views(list@) && r.1@.len() == 0,
        },
{
    match file {
        FileContents::Missing => (Bookmarks::default(), Vec::new()),
        FileContents::Unparsable(e) => {
            let mut message: String = "failed to parse bookmarks.toml: ".to_owned();
            message.append(e.as_str());
            let mut warnings: Vec<StartupWarning> = Vec::new();
            warnings.push(StartupWarning(message));
            proof {
                assert(warning_texts(warnings@) =~= seq![message@]);
            }
            (Bookmarks::default(), warnings)
        },
        FileContents::Parsed(list) => (Bookmarks::from_list(list), Vec::new()),
    }
}

/// How the bookmarks list shows a bookmark: its label and path, and the
/// host in brackets for a remote one.
pub open spec fn bookmark_line(b: BookmarkView) -> Seq<char> {
    b.label + " \u{2014} "@ + b.path + match b.host {
        Some(h) => " ["@ + h + "]"@,
        None => Seq::empty(),
    }
}

pub fn bookmark_label(bookmark: &Bookmark) -> (r: String)
    ensures
        r@ == bookmark_line(bookmark@),
{
    let mut r: String = bookmark.label.clone();
    r.append(" \u{2014} ");
    r.append(bookmark.path.as_str());
    let ghost before = r@;
    match &bookmark.host {
        Some(h) => {
            r.append(" [");
            r.append(h.as_str());
            r.append("]");
        },
        None => {
            proof {
                assert(before + Seq::<char>::empty() =~= before);
            }
        },
    }
    r
}

/// Where the bookmarks file lives in the configuration directory.
pub fn bookmarks_path(config_dir: &str) -> (r: String)
    ensures
        r@ == path_joined(config_dir@, "bookmarks.toml"@),
{
    path_join(config_dir, "bookmarks.toml")
}

/// Adding a bookmark and removing it again leaves the bookmarks as they
/// were.
pub proof fn lemma_add_then_remove(b: Seq<BookmarkView>, x: BookmarkView)
    ensures
        b.push(x).remove(b.len() as int) == b,
{
    assert(b.push(x).remove(b.len() as int) =~= b);
}

} // verus!
