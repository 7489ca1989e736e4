//! Directory entries and remote path strings.
pub mod search;

use vstd::prelude::*;

verus! {

/// One file or directory in a listing. `path` is the full path of the
/// entry; `permissions` is the Unix mode when known.
#[derive(Debug, Clone, PartialEq, Eq)]
pub struct Entry {
    pub name: String,
    pub path: String,
    pub is_dir: bool,
    pub size: u64,
    pub permissions: Option<u32>,
}

/// The plain-value view of an `Entry`.
pub struct EntryView {
    pub name: Seq<char>,
    pub path: Seq<char>,
    pub is_dir: bool,
    pub size: u64,
    pub permissions: Option<u32>,
}

impl View for Entry {
    type V = EntryView;

    open spec fn view(&self) -> EntryView {
        EntryView {
            name: self.name@,
            path: self.path@,
            is_dir: self.is_dir,
            size: self.size,
            permissions: self.permissions,
        }
    }
}

/// A copy of `entry` with equal contents.
pub fn clone_entry(entry: &Entry) -> (r: Entry)
    ensures
        r@ == entry@,
{
    Entry {
        name: entry.name.clone(),
        path: entry.path.clone(),
        is_dir: entry.is_dir,
        size: entry.size,
        permissions: entry.permissions,
    }
}

/// The string form of a local path as the SFTP server is sent it.
pub fn path_to_remote_string(path: &str) -> (r: String)
    ensures
        r@ == path@,
{
    path.to_owned()
}

/// `parent/name` for remote (always `/`-separated) paths, without doubling
/// a trailing slash.
pub open spec fn remote_join(parent: Seq<char>, name: Seq<char>) -> Seq<char> {
    if parent.len() > 0 && parent.last() == '/' {
        parent + name
    } else {
        parent + seq!['/'] + name
    }
}

/// Joins a remote directory path and an entry name.
pub fn join(parent: &str, name: &str) -> (r: String)
    ensures
        r@ == remote_join(parent@, name@),
{
    let n: usize = parent.unicode_len();
    let mut r: String = parent.to_owned();
    if n > 0 && parent.get_char(n - 1) == '/' {
        r.append(name);
    } else {
        crate::text::push_char(&mut r, '/');
        r.append(name);
    }
    r
}

} // verus!
