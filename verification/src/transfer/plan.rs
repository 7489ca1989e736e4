//! Planning a copy that includes directories: every file to transfer with
//! its source and destination resolved, what already sits at each
//! destination, and the directories to create first.
use vstd::prelude::*;

use super::job::Direction;
use crate::filesystem::{path_to_remote_string, Entry};
use crate::paths::{path_join, path_joined};

verus! {

/// What was found at a path before copying to it.
#[derive(Debug, Clone, Copy, PartialEq, Eq, Structural)]
pub struct ExistingFile {
    pub size: u64,
    pub modified: Option<u64>,
    pub is_dir: bool,
}

/// One file to copy, with its final source and destination resolved.
/// `existing` is what already sits at the destination, `partial` the
/// `.part` file an earlier attempt left there; `resume` asks the copy to
/// continue such a part file.
#[derive(Debug, Clone)]
pub struct PlannedFile {
    pub local_path: String,
    pub remote_path: String,
    pub display_name: String,
    pub size: u64,
    pub source_modified: Option<u64>,
    pub existing: Option<ExistingFile>,
    pub partial: Option<ExistingFile>,
    pub resume: bool,
}

pub struct PlannedView {
    pub local_path: Seq<char>,
    pub remote_path: Seq<char>,
    pub display_name: Seq<char>,
    pub size: u64,
    pub source_modified: Option<u64>,
    pub existing: Option<ExistingFile>,
    pub partial: Option<ExistingFile>,
    pub resume: bool,
}

impl View for PlannedFile {
    type V = PlannedView;

    open spec fn view(&self) -> PlannedView {
        PlannedView {
            local_path: self.local_path@,
            remote_path: self.remote_path@,
            display_name: self.display_name@,
            size: self.size,
            source_modified: self.source_modified,
            existing: self.existing,
            partial: self.partial,
            resume: self.resume,
        }
    }
}

/// A file is a conflict when something already sits at its destination,
/// or a part file from an earlier attempt does.
pub open spec fn conflicting(f: PlannedView) -> bool {
    f.existing is Some || f.partial is Some
}

/// Where a file is written: the remote path on upload, the local path on
/// download.
pub open spec fn destination_path(f: PlannedView, direction: Direction) -> Seq<char> {
    match direction {
        Direction::Upload => f.remote_path,
        Direction::Download => f.local_path,
    }
}

impl PlannedFile {
    pub fn is_conflict(&self) -> (r: bool)
        ensures
            r == conflicting(self@),
    {
        self.existing.is_some() || self.partial.is_some()
    }

    pub fn destination(&self, direction: Direction) -> (r: String)
        ensures
            r@ == destination_path(self@, direction),
    {
        match direction {
            Direction::Upload => self.remote_path.clone(),
            Direction::Download => self.local_path.clone(),
        }
    }
}

/// Every file a directory copy will transfer, the symlinks skipped on the
/// way, and for each destination directory the names in it that are taken.
pub struct DirectoryPlan {
    pub files: Vec<PlannedFile>,
    pub skipped_symlinks: usize,
    pub taken_names: Vec<(String, Vec<String>)>,
}

pub enum PlanOutcome {
    Ready(DirectoryPlan),
    Cancelled,
}

/// What one directory entry met during a walk is.
#[derive(Debug, Clone, Copy, PartialEq, Eq, Structural)]
pub enum EntryKind {
    Symlink,
    Directory,
    File,
}

/// A tree found by walking a source directory. `directories` and `files`
/// hold paths relative to the walked root; a directory comes before
/// anything inside it.
pub struct DiscoveredTree {
    pub directories: Vec<String>,
    pub files: Vec<(String, u64)>,
    pub skipped_symlinks: usize,
}

pub struct TreeView {
    pub directories: Seq<Seq<char>>,
    pub files: Seq<(Seq<char>, u64)>,
    pub skipped_symlinks: usize,
}

impl View for DiscoveredTree {
    type V = TreeView;

    open spec fn view(&self) -> TreeView {
        TreeView {
            directories: self.directories@.map_values(|d: String| d@),
            files: self.files@.map_values(|f: (String, u64)| (f.0@, f.1)),
            skipped_symlinks: self.skipped_symlinks,
        }
    }
}

impl DiscoveredTree {
    pub fn new() -> (t: DiscoveredTree)
        ensures
            t@.directories.len() == 0,
            t@.files.len() == 0,
            t@.skipped_symlinks == 0,
    {
        DiscoveredTree { directories: Vec::new(), files: Vec::new(), skipped_symlinks: 0 }
    }

    /// Records an entry met at `relative`: a symlink is counted and
    /// skipped, a directory is listed and walked into, a file is listed
    /// with its size. Returns whether the walk descends into the entry.
    pub fn record(&mut self, relative: String, kind: EntryKind, size: u64) -> (descend: bool)
        requires
            kind == EntryKind::Symlink ==> old(self)@.skipped_symlinks < usize::MAX,
        ensures
            descend == (kind == EntryKind::Directory),
            final(self)@ == match kind {
                EntryKind::Symlink => TreeView { skipped_symlinks: (old(self)@.skipped_symlinks + 1) as usize, ..old(self)@ },
                EntryKind::Directory => TreeView { directories: old(self)@.directories.push(relative@), ..old(self)@ },
                EntryKind::File => TreeView { files: old(self)@.files.push((relative@, size)), ..old(self)@ },
            },
    {
        match kind {
            EntryKind::Symlink => {
                self.skipped_symlinks = self.skipped_symlinks + 1;
                false
            },
            EntryKind::Directory => {
                let ghost prev = self.directories@;
                let ghost rv = relative@;
                self.directories.push(relative);
                proof {
                    assert(self.directories@.map_values(|d: String| d@) =~= prev.map_values(|d: String| d@).push(rv));
                }
                true
            },
            EntryKind::File => {
                let ghost prev = self.files@;
                let ghost rv = relative@;
                self.files.push((relative, size));
                proof {
                    assert(self.files@.map_values(|f: (String, u64)| (f.0@, f.1)) =~= prev.map_values(
                        |f: (String, u64)| (f.0@, f.1),
                    ).push((rv, size)));
                }
                false
            },
        }
    }

    /// The directories to create at `dest_root` before copying the tree's
    /// files: the root itself, then each walked directory under it, parents
    /// first.
    pub fn destination_directories(&self, dest_root: &str) -> (dirs: Vec<String>)
        ensures
            dirs@.len() == self@.directories.len() + 1,
            dirs@[0]@ == dest_root@,
            forall|i: int|
                0 <= i < self@.directories.len() ==> #[trigger] dirs@[i + 1]@ == path_joined(
                    dest_root@,
                    self@.directories[i],
                ),
    {
        let mut dirs: Vec<String> = Vec::new();
        dirs.push(dest_root.to_owned());
        let mut i: usize = 0;
        while i < self.directories.len()
            invariant
                i <= self.directories.len(),
                dirs@.len() == i + 1,
                dirs@[0]@ == dest_root@,
                forall|k: int|
                    0 <= k < i ==> #[trigger] dirs@[k + 1]@ == path_joined(dest_root@, self@.directories[k]),
            decreases self.directories.len() - i,
        {
            let d: String = path_join(dest_root, self.directories[i].as_str());
            dirs.push(d);
            i = i + 1;
        }
        dirs
    }
}

/// The planned file for a loose file (one not under a copied directory):
/// on upload from its own path to `dest_dir` joined with its name, on
/// download from its remote path to `dest_dir` joined with its name.
pub open spec fn loose_file(direction: Direction, entry_name: Seq<char>, entry_path: Seq<char>, size: u64, dest_dir: Seq<char>) -> PlannedView {
    PlannedView {
        local_path: match direction {
            Direction::Upload => entry_path,
            Direction::Download => path_joined(dest_dir, entry_name),
        },
        remote_path: match direction {
            Direction::Upload => path_joined(dest_dir, entry_name),
            Direction::Download => entry_path,
        },
        display_name: entry_name,
        size,
        source_modified: None,
        existing: None,
        partial: None,
        resume: false,
    }
}

/// The planned file for a file found at `relative` under a copied
/// directory whose path is `entry_path` and whose copy is `dest_root`.
pub open spec fn tree_file(direction: Direction, entry_path: Seq<char>, dest_root: Seq<char>, relative: Seq<char>, size: u64) -> PlannedView {
    PlannedView {
        local_path: match direction {
            Direction::Upload => path_joined(entry_path, relative),
            Direction::Download => path_joined(dest_root, relative),
        },
        remote_path: match direction {
            Direction::Upload => path_joined(dest_root, relative),
            Direction::Download => path_joined(entry_path, relative),
        },
        display_name: relative,
        size,
        source_modified: None,
        existing: None,
        partial: None,
        resume: false,
    }
}

pub open spec fn planned_views(s: Seq<PlannedFile>) -> Seq<PlannedView> {
    s.map_values(|f: PlannedFile| f@)
}

/// Resolves a loose file's source and destination.
pub fn planned_file_for_loose_entry(direction: Direction, entry: &Entry, dest_dir: &str) -> (f: PlannedFile)
    ensures
        f@ == loose_file(direction, entry.name@, entry.path@, entry.size, dest_dir@),
{
    let (local_path, remote_path) = match direction {
        Direction::Upload => (entry.path.clone(), path_to_remote_string(path_join(dest_dir, entry.name.as_str()).as_str())),
        Direction::Download => (path_join(dest_dir, entry.name.as_str()), path_to_remote_string(entry.path.as_str())),
    };
    PlannedFile {
        local_path,
        remote_path,
        display_name: entry.name.clone(),
        size: entry.size,
        source_modified: None,
        existing: None,
        partial: None,
        resume: false,
    }
}

/// Resolves the source and destination of every file found under a
/// copied directory, in the order they were found.
pub fn planned_files_for_tree(direction: Direction, entry: &Entry, dest_root: &str, tree: &DiscoveredTree) -> (files: Vec<PlannedFile>)
    ensures
        planned_views(files@) == tree@.files.map_values(
            |f: (Seq<char>, u64)| tree_file(direction, entry.path@, dest_root@, f.0, f.1),
        ),
{
    let ghost m = |f: (Seq<char>, u64)| tree_file(direction, entry.path@, dest_root@, f.0, f.1);
    let mut files: Vec<PlannedFile> = Vec::new();
    let mut i: usize = 0;
    while i < tree.files.len()
        invariant
            i <= tree.files.len(),
            m == (|f: (Seq<char>, u64)| tree_file(direction, entry.path@, dest_root@, f.0, f.1)),
            planned_views(files@) == tree@.files.take(i as int).map_values(m),
        decreases tree.files.len() - i,
    {
        let relative: &str = tree.files[i].0.as_str();
        let size: u64 = tree.files[i].1;
        let (local_path, remote_path) = match direction {
            Direction::Upload => (
                path_join(entry.path.as_str(), relative),
                path_to_remote_string(path_join(dest_root, relative).as_str()),
            ),
            Direction::Download => (
                path_join(dest_root, relative),
                path_to_remote_string(path_join(entry.path.as_str(), relative).as_str()),
            ),
        };
        let f = PlannedFile {
            local_path,
            remote_path,
            display_name: relative.to_owned(),
            size,
            source_modified: None,
            existing: None,
            partial: None,
            resume: false,
        };
        let ghost prev = files@;
        files.push(f);
        proof {
            assert(tree@.files[i as int] == (tree.files@[i as int].0@, tree.files@[i as int].1));
            assert(tree@.files.take(i + 1) == tree@.files.take(i as int).push(tree@.files[i as int]));
            assert(planned_views(files@) =~= planned_views(prev).push(f@));
        }
        i = i + 1;
    }
    proof {
        assert(tree@.files.take(tree@.files.len() as int) == tree@.files);
    }
    files
}

} // verus!
