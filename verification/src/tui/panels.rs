//! The state of one file panel: its directory, the listing, which rows are
//! shown in which order, the cursor and the selection.
use vstd::prelude::*;

use crate::filesystem::{clone_entry, Entry, EntryView};
use crate::paths::{path_join, path_joined, path_parent, path_parent_of};
use crate::seq_facts::{lemma_filter_elements, lemma_filter_no_duplicates};
use crate::tui::sort::{is_stable_sort_by, lemma_perm_onto, lemma_stable_sort_unique, sort_entries, views, SortKey, SortOrder, SortSpec};

verus! {

#[derive(Debug, Clone, Copy, PartialEq, Eq, Structural)]
pub enum ActivePanel {
    Local,
    Remote,
}

impl ActivePanel {
    /// Focuses the other panel.
    pub fn toggle(&mut self)
        ensures
            *final(self) != *old(self),
    {
        *self = match self {
            ActivePanel::Local => ActivePanel::Remote,
            ActivePanel::Remote => ActivePanel::Local,
        };
    }
}

/// One line of a listing: the synthetic `..` entry, or a real entry.
#[derive(Debug, Clone, PartialEq, Eq)]
pub enum Row {
    Parent,
    Entry(Entry),
}

pub enum RowView {
    Parent,
    Entry(EntryView),
}

impl View for Row {
    type V = RowView;

    open spec fn view(&self) -> RowView {
        match self {
            Row::Parent => RowView::Parent,
            Row::Entry(e) => RowView::Entry(e@),
        }
    }
}

pub open spec fn row_views(rows: Seq<Row>) -> Seq<RowView> {
    rows.map_values(|r: Row| r@)
}

pub open spec fn row_entry(r: RowView) -> EntryView {
    match r {
        RowView::Entry(e) => e,
        RowView::Parent => EntryView { name: Seq::empty(), path: Seq::empty(), is_dir: false, size: 0, permissions: None },
    }
}

pub open spec fn is_hidden_name(name: Seq<char>) -> bool {
    name.len() > 0 && name[0] == '.'
}

pub open spec fn is_shown(e: EntryView, show_hidden: bool) -> bool {
    show_hidden || !is_hidden_name(e.name)
}

/// The entries of `all` that a panel shows, in listing order.
pub open spec fn visible(all: Seq<EntryView>, show_hidden: bool) -> Seq<EntryView> {
    all.filter(|e: EntryView| is_shown(e, show_hidden))
}

pub open spec fn has_parent(path: Seq<char>) -> bool {
    path_parent_of(path) is Some
}

pub open spec fn parent_rows(path: Seq<char>) -> int {
    if has_parent(path) {
        1
    } else {
        0
    }
}

pub open spec fn listed_entries(rows: Seq<RowView>, off: int) -> Seq<EntryView> {
    rows.skip(off).map_values(|r: RowView| row_entry(r))
}

/// The rows a panel at `path` shows for the listing `all`: `..` first when
/// the path has a parent, then the shown entries stably sorted by `spec`.
pub open spec fn rows_match(
    rows: Seq<RowView>,
    path: Seq<char>,
    all: Seq<EntryView>,
    spec: SortSpec,
    show_hidden: bool,
) -> bool {
    let off = parent_rows(path);
    &&& rows.len() == off + visible(all, show_hidden).len()
    &&& off == 1 ==> rows[0] is Parent
    &&& forall|k: int| off <= k < rows.len() ==> #[trigger] rows[k] is Entry
    &&& exists|perm: Seq<int>|
        is_stable_sort_by(listed_entries(rows, off), visible(all, show_hidden), perm, spec)
}

/// `cursor` moved into `0..len`, or 0 for an empty listing.
pub open spec fn clamped(cursor: int, len: int) -> int {
    if len <= 0 {
        0
    } else if cursor >= len {
        len - 1
    } else if cursor < 0 {
        0
    } else {
        cursor
    }
}

pub struct PanelView {
    pub path: Seq<char>,
    pub all_entries: Seq<EntryView>,
    pub rows: Seq<RowView>,
    pub cursor: int,
    pub selected: Seq<Seq<char>>,
    pub sort_spec: SortSpec,
    pub show_hidden: bool,
}

pub struct PanelState {
    path: String,
    all_entries: Vec<Entry>,
    rows: Vec<Row>,
    cursor: usize,
    selected: Vec<String>,
    sort_spec: SortSpec,
    show_hidden: bool,
}

pub open spec fn strings_view(s: Seq<String>) -> Seq<Seq<char>> {
    s.map_values(|x: String| x@)
}

/// Whether some entry of `all` has `path`.
pub open spec fn has_path(all: Seq<EntryView>, path: Seq<char>) -> bool {
    exists|i: int| 0 <= i < all.len() && #[trigger] all[i].path == path
}

/// The path, the listing, the sort and the hidden-file setting fix a
/// panel's rows: two row sequences that both match them are equal.
pub proof fn lemma_rows_determined(
    r1: Seq<RowView>,
    r2: Seq<RowView>,
    path: Seq<char>,
    all: Seq<EntryView>,
    spec: SortSpec,
    show_hidden: bool,
)
    requires
        rows_match(r1, path, all, spec, show_hidden),
        rows_match(r2, path, all, spec, show_hidden),
    ensures
        r1 == r2,
{
    let off = parent_rows(path);
    let vis = visible(all, show_hidden);
    let l1 = listed_entries(r1, off);
    let l2 = listed_entries(r2, off);
    let p1 = choose|perm: Seq<int>| is_stable_sort_by(l1, vis, perm, spec);
    let p2 = choose|perm: Seq<int>| is_stable_sort_by(l2, vis, perm, spec);
    lemma_stable_sort_unique(l1, l2, vis, p1, p2, spec);
    assert forall|k: int| 0 <= k < r1.len() implies r1[k] == r2[k] by {
        if k < off {
            assert(k == 0);
        } else {
            assert(l1[k - off] == row_entry(r1[k]));
            assert(l2[k - off] == row_entry(r2[k]));
            assert(r1[k] is Entry && r2[k] is Entry);
        }
    }
    assert(r1 =~= r2);
}

/// Showing and then hiding hidden files again (or any change that comes
/// back to the same path, listing, sort and setting) gives back the same
/// rows.
pub proof fn lemma_toggle_hidden_twice(before: PanelState, after: PanelState)
    requires
        before.rows_ok(),
        after.rows_ok(),
        after@.path == before@.path,
        after@.all_entries == before@.all_entries,
        after@.sort_spec == before@.sort_spec,
        after@.show_hidden == before@.show_hidden,
    ensures
        after@.rows == before@.rows,
{
    lemma_rows_determined(
        after@.rows,
        before@.rows,
        before@.path,
        before@.all_entries,
        before@.sort_spec,
        before@.show_hidden,
    );
}

/// The test that keeps every path but `path`.
pub open spec fn other_than(path: Seq<char>) -> spec_fn(Seq<char>) -> bool {
    |p: Seq<char>| p != path
}

/// A selection with `path` added when it was absent, or taken out when it
/// was there.
pub open spec fn toggled(selected: Seq<Seq<char>>, path: Seq<char>) -> Seq<Seq<char>> {
    if selected.contains(path) {
        selected.filter(other_than(path))
    } else {
        selected.push(path)
    }
}

/// Keeping what every element satisfies keeps the whole sequence.
proof fn lemma_filter_keeps_all(s: Seq<Seq<char>>, p: spec_fn(Seq<char>) -> bool)
    requires
        forall|i: int| 0 <= i < s.len() ==> p(#[trigger] s[i]),
    ensures
        s.filter(p) == s,
    decreases s.len(),
{
    if s.len() > 0 {
        let init = s.drop_last();
        assert forall|i: int| 0 <= i < init.len() implies p(#[trigger] init[i]) by {
            assert(init[i] == s[i]);
        }
        lemma_filter_keeps_all(init, p);
        assert(init.push(s.last()) == s);
        init.lemma_filter_push(s.last(), p);
    } else {
        assert(s.filter(p) =~= s);
    }
}

/// Toggling the same path twice gives back the selection as a set of paths
/// (exactly, when the path was not selected), still holding each path once.
pub proof fn lemma_toggle_selection_twice(selected: Seq<Seq<char>>, path: Seq<char>)
    requires
        selected.no_duplicates(),
    ensures
        toggled(toggled(selected, path), path).to_set() == selected.to_set(),
        toggled(toggled(selected, path), path).no_duplicates(),
        !selected.contains(path) ==> toggled(toggled(selected, path), path) == selected,
{
    broadcast use vstd::seq_lib::group_filter_ensures;

    let pred = other_than(path);
    let once = toggled(selected, path);
    let twice = toggled(once, path);
    if selected.contains(path) {
        assert(once == selected.filter(pred));
        lemma_filter_no_duplicates(selected, pred);
        assert(!once.contains(path)) by {
            if once.contains(path) {
                let k = choose|k: int| 0 <= k < once.len() && once[k] == path;
                lemma_filter_elements(selected, pred, k);
            }
        }
        assert(twice == once.push(path));
        assert forall|x: Seq<char>| #[trigger] twice.to_set().contains(x) == selected.to_set().contains(x) by {
            if x == path {
                assert(twice[once.len() as int] == path);
            } else {
                if selected.contains(x) {
                    assert(pred(x));
                    selected.lemma_filter_contains_rev(pred, x);
                    assert(once.contains(x));
                    let k = choose|k: int| 0 <= k < once.len() && once[k] == x;
                    assert(once.push(path)[k] == once[k]);
                    assert(twice[k] == x);
                }
                if twice.contains(x) {
                    let k = choose|k: int| 0 <= k < twice.len() && twice[k] == x;
                    assert(k < once.len());
                    assert(once[k] == x);
                    lemma_filter_elements(selected, pred, k);
                }
            }
        }
        assert(twice.to_set() =~= selected.to_set());
        assert forall|i: int, j: int| 0 <= i < twice.len() && 0 <= j < twice.len() && i != j implies twice[i]
            != twice[j] by {
            if i < once.len() && j < once.len() {
                assert(twice[i] == once[i] && twice[j] == once[j]);
            } else if i < once.len() {
                assert(twice[i] == once[i]);
            } else {
                assert(twice[j] == once[j]);
            }
        }
    } else {
        assert(once == selected.push(path));
        assert(once.contains(path)) by {
            assert(once[selected.len() as int] == path);
        }
        selected.lemma_filter_push(path, pred);
        assert forall|i: int| 0 <= i < selected.len() implies pred(#[trigger] selected[i]) by {
            if selected[i] == path {
                assert(selected.contains(path));
            }
        }
        lemma_filter_keeps_all(selected, pred);
        assert(!pred(path));
        assert(twice == once.filter(pred));
        assert(selected.push(path).filter(pred) == selected.filter(pred));
        assert(twice == selected);
    }
}

/// Every entry a panel's rows show is an entry of its listing.
pub proof fn lemma_row_entry_listed(
    rows: Seq<RowView>,
    path: Seq<char>,
    all: Seq<EntryView>,
    spec: SortSpec,
    show_hidden: bool,
    c: int,
)
    requires
        rows_match(rows, path, all, spec, show_hidden),
        0 <= c < rows.len(),
        rows[c] is Entry,
    ensures
        all.contains(row_entry(rows[c])),
        has_path(all, row_entry(rows[c]).path),
{
    let off = parent_rows(path);
    let vis = visible(all, show_hidden);
    let listed = listed_entries(rows, off);
    let perm = choose|perm: Seq<int>| is_stable_sort_by(listed, vis, perm, spec);
    assert(c >= off);
    assert(listed[c - off] == row_entry(rows[c]));
    assert(listed[c - off] == vis[perm[c - off]]);
    lemma_filter_elements(all, |e: EntryView| is_shown(e, show_hidden), perm[c - off]);
    let j = choose|j: int| 0 <= j < all.len() && all[j] == row_entry(rows[c]);
    assert(all[j].path == row_entry(rows[c]).path);
}

/// The row under `cursor`, if any.
pub open spec fn row_at(rows: Seq<RowView>, cursor: int) -> Option<RowView> {
    if 0 <= cursor < rows.len() {
        Some(rows[cursor])
    } else {
        None
    }
}

/// The entry under `cursor`, if the cursor is on a real entry.
pub open spec fn entry_at(rows: Seq<RowView>, cursor: int) -> Option<EntryView> {
    match row_at(rows, cursor) {
        Some(RowView::Entry(e)) => Some(e),
        _ => None,
    }
}

impl View for PanelState {
    type V = PanelView;

    closed spec fn view(&self) -> PanelView {
        PanelView {
            path: self.path@,
            all_entries: views(self.all_entries@),
            rows: row_views(self.rows@),
            cursor: self.cursor as int,
            selected: strings_view(self.selected@),
            sort_spec: self.sort_spec,
            show_hidden: self.show_hidden,
        }
    }
}

impl PanelState {
    /// The rows agree with the listing and settings, and the cursor is on a
    /// row (or 0 when there are none).
    pub open spec fn rows_ok(&self) -> bool {
        &&& rows_match(self@.rows, self@.path, self@.all_entries, self@.sort_spec, self@.show_hidden)
        &&& self@.cursor == clamped(self@.cursor, self@.rows.len() as int)
    }

    /// The selection names each path once, and only paths of the listing.
    pub open spec fn selection_ok(&self) -> bool {
        &&& self@.selected.no_duplicates()
        &&& forall|k: int| 0 <= k < self@.selected.len() ==> #[trigger] has_path(self@.all_entries, self@.selected[k])
    }

    /// The rows and the cursor agree with the listing and settings, and the
    /// selection is a set of paths of the listing.
    pub open spec fn wf(&self) -> bool {
        &&& self.rows_ok()
        &&& self.selection_ok()
    }

    /// Rebuilds the rows from the listing, the hidden-file setting and the
    /// sort spec, then pulls the cursor back onto a row.
    fn recompute_rows(&mut self)
        ensures
            final(self).rows_ok(),
            final(self)@.path == old(self)@.path,
            final(self)@.all_entries == old(self)@.all_entries,
            final(self)@.selected == old(self)@.selected,
            final(self)@.sort_spec == old(self)@.sort_spec,
            final(self)@.show_hidden == old(self)@.show_hidden,
            final(self)@.cursor == clamped(old(self)@.cursor, final(self)@.rows.len() as int),
    {
        let ghost all = views(self.all_entries@);
        let ghost pred = |e: EntryView| is_shown(e, self.show_hidden);
        let mut shown: Vec<Entry> = Vec::new();
        let mut i: usize = 0;
        while i < self.all_entries.len()
            invariant
                i <= self.all_entries.len(),
                all == views(self.all_entries@),
                pred == (|e: EntryView| is_shown(e, self.show_hidden)),
                views(shown@) == all.take(i as int).filter(pred),
            decreases self.all_entries.len() - i,
        {
            let e: &Entry = &self.all_entries[i];
            proof {
                assert(all.take(i + 1) == all.take(i as int).push(all[i as int]));
                all.take(i as int).lemma_filter_push(all[i as int], pred);
            }
            if self.show_hidden || !first_char_is_dot(&e.name) {
                shown.push(clone_entry(e));
                proof {
                    assert(views(shown@) =~= views(shown@.drop_last()).push(shown@.last()@));
                }
            }
            i = i + 1;
        }
        proof {
            assert(all.take(all.len() as int) == all);
        }
        let ghost vis = views(shown@);
        sort_entries(&mut shown, self.sort_spec);
        let mut rows: Vec<Row> = Vec::new();
        let has_up: bool = path_parent(self.path.as_str()).is_some();
        if has_up {
            rows.push(Row::Parent);
        }
        let ghost off: int = if has_up {
            1
        } else {
            0
        };
        let mut k: usize = 0;
        while k < shown.len()
            invariant
                k <= shown.len(),
                0 <= off <= 1,
                rows.len() == off + k,
                off == 1 ==> row_views(rows@)[0] is Parent,
                forall|q: int| off <= q < rows.len() ==> #[trigger] row_views(rows@)[q] == RowView::Entry(
                    shown@[q - off]@,
                ),
            decreases shown.len() - k,
        {
            let ghost prev = rows@;
            let row: Row = Row::Entry(clone_entry(&shown[k]));
            let ghost rowv = row;
            rows.push(row);
            proof {
                assert(rows@ == prev.push(rowv));
                assert(rowv@ == RowView::Entry(shown@[k as int]@));
                assert forall|q: int| off <= q < rows.len() implies #[trigger] row_views(rows@)[q] == RowView::Entry(
                    shown@[q - off]@,
                ) by {
                    if q < rows.len() - 1 {
                        assert(rows@[q] == prev[q]);
                        assert(row_views(prev)[q] == row_views(rows@)[q]);
                    }
                }
                if off == 1 {
                    assert(rows@[0] == prev[0]);
                }
            }
            k = k + 1;
        }
        self.rows = rows;
        proof {
            let rv = row_views(self.rows@);
            assert(listed_entries(rv, off) =~= views(shown@));
            let perm = choose|perm: Seq<int>| is_stable_sort_by(views(shown@), vis, perm, self.sort_spec);
            assert(vis == visible(all, self.show_hidden));
            assert(is_stable_sort_by(listed_entries(rv, off), visible(all, self.show_hidden), perm, self.sort_spec));
            assert(off == parent_rows(self.path@));
            assert(rv.len() == off + visible(all, self.show_hidden).len());
            assert(forall|q: int| off <= q < rv.len() ==> #[trigger] rv[q] is Entry);
            assert(rows_match(rv, self@.path, self@.all_entries, self@.sort_spec, self@.show_hidden));
        }
        if self.rows.len() == 0 {
            self.cursor = 0;
        } else if self.cursor >= self.rows.len() {
            self.cursor = self.rows.len() - 1;
        }
    }

    /// A panel at `path` showing `entries`, with default settings.
    pub fn from_listing(path: String, entries: Vec<Entry>) -> (r: PanelState)
        ensures
            r.wf(),
            r@.path == path@,
            r@.all_entries == views(entries@),
            r@.selected == Seq::<Seq<char>>::empty(),
            r@.cursor == 0,
            r@.sort_spec == (SortSpec { key: SortKey::Name, order: SortOrder::Ascending }),
            !r@.show_hidden,
    {
        let mut panel = PanelState {
            path,
            all_entries: entries,
            rows: Vec::new(),
            cursor: 0,
            selected: Vec::new(),
            sort_spec: SortSpec { key: SortKey::Name, order: SortOrder::Ascending },
            show_hidden: false,
        };
        proof {
            assert(strings_view(panel.selected@) =~= Seq::<Seq<char>>::empty());
        }
        panel.recompute_rows();
        panel
    }

    /// A panel opened on the directory `path`, whose listing (read by the
    /// caller) is `entries`.
    pub fn new(path: String, entries: Vec<Entry>) -> (r: PanelState)
        ensures
            r.wf(),
            r@.path == path@,
            r@.all_entries == views(entries@),
            r@.selected == Seq::<Seq<char>>::empty(),
            r@.cursor == 0,
            r@.sort_spec == (SortSpec { key: SortKey::Name, order: SortOrder::Ascending }),
            !r@.show_hidden,
    {
        Self::from_listing(path, entries)
    }

    pub fn path(&self) -> (r: &String)
        ensures
            r@ == self@.path,
    {
        &self.path
    }

    pub fn rows(&self) -> (r: &Vec<Row>)
        ensures
            row_views(r@) == self@.rows,
    {
        &self.rows
    }

    pub fn cursor(&self) -> (r: usize)
        ensures
            r == self@.cursor,
    {
        self.cursor
    }

    /// Whether the entry at `path` is selected.
    pub fn is_selected(&self, path: &String) -> (r: bool)
        ensures
            r == self@.selected.contains(path@),
    {
        let mut i: usize = 0;
        while i < self.selected.len()
            invariant
                i <= self.selected.len(),
                forall|k: int| 0 <= k < i ==> strings_view(self.selected@)[k] != path@,
            decreases self.selected.len() - i,
        {
            if self.selected[i] == *path {
                assert(strings_view(self.selected@)[i as int] == path@);
                return true;
            }
            i = i + 1;
        }
        false
    }

    /// Replaces the listing with `entries` for `path`, clearing the
    /// selection and keeping the cursor on a row.
    pub fn replace_listing(&mut self, path: String, entries: Vec<Entry>)
        ensures
            final(self).wf(),
            final(self)@.path == path@,
            final(self)@.all_entries == views(entries@),
            final(self)@.selected == Seq::<Seq<char>>::empty(),
            final(self)@.sort_spec == old(self)@.sort_spec,
            final(self)@.show_hidden == old(self)@.show_hidden,
            final(self)@.cursor == clamped(old(self)@.cursor, final(self)@.rows.len() as int),
    {
        self.path = path;
        self.all_entries = entries;
        self.selected = Vec::new();
        proof {
            assert(strings_view(self.selected@) =~= Seq::<Seq<char>>::empty());
        }
        self.recompute_rows();
    }

    pub fn toggle_hidden(&mut self)
        ensures
            final(self).rows_ok(),
            old(self).wf() ==> final(self).wf(),
            final(self)@.show_hidden == !old(self)@.show_hidden,
            final(self)@.path == old(self)@.path,
            final(self)@.all_entries == old(self)@.all_entries,
            final(self)@.selected == old(self)@.selected,
            final(self)@.sort_spec == old(self)@.sort_spec,
            final(self)@.cursor == clamped(old(self)@.cursor, final(self)@.rows.len() as int),
    {
        self.show_hidden = !self.show_hidden;
        self.recompute_rows();
    }

    pub fn cycle_sort(&mut self)
        ensures
            final(self).rows_ok(),
            old(self).wf() ==> final(self).wf(),
            final(self)@.sort_spec == crate::tui::sort::next_spec(old(self)@.sort_spec),
            final(self)@.path == old(self)@.path,
            final(self)@.all_entries == old(self)@.all_entries,
            final(self)@.selected == old(self)@.selected,
            final(self)@.show_hidden == old(self)@.show_hidden,
            final(self)@.cursor == clamped(old(self)@.cursor, final(self)@.rows.len() as int),
    {
        self.sort_spec = self.sort_spec.cycled();
        self.recompute_rows();
    }

    pub fn set_sort_spec(&mut self, spec: SortSpec)
        ensures
            final(self).rows_ok(),
            old(self).wf() ==> final(self).wf(),
            final(self)@.sort_spec == spec,
            final(self)@.path == old(self)@.path,
            final(self)@.all_entries == old(self)@.all_entries,
            final(self)@.selected == old(self)@.selected,
            final(self)@.show_hidden == old(self)@.show_hidden,
            final(self)@.cursor == clamped(old(self)@.cursor, final(self)@.rows.len() as int),
    {
        self.sort_spec = spec;
        self.recompute_rows();
    }

    pub fn set_show_hidden(&mut self, show_hidden: bool)
        ensures
            final(self).rows_ok(),
            old(self).wf() ==> final(self).wf(),
            final(self)@.show_hidden == show_hidden,
            final(self)@.path == old(self)@.path,
            final(self)@.all_entries == old(self)@.all_entries,
            final(self)@.selected == old(self)@.selected,
            final(self)@.sort_spec == old(self)@.sort_spec,
            final(self)@.cursor == clamped(old(self)@.cursor, final(self)@.rows.len() as int),
    {
        self.show_hidden = show_hidden;
        self.recompute_rows();
    }

    pub fn sort_spec(&self) -> (r: SortSpec)
        ensures
            r == self@.sort_spec,
    {
        self.sort_spec
    }

    pub fn show_hidden(&self) -> (r: bool)
        ensures
            r == self@.show_hidden,
    {
        self.show_hidden
    }

    /// Shows a fresh listing of the same directory.
    pub fn refresh(&mut self, entries: Vec<Entry>)
        ensures
            final(self).wf(),
            final(self)@.path == old(self)@.path,
            final(self)@.all_entries == views(entries@),
            final(self)@.selected == Seq::<Seq<char>>::empty(),
            final(self)@.sort_spec == old(self)@.sort_spec,
            final(self)@.show_hidden == old(self)@.show_hidden,
            final(self)@.cursor == clamped(old(self)@.cursor, final(self)@.rows.len() as int),
    {
        let path: String = self.path.clone();
        self.replace_listing(path, entries);
    }

    /// Moves the cursor by `delta` rows, stopping at the first and last row.
    pub fn move_cursor(&mut self, delta: isize)
        requires
            old(self).wf(),
            old(self)@.cursor + delta <= isize::MAX,
        ensures
            final(self).wf(),
            final(self)@.cursor == clamped(old(self)@.cursor + delta, old(self)@.rows.len() as int),
            final(self)@.path == old(self)@.path,
            final(self)@.all_entries == old(self)@.all_entries,
            final(self)@.rows == old(self)@.rows,
            final(self)@.selected == old(self)@.selected,
            final(self)@.sort_spec == old(self)@.sort_spec,
            final(self)@.show_hidden == old(self)@.show_hidden,
    {
        if self.rows.len() == 0 {
            return;
        }
        let last: usize = self.rows.len() - 1;
        if delta >= 0 {
            let step: usize = delta as usize;
            if step >= last - self.cursor {
                self.cursor = last;
            } else {
                self.cursor = self.cursor + step;
            }
        } else {
            let back: usize = ((-(delta + 1)) as usize) + 1;
            if back >= self.cursor {
                self.cursor = 0;
            } else {
                self.cursor = self.cursor - back;
            }
        }
    }

    pub open spec fn target_path_for_open_spec(&self) -> Option<Seq<char>> {
        match row_at(self@.rows, self@.cursor) {
            Some(RowView::Parent) => path_parent_of(self@.path),
            Some(RowView::Entry(e)) => if e.is_dir {
                Some(e.path)
            } else {
                None
            },
            None => None,
        }
    }

    /// Where opening the row under the cursor leads: the parent directory
    /// for `..`, the directory itself for a directory entry, nothing for a
    /// file or an empty listing.
    pub fn target_path_for_open(&self) -> (r: Option<String>)
        ensures
            r.deep_view() == self.target_path_for_open_spec(),
            r.deep_view() == match row_at(self@.rows, self@.cursor) {
                Some(RowView::Parent) => path_parent_of(self@.path),
                Some(RowView::Entry(e)) => if e.is_dir {
                    Some(e.path)
                } else {
                    None
                },
                None => None,
            },
    {
        if self.cursor >= self.rows.len() {
            return None;
        }
        match &self.rows[self.cursor] {
            Row::Parent => path_parent(self.path.as_str()),
            Row::Entry(entry) => {
                if entry.is_dir {
                    Some(entry.path.clone())
                } else {
                    None
                }
            },
        }
    }

    /// Enters what the cursor is on, given the listing of
    /// `target_path_for_open()`: returns whether there was a directory to
    /// enter. On a file or an empty listing nothing changes.
    pub fn open_selected(&mut self, entries: Vec<Entry>) -> (moved: bool)
        ensures
            moved == (old(self).target_path_for_open_spec() is Some),
            moved ==> final(self).wf() && final(self)@.path == old(self).target_path_for_open_spec()->0
                && final(self)@.all_entries == views(entries@) && final(self)@.cursor == 0 && final(self)@.selected
                == Seq::<Seq<char>>::empty() && final(self)@.sort_spec == old(self)@.sort_spec
                && final(self)@.show_hidden == old(self)@.show_hidden,
            !moved ==> *final(self) == *old(self),
    {
        match self.target_path_for_open() {
            Some(target) => {
                self.navigate_to(target, entries);
                true
            },
            None => false,
        }
    }

    /// Goes to `path`, whose listing is `entries`, with the cursor at the top.
    pub fn navigate_to(&mut self, path: String, entries: Vec<Entry>)
        ensures
            final(self).wf(),
            final(self)@.path == path@,
            final(self)@.all_entries == views(entries@),
            final(self)@.cursor == 0,
            final(self)@.selected == Seq::<Seq<char>>::empty(),
            final(self)@.sort_spec == old(self)@.sort_spec,
            final(self)@.show_hidden == old(self)@.show_hidden,
    {
        self.cursor = 0;
        self.replace_listing(path, entries);
    }

    /// Selects the entry under the cursor, or deselects it if it was
    /// selected. Nothing happens on `..` or an empty listing.
    pub fn toggle_selection(&mut self)
        ensures
            final(self)@.selected == match entry_at(old(self)@.rows, old(self)@.cursor) {
                Some(e) => toggled(old(self)@.selected, e.path),
                None => old(self)@.selected,
            },
            final(self)@.path == old(self)@.path,
            final(self)@.all_entries == old(self)@.all_entries,
            final(self)@.rows == old(self)@.rows,
            final(self)@.cursor == old(self)@.cursor,
            final(self)@.sort_spec == old(self)@.sort_spec,
            final(self)@.show_hidden == old(self)@.show_hidden,
            old(self).wf() ==> final(self).wf(),
    {
        if self.cursor >= self.rows.len() {
            return;
        }
        let path: String = match &self.rows[self.cursor] {
            Row::Entry(entry) => entry.path.clone(),
            Row::Parent => {
                return ;
            },
        };
        if self.is_selected(&path) {
            let ghost old_sel = strings_view(self.selected@);
            let ghost pred = |p: Seq<char>| p != path@;
            let mut kept: Vec<String> = Vec::new();
            let mut i: usize = 0;
            while i < self.selected.len()
                invariant
                    i <= self.selected.len(),
                    old_sel == strings_view(self.selected@),
                    pred == (|p: Seq<char>| p != path@),
                    strings_view(kept@) == old_sel.take(i as int).filter(pred),
                decreases self.selected.len() - i,
            {
                proof {
                    assert(old_sel.take(i + 1) == old_sel.take(i as int).push(old_sel[i as int]));
                    old_sel.take(i as int).lemma_filter_push(old_sel[i as int], pred);
                }
                if self.selected[i] != path {
                    kept.push(self.selected[i].clone());
                    proof {
                        assert(strings_view(kept@) =~= strings_view(kept@.drop_last()).push(kept@.last()@));
                    }
                }
                i = i + 1;
            }
            proof {
                assert(old_sel.take(old_sel.len() as int) == old_sel);
                let e = entry_at(old(self)@.rows, old(self)@.cursor)->0;
                assert(e.path == path@);
                assert(pred =~= other_than(e.path));
            }
            self.selected = kept;
            proof {
                if old(self).wf() {
                    lemma_filter_no_duplicates(old_sel, pred);
                    assert forall|k: int| 0 <= k < self@.selected.len() implies #[trigger] has_path(
                        self@.all_entries,
                        self@.selected[k],
                    ) by {
                        lemma_filter_elements(old_sel, pred, k);
                        let j = choose|j: int| 0 <= j < old_sel.len() && old_sel[j] == self@.selected[k];
                        assert(has_path(old(self)@.all_entries, old_sel[j]));
                    }
                }
            }
        } else {
            let ghost old_sel = strings_view(self.selected@);
            let ghost pv = path@;
            self.selected.push(path);
            proof {
                assert(strings_view(self.selected@) =~= strings_view(self.selected@.drop_last()).push(pv));
                assert(strings_view(self.selected@) =~= old_sel.push(pv));
                if old(self).wf() {
                    let c = old(self)@.cursor;
                    lemma_row_entry_listed(
                        old(self)@.rows,
                        old(self)@.path,
                        old(self)@.all_entries,
                        old(self)@.sort_spec,
                        old(self)@.show_hidden,
                        c,
                    );
                    assert(row_entry(old(self)@.rows[c]).path == pv);
                    assert forall|i: int, j: int|
                        0 <= i < self@.selected.len() && 0 <= j < self@.selected.len() && i != j implies self@.selected[i]
                        != self@.selected[j] by {
                        if i == old_sel.len() as int {
                            assert(!old_sel.contains(pv));
                            assert(self@.selected[j] == old_sel[j]);
                        } else if j == old_sel.len() as int {
                            assert(!old_sel.contains(pv));
                            assert(self@.selected[i] == old_sel[i]);
                        }
                    }
                    assert forall|k: int| 0 <= k < self@.selected.len() implies #[trigger] has_path(
                        self@.all_entries,
                        self@.selected[k],
                    ) by {
                        if k < old_sel.len() {
                            assert(self@.selected[k] == old_sel[k]);
                        }
                    }
                }
            }
        }
    }

    /// The name of the entry under the cursor; nothing on `..` or an empty
    /// listing.
    pub fn current_entry_name(&self) -> (r: Option<String>)
        ensures
            r.deep_view() == match entry_at(self@.rows, self@.cursor) {
                Some(e) => Some(e.name),
                None => None,
            },
    {
        if self.cursor >= self.rows.len() {
            return None;
        }
        match &self.rows[self.cursor] {
            Row::Entry(entry) => Some(entry.name.clone()),
            Row::Parent => None,
        }
    }

    /// Where creating a directory called `name` in this panel puts it: the
    /// panel's directory joined with the name.
    pub fn create_directory(&self, name: &str) -> (r: String)
        ensures
            r@ == path_joined(self@.path, name@),
    {
        path_join(self.path.as_str(), name)
    }

    /// What renaming the entry under the cursor to `new_name` moves: its
    /// path, and the same directory joined with the new name; nothing on
    /// `..` or an empty listing.
    pub fn rename_current(&self, new_name: &str) -> (r: Option<(String, String)>)
        ensures
            match r {
                Some((from, to)) => entry_at(self@.rows, self@.cursor) matches Some(e) && from@ == e.path && to@
                    == path_joined(self@.path, new_name@),
                None => entry_at(self@.rows, self@.cursor) is None,
            },
    {
        if self.cursor >= self.rows.len() {
            return None;
        }
        match &self.rows[self.cursor] {
            Row::Entry(entry) => Some((entry.path.clone(), path_join(self.path.as_str(), new_name))),
            Row::Parent => None,
        }
    }

    /// The paths an operation acts on: the selection when there is one,
    /// otherwise the entry under the cursor, if any.
    pub open spec fn targets_spec(&self) -> Seq<Seq<char>> {
        if self@.selected.len() > 0 {
            self@.selected
        } else {
            match entry_at(self@.rows, self@.cursor) {
                Some(e) => seq![e.path],
                None => Seq::empty(),
            }
        }
    }

    /// The paths an operation acts on: the selection when there is one,
    /// otherwise the entry under the cursor.
    pub fn targets(&self) -> (r: Vec<String>)
        ensures
            strings_view(r@) == self.targets_spec(),
            self.wf() ==> strings_view(r@).no_duplicates(),
    {
        if self.selected.len() > 0 {
            let mut r: Vec<String> = Vec::new();
            let mut i: usize = 0;
            while i < self.selected.len()
                invariant
                    i <= self.selected.len(),
                    strings_view(r@) == strings_view(self.selected@).take(i as int),
                decreases self.selected.len() - i,
            {
                let ghost prev = r@;
                r.push(self.selected[i].clone());
                i = i + 1;
                proof {
                    assert(r@ == prev.push(self.selected@[i - 1]));
                    assert(strings_view(self.selected@).take(i as int) == strings_view(self.selected@).take(
                        i - 1,
                    ).push(self.selected@[i - 1]@));
                    assert(strings_view(r@) =~= strings_view(prev).push(self.selected@[i - 1]@));
                }
            }
            proof {
                assert(strings_view(self.selected@).take(i as int) == strings_view(self.selected@));
            }
            return r;
        }
        let mut r: Vec<String> = Vec::new();
        if self.cursor < self.rows.len() {
            match &self.rows[self.cursor] {
                Row::Entry(entry) => {
                    r.push(entry.path.clone());
                },
                Row::Parent => {},
            }
        }
        proof {
            assert(strings_view(r@) =~= match entry_at(self@.rows, self@.cursor) {
                Some(e) => seq![e.path],
                None => Seq::<Seq<char>>::empty(),
            });
        }
        r
    }

    /// Like `targets`, but the entries themselves: with a selection, the
    /// selected entries the rows show, in row order, then the selected
    /// entries that hidden files keep out of the rows, in listing order;
    /// without one, the entry under the cursor.
    pub fn target_entries(&self) -> (r: Vec<Entry>)
        requires
            self.wf(),
        ensures
            views(r@) == if self@.selected.len() > 0 {
                selected_rows(self@.rows, self@.selected) + selected_hidden(
                    self@.all_entries,
                    self@.selected,
                    self@.show_hidden,
                )
            } else {
                match entry_at(self@.rows, self@.cursor) {
                    Some(e) => seq![e],
                    None => Seq::empty(),
                }
            },
            forall|k: int| 0 <= k < r@.len() ==> self@.all_entries.contains(#[trigger] views(r@)[k]),
            entry_paths(views(r@)).to_set() == self.targets_spec().to_set(),
    {
        let mut r: Vec<Entry> = Vec::new();
        let ghost all = self@.all_entries;
        let ghost sel = self@.selected;
        let ghost rows = self@.rows;
        if self.selected.len() > 0 {
            let ghost pred = |row: RowView| row is Entry && sel.contains(row_entry(row).path);
            let ghost f = |row: RowView| row_entry(row);
            let mut i: usize = 0;
            while i < self.rows.len()
                invariant
                    i <= self.rows.len(),
                    rows == row_views(self.rows@),
                    sel == self@.selected,
                    pred == (|row: RowView| row is Entry && sel.contains(row_entry(row).path)),
                    f == (|row: RowView| row_entry(row)),
                    views(r@) == rows.take(i as int).filter(pred).map_values(f),
                decreases self.rows.len() - i,
            {
                proof {
                    assert(rows.take(i + 1) == rows.take(i as int).push(rows[i as int]));
                    rows.take(i as int).lemma_filter_push(rows[i as int], pred);
                }
                match &self.rows[i] {
                    Row::Entry(entry) => {
                        if self.is_selected(&entry.path) {
                            let ghost prev = r@;
                            r.push(clone_entry(entry));
                            proof {
                                assert(rows[i as int] == RowView::Entry(entry@));
                                let fl = rows.take(i as int).filter(pred);
                                assert(fl.push(rows[i as int]).map_values(f) =~= fl.map_values(f).push(f(rows[i as int])));
                                assert(views(r@) =~= views(prev).push(entry@));
                            }
                        } else {
                            proof {
                                assert(rows[i as int] == RowView::Entry(entry@));
                            }
                        }
                    },
                    Row::Parent => {
                        proof {
                            assert(rows[i as int] == RowView::Parent);
                        }
                    },
                }
                i = i + 1;
            }
            proof {
                assert(rows.take(rows.len() as int) == rows);
                assert(pred =~= selected_row(sel));
            }
            let ghost shown_part = views(r@);
            let ghost hp = hidden_selected(sel, self@.show_hidden);
            let mut j: usize = 0;
            while j < self.all_entries.len()
                invariant
                    j <= self.all_entries.len(),
                    all == self@.all_entries,
                    sel == self@.selected,
                    hp == hidden_selected(sel, self@.show_hidden),
                    views(r@) == shown_part + all.take(j as int).filter(hp),
                decreases self.all_entries.len() - j,
            {
                let e: &Entry = &self.all_entries[j];
                proof {
                    assert(all.take(j + 1) == all.take(j as int).push(all[j as int]));
                    all.take(j as int).lemma_filter_push(all[j as int], hp);
                    assert(e@ == all[j as int]);
                }
                if !(self.show_hidden || !first_char_is_dot(&e.name)) && self.is_selected(&e.path) {
                    let ghost prev = r@;
                    r.push(clone_entry(e));
                    proof {
                        assert(views(r@) =~= views(prev).push(all[j as int]));
                    }
                }
                j = j + 1;
            }
            proof {
                assert(all.take(all.len() as int) == all);
                lemma_target_entries_cover(*self, views(r@));
            }
            return r;
        }
        if self.cursor < self.rows.len() {
            match &self.rows[self.cursor] {
                Row::Entry(entry) => {
                    r.push(clone_entry(entry));
                    proof {
                        lemma_row_entry_listed(rows, self@.path, all, self@.sort_spec, self@.show_hidden, self@.cursor);
                    }
                },
                Row::Parent => {},
            }
        }
        proof {
            assert(views(r@) =~= match entry_at(self@.rows, self@.cursor) {
                Some(e) => seq![e],
                None => Seq::<EntryView>::empty(),
            });
            assert(entry_paths(views(r@)) =~= self.targets_spec());
        }
        r
    }
}

/// The paths of `entries`, in order.
pub open spec fn entry_paths(entries: Seq<EntryView>) -> Seq<Seq<char>> {
    entries.map_values(|e: EntryView| e.path)
}

/// The test for a row that shows a selected entry.
pub open spec fn selected_row(selected: Seq<Seq<char>>) -> spec_fn(RowView) -> bool {
    |row: RowView| row is Entry && selected.contains(row_entry(row).path)
}

/// The test for a selected entry that hidden files keep out of the rows.
pub open spec fn hidden_selected(selected: Seq<Seq<char>>, show_hidden: bool) -> spec_fn(EntryView) -> bool {
    |e: EntryView| !is_shown(e, show_hidden) && selected.contains(e.path)
}

/// The selected entries the rows show, in row order.
pub open spec fn selected_rows(rows: Seq<RowView>, selected: Seq<Seq<char>>) -> Seq<EntryView> {
    rows.filter(selected_row(selected)).map_values(|row: RowView| row_entry(row))
}

/// The selected entries that hidden files keep out of the rows, in listing
/// order.
pub open spec fn selected_hidden(all: Seq<EntryView>, selected: Seq<Seq<char>>, show_hidden: bool) -> Seq<EntryView> {
    all.filter(hidden_selected(selected, show_hidden))
}

/// With a selection, the entries `target_entries` gives are entries of the
/// listing with selected paths, and every selected path has one of them.
proof fn lemma_target_entries_cover(panel: PanelState, r: Seq<EntryView>)
    requires
        panel.wf(),
        panel@.selected.len() > 0,
        r == selected_rows(panel@.rows, panel@.selected) + selected_hidden(
            panel@.all_entries,
            panel@.selected,
            panel@.show_hidden,
        ),
    ensures
        forall|k: int| 0 <= k < r.len() ==> panel@.all_entries.contains(#[trigger] r[k]),
        entry_paths(r).to_set() == panel.targets_spec().to_set(),
{
    broadcast use vstd::seq_lib::group_filter_ensures;

    let v = panel@;
    let sel = v.selected;
    let all = v.all_entries;
    let rows = v.rows;
    let sp = selected_row(sel);
    let hp = hidden_selected(sel, v.show_hidden);
    let fr = rows.filter(sp);
    let a = fr.map_values(|row: RowView| row_entry(row));
    let b = all.filter(hp);
    assert(panel.targets_spec() == sel);
    assert forall|k: int| 0 <= k < r.len() implies all.contains(#[trigger] r[k]) && sel.contains(r[k].path) by {
        if k < a.len() {
            assert(r[k] == a[k]);
            lemma_filter_elements(rows, sp, k);
            let c = choose|c: int| 0 <= c < rows.len() && rows[c] == fr[k];
            assert(a[k] == row_entry(fr[k]));
            lemma_row_entry_listed(rows, v.path, all, v.sort_spec, v.show_hidden, c);
        } else {
            let m = k - a.len();
            assert(r[k] == b[m]);
            lemma_filter_elements(all, hp, m);
        }
    }
    let off = parent_rows(v.path);
    let vis = visible(all, v.show_hidden);
    let listed = listed_entries(rows, off);
    let perm = choose|perm: Seq<int>| is_stable_sort_by(listed, vis, perm, v.sort_spec);
    assert forall|q: int| 0 <= q < sel.len() implies exists|k: int| 0 <= k < r.len() && #[trigger] r[k].path == #[trigger] sel[q] by {
        let p = sel[q];
        assert(has_path(all, p));
        let j = choose|j: int| 0 <= j < all.len() && #[trigger] all[j].path == p;
        let e = all[j];
        if is_shown(e, v.show_hidden) {
            all.lemma_filter_contains_rev(|e: EntryView| is_shown(e, v.show_hidden), e);
            assert(vis.contains(e));
            let idx = choose|idx: int| 0 <= idx < vis.len() && vis[idx] == e;
            lemma_perm_onto(perm, vis.len() as int, idx);
            let k = choose|k: int| 0 <= k < vis.len() && perm[k] == idx;
            assert(listed[k] == e);
            assert(row_entry(rows[k + off]) == e);
            assert(rows[k + off] is Entry);
            assert(sel.contains(p));
            assert(sp(rows[k + off]));
            assert(rows.contains(rows[k + off]));
            rows.lemma_filter_contains_rev(sp, rows[k + off]);
            assert(fr.contains(rows[k + off]));
            let m = choose|m: int| 0 <= m < fr.len() && fr[m] == rows[k + off];
            assert(a[m] == row_entry(fr[m]));
            assert(a[m] == e);
            assert(r[m] == a[m]);
        } else {
            assert(sel.contains(p));
            assert(hp(e));
            assert(all.contains(e));
            all.lemma_filter_contains_rev(hp, e);
            assert(b.contains(e));
            let m = choose|m: int| 0 <= m < b.len() && b[m] == e;
            assert(r[a.len() + m] == b[m]);
        }
    }
    let ps = entry_paths(r);
    assert forall|x: Seq<char>| #[trigger] ps.to_set().contains(x) == sel.to_set().contains(x) by {
        if ps.contains(x) {
            let k = choose|k: int| 0 <= k < ps.len() && ps[k] == x;
            assert(ps[k] == r[k].path);
        }
        if sel.contains(x) {
            let q = choose|q: int| 0 <= q < sel.len() && sel[q] == x;
            let k = choose|k: int| 0 <= k < r.len() && #[trigger] r[k].path == #[trigger] sel[q];
            assert(ps[k] == x);
        }
    }
    assert(ps.to_set() =~= sel.to_set());
}

/// The first entry of `all`, from position `i` on, whose path is `path`.
pub open spec fn first_with_path_from(all: Seq<EntryView>, path: Seq<char>, i: int) -> EntryView
    decreases all.len() - i,
{
    if i < 0 || i >= all.len() {
        EntryView { name: Seq::empty(), path, is_dir: false, size: 0, permissions: None }
    } else if all[i].path == path {
        all[i]
    } else {
        first_with_path_from(all, path, i + 1)
    }
}

/// The listing's first entry with `path`.
pub open spec fn first_with_path(all: Seq<EntryView>, path: Seq<char>) -> EntryView {
    first_with_path_from(all, path, 0)
}

/// Where some entry from `i` on has `path`, the first such is an entry of
/// the listing with that path.
pub proof fn lemma_first_with_path(all: Seq<EntryView>, path: Seq<char>, i: int)
    requires
        0 <= i,
        exists|j: int| i <= j < all.len() && #[trigger] all[j].path == path,
    ensures
        all.contains(first_with_path_from(all, path, i)),
        first_with_path_from(all, path, i).path == path,
    decreases all.len() - i,
{
    if all[i].path != path {
        let j = choose|j: int| i <= j < all.len() && #[trigger] all[j].path == path;
        assert(all[j].path == path);
        lemma_first_with_path(all, path, i + 1);
    } else {
        assert(all[i] == all[i]);
    }
}

/// The position of the first entry of `all` with `path`, where there is one.
fn find_path(all: &Vec<Entry>, path: &String) -> (k: usize)
    requires
        has_path(views(all@), path@),
    ensures
        k < all.len(),
        views(all@)[k as int] == first_with_path(views(all@), path@),
{
    let ghost v = views(all@);
    let mut k: usize = 0;
    while k < all.len()
        invariant
            k <= all.len(),
            v == views(all@),
            has_path(v, path@),
            forall|m: int| 0 <= m < k ==> v[m].path != path@,
            first_with_path(v, path@) == first_with_path_from(v, path@, k as int),
        decreases all.len() - k,
    {
        assert(v[k as int] == all@[k as int]@);
        if all[k].path == *path {
            return k;
        }
        k = k + 1;
    }
    proof {
        let j = choose|j: int| 0 <= j < v.len() && #[trigger] v[j].path == path@;
        assert(v[j].path != path@);
    }
    0
}

fn first_char_is_dot(name: &String) -> (r: bool)
    ensures
        r == is_hidden_name(name@),
{
    let n: usize = name.as_str().unicode_len();
    n > 0 && name.as_str().get_char(0) == '.'
}

/// The sort shown in a panel's title: the key, then an arrow up for
/// ascending or down for descending.
pub open spec fn sort_indicator_text(spec: SortSpec) -> Seq<char> {
    (match spec.key {
        SortKey::Name => "Name"@,
        SortKey::Size => "Size"@,
    }) + seq![' '] + seq![
        match spec.order {
            SortOrder::Ascending => '\u{25B2}',
            SortOrder::Descending => '\u{25BC}',
        },
    ]
}

pub fn sort_indicator(spec: SortSpec) -> (r: String)
    ensures
        r@ == sort_indicator_text(spec),
{
    let mut r: String = match spec.key {
        SortKey::Name => "Name".to_owned(),
        SortKey::Size => "Size".to_owned(),
    };
    crate::text::push_char(&mut r, ' ');
    let arrow: char = match spec.order {
        SortOrder::Ascending => '\u{25B2}',
        SortOrder::Descending => '\u{25BC}',
    };
    crate::text::push_char(&mut r, arrow);
    r
}

} // verus!
