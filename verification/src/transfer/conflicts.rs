//! What to do when a planned file's destination is already taken: the
//! answer a policy gives, fresh names for renamed copies, and applying the
//! answers to a plan.
use vstd::prelude::*;
use vstd::assert_seqs_equal;

use super::job::Direction;
use super::plan::{conflicting, destination_path, planned_views, DirectoryPlan, PlannedFile, PlannedView};
use crate::filesystem::path_to_remote_string;
use crate::paths::{
    path_file_name, path_file_name_of, path_join, path_joined, path_parent, path_parent_of, path_with_file_name,
    path_with_file_name_of,
};
use crate::text::{chars_of, decimal, decimal_string, digits_value, push_char, str_eq, string_of};
use crate::tui::widgets::file_list::{format_size, size_text};

verus! {

#[derive(Debug, Clone, Copy, PartialEq, Eq, Structural)]
pub enum ConflictPolicy {
    Ask,
    Overwrite,
    Skip,
    Rename,
}

#[derive(Debug, Clone, Copy, PartialEq, Eq, Structural)]
pub enum Resolution {
    Overwrite,
    Skip,
    Rename,
    Resume,
}

/// The answer `policy` gives for `f` without asking: none under `Ask`;
/// for a file with only a part file at its destination, resume it unless
/// it is already as large as the source; otherwise what the policy says,
/// an overwrite resuming a part file when there is one.
pub open spec fn policy_resolution(policy: ConflictPolicy, f: PlannedView) -> Option<Resolution> {
    match policy {
        ConflictPolicy::Ask => None,
        _ => match f.existing {
            None => if f.partial matches Some(p) && p.size >= f.size {
                Some(Resolution::Overwrite)
            } else {
                Some(Resolution::Resume)
            },
            Some(_) => match policy {
                ConflictPolicy::Overwrite => if f.partial is Some {
                    Some(Resolution::Resume)
                } else {
                    Some(Resolution::Overwrite)
                },
                ConflictPolicy::Skip => Some(Resolution::Skip),
                _ => Some(Resolution::Rename),
            },
        },
    }
}

impl ConflictPolicy {
    pub fn resolution_for(self, file: &PlannedFile) -> (r: Option<Resolution>)
        ensures
            r == policy_resolution(self, file@),
    {
        match (self, file.existing) {
            (ConflictPolicy::Ask, _) => None,
            (_, None) => match file.partial {
                Some(partial) => if partial.size >= file.size {
                    Some(Resolution::Overwrite)
                } else {
                    Some(Resolution::Resume)
                },
                None => Some(Resolution::Resume),
            },
            (ConflictPolicy::Overwrite, Some(_)) => if file.partial.is_some() {
                Some(Resolution::Resume)
            } else {
                Some(Resolution::Overwrite)
            },
            (ConflictPolicy::Skip, Some(_)) => Some(Resolution::Skip),
            (ConflictPolicy::Rename, Some(_)) => Some(Resolution::Rename),
        }
    }
}

/// Whether the answer given for `answered` may stand for `later` too:
/// resuming needs a part file and no folder in the way, overwriting needs
/// the same kind of conflict, renaming needs something at the destination,
/// and skipping fits anything.
pub open spec fn fits(resolution: Resolution, answered: PlannedView, later: PlannedView) -> bool {
    let blocked = later.existing matches Some(e) && e.is_dir;
    match resolution {
        Resolution::Resume => later.partial is Some && !blocked,
        Resolution::Overwrite => (later.existing is Some) == (answered.existing is Some),
        Resolution::Rename => later.existing is Some,
        Resolution::Skip => true,
    }
}

pub fn fits_the_rest(resolution: Resolution, answered: &PlannedFile, later: &PlannedFile) -> (r: bool)
    ensures
        r == fits(resolution, answered@, later@),
{
    let later_blocked_by_folder: bool = match later.existing {
        Some(existing) => existing.is_dir,
        None => false,
    };
    match resolution {
        Resolution::Resume => later.partial.is_some() && !later_blocked_by_folder,
        Resolution::Overwrite => later.existing.is_some() == answered.existing.is_some(),
        Resolution::Rename => later.existing.is_some(),
        Resolution::Skip => true,
    }
}

/// The positions, in order, of the conflicting files among the first `n`.
pub open spec fn conflict_positions(files: Seq<PlannedView>, n: int) -> Seq<usize>
    decreases n,
{
    if n <= 0 {
        Seq::empty()
    } else if conflicting(files[n - 1]) {
        conflict_positions(files, n - 1).push((n - 1) as usize)
    } else {
        conflict_positions(files, n - 1)
    }
}

/// The positions of the plan's conflicting files, in order.
pub fn conflict_indices(plan: &DirectoryPlan) -> (r: Vec<usize>)
    ensures
        r@ == conflict_positions(planned_views(plan.files@), plan.files@.len() as int),
{
    let ghost fs = planned_views(plan.files@);
    let mut r: Vec<usize> = Vec::new();
    let mut i: usize = 0;
    while i < plan.files.len()
        invariant
            i <= plan.files.len(),
            fs == planned_views(plan.files@),
            r@ == conflict_positions(fs, i as int),
        decreases plan.files.len() - i,
    {
        assert(fs[i as int] == plan.files@[i as int]@);
        if plan.files[i].is_conflict() {
            r.push(i);
        }
        i = i + 1;
    }
    r
}

/// The position of the last `.` in `s`, or -1.
pub open spec fn last_dot(s: Seq<char>) -> int
    decreases s.len(),
{
    if s.len() == 0 {
        -1
    } else if s.last() == '.' {
        s.len() - 1
    } else {
        last_dot(s.drop_last())
    }
}

/// `name` up to its extension; a leading dot starts no extension.
pub open spec fn stem_of(name: Seq<char>) -> Seq<char> {
    if last_dot(name) <= 0 {
        name
    } else {
        name.take(last_dot(name))
    }
}

/// The extension of `name`, its dot included, or nothing.
pub open spec fn extension_of(name: Seq<char>) -> Seq<char> {
    if last_dot(name) <= 0 {
        Seq::empty()
    } else {
        name.skip(last_dot(name))
    }
}

/// `stem (c).ext`, the `c`-th name tried for a copy of `name`.
pub open spec fn candidate(name: Seq<char>, c: nat) -> Seq<char> {
    stem_of(name) + seq![' ', '('] + decimal(c) + seq![')'] + extension_of(name)
}

pub open spec fn name_views(taken: Seq<String>) -> Seq<Seq<char>> {
    taken.map_values(|s: String| s@)
}

/// `c` is the first counter whose candidate is not taken.
pub open spec fn is_first_free(name: Seq<char>, taken: Seq<Seq<char>>, c: nat) -> bool {
    &&& c >= 1
    &&& !taken.contains(candidate(name, c))
    &&& forall|d: nat| 1 <= d < c ==> taken.contains(#[trigger] candidate(name, d))
}

/// The name a renamed copy of `name` gets: the first free candidate.
pub open spec fn fresh_name(name: Seq<char>, taken: Seq<Seq<char>>) -> Seq<char> {
    candidate(name, choose|c: nat| is_first_free(name, taken, c))
}

proof fn lemma_last_dot_range(s: Seq<char>)
    ensures
        -1 <= last_dot(s) < s.len(),
        last_dot(s) >= 0 ==> s[last_dot(s)] == '.',
        forall|k: int| last_dot(s) < k < s.len() ==> s[k] != '.',
    decreases s.len(),
{
    if s.len() > 0 && s.last() != '.' {
        lemma_last_dot_range(s.drop_last());
        let t = s.drop_last();
        assert forall|k: int| last_dot(s) < k < s.len() implies s[k] != '.' by {
            if k < t.len() {
                assert(s[k] == t[k]);
            }
        }
    }
}

proof fn lemma_decimal_value(n: nat)
    ensures
        digits_value(decimal(n)) == n,
    decreases n,
{
    if n >= 10 {
        lemma_decimal_value(n / 10);
        let d = decimal(n / 10).push(crate::text::digit_char(n % 10));
        assert(d.drop_last() == decimal(n / 10));
        assert(crate::text::digit_value(crate::text::digit_char(n % 10)) == n % 10);
        assert(decimal(n) == d);
        assert(d.last() == crate::text::digit_char(n % 10));
        assert(digits_value(d) == digits_value(d.drop_last()) * 10 + crate::text::digit_value(d.last()));
        assert((n / 10) * 10 + n % 10 == n);
    } else {
        let d = seq![crate::text::digit_char(n)];
        assert(d.drop_last() =~= Seq::<char>::empty());
        assert(crate::text::digit_value(crate::text::digit_char(n)) == n);
        assert(decimal(n) == d);
        assert(digits_value(Seq::<char>::empty()) == 0);
        assert(digits_value(d) == digits_value(d.drop_last()) * 10 + crate::text::digit_value(d.last()));
    }
}

proof fn lemma_candidate_injective(name: Seq<char>, a: nat, b: nat)
    requires
        candidate(name, a) == candidate(name, b),
    ensures
        a == b,
{
    let s = stem_of(name);
    let e = extension_of(name);
    let ca = candidate(name, a);
    let cb = candidate(name, b);
    let da = decimal(a);
    let db = decimal(b);
    assert(ca.len() == s.len() + 2 + da.len() + 1 + e.len());
    assert(cb.len() == s.len() + 2 + db.len() + 1 + e.len());
    let lo: int = s.len() as int + 2;
    assert(ca.subrange(lo, lo + da.len() as int) =~= da);
    assert(cb.subrange(lo, lo + db.len() as int) =~= db);
    lemma_decimal_value(a);
    lemma_decimal_value(b);
}

/// Pigeonhole: the candidates `1..=c` are distinct, so they cannot all be
/// taken when fewer than `c` names are.
proof fn lemma_candidates_bound(name: Seq<char>, taken: Seq<Seq<char>>, c: nat)
    requires
        forall|d: nat| 1 <= d <= c ==> taken.contains(#[trigger] candidate(name, d)),
    ensures
        c <= taken.len(),
{
    let cands = Seq::new(c, |k: int| candidate(name, (k + 1) as nat));
    assert forall|i: int, j: int| 0 <= i < cands.len() && 0 <= j < cands.len() && i != j implies cands[i] != cands[j] by {
        if cands[i] == cands[j] {
            lemma_candidate_injective(name, (i + 1) as nat, (j + 1) as nat);
        }
    }
    assert(cands.no_duplicates());
    cands.unique_seq_to_set();
    assert forall|x: Seq<char>| cands.to_set().contains(x) implies taken.to_set().contains(x) by {
        let i = choose|i: int| 0 <= i < cands.len() && cands[i] == x;
        assert(taken.contains(candidate(name, (i + 1) as nat)));
    }
    taken.lemma_cardinality_of_set();
    vstd::set_lib::lemma_len_subset(cands.to_set(), taken.to_set());
}

proof fn lemma_first_free_unique(name: Seq<char>, taken: Seq<Seq<char>>, c: nat)
    requires
        is_first_free(name, taken, c),
    ensures
        (choose|d: nat| is_first_free(name, taken, d)) == c,
        fresh_name(name, taken) == candidate(name, c),
{
    let d = choose|d: nat| is_first_free(name, taken, d);
    assert(is_first_free(name, taken, d));
    if d < c {
        assert(taken.contains(candidate(name, d)));
    }
    if c < d {
        assert(taken.contains(candidate(name, c)));
    }
}

/// Splits off the extension at the last dot, unless that dot leads the
/// name.
fn split_extension(name: &str) -> (r: (String, String))
    ensures
        r.0@ == stem_of(name@),
        r.1@ == extension_of(name@),
{
    let v: Vec<char> = chars_of(name);
    let mut i: usize = v.len();
    proof {
        assert(v@.take(i as int) == v@);
    }
    while i > 0 && v[i - 1] != '.'
        invariant
            i <= v.len(),
            v@ == name@,
            last_dot(name@) == last_dot(v@.take(i as int)),
        decreases i,
    {
        proof {
            assert(v@.take(i as int).drop_last() == v@.take(i - 1));
        }
        i = i - 1;
    }
    proof {
        if i == v.len() {
            assert(v@.take(i as int) == v@);
        }
        assert(v@.take(v@.len() as int) == v@);
        if i > 0 {
            assert(v@.take(i as int).last() == '.');
        } else {
            assert(v@.take(0) =~= Seq::<char>::empty());
        }
    }
    if i <= 1 {
        (string_of(&v), String::new())
    } else {
        let dot: usize = i - 1;
        let stem: Vec<char> = crate::text::slice_chars(&v, 0, dot);
        let ext: Vec<char> = crate::text::slice_chars(&v, dot, v.len());
        (string_of(&stem), string_of(&ext))
    }
}

fn contains_name(taken: &Vec<String>, s: &str) -> (r: bool)
    ensures
        r == name_views(taken@).contains(s@),
{
    let ghost tv = name_views(taken@);
    let mut i: usize = 0;
    while i < taken.len()
        invariant
            i <= taken.len(),
            tv == name_views(taken@),
            forall|k: int| 0 <= k < i ==> tv[k] != s@,
        decreases taken.len() - i,
    {
        if str_eq(taken[i].as_str(), s) {
            assert(tv[i as int] == s@);
            return true;
        }
        i = i + 1;
    }
    false
}

/// `stem (counter)ext`.
fn candidate_string(stem: &str, counter: u64, extension: &str) -> (r: String)
    ensures
        r@ == stem@ + seq![' ', '('] + decimal(counter as nat) + seq![')'] + extension@,
{
    let mut r: String = stem.to_owned();
    push_char(&mut r, ' ');
    push_char(&mut r, '(');
    let digits: String = decimal_string(counter);
    r.append(digits.as_str());
    push_char(&mut r, ')');
    r.append(extension);
    r
}

/// The first of `stem (1).ext`, `stem (2).ext`, ... that is not taken.
pub fn unique_name(name: &str, taken: &Vec<String>) -> (r: String)
    requires
        taken@.len() < i32::MAX,
    ensures
        exists|c: nat| is_first_free(name@, name_views(taken@), c) && r@ == candidate(name@, c),
        r@ == fresh_name(name@, name_views(taken@)),
        !name_views(taken@).contains(r@),
{
    let ghost tv = name_views(taken@);
    let (stem, extension) = split_extension(name);
    let mut counter: u64 = 1;
    loop
        invariant
            1 <= counter <= taken@.len() + 1,
            taken@.len() < i32::MAX,
            tv == name_views(taken@),
            tv.len() == taken@.len(),
            stem@ == stem_of(name@),
            extension@ == extension_of(name@),
            forall|d: nat| 1 <= d < counter ==> tv.contains(#[trigger] candidate(name@, d)),
        decreases taken@.len() + 1 - counter,
    {
        let cand: String = candidate_string(stem.as_str(), counter, extension.as_str());
        assert(cand@ == candidate(name@, counter as nat));
        if !contains_name(taken, cand.as_str()) {
            proof {
                assert(is_first_free(name@, tv, counter as nat));
                lemma_first_free_unique(name@, tv, counter as nat);
            }
            return cand;
        }
        proof {
            assert forall|d: nat| 1 <= d <= counter implies tv.contains(#[trigger] candidate(name@, d)) by {
                if d < counter {
                    assert(tv.contains(candidate(name@, d)));
                }
            }
            lemma_candidates_bound(name@, tv, counter as nat);
        }
        counter = counter + 1;
    }
}

pub open spec fn taken_views(t: Seq<(String, Vec<String>)>) -> Seq<(Seq<char>, Seq<Seq<char>>)> {
    t.map_values(|e: (String, Vec<String>)| (e.0@, name_views(e.1@)))
}

/// The position of the first entry for directory `dir`, or -1. Entries
/// are keyed by the directory path as written.
pub open spec fn dir_index(t: Seq<(Seq<char>, Seq<Seq<char>>)>, dir: Seq<char>) -> int
    decreases t.len(),
{
    if t.len() == 0 {
        -1
    } else if dir_index(t.drop_last(), dir) >= 0 {
        dir_index(t.drop_last(), dir)
    } else if t.last().0 == dir {
        t.len() - 1
    } else {
        -1
    }
}

/// The names taken in directory `dir`.
pub open spec fn names_in(t: Seq<(Seq<char>, Seq<Seq<char>>)>, dir: Seq<char>) -> Seq<Seq<char>> {
    if dir_index(t, dir) >= 0 {
        t[dir_index(t, dir)].1
    } else {
        Seq::empty()
    }
}

/// `t` with `name` added to the names taken in `dir`.
pub open spec fn with_name(t: Seq<(Seq<char>, Seq<Seq<char>>)>, dir: Seq<char>, name: Seq<char>) -> Seq<
    (Seq<char>, Seq<Seq<char>>),
> {
    if dir_index(t, dir) >= 0 {
        t.update(dir_index(t, dir), (dir, t[dir_index(t, dir)].1.push(name)))
    } else {
        t.push((dir, seq![name]))
    }
}

/// A conflicting file renamed: its destination gets the first free name
/// in its directory, which is then taken; its display name follows.
/// A destination without a parent or a final name is left as it is.
pub open spec fn renamed(direction: Direction, f: PlannedView, t: Seq<(Seq<char>, Seq<Seq<char>>)>) -> (
    PlannedView,
    Seq<(Seq<char>, Seq<Seq<char>>)>,
) {
    let dest = destination_path(f, direction);
    match (path_parent_of(dest), path_file_name_of(dest)) {
        (Some(parent), Some(name)) => {
            let new_name = fresh_name(name, names_in(t, parent));
            let new_dest = path_joined(parent, new_name);
            (
                PlannedView {
                    local_path: match direction {
                        Direction::Download => new_dest,
                        Direction::Upload => f.local_path,
                    },
                    remote_path: match direction {
                        Direction::Upload => new_dest,
                        Direction::Download => f.remote_path,
                    },
                    display_name: path_with_file_name_of(f.display_name, new_name),
                    ..f
                },
                with_name(t, parent, new_name),
            )
        },
        _ => (f, t),
    }
}

/// Every directory's taken names number fewer than `bound`.
pub open spec fn names_below(t: Seq<(Seq<char>, Seq<Seq<char>>)>, bound: int) -> bool {
    forall|k: int| 0 <= k < t.len() ==> #[trigger] t[k].1.len() < bound
}

proof fn lemma_dir_index_range(t: Seq<(Seq<char>, Seq<Seq<char>>)>, dir: Seq<char>)
    ensures
        -1 <= dir_index(t, dir) < t.len(),
    decreases t.len(),
{
    if t.len() > 0 {
        lemma_dir_index_range(t.drop_last(), dir);
    }
}

proof fn lemma_dir_index_found(t: Seq<(Seq<char>, Seq<Seq<char>>)>, dir: Seq<char>, k: int)
    requires
        0 <= k < t.len(),
        t[k].0 == dir,
        forall|m: int| 0 <= m < k ==> #[trigger] t[m].0 != dir,
    ensures
        dir_index(t, dir) == k,
    decreases t.len(),
{
    if k < t.len() - 1 {
        let u = t.drop_last();
        assert forall|m: int| 0 <= m < k implies #[trigger] u[m].0 != dir by {
            assert(u[m] == t[m]);
        }
        lemma_dir_index_found(u, dir, k);
    } else {
        lemma_dir_index_absent(t.drop_last(), dir);
    }
}

proof fn lemma_dir_index_absent(t: Seq<(Seq<char>, Seq<Seq<char>>)>, dir: Seq<char>)
    requires
        forall|m: int| 0 <= m < t.len() ==> #[trigger] t[m].0 != dir,
    ensures
        dir_index(t, dir) == -1,
    decreases t.len(),
{
    if t.len() > 0 {
        let u = t.drop_last();
        assert forall|m: int| 0 <= m < u.len() implies #[trigger] u[m].0 != dir by {
            assert(u[m] == t[m]);
        }
        lemma_dir_index_absent(u, dir);
        assert(t.last() == t[t.len() - 1]);
    }
}

/// Looks `dir` up among the entries of `t`.
fn find_dir(t: &Vec<(String, Vec<String>)>, dir: &str) -> (r: Option<usize>)
    ensures
        match r {
            Some(k) => k < t.len() && dir_index(taken_views(t@), dir@) == k && taken_views(t@)[k as int].0 == dir@,
            None => dir_index(taken_views(t@), dir@) == -1,
        },
{
    let ghost tv = taken_views(t@);
    let mut k: usize = 0;
    while k < t.len()
        invariant
            k <= t.len(),
            tv == taken_views(t@),
            forall|m: int| 0 <= m < k ==> #[trigger] tv[m].0 != dir@,
        decreases t.len() - k,
    {
        assert(tv[k as int].0 == t@[k as int].0@);
        if str_eq(t[k].0.as_str(), dir) {
            proof {
                lemma_dir_index_found(tv, dir@, k as int);
            }
            return Some(k);
        }
        k = k + 1;
    }
    proof {
        lemma_dir_index_absent(tv, dir@);
    }
    None
}

/// Gives a conflicting file the first free name in its destination
/// directory and marks that name taken.
fn rename_destination(direction: Direction, file: &mut PlannedFile, taken_names: &mut Vec<(String, Vec<String>)>)
    requires
        names_below(taken_views(old(taken_names)@), i32::MAX as int),
    ensures
        (final(file)@, taken_views(final(taken_names)@)) == renamed(
            direction,
            old(file)@,
            taken_views(old(taken_names)@),
        ),
{
    let ghost t0 = taken_views(taken_names@);
    let destination: String = file.destination(direction);
    let parent: String = match path_parent(destination.as_str()) {
        Some(p) => p,
        None => {
            return;
        },
    };
    let name: String = match path_file_name(destination.as_str()) {
        Some(n) => n,
        None => {
            return;
        },
    };
    let new_name: String;
    match find_dir(taken_names, parent.as_str()) {
        Some(k) => {
            proof {
                assert(t0[k as int].1 == name_views(taken_names@[k as int].1@));
                assert(t0[k as int].1.len() < i32::MAX);
            }
            new_name = unique_name(name.as_str(), &taken_names[k].1);
            let ghost before = taken_names@;
            taken_names[k].1.push(new_name.clone());
            proof {
                assert(taken_names@ == before.update(k as int, taken_names@[k as int]));
                assert(taken_names@[k as int].0 == before[k as int].0);
                assert(name_views(taken_names@[k as int].1@) =~= name_views(before[k as int].1@).push(new_name@));
                assert(taken_views(taken_names@) =~= t0.update(k as int, (parent@, t0[k as int].1.push(new_name@))));
            }
        },
        None => {
            let empty: Vec<String> = Vec::new();
            proof {
                assert(name_views(empty@) =~= Seq::<Seq<char>>::empty());
            }
            new_name = unique_name(name.as_str(), &empty);
            let mut names: Vec<String> = Vec::new();
            names.push(new_name.clone());
            let ghost before = taken_names@;
            taken_names.push((parent.clone(), names));
            proof {
                assert(name_views(names@) =~= seq![new_name@]);
                assert(taken_views(taken_names@) =~= t0.push((parent@, seq![new_name@])));
            }
        },
    }
    let new_destination: String = path_join(parent.as_str(), new_name.as_str());
    match direction {
        Direction::Upload => {
            file.remote_path = path_to_remote_string(new_destination.as_str());
        },
        Direction::Download => {
            file.local_path = new_destination;
        },
    }
    file.display_name = path_with_file_name(file.display_name.as_str(), new_name.as_str());
}

/// The files a plan keeps once its conflicts are answered, and how many
/// were skipped: with something at the destination, with only a part file
/// there, or because a folder stands where the file would go.
pub struct ResolvedPlan {
    pub files: Vec<PlannedFile>,
    pub skipped: usize,
    pub skipped_partials: usize,
    pub blocked_by_folder: usize,
}

pub struct ResolveState {
    pub files: Seq<PlannedView>,
    pub skipped: nat,
    pub skipped_partials: nat,
    pub blocked_by_folder: nat,
    pub answered: nat,
    pub taken: Seq<(Seq<char>, Seq<Seq<char>>)>,
}

/// One file through `resolve`: a file without conflict is kept; a
/// conflict takes the next answer (skip once the answers run out).
/// Overwriting or resuming onto a folder is refused; resuming keeps the
/// file to continue its part file; overwriting keeps it to start afresh;
/// skipping drops it; renaming a file with only a part file resumes it,
/// and otherwise gives it a fresh name.
pub open spec fn resolve_step(st: ResolveState, f: PlannedView, answers: Seq<Resolution>, direction: Direction) -> ResolveState {
    if !conflicting(f) {
        ResolveState { files: st.files.push(f), ..st }
    } else {
        let answer = if st.answered < answers.len() {
            answers[st.answered as int]
        } else {
            Resolution::Skip
        };
        let blocked = f.existing matches Some(e) && e.is_dir;
        let st = ResolveState { answered: st.answered + 1, ..st };
        if (answer == Resolution::Overwrite || answer == Resolution::Resume) && blocked {
            ResolveState { blocked_by_folder: st.blocked_by_folder + 1, ..st }
        } else if answer == Resolution::Resume {
            ResolveState { files: st.files.push(PlannedView { resume: true, ..f }), ..st }
        } else if answer == Resolution::Overwrite {
            ResolveState { files: st.files.push(PlannedView { resume: false, ..f }), ..st }
        } else if answer == Resolution::Skip {
            if f.existing is Some {
                ResolveState { skipped: st.skipped + 1, ..st }
            } else {
                ResolveState { skipped_partials: st.skipped_partials + 1, ..st }
            }
        } else if f.existing is None {
            ResolveState { files: st.files.push(PlannedView { resume: true, ..f }), ..st }
        } else {
            let (g, t) = renamed(direction, f, st.taken);
            ResolveState { files: st.files.push(PlannedView { resume: false, ..g }), taken: t, ..st }
        }
    }
}

/// The state after the first `n` files.
pub open spec fn resolve_upto(
    files: Seq<PlannedView>,
    answers: Seq<Resolution>,
    direction: Direction,
    taken: Seq<(Seq<char>, Seq<Seq<char>>)>,
    n: int,
) -> ResolveState
    decreases n,
{
    if n <= 0 {
        ResolveState { files: Seq::empty(), skipped: 0, skipped_partials: 0, blocked_by_folder: 0, answered: 0, taken }
    } else {
        resolve_step(resolve_upto(files, answers, direction, taken, n - 1), files[n - 1], answers, direction)
    }
}

proof fn lemma_renamed_bound(direction: Direction, f: PlannedView, t: Seq<(Seq<char>, Seq<Seq<char>>)>, bound: int)
    requires
        names_below(t, bound),
        bound >= 1,
    ensures
        names_below(renamed(direction, f, t).1, bound + 1),
{
    let dest = destination_path(f, direction);
    match (path_parent_of(dest), path_file_name_of(dest)) {
        (Some(parent), Some(name)) => {
            let new_name = fresh_name(name, names_in(t, parent));
            let u = with_name(t, parent, new_name);
            lemma_dir_index_range(t, parent);
            assert forall|k: int| 0 <= k < u.len() implies #[trigger] u[k].1.len() < bound + 1 by {
                if k < t.len() {
                    assert(t[k].1.len() < bound);
                }
            }
        },
        _ => {
            assert forall|k: int| 0 <= k < t.len() implies #[trigger] t[k].1.len() < bound + 1 by {
                assert(t[k].1.len() < bound);
            }
        },
    }
}

/// A copy of `f` with equal contents.
pub fn clone_planned(f: &PlannedFile) -> (r: PlannedFile)
    ensures
        r@ == f@,
{
    PlannedFile {
        local_path: f.local_path.clone(),
        remote_path: f.remote_path.clone(),
        display_name: f.display_name.clone(),
        size: f.size,
        source_modified: f.source_modified,
        existing: f.existing,
        partial: f.partial,
        resume: f.resume,
    }
}

/// Applies the answers, in order, to the plan's conflicting files.
pub fn resolve(plan: DirectoryPlan, answers: &[Resolution], direction: Direction) -> (r: ResolvedPlan)
    requires
        plan.files@.len() < i32::MAX,
        names_below(taken_views(plan.taken_names@), i32::MAX - plan.files@.len()),
    ensures
        ({
            let st = resolve_upto(
                planned_views(plan.files@),
                answers@,
                direction,
                taken_views(plan.taken_names@),
                plan.files@.len() as int,
            );
            &&& planned_views(r.files@) == st.files
            &&& r.skipped == st.skipped
            &&& r.skipped_partials == st.skipped_partials
            &&& r.blocked_by_folder == st.blocked_by_folder
        }),
{
    let DirectoryPlan { files, mut taken_names, .. } = plan;
    let ghost fs = planned_views(files@);
    let ghost t0 = taken_views(taken_names@);
    let n: usize = files.len();
    let mut resolved: Vec<PlannedFile> = Vec::new();
    let mut skipped: usize = 0;
    let mut skipped_partials: usize = 0;
    let mut blocked_by_folder: usize = 0;
    let mut next: usize = 0;
    let mut i: usize = 0;
    while i < n
        invariant
            i <= n == files.len(),
            n < i32::MAX,
            fs == planned_views(files@),
            skipped <= i,
            skipped_partials <= i,
            blocked_by_folder <= i,
            next <= i,
            ({
                let st = resolve_upto(fs, answers@, direction, t0, i as int);
                &&& planned_views(resolved@) == st.files
                &&& skipped == st.skipped
                &&& skipped_partials == st.skipped_partials
                &&& blocked_by_folder == st.blocked_by_folder
                &&& next == st.answered
                &&& taken_views(taken_names@) == st.taken
            }),
            names_below(taken_views(taken_names@), i32::MAX - (n - i)),
        decreases n - i,
    {
        let ghost st = resolve_upto(fs, answers@, direction, t0, i as int);
        let mut file: PlannedFile = clone_planned(&files[i]);
        assert(file@ == fs[i as int]);
        let ghost prev = resolved@;
        if !file.is_conflict() {
            resolved.push(file);
            proof {
                assert(planned_views(resolved@) =~= planned_views(prev).push(fs[i as int]));
            }
        } else {
            let blocked: bool = match file.existing {
                Some(existing) => existing.is_dir,
                None => false,
            };
            let answer: Resolution = if next < answers.len() {
                answers[next]
            } else {
                Resolution::Skip
            };
            next = next + 1;
            match answer {
                Resolution::Overwrite if blocked => {
                    blocked_by_folder = blocked_by_folder + 1;
                },
                Resolution::Resume if blocked => {
                    blocked_by_folder = blocked_by_folder + 1;
                },
                Resolution::Resume => {
                    file.resume = true;
                    let ghost fv = file@;
                    resolved.push(file);
                    proof {
                        assert(planned_views(resolved@) =~= planned_views(prev).push(fv));
                    }
                },
                Resolution::Overwrite => {
                    file.resume = false;
                    let ghost fv = file@;
                    resolved.push(file);
                    proof {
                        assert(planned_views(resolved@) =~= planned_views(prev).push(fv));
                    }
                },
                Resolution::Skip => {
                    if file.existing.is_some() {
                        skipped = skipped + 1;
                    } else {
                        skipped_partials = skipped_partials + 1;
                    }
                },
                Resolution::Rename => {
                    if file.existing.is_none() {
                        file.resume = true;
                    } else {
                        proof {
                            assert(names_below(taken_views(taken_names@), i32::MAX as int)) by {
                                let tv = taken_views(taken_names@);
                                assert forall|k: int| 0 <= k < tv.len() implies #[trigger] tv[k].1.len() < i32::MAX by {
                                    assert(tv[k].1.len() < i32::MAX - (n - i));
                                }
                            }
                            lemma_renamed_bound(direction, fs[i as int], st.taken, i32::MAX - (n - i));
                        }
                        rename_destination(direction, &mut file, &mut taken_names);
                        file.resume = false;
                    }
                    let ghost fv = file@;
                    resolved.push(file);
                    proof {
                        assert(planned_views(resolved@) =~= planned_views(prev).push(fv));
                    }
                },
            }
        }
        proof {
            let tv = taken_views(taken_names@);
            assert forall|k: int| 0 <= k < tv.len() implies #[trigger] tv[k].1.len() < i32::MAX - (n - (i + 1)) by {
                if taken_views(taken_names@) == st.taken {
                    assert(st.taken[k].1.len() < i32::MAX - (n - i));
                }
            }
        }
        i = i + 1;
    }
    ResolvedPlan { files: resolved, skipped, skipped_partials, blocked_by_folder }
}

/// A directory copy whose conflicts are being put to the user one at a
/// time: the positions of the conflicting files and the answers so far.
pub struct ConflictReview {
    pub batch_id: u64,
    pub session_id: u64,
    pub direction: Direction,
    pub plan: DirectoryPlan,
    pub conflicts: Vec<usize>,
    pub answers: Vec<Resolution>,
}

impl ConflictReview {
    /// A review of `plan`'s conflicts, none answered yet.
    pub fn new(batch_id: u64, session_id: u64, direction: Direction, plan: DirectoryPlan) -> (r: ConflictReview)
        ensures
            r.batch_id == batch_id,
            r.session_id == session_id,
            r.direction == direction,
            r.plan == plan,
            r.conflicts@ == conflict_positions(planned_views(plan.files@), plan.files@.len() as int),
            r.answers@.len() == 0,
    {
        let conflicts: Vec<usize> = conflict_indices(&plan);
        ConflictReview { batch_id, session_id, direction, plan, conflicts, answers: Vec::new() }
    }

    /// The position in the plan of the file asked about now, if any is
    /// left unanswered.
    pub fn asked_file(&self) -> (r: Option<usize>)
        ensures
            r == if self.answers@.len() < self.conflicts@.len() {
                Some(self.conflicts@[self.answers@.len() as int])
            } else {
                None::<usize>
            },
    {
        if self.answers.len() < self.conflicts.len() {
            Some(self.conflicts[self.answers.len()])
        } else {
            None
        }
    }

    /// Records `resolution` for the file asked about, and for every one
    /// still unanswered when `apply_to_rest`. Returns whether every
    /// conflict has its answer now.
    pub fn answer(&mut self, resolution: Resolution, apply_to_rest: bool) -> (done: bool)
        requires
            old(self).answers@.len() < old(self).conflicts@.len(),
        ensures
            final(self).answers@ == old(self).answers@ + Seq::new(
                (if apply_to_rest {
                    old(self).conflicts@.len() - old(self).answers@.len()
                } else {
                    1
                }) as nat,
                |k: int| resolution,
            ),
            done == (final(self).answers@.len() == final(self).conflicts@.len()),
            final(self).conflicts == old(self).conflicts,
            final(self).plan == old(self).plan,
            final(self).batch_id == old(self).batch_id,
            final(self).session_id == old(self).session_id,
            final(self).direction == old(self).direction,
    {
        let remaining: usize = self.conflicts.len() - self.answers.len();
        let count: usize = if apply_to_rest {
            remaining
        } else {
            1
        };
        let ghost before = self.answers@;
        let mut k: usize = 0;
        while k < count
            invariant
                k <= count <= remaining,
                remaining == self.conflicts@.len() - before.len(),
                self.answers@ == before + Seq::new(k as nat, |j: int| resolution),
                self.conflicts == old(self).conflicts,
                self.plan == old(self).plan,
                self.batch_id == old(self).batch_id,
                self.session_id == old(self).session_id,
                self.direction == old(self).direction,
            decreases count - k,
        {
            self.answers.push(resolution);
            proof {
                assert(before + Seq::new((k + 1) as nat, |j: int| resolution) =~= (before + Seq::new(
                    k as nat,
                    |j: int| resolution,
                )).push(resolution));
            }
            k = k + 1;
        }
        self.answers.len() == self.conflicts.len()
    }
}

/// The resolutions the conflict question offers, in order.
pub open spec fn offered_resolution(k: int) -> Resolution {
    if k == 0 {
        Resolution::Overwrite
    } else if k == 1 {
        Resolution::Skip
    } else if k == 2 {
        Resolution::Rename
    } else {
        Resolution::Resume
    }
}

/// The answer picked as choice `index` of the conflict question: each
/// resolution for this file alone, then for every conflict still
/// unanswered; none past the last choice.
pub open spec fn choice_answer(index: usize) -> Option<(Resolution, bool)> {
    if index < 8 {
        Some((offered_resolution(index as int / 2), index % 2 == 1))
    } else {
        None
    }
}

pub open spec fn choice_labels() -> Seq<Seq<char>> {
    seq![
        "Overwrite"@,
        "Overwrite all"@,
        "Skip"@,
        "Skip all"@,
        "Keep both (rename)"@,
        "Keep both for all"@,
        "Resume"@,
        "Resume all"@,
    ]
}

pub fn conflict_choice(index: usize) -> (r: Option<(Resolution, bool)>)
    ensures
        r == choice_answer(index),
{
    if index >= 8 {
        return None;
    }
    let resolution: Resolution = if index / 2 == 0 {
        Resolution::Overwrite
    } else if index / 2 == 1 {
        Resolution::Skip
    } else if index / 2 == 2 {
        Resolution::Rename
    } else {
        Resolution::Resume
    };
    Some((resolution, index % 2 == 1))
}

/// The choices of the conflict question, as the list shows them.
pub fn conflict_choice_labels() -> (r: Vec<String>)
    ensures
        r@.map_values(|s: String| s@) == choice_labels(),
{
    let mut r: Vec<String> = Vec::new();
    r.push("Overwrite".to_owned());
    r.push("Overwrite all".to_owned());
    r.push("Skip".to_owned());
    r.push("Skip all".to_owned());
    r.push("Keep both (rename)".to_owned());
    r.push("Keep both for all".to_owned());
    r.push("Resume".to_owned());
    r.push("Resume all".to_owned());
    proof {
        assert(r@.map_values(|s: String| s@) =~= choice_labels());
    }
    r
}

/// The conflict question for `f`, the `asked`-th of `total`: what stands at
/// the destination (a size, or a partial copy) and the size being copied.
pub open spec fn question_text(f: PlannedView, asked: nat, total: nat) -> Seq<char> {
    seq!['"'] + f.display_name + "\" exists ("@ + match f.existing {
        Some(e) => size_text(e.size, e.is_dir) + " there"@,
        None => "a partial copy there"@,
    } + ", copying "@ + size_text(f.size, false) + ") \u{2014} conflict "@ + decimal(asked) + " of "@ + decimal(total)
}

impl ConflictReview {
    /// The question to put for the file asked about, if any is left.
    pub fn question(&self) -> (r: Option<String>)
        ensures
            match r {
                Some(q) => self.answers@.len() < self.conflicts@.len() && self.conflicts@[self.answers@.len() as int]
                    < self.plan.files@.len() && q@ == question_text(
                    self.plan.files@[self.conflicts@[self.answers@.len() as int] as int]@,
                    (self.answers@.len() + 1) as nat,
                    self.conflicts@.len(),
                ),
                None => self.answers@.len() >= self.conflicts@.len() || self.conflicts@[self.answers@.len() as int]
                    >= self.plan.files@.len(),
            },
    {
        let index: usize = match self.asked_file() {
            Some(i) => i,
            None => {
                return None;
            },
        };
        if index >= self.plan.files.len() {
            return None;
        }
        let file: &PlannedFile = &self.plan.files[index];
        let mut q: String = String::new();
        push_char(&mut q, '"');
        q.append(file.display_name.as_str());
        q.append("\" exists (");
        match file.existing {
            Some(e) => {
                let size: String = format_size(e.size, e.is_dir);
                q.append(size.as_str());
                q.append(" there");
            },
            None => {
                q.append("a partial copy there");
            },
        }
        q.append(", copying ");
        let size: String = format_size(file.size, false);
        q.append(size.as_str());
        q.append(") \u{2014} conflict ");
        let answered: usize = self.answers.len();
        let conflicts: usize = self.conflicts.len();
        assert(answered < conflicts);
        let asked: String = decimal_string((answered + 1) as u64);
        q.append(asked.as_str());
        q.append(" of ");
        let total: String = decimal_string(conflicts as u64);
        q.append(total.as_str());
        Some(q)
    }
}

} // verus!
