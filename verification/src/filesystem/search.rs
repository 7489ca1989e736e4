//! File-name matching for search, and the events a running search reports.
use vstd::prelude::*;

use super::Entry;
use crate::text::{chars_of, decimal, decimal_string, lowercase, push_char, slice_chars, string_of, to_lowercase};

verus! {

/// What a search reports while it runs: a match, the end of the search
/// (with whether the result cap cut it short), or a failure to start.
pub enum SearchEvent {
    Found(Entry),
    Done { truncated: bool },
    Failed(String),
}

/// `*` matches any run of characters, `?` exactly one character, and any
/// other pattern character itself; the whole name must be matched.
pub open spec fn glob(p: Seq<char>, n: Seq<char>) -> bool
    decreases p.len(), n.len(),
{
    if p.len() == 0 {
        n.len() == 0
    } else if p[0] == '*' {
        glob(p.drop_first(), n) || (n.len() > 0 && glob(p, n.drop_first()))
    } else if n.len() == 0 {
        false
    } else if p[0] == '?' {
        glob(p.drop_first(), n.drop_first())
    } else {
        p[0] == n[0] && glob(p.drop_first(), n.drop_first())
    }
}

fn match_from(pattern: &Vec<char>, i: usize, name: &Vec<char>, j: usize) -> (res: bool)
    requires
        i <= pattern.len(),
        j <= name.len(),
    ensures
        res == glob(
            pattern@.subrange(i as int, pattern@.len() as int),
            name@.subrange(j as int, name@.len() as int),
        ),
    decreases pattern.len() - i, name.len() - j,
{
    let ghost p = pattern@.subrange(i as int, pattern@.len() as int);
    let ghost n = name@.subrange(j as int, name@.len() as int);
    proof {
        if i < pattern.len() {
            assert(p.drop_first() == pattern@.subrange(i + 1, pattern@.len() as int));
        }
        if j < name.len() {
            assert(n.drop_first() == name@.subrange(j + 1, name@.len() as int));
        }
    }
    if i == pattern.len() {
        j == name.len()
    } else if pattern[i] == '*' {
        match_from(pattern, i + 1, name, j) || (j < name.len() && match_from(pattern, i, name, j + 1))
    } else if j == name.len() {
        false
    } else if pattern[i] == '?' {
        match_from(pattern, i + 1, name, j + 1)
    } else {
        pattern[i] == name[j] && match_from(pattern, i + 1, name, j + 1)
    }
}

/// Matches an already case-folded pattern against an already case-folded
/// name.
pub fn match_chars(pattern: &Vec<char>, name: &Vec<char>) -> (res: bool)
    ensures
        res == glob(pattern@, name@),
{
    assert(pattern@.subrange(0, pattern@.len() as int) == pattern@);
    assert(name@.subrange(0, name@.len() as int) == name@);
    match_from(pattern, 0, name, 0)
}

/// Matches `pattern` against `name` case-insensitively: both are
/// lowercased first, then `*` and `?` are the only wildcards.
pub fn glob_match(pattern: &str, name: &str) -> (res: bool)
    ensures
        res == glob(lowercase(pattern@), lowercase(name@)),
{
    let p: String = to_lowercase(pattern);
    let n: String = to_lowercase(name);
    let pv: Vec<char> = chars_of(p.as_str());
    let nv: Vec<char> = chars_of(n.as_str());
    match_chars(&pv, &nv)
}

/// How deep below the searched directory a search goes.
pub const MAX_DEPTH: usize = 16;

/// A search stops after this many matches.
pub const MAX_RESULTS: usize = 1000;

/// `value` in single quotes for a POSIX shell, each `'` in it written as
/// `'\''`.
pub open spec fn shell_quoted(value: Seq<char>) -> Seq<char> {
    seq!['\''] + quote_body(value) + seq!['\'']
}

pub open spec fn quote_body(value: Seq<char>) -> Seq<char>
    decreases value.len(),
{
    if value.len() == 0 {
        Seq::empty()
    } else {
        quote_body(value.drop_last()) + if value.last() == '\'' {
            seq!['\'', '\\', '\'', '\'']
        } else {
            seq![value.last()]
        }
    }
}

pub fn shell_quote(value: &str) -> (r: String)
    ensures
        r@ == shell_quoted(value@),
{
    let v: Vec<char> = chars_of(value);
    let mut r: String = String::new();
    push_char(&mut r, '\'');
    let mut i: usize = 0;
    while i < v.len()
        invariant
            i <= v.len(),
            v@ == value@,
            r@ == seq!['\''] + quote_body(v@.take(i as int)),
        decreases v.len() - i,
    {
        proof {
            assert(v@.take(i + 1).drop_last() == v@.take(i as int));
            assert(v@.take(i + 1).last() == v@[i as int]);
        }
        if v[i] == '\'' {
            push_char(&mut r, '\'');
            push_char(&mut r, '\\');
            push_char(&mut r, '\'');
            push_char(&mut r, '\'');
        } else {
            push_char(&mut r, v[i]);
        }
        proof {
            assert(r@ =~= seq!['\''] + quote_body(v@.take(i + 1)));
        }
        i = i + 1;
    }
    push_char(&mut r, '\'');
    proof {
        assert(v@.take(v@.len() as int) == v@);
        assert(r@ =~= shell_quoted(value@));
    }
    r
}

/// The remote command that finds names matching `pattern` under `root`,
/// case-insensitively and at most `max_depth` levels down.
pub open spec fn find_command_text(root: Seq<char>, pattern: Seq<char>, max_depth: usize) -> Seq<char> {
    "find "@ + shell_quoted(root) + " -maxdepth "@ + decimal(max_depth as nat) + " -iname "@ + shell_quoted(pattern)
}

pub fn find_command(root: &str, pattern: &str, max_depth: usize) -> (r: String)
    ensures
        r@ == find_command_text(root@, pattern@, max_depth),
{
    let mut r: String = "find ".to_owned();
    let q: String = shell_quote(root);
    r.append(q.as_str());
    r.append(" -maxdepth ");
    let d: String = decimal_string(max_depth as u64);
    r.append(d.as_str());
    r.append(" -iname ");
    let p: String = shell_quote(pattern);
    r.append(p.as_str());
    r
}

/// The lines of `text` as `str::lines` splits it (at `\n`, a `\r` before
/// it dropped), keeping those that are not empty.
pub open spec fn output_lines(text: Seq<char>) -> Seq<Seq<char>>
    decreases text.len(),
{
    let k = first_newline(text, 0);
    if k >= text.len() {
        nonempty(strip_cr(text))
    } else {
        proof {
            lemma_first_newline(text, 0);
        }
        nonempty(strip_cr(text.take(k))) + output_lines(text.skip(k + 1))
    }
}

/// The first `\n` at or after `i`, or the length.
pub open spec fn first_newline(text: Seq<char>, i: int) -> int
    decreases text.len() - i,
{
    if i >= text.len() {
        text.len() as int
    } else if text[i] == '\n' {
        i
    } else {
        first_newline(text, i + 1)
    }
}

pub open spec fn strip_cr(line: Seq<char>) -> Seq<char> {
    if line.len() > 0 && line.last() == '\r' {
        line.drop_last()
    } else {
        line
    }
}

pub open spec fn nonempty(line: Seq<char>) -> Seq<Seq<char>> {
    if line.len() == 0 {
        Seq::empty()
    } else {
        seq![line]
    }
}

/// The first newline at or after `i` is at most the length, is a newline
/// when it is inside the text, and no newline comes before it.
pub proof fn lemma_first_newline(text: Seq<char>, i: int)
    requires
        0 <= i <= text.len(),
    ensures
        i <= first_newline(text, i) <= text.len(),
        first_newline(text, i) < text.len() ==> text[first_newline(text, i)] == '\n',
        forall|m: int| i <= m < first_newline(text, i) ==> text[m] != '\n',
    decreases text.len() - i,
{
    if i < text.len() && text[i] != '\n' {
        lemma_first_newline(text, i + 1);
    }
}

fn push_line(out: &mut Vec<String>, text: &Vec<char>, start: usize, end: usize)
    requires
        start <= end <= text.len(),
    ensures
        final(out)@.map_values(|s: String| s@) == old(out)@.map_values(|s: String| s@) + nonempty(
            strip_cr(text@.subrange(start as int, end as int)),
        ),
{
    let ghost prev = out@;
    let mut stop: usize = end;
    if stop > start && text[stop - 1] == '\r' {
        stop = stop - 1;
    }
    proof {
        let line = text@.subrange(start as int, end as int);
        if end > start && text@[end - 1] == '\r' {
            assert(line.last() == '\r');
            assert(line.drop_last() =~= text@.subrange(start as int, stop as int));
        } else {
            assert(line =~= text@.subrange(start as int, stop as int));
        }
    }
    if stop > start {
        let line: Vec<char> = slice_chars(text, start, stop);
        let s: String = string_of(&line);
        let ghost sv = s@;
        out.push(s);
        proof {
            assert(out@.map_values(|s: String| s@) =~= prev.map_values(|s: String| s@) + seq![sv]);
        }
    } else {
        proof {
            assert(out@.map_values(|s: String| s@) =~= prev.map_values(|s: String| s@) + Seq::<Seq<char>>::empty());
        }
    }
}

/// The paths a remote `find` printed: its nonempty output lines.
pub fn find_output_paths(text: &str) -> (r: Vec<String>)
    ensures
        r@.map_values(|s: String| s@) == output_lines(text@),
{
    let v: Vec<char> = chars_of(text);
    let mut out: Vec<String> = Vec::new();
    let mut start: usize = 0;
    proof {
        assert(v@.skip(0) == v@);
        assert(out@.map_values(|s: String| s@) =~= Seq::<Seq<char>>::empty());
    }
    loop
        invariant_except_break
            start <= v.len(),
            v@ == text@,
            output_lines(text@) == out@.map_values(|s: String| s@) + output_lines(v@.skip(start as int)),
        ensures
            output_lines(text@) == out@.map_values(|s: String| s@),
        decreases v.len() - start,
    {
        let ghost rest = v@.skip(start as int);
        let mut end: usize = start;
        while end < v.len() && v[end] != '\n'
            invariant
                start <= end <= v.len(),
                forall|m: int| start <= m < end ==> v@[m] != '\n',
            decreases v.len() - end,
        {
            end = end + 1;
        }
        proof {
            lemma_first_newline(rest, 0);
            let k = first_newline(rest, 0);
            assert forall|m: int| 0 <= m < end - start implies rest[m] != '\n' by {
                assert(rest[m] == v@[start + m]);
            }
            if end < v.len() {
                assert(rest[end - start] == '\n');
            }
            if k < end - start {
                assert(rest[k] == v@[start + k]);
            }
            assert(k == end - start);
            assert(rest.take(k) =~= v@.subrange(start as int, end as int));
        }
        if end >= v.len() {
            push_line(&mut out, &v, start, end);
            proof {
                assert(rest =~= v@.subrange(start as int, end as int));
                assert(output_lines(rest) == nonempty(strip_cr(rest)));
                assert(v@.skip(end as int) =~= Seq::<char>::empty());
                assert(out@.map_values(|s: String| s@) =~= output_lines(text@));
            }
            break;
        }
        push_line(&mut out, &v, start, end);
        proof {
            assert(rest.skip(end - start + 1) =~= v@.skip(end + 1));
        }
        start = end + 1;
    }
    out
}

/// The last component of a remote path: what follows its last `/`, or
/// the whole path.
pub open spec fn remote_name_of(path: Seq<char>) -> Seq<char>
    decreases path.len(),
{
    if path.len() == 0 {
        path
    } else if path.last() == '/' {
        Seq::empty()
    } else {
        remote_name_of(path.drop_last()).push(path.last())
    }
}

pub fn remote_name(path: &str) -> (r: String)
    ensures
        r@ == remote_name_of(path@),
{
    let v: Vec<char> = chars_of(path);
    let mut i: usize = v.len();
    proof {
        assert(v@.skip(v@.len() as int) =~= Seq::<char>::empty());
        assert(v@.take(v@.len() as int) == v@);
    }
    while i > 0 && v[i - 1] != '/'
        invariant
            i <= v.len(),
            v@ == path@,
            remote_name_of(path@) == remote_name_of(v@.take(i as int)) + v@.skip(i as int),
        decreases i,
    {
        proof {
            let t = v@.take(i as int);
            assert(t.drop_last() == v@.take(i - 1));
            assert(t.last() == v@[i - 1]);
            assert(v@.skip(i - 1) =~= seq![v@[i - 1]] + v@.skip(i as int));
            assert(remote_name_of(t) == remote_name_of(t.drop_last()).push(t.last()));
        }
        i = i - 1;
    }
    proof {
        let t = v@.take(i as int);
        if i > 0 {
            assert(t.last() == '/');
        } else {
            assert(t =~= Seq::<char>::empty());
        }
        assert(remote_name_of(t) =~= Seq::<char>::empty());
        assert(v@.skip(i as int) =~= v@.subrange(i as int, v@.len() as int));
    }
    let tail: Vec<char> = slice_chars(&v, i, v.len());
    string_of(&tail)
}

/// One step of a directory walk: read this directory, or stop.
pub enum WalkAction {
    Read { dir: String, depth: usize },
    Finish { truncated: bool },
}

/// What to do with one directory entry met during the walk.
#[derive(Debug, Clone, Copy, PartialEq, Eq, Structural)]
pub enum Visit {
    /// Report the entry when `matched`, and go on.
    Next { matched: bool },
    /// The cap is reached: stop reading this directory.
    Stop,
}

/// The decisions of a capped, depth-limited search walk: directories
/// wait on a stack, the deepest taken first; directories below
/// `max_depth` are not read; the walk stops once `max_results` matches
/// were reported, marking the result truncated.
pub struct SearchWalk {
    pattern: String,
    stack: Vec<(String, usize)>,
    found: usize,
    truncated: bool,
    max_depth: usize,
    max_results: usize,
    root_pending: bool,
}

pub struct WalkView {
    pub pattern: Seq<char>,
    pub stack: Seq<(Seq<char>, usize)>,
    pub found: usize,
    pub truncated: bool,
    pub max_depth: usize,
    pub max_results: usize,
    pub root_pending: bool,
}

impl View for SearchWalk {
    type V = WalkView;

    closed spec fn view(&self) -> WalkView {
        WalkView {
            pattern: self.pattern@,
            stack: self.stack@.map_values(|e: (String, usize)| (e.0@, e.1)),
            found: self.found,
            truncated: self.truncated,
            max_depth: self.max_depth,
            max_results: self.max_results,
            root_pending: self.root_pending,
        }
    }
}

/// The stack with the entries too deep to read popped off its top.
pub open spec fn drop_too_deep(stack: Seq<(Seq<char>, usize)>, max_depth: usize) -> Seq<(Seq<char>, usize)>
    decreases stack.len(),
{
    if stack.len() > 0 && stack.last().1 > max_depth {
        drop_too_deep(stack.drop_last(), max_depth)
    } else {
        stack
    }
}

impl SearchWalk {
    /// Matches never exceed the cap, and nothing deeper than one below the
    /// limit waits on the stack.
    pub open spec fn wf(&self) -> bool {
        &&& self@.found <= self@.max_results
        &&& self@.max_depth < usize::MAX
        &&& forall|i: int| 0 <= i < self@.stack.len() ==> #[trigger] self@.stack[i].1 <= self@.max_depth + 1
    }

    /// A walk of `root` for names matching `pattern`.
    pub fn new(root: String, pattern: String, max_depth: usize, max_results: usize) -> (w: SearchWalk)
        requires
            max_depth < usize::MAX,
        ensures
            w.wf(),
            w@.pattern == pattern@,
            w@.stack == seq![(root@, 0usize)],
            w@.found == 0,
            !w@.truncated,
            w@.max_depth == max_depth,
            w@.max_results == max_results,
            w@.root_pending,
    {
        let mut stack: Vec<(String, usize)> = Vec::new();
        let ghost rv = root@;
        stack.push((root, 0));
        let w = SearchWalk { pattern, stack, found: 0, truncated: false, max_depth, max_results, root_pending: true };
        proof {
            assert(w@.stack =~= seq![(rv, 0usize)]);
        }
        w
    }

    /// The next directory to read, deepest first, skipping those below
    /// the depth limit; or the end of the walk when none is left.
    pub fn next_dir(&mut self) -> (a: WalkAction)
        requires
            old(self).wf(),
        ensures
            final(self).wf(),
            ({
                let rest = drop_too_deep(old(self)@.stack, old(self)@.max_depth);
                &&& rest.len() == 0 ==> (a matches WalkAction::Finish { truncated } && truncated == old(self)@.truncated
                    && final(self)@ == (WalkView { stack: rest, ..old(self)@ }))
                &&& rest.len() > 0 ==> (a matches WalkAction::Read { dir, depth } && (dir@, depth) == rest.last()
                    && depth <= old(self)@.max_depth && final(self)@ == (WalkView { stack: rest.drop_last(), ..old(self)@ }))
            }),
    {
        let ghost orig = self@.stack;
        loop
            invariant
                self.wf(),
                orig == old(self)@.stack,
                drop_too_deep(orig, old(self)@.max_depth) == drop_too_deep(self@.stack, self@.max_depth),
                self@ == (WalkView { stack: self@.stack, ..old(self)@ }),
            decreases self.stack.len(),
        {
            let ghost before = self@.stack;
            match self.stack.pop() {
                None => {
                    proof {
                        assert(self@.stack =~= before);
                        assert(before.len() == 0);
                        assert(drop_too_deep(before, self@.max_depth) == before);
                    }
                    return WalkAction::Finish { truncated: self.truncated };
                },
                Some((dir, depth)) => {
                    proof {
                        assert(self@.stack =~= before.drop_last());
                        assert(before.last() == (dir@, depth));
                        assert(before.len() > 0);
                        if depth <= self@.max_depth {
                            assert(drop_too_deep(before, self@.max_depth) == before);
                        } else {
                            assert(drop_too_deep(before, self@.max_depth) == drop_too_deep(before.drop_last(), self@.max_depth));
                        }
                    }
                    if depth <= self.max_depth {
                        return WalkAction::Read { dir, depth };
                    }
                },
            }
        }
    }

    /// A directory could not be read; returns whether it was the first
    /// one, the searched directory itself.
    pub fn read_failed(&self) -> (was_root: bool)
        ensures
            was_root == self@.root_pending,
    {
        self.root_pending
    }

    /// A directory was read.
    pub fn read_ok(&mut self)
        ensures
            final(self)@ == (WalkView { root_pending: false, ..old(self)@ }),
    {
        self.root_pending = false;
    }

    /// Meets the entry called `name` at `path`, found at `depth`: stops
    /// when the cap is reached; otherwise counts it as a match when its
    /// name matches, and puts a directory on the stack one level deeper.
    pub fn visit(&mut self, path: String, name: &str, is_dir: bool, depth: usize) -> (v: Visit)
        requires
            old(self).wf(),
            depth <= old(self)@.max_depth,
        ensures
            final(self).wf(),
            old(self)@.found >= old(self)@.max_results ==> v == Visit::Stop && final(self)@ == (WalkView {
                truncated: true,
                ..old(self)@
            }),
            old(self)@.found < old(self)@.max_results ==> ({
                let matched = glob(lowercase(old(self)@.pattern), lowercase(name@));
                &&& v == (Visit::Next { matched })
                &&& final(self)@ == (WalkView {
                    found: if matched {
                        (old(self)@.found + 1) as usize
                    } else {
                        old(self)@.found
                    },
                    stack: if is_dir {
                        old(self)@.stack.push((path@, (depth + 1) as usize))
                    } else {
                        old(self)@.stack
                    },
                    ..old(self)@
                })
            }),
    {
        if self.found >= self.max_results {
            self.truncated = true;
            return Visit::Stop;
        }
        let matched: bool = glob_match(self.pattern.as_str(), name);
        if matched {
            self.found = self.found + 1;
        }
        if is_dir {
            let ghost prev = self.stack@;
            let ghost pv = path@;
            self.stack.push((path, depth + 1));
            proof {
                assert(self@.stack =~= prev.map_values(|e: (String, usize)| (e.0@, e.1)).push((pv, (depth + 1) as usize)));
            }
        }
        Visit::Next { matched }
    }

    /// After a directory: returns whether the walk stops because the cap
    /// is reached, marking it truncated.
    pub fn end_dir(&mut self) -> (stop: bool)
        ensures
            stop == (old(self)@.found >= old(self)@.max_results),
            final(self)@ == if stop {
                WalkView { truncated: true, ..old(self)@ }
            } else {
                old(self)@
            },
    {
        if self.found >= self.max_results {
            self.truncated = true;
            true
        } else {
            false
        }
    }

    /// Whether the cap cut the search short.
    pub fn truncated(&self) -> (r: bool)
        ensures
            r == self@.truncated,
    {
        self.truncated
    }
}

/// No `*` or `?` in `p`.
pub open spec fn no_wildcards(p: Seq<char>) -> bool {
    forall|i: int| 0 <= i < p.len() ==> #[trigger] p[i] != '*' && p[i] != '?'
}

/// `p` occurs in `n`.
pub open spec fn occurs_in(p: Seq<char>, n: Seq<char>) -> bool {
    exists|i: int| 0 <= i && i + p.len() <= n.len() && #[trigger] n.subrange(i, i + p.len()) == p
}

/// The pattern the search box runs: what was typed, wrapped in `*`, so
/// that it finds names containing it.
pub open spec fn contains_pattern(typed: Seq<char>) -> Seq<char> {
    seq!['*'] + typed + seq!['*']
}

/// The pattern to search for what was typed; none when nothing was.
pub fn search_pattern(typed: &str) -> (r: Option<String>)
    ensures
        match r {
            Some(p) => typed@.len() > 0 && p@ == contains_pattern(typed@),
            None => typed@.len() == 0,
        },
{
    if typed.unicode_len() == 0 {
        return None;
    }
    let mut p: String = String::new();
    push_char(&mut p, '*');
    p.append(typed);
    push_char(&mut p, '*');
    proof {
        assert(p@ =~= contains_pattern(typed@));
    }
    Some(p)
}

proof fn lemma_star_matches_all(m: Seq<char>)
    ensures
        glob(seq!['*'], m),
    decreases m.len(),
{
    let p = seq!['*'];
    assert(p.drop_first() =~= Seq::<char>::empty());
    assert(glob(p, m) == (glob(p.drop_first(), m) || (m.len() > 0 && glob(p, m.drop_first()))));
    if m.len() > 0 {
        lemma_star_matches_all(m.drop_first());
    } else {
        assert(glob(Seq::<char>::empty(), m));
    }
}

/// A literal followed by `*` matches exactly the names it starts.
proof fn lemma_literal_then_star(q: Seq<char>, m: Seq<char>)
    requires
        no_wildcards(q),
    ensures
        glob(q + seq!['*'], m) <==> (m.len() >= q.len() && m.take(q.len() as int) == q),
    decreases q.len(),
{
    if q.len() == 0 {
        assert(q + seq!['*'] =~= seq!['*']);
        lemma_star_matches_all(m);
        assert(m.take(0) =~= q);
    } else {
        let p = q + seq!['*'];
        assert(p[0] == q[0]);
        assert(q[0] != '*' && q[0] != '?');
        assert(p.drop_first() =~= q.drop_first() + seq!['*']);
        let r = q.drop_first();
        assert(no_wildcards(r)) by {
            assert forall|i: int| 0 <= i < r.len() implies #[trigger] r[i] != '*' && r[i] != '?' by {
                assert(r[i] == q[i + 1]);
            }
        }
        if m.len() > 0 {
            lemma_literal_then_star(r, m.drop_first());
            if m.len() >= q.len() {
                assert(m.take(q.len() as int).drop_first() =~= m.drop_first().take(r.len() as int));
                if m.take(q.len() as int) == q {
                    assert(m[0] == q[0]);
                }
                if m[0] == q[0] && m.drop_first().take(r.len() as int) == r {
                    assert forall|k: int| 0 <= k < q.len() implies m.take(q.len() as int)[k] == q[k] by {
                        if k > 0 {
                            assert(m.take(q.len() as int)[k] == m.drop_first().take(r.len() as int)[k - 1]);
                            assert(q[k] == r[k - 1]);
                        }
                    }
                    assert(m.take(q.len() as int) =~= q);
                }
            }
        }
    }
}

/// A leading `*` lets the rest match any suffix.
proof fn lemma_star_then(r: Seq<char>, n: Seq<char>)
    ensures
        glob(seq!['*'] + r, n) <==> exists|i: int| 0 <= i <= n.len() && #[trigger] glob(r, n.skip(i)),
    decreases n.len(),
{
    let p = seq!['*'] + r;
    assert(p[0] == '*');
    assert(p.drop_first() =~= r);
    assert(n.skip(0) =~= n);
    assert(glob(p, n) == (glob(r, n) || (n.len() > 0 && glob(p, n.drop_first()))));
    if n.len() > 0 {
        lemma_star_then(r, n.drop_first());
        if exists|i: int| 0 <= i <= n.len() && #[trigger] glob(r, n.skip(i)) {
            let i = choose|i: int| 0 <= i <= n.len() && #[trigger] glob(r, n.skip(i));
            if i > 0 {
                assert(n.drop_first().skip(i - 1) =~= n.skip(i));
            }
        }
        if exists|i: int| 0 <= i <= n.drop_first().len() && #[trigger] glob(r, n.drop_first().skip(i)) {
            let i = choose|i: int| 0 <= i <= n.drop_first().len() && #[trigger] glob(r, n.drop_first().skip(i));
            assert(n.drop_first().skip(i) =~= n.skip(i + 1));
        }
    } else {
        if exists|i: int| 0 <= i <= n.len() && #[trigger] glob(r, n.skip(i)) {
            let i = choose|i: int| 0 <= i <= n.len() && #[trigger] glob(r, n.skip(i));
            assert(i == 0);
        }
    }
}

/// The search box finds exactly the names that contain what was typed
/// (compared after lowercasing both): a pattern `*text*` matches a name
/// if and only if `text` occurs in it, when `text` holds no wildcard.
pub proof fn lemma_contains_pattern_is_substring(typed: Seq<char>, name: Seq<char>)
    requires
        no_wildcards(typed),
    ensures
        glob(contains_pattern(typed), name) <==> occurs_in(typed, name),
{
    assert(contains_pattern(typed) =~= seq!['*'] + (typed + seq!['*']));
    lemma_star_then(typed + seq!['*'], name);
    if glob(contains_pattern(typed), name) {
        let i = choose|i: int| 0 <= i <= name.len() && #[trigger] glob(typed + seq!['*'], name.skip(i));
        lemma_literal_then_star(typed, name.skip(i));
        assert(name.skip(i).take(typed.len() as int) =~= name.subrange(i, i + typed.len()));
    }
    if occurs_in(typed, name) {
        let i = choose|i: int| 0 <= i && i + typed.len() <= name.len() && #[trigger] name.subrange(i, i + typed.len()) == typed;
        lemma_literal_then_star(typed, name.skip(i));
        assert(name.skip(i).take(typed.len() as int) =~= name.subrange(i, i + typed.len()));
        assert(glob(typed + seq!['*'], name.skip(i)));
    }
}

/// No `*` in `p`.
pub open spec fn no_star(p: Seq<char>) -> bool {
    forall|i: int| 0 <= i < p.len() ==> #[trigger] p[i] != '*'
}

/// Without `*`, each character of a pattern stands for exactly one
/// character of the name: `?` for any, others for themselves. So a name
/// matches only when it is as long as the pattern and agrees with it at
/// every position that holds no `?`, and every such name matches.
pub proof fn lemma_glob_without_star(p: Seq<char>, n: Seq<char>)
    requires
        no_star(p),
    ensures
        glob(p, n) == (n.len() == p.len() && forall|i: int| 0 <= i < p.len() && p[i] != '?' ==> #[trigger] n[i] == p[i]),
    decreases p.len(),
{
    if p.len() > 0 && n.len() > 0 {
        assert forall|i: int| 0 <= i < p.drop_first().len() implies #[trigger] p.drop_first()[i] != '*' by {
            assert(p.drop_first()[i] == p[i + 1]);
        }
        lemma_glob_without_star(p.drop_first(), n.drop_first());
        assert(p[0] != '*');
        let rest = forall|i: int|
            0 <= i < p.drop_first().len() && p.drop_first()[i] != '?' ==> #[trigger] n.drop_first()[i] == p.drop_first()[i];
        let all = forall|i: int| 0 <= i < p.len() && p[i] != '?' ==> #[trigger] n[i] == p[i];
        if all && n.len() == p.len() {
            assert forall|i: int| 0 <= i < p.drop_first().len() && p.drop_first()[i] != '?' implies #[trigger] n.drop_first()[i]
                == p.drop_first()[i] by {
                assert(n.drop_first()[i] == n[i + 1] && p.drop_first()[i] == p[i + 1]);
            }
        }
        if rest && (p[0] == '?' || p[0] == n[0]) && n.len() == p.len() {
            assert forall|i: int| 0 <= i < p.len() && p[i] != '?' implies #[trigger] n[i] == p[i] by {
                if i > 0 {
                    assert(n.drop_first()[i - 1] == n[i] && p.drop_first()[i - 1] == p[i]);
                }
            }
        }
    } else if p.len() > 0 {
        assert(p[0] != '*');
    }
}

/// `?` stands for exactly one character: a pattern of `?`s matches exactly
/// the names of its length, so `a?c` does not match `ac`.
pub proof fn lemma_question_mark_is_one_character(p: Seq<char>, n: Seq<char>)
    requires
        no_star(p),
        glob(p, n),
    ensures
        n.len() == p.len(),
{
    lemma_glob_without_star(p, n);
}

/// `*` stands for any run of characters, the empty one included: a
/// pattern starting with `*` matches a name exactly when the rest of the
/// pattern matches some ending of the name.
pub proof fn lemma_star_matches_any_run(p: Seq<char>, n: Seq<char>)
    requires
        p.len() > 0,
        p[0] == '*',
    ensures
        glob(p, n) == exists|k: int| 0 <= k <= n.len() && #[trigger] glob(p.drop_first(), n.skip(k)),
    decreases n.len(),
{
    assert(n.skip(0) =~= n);
    if glob(p.drop_first(), n) {
        assert(glob(p.drop_first(), n.skip(0)));
    }
    if n.len() > 0 {
        lemma_star_matches_any_run(p, n.drop_first());
        if glob(p, n.drop_first()) {
            let k = choose|k: int| 0 <= k <= n.drop_first().len() && #[trigger] glob(p.drop_first(), n.drop_first().skip(k));
            assert(n.drop_first().skip(k) =~= n.skip(k + 1));
            assert(glob(p.drop_first(), n.skip(k + 1)));
        }
        if exists|k: int| 0 <= k <= n.len() && #[trigger] glob(p.drop_first(), n.skip(k)) {
            let k = choose|k: int| 0 <= k <= n.len() && #[trigger] glob(p.drop_first(), n.skip(k));
            if k > 0 {
                assert(n.drop_first().skip(k - 1) =~= n.skip(k));
                assert(glob(p.drop_first(), n.drop_first().skip(k - 1)));
                assert(glob(p, n.drop_first()));
            } else {
                assert(glob(p.drop_first(), n));
            }
        }
    } else {
        if exists|k: int| 0 <= k <= n.len() && #[trigger] glob(p.drop_first(), n.skip(k)) {
            let k = choose|k: int| 0 <= k <= n.len() && #[trigger] glob(p.drop_first(), n.skip(k));
            assert(k == 0);
        }
    }
}

} // verus!
