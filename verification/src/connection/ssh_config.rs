//! `~/.ssh/config` parsing: the `Host` blocks, and within them the
//! `HostName`, `User`, `Port` and `IdentityFile` directives.
use vstd::prelude::*;

use crate::connection::profile::opt_view;
use crate::paths::{path_join, path_joined};
use crate::text::{
    ascii_lower_seq, ascii_lowercase, chars_eq_str, chars_of, is_whitespace, is_ws, parse_u16,
    parse_u16_spec, slice_chars, string_of, trim, trim_chars,
};

verus! {

/// One concrete (non-wildcard) alias from a `Host` line, with the
/// directives that followed it. Other directives are ignored.
#[derive(Debug, Clone, PartialEq, Eq)]
pub struct SshConfigHost {
    pub name: String,
    pub host_name: Option<String>,
    pub user: Option<String>,
    pub port: Option<u16>,
    pub identity_file: Option<String>,
}

pub struct HostView {
    pub name: Seq<char>,
    pub host_name: Option<Seq<char>>,
    pub user: Option<Seq<char>>,
    pub port: Option<u16>,
    pub identity_file: Option<Seq<char>>,
}

impl View for SshConfigHost {
    type V = HostView;

    open spec fn view(&self) -> HostView {
        HostView {
            name: self.name@,
            host_name: opt_view(self.host_name),
            user: opt_view(self.user),
            port: self.port,
            identity_file: opt_view(self.identity_file),
        }
    }
}

pub open spec fn host_views(s: Seq<SshConfigHost>) -> Seq<HostView> {
    s.map_values(|h: SshConfigHost| h@)
}

/// The hosts found so far, and where the aliases of the latest `Host` line
/// begin: directives apply to every host from `group_start` on.
pub struct ParseState {
    pub hosts: Seq<HostView>,
    pub group_start: int,
}

/// The first position at or after `i` holding `c`, or the length.
pub open spec fn index_of_char_from(s: Seq<char>, i: int, c: char) -> int
    decreases s.len() - i,
{
    if i >= s.len() {
        s.len() as int
    } else if s[i] == c {
        i
    } else {
        index_of_char_from(s, i + 1, c)
    }
}

/// The first `c` at or after `i` is at most the length, is a `c` when it
/// is inside the text, and no `c` comes before it.
pub proof fn lemma_index_of_char_bounds(s: Seq<char>, i: int, c: char)
    requires
        0 <= i,
    ensures
        i <= index_of_char_from(s, i, c) || i > s.len(),
        index_of_char_from(s, i, c) <= s.len(),
        index_of_char_from(s, i, c) < s.len() ==> s[index_of_char_from(s, i, c)] == c,
        forall|k: int| i <= k < index_of_char_from(s, i, c) ==> s[k] != c,
    decreases s.len() - i,
{
    if i < s.len() && s[i] != c {
        lemma_index_of_char_bounds(s, i + 1, c);
    }
}

/// The line that starts at `i` and ends before `j`; a `\r` right before a
/// `\n` is not part of it, as `str::lines` does.
pub open spec fn line_at(s: Seq<char>, i: int, j: int) -> Seq<char> {
    let l = s.subrange(i, j);
    if j < s.len() && l.len() > 0 && l.last() == '\r' {
        l.drop_last()
    } else {
        l
    }
}

/// A line up to its first `#`.
pub open spec fn strip_comment(l: Seq<char>) -> Seq<char> {
    l.take(index_of_char_from(l, 0, '#'))
}

pub open spec fn is_sep(c: char) -> bool {
    c == ' ' || c == '\t' || c == '='
}

/// The first position at or after `i` holding a space, tab or `=`, or the
/// length.
pub open spec fn sep_index_from(s: Seq<char>, i: int) -> int
    decreases s.len() - i,
{
    if i >= s.len() {
        s.len() as int
    } else if is_sep(s[i]) {
        i
    } else {
        sep_index_from(s, i + 1)
    }
}

/// `s` without its leading spaces, tabs and `=` signs.
pub open spec fn skip_seps(s: Seq<char>) -> Seq<char>
    decreases s.len(),
{
    if s.len() > 0 && is_sep(s[0]) {
        skip_seps(s.drop_first())
    } else {
        s
    }
}

/// A directive line split into its keyword and its value: the keyword runs
/// to the first space, tab or `=`; the value is what follows, without
/// leading separators or surrounding whitespace.
pub open spec fn split_directive(line: Seq<char>) -> Option<(Seq<char>, Seq<char>)> {
    let t = trim(line);
    let k = sep_index_from(t, 0);
    if k >= t.len() {
        None
    } else {
        Some((t.take(k), trim(skip_seps(t.skip(k)))))
    }
}

/// The end of the word that runs from `i`.
pub open spec fn word_end(s: Seq<char>, i: int) -> int
    decreases s.len() - i,
{
    if i >= s.len() || is_ws(s[i]) {
        i
    } else {
        word_end(s, i + 1)
    }
}

/// A word ends within the text, holds no whitespace, and stops at
/// whitespace or the end.
pub proof fn lemma_word_end_bounds(s: Seq<char>, i: int)
    requires
        0 <= i <= s.len(),
    ensures
        i <= word_end(s, i) <= s.len(),
        forall|k: int| i <= k < word_end(s, i) ==> !is_ws(s[k]),
        word_end(s, i) < s.len() ==> is_ws(s[word_end(s, i)]),
    decreases s.len() - i,
{
    if i < s.len() && !is_ws(s[i]) {
        lemma_word_end_bounds(s, i + 1);
    }
}

/// The whitespace-separated words of `s` from position `i`, as
/// `str::split_whitespace` yields them.
pub open spec fn words_from(s: Seq<char>, i: int) -> Seq<Seq<char>>
    decreases s.len() - i,
{
    if i < 0 || i >= s.len() {
        Seq::empty()
    } else if is_ws(s[i]) {
        words_from(s, i + 1)
    } else {
        let j = word_end(s, i + 1);
        proof {
            lemma_word_end_bounds(s, i + 1);
        }
        seq![s.subrange(i, j)] + words_from(s, j)
    }
}

pub open spec fn is_pattern(alias: Seq<char>) -> bool {
    alias.contains('*') || alias.contains('?')
}

pub open spec fn new_host(name: Seq<char>) -> HostView {
    HostView { name, host_name: None, user: None, port: None, identity_file: None }
}

/// The hosts a `Host` line with value `value` opens: one per alias that is
/// not a wildcard pattern.
pub open spec fn host_aliases(value: Seq<char>) -> Seq<HostView> {
    words_from(value, 0).filter(|a: Seq<char>| !is_pattern(a)).map_values(|a: Seq<char>| new_host(a))
}

/// `~/rest` under the home directory when there is one; any other path as
/// written.
pub open spec fn expand_home(path: Seq<char>, home: Option<Seq<char>>) -> Seq<char> {
    if path.len() >= 2 && path[0] == '~' && path[1] == '/' && home is Some {
        path_joined(home->0, path.skip(2))
    } else {
        path
    }
}

pub open spec fn set_group(hosts: Seq<HostView>, start: int, f: spec_fn(HostView) -> HostView) -> Seq<HostView> {
    Seq::new(hosts.len(), |k: int| if k >= start { f(hosts[k]) } else { hosts[k] })
}

/// The effect of one directive whose keyword, lowercased, is `kw`.
pub open spec fn apply_directive(st: ParseState, kw: Seq<char>, value: Seq<char>, home: Option<Seq<char>>) -> ParseState {
    if kw == "host"@ {
        ParseState { hosts: st.hosts + host_aliases(value), group_start: st.hosts.len() as int }
    } else if kw == "hostname"@ {
        ParseState {
            hosts: set_group(st.hosts, st.group_start, |h: HostView| HostView { host_name: Some(value), ..h }),
            group_start: st.group_start,
        }
    } else if kw == "user"@ {
        ParseState {
            hosts: set_group(st.hosts, st.group_start, |h: HostView| HostView { user: Some(value), ..h }),
            group_start: st.group_start,
        }
    } else if kw == "port"@ {
        match parse_u16_spec(value) {
            Some(port) => ParseState {
                hosts: set_group(st.hosts, st.group_start, |h: HostView| HostView { port: Some(port), ..h }),
                group_start: st.group_start,
            },
            None => st,
        }
    } else if kw == "identityfile"@ {
        ParseState {
            hosts: set_group(
                st.hosts,
                st.group_start,
                |h: HostView| HostView { identity_file: Some(expand_home(value, home)), ..h },
            ),
            group_start: st.group_start,
        }
    } else {
        st
    }
}

/// The effect of one line: comments are cut at `#`, blank lines and lines
/// without a separator are skipped, keywords are case-insensitive.
pub open spec fn apply_line(st: ParseState, raw: Seq<char>, home: Option<Seq<char>>) -> ParseState {
    let line = trim(strip_comment(raw));
    if line.len() == 0 {
        st
    } else {
        match split_directive(line) {
            None => st,
            Some((kw, value)) => apply_directive(st, ascii_lower_seq(kw), value, home),
        }
    }
}

/// The state after the lines of `s` from position `i` on.
pub open spec fn parse_from(s: Seq<char>, i: int, st: ParseState, home: Option<Seq<char>>) -> ParseState
    decreases s.len() + 1 - i,
{
    if i < 0 || i >= s.len() {
        st
    } else {
        let j = index_of_char_from(s, i, '\n');
        proof {
            lemma_index_of_char_bounds(s, i, '\n');
        }
        parse_from(s, j + 1, apply_line(st, line_at(s, i, j), home), home)
    }
}

/// The hosts a config file defines, in file order.
pub open spec fn parse_spec(contents: Seq<char>, home: Option<Seq<char>>) -> Seq<HostView> {
    parse_from(contents, 0, ParseState { hosts: Seq::empty(), group_start: 0 }, home).hosts
}

fn index_of_char(v: &Vec<char>, from: usize, c: char) -> (r: usize)
    requires
        from <= v.len(),
    ensures
        r == index_of_char_from(v@, from as int, c),
{
    proof {
        lemma_index_of_char_bounds(v@, from as int, c);
    }
    let mut i: usize = from;
    while i < v.len() && v[i] != c
        invariant
            from <= i <= v.len(),
            index_of_char_from(v@, from as int, c) == index_of_char_from(v@, i as int, c),
        decreases v.len() - i,
    {
        i = i + 1;
    }
    i
}

fn sep_index(v: &Vec<char>) -> (r: usize)
    ensures
        r == sep_index_from(v@, 0),
        r <= v.len(),
{
    let mut i: usize = 0;
    while i < v.len() && !(v[i] == ' ' || v[i] == '\t' || v[i] == '=')
        invariant
            i <= v.len(),
            sep_index_from(v@, 0) == sep_index_from(v@, i as int),
        decreases v.len() - i,
    {
        i = i + 1;
    }
    i
}

proof fn lemma_skip_seps(s: Seq<char>, i: int)
    requires
        0 <= i <= s.len(),
        forall|k: int| 0 <= k < i ==> is_sep(#[trigger] s[k]),
    ensures
        skip_seps(s) == skip_seps(s.skip(i)),
    decreases i,
{
    if i > 0 {
        let t = s.drop_first();
        assert forall|k: int| 0 <= k < i - 1 implies is_sep(#[trigger] t[k]) by {
            assert(t[k] == s[k + 1]);
        }
        lemma_skip_seps(t, i - 1);
        assert(t.skip(i - 1) == s.skip(i));
        assert(is_sep(s[0]));
    } else {
        assert(s.skip(0) == s);
    }
}

fn strip_seps(v: &Vec<char>) -> (r: Vec<char>)
    ensures
        r@ == skip_seps(v@),
{
    let mut i: usize = 0;
    while i < v.len() && (v[i] == ' ' || v[i] == '\t' || v[i] == '=')
        invariant
            i <= v.len(),
            forall|k: int| 0 <= k < i ==> is_sep(#[trigger] v@[k]),
        decreases v.len() - i,
    {
        i = i + 1;
    }
    proof {
        lemma_skip_seps(v@, i as int);
        let t = v@.skip(i as int);
        if t.len() > 0 {
            assert(t[0] == v@[i as int]);
        }
    }
    slice_chars(v, i, v.len())
}

fn split_directive_exec(line: &Vec<char>) -> (r: Option<(Vec<char>, Vec<char>)>)
    ensures
        match r {
            Some((k, v)) => split_directive(line@) == Some((k@, v@)),
            None => split_directive(line@) is None,
        },
{
    let t: Vec<char> = trim_chars(line);
    let k: usize = sep_index(&t);
    if k >= t.len() {
        return None;
    }
    let keyword: Vec<char> = slice_chars(&t, 0, k);
    let rest: Vec<char> = slice_chars(&t, k, t.len());
    let skipped: Vec<char> = strip_seps(&rest);
    let value: Vec<char> = trim_chars(&skipped);
    proof {
        assert(keyword@ == t@.take(k as int));
        assert(rest@ == t@.skip(k as int));
    }
    Some((keyword, value))
}

fn words(v: &Vec<char>) -> (r: Vec<Vec<char>>)
    ensures
        r@.map_values(|w: Vec<char>| w@) == words_from(v@, 0),
{
    let mut r: Vec<Vec<char>> = Vec::new();
    let mut i: usize = 0;
    while i < v.len()
        invariant
            i <= v.len(),
            words_from(v@, 0) == r@.map_values(|w: Vec<char>| w@) + words_from(v@, i as int),
        decreases v.len() - i,
    {
        if is_whitespace(v[i]) {
            i = i + 1;
        } else {
            let mut j: usize = i + 1;
            proof {
                lemma_word_end_bounds(v@, i + 1);
            }
            while j < v.len() && !is_whitespace(v[j])
                invariant
                    i < j <= v.len(),
                    word_end(v@, i + 1) == word_end(v@, j as int),
                decreases v.len() - j,
            {
                j = j + 1;
            }
            let ghost before = r@.map_values(|w: Vec<char>| w@);
            let w: Vec<char> = slice_chars(v, i, j);
            r.push(w);
            proof {
                assert(r@.map_values(|w: Vec<char>| w@) =~= before.push(v@.subrange(i as int, j as int)));
                assert(words_from(v@, i as int) == seq![v@.subrange(i as int, j as int)] + words_from(v@, j as int));
                assert(before + words_from(v@, i as int) =~= before.push(v@.subrange(i as int, j as int))
                    + words_from(v@, j as int));
            }
            i = j;
        }
    }
    proof {
        assert(words_from(v@, i as int) == Seq::<Seq<char>>::empty());
        assert(r@.map_values(|w: Vec<char>| w@) + Seq::<Seq<char>>::empty() =~= r@.map_values(|w: Vec<char>| w@));
    }
    r
}

fn has_char(v: &Vec<char>, c: char) -> (r: bool)
    ensures
        r == v@.contains(c),
{
    let mut i: usize = 0;
    while i < v.len()
        invariant
            i <= v.len(),
            forall|k: int| 0 <= k < i ==> v@[k] != c,
        decreases v.len() - i,
    {
        if v[i] == c {
            assert(v@[i as int] == c);
            return true;
        }
        i = i + 1;
    }
    false
}

fn new_host_exec(name: &Vec<char>) -> (h: SshConfigHost)
    ensures
        h@ == new_host(name@),
{
    SshConfigHost { name: string_of(name), host_name: None, user: None, port: None, identity_file: None }
}

fn clone_host(h: &SshConfigHost) -> (r: SshConfigHost)
    ensures
        r == *h,
{
    SshConfigHost {
        name: h.name.clone(),
        host_name: crate::connection::profile::clone_opt_string(&h.host_name),
        user: crate::connection::profile::clone_opt_string(&h.user),
        port: h.port,
        identity_file: crate::connection::profile::clone_opt_string(&h.identity_file),
    }
}

/// Which field a directive sets on every host of the current group.
enum Field {
    HostName(String),
    User(String),
    Port(u16),
    IdentityFile(String),
}

spec fn field_update(f: Field) -> spec_fn(HostView) -> HostView {
    match f {
        Field::HostName(v) => |h: HostView| HostView { host_name: Some(v@), ..h },
        Field::User(v) => |h: HostView| HostView { user: Some(v@), ..h },
        Field::Port(p) => |h: HostView| HostView { port: Some(p), ..h },
        Field::IdentityFile(v) => |h: HostView| HostView { identity_file: Some(v@), ..h },
    }
}

fn apply_field(hosts: &mut Vec<SshConfigHost>, start: usize, field: &Field)
    ensures
        host_views(final(hosts)@) == set_group(host_views(old(hosts)@), start as int, field_update(*field)),
{
    let ghost old_views = host_views(hosts@);
    let mut k: usize = start;
    while k < hosts.len()
        invariant
            start <= k,
            old_views.len() == hosts.len(),
            forall|q: int|
                0 <= q < hosts.len() ==> #[trigger] host_views(hosts@)[q] == if start <= q < k {
                    field_update(*field)(old_views[q])
                } else {
                    old_views[q]
                },
        decreases hosts.len() - k,
    {
        let ghost target = field_update(*field)(hosts@[k as int]@);
        let mut h: SshConfigHost = clone_host(&hosts[k]);
        match field {
            Field::HostName(v) => {
                h.host_name = Some(v.clone());
            },
            Field::User(v) => {
                h.user = Some(v.clone());
            },
            Field::Port(p) => {
                h.port = Some(*p);
            },
            Field::IdentityFile(v) => {
                h.identity_file = Some(v.clone());
            },
        }
        assert(h@ == target);
        let ghost before = hosts@;
        let ghost hv = h@;
        assert(host_views(before)[k as int] == old_views[k as int]);
        hosts.set(k, h);
        proof {
            assert forall|q: int| 0 <= q < hosts.len() implies #[trigger] host_views(hosts@)[q] == if start <= q < k
                + 1 {
                field_update(*field)(old_views[q])
            } else {
                old_views[q]
            } by {
                if q != k {
                    assert(hosts@[q] == before[q]);
                    assert(host_views(before)[q] == host_views(hosts@)[q]);
                } else {
                    assert(hosts@[q]@ == hv);
                    assert(host_views(hosts@)[q] == hosts@[q]@);
                }
            }
        }
        k = k + 1;
    }
    proof {
        assert(host_views(hosts@) =~= set_group(old_views, start as int, field_update(*field)));
    }
}

fn expand_home_exec(path: &Vec<char>, home: &Option<String>) -> (r: String)
    ensures
        r@ == expand_home(path@, opt_view(*home)),
{
    if path.len() >= 2 && path[0] == '~' && path[1] == '/' {
        match home {
            Some(h) => {
                let rest: Vec<char> = slice_chars(path, 2, path.len());
                let rest_s: String = string_of(&rest);
                proof {
                    assert(rest@ == path@.skip(2));
                }
                return path_join(h.as_str(), rest_s.as_str());
            },
            None => {},
        }
    }
    string_of(path)
}

fn add_aliases(hosts: &mut Vec<SshConfigHost>, value: &Vec<char>)
    ensures
        host_views(final(hosts)@) == host_views(old(hosts)@) + host_aliases(value@),
{
    let ws: Vec<Vec<char>> = words(value);
    let ghost all = ws@.map_values(|w: Vec<char>| w@);
    let ghost pred = |a: Seq<char>| !is_pattern(a);
    let ghost mk = |a: Seq<char>| new_host(a);
    let ghost base = host_views(hosts@);
    let mut i: usize = 0;
    while i < ws.len()
        invariant
            i <= ws.len(),
            all == ws@.map_values(|w: Vec<char>| w@),
            pred == (|a: Seq<char>| !is_pattern(a)),
            mk == (|a: Seq<char>| new_host(a)),
            host_views(hosts@) == base + all.take(i as int).filter(pred).map_values(mk),
        decreases ws.len() - i,
    {
        proof {
            assert(all.take(i + 1) == all.take(i as int).push(all[i as int]));
            all.take(i as int).lemma_filter_push(all[i as int], pred);
        }
        let w: &Vec<char> = &ws[i];
        if !has_char(w, '*') && !has_char(w, '?') {
            let ghost before = host_views(hosts@);
            hosts.push(new_host_exec(w));
            proof {
                let f = all.take(i as int).filter(pred);
                assert(host_views(hosts@) =~= before.push(new_host(w@)));
                assert(f.push(all[i as int]).map_values(mk) =~= f.map_values(mk).push(mk(all[i as int])));
                assert(host_views(hosts@) =~= base + all.take(i + 1).filter(pred).map_values(mk));
            }
        }
        i = i + 1;
    }
    proof {
        assert(all.take(all.len() as int) == all);
        assert(all == words_from(value@, 0));
    }
}

fn apply_line_exec(hosts: &mut Vec<SshConfigHost>, group_start: &mut usize, raw: &Vec<char>, home: &Option<String>)
    requires
        *old(group_start) <= old(hosts)@.len(),
    ensures
        *final(group_start) <= final(hosts)@.len(),
        apply_line(ParseState { hosts: host_views(old(hosts)@), group_start: *old(group_start) as int }, raw@, opt_view(*home))
            == (ParseState { hosts: host_views(final(hosts)@), group_start: *final(group_start) as int }),
{
    let hash: usize = index_of_char(raw, 0, '#');
    proof {
        lemma_index_of_char_bounds(raw@, 0, '#');
    }
    let uncommented: Vec<char> = slice_chars(raw, 0, hash);
    let line: Vec<char> = trim_chars(&uncommented);
    proof {
        assert(uncommented@ == strip_comment(raw@));
    }
    if line.len() == 0 {
        return;
    }
    let (keyword, value) = match split_directive_exec(&line) {
        Some(parts) => parts,
        None => {
            return;
        },
    };
    let kw: Vec<char> = ascii_lowercase(&keyword);
    if chars_eq_str(&kw, "host") {
        *group_start = hosts.len();
        add_aliases(hosts, &value);
    } else if chars_eq_str(&kw, "hostname") {
        let field = Field::HostName(string_of(&value));
        apply_field(hosts, *group_start, &field);
        proof {
            assert(field_update(field) =~= (|h: HostView| HostView { host_name: Some(value@), ..h }));
        }
    } else if chars_eq_str(&kw, "user") {
        let field = Field::User(string_of(&value));
        apply_field(hosts, *group_start, &field);
        proof {
            assert(field_update(field) =~= (|h: HostView| HostView { user: Some(value@), ..h }));
        }
    } else if chars_eq_str(&kw, "port") {
        match parse_u16(&value) {
            Some(port) => {
                let field = Field::Port(port);
                apply_field(hosts, *group_start, &field);
                proof {
                    assert(field_update(field) =~= (|h: HostView| HostView { port: Some(port), ..h }));
                }
            },
            None => {},
        }
    } else if chars_eq_str(&kw, "identityfile") {
        let path: String = expand_home_exec(&value, home);
        let field = Field::IdentityFile(path);
        apply_field(hosts, *group_start, &field);
        proof {
            assert(field_update(field) =~= (|h: HostView|
                HostView { identity_file: Some(expand_home(value@, opt_view(*home))), ..h }));
        }
    }
    assert(host_views(hosts@).len() == hosts@.len());
}

/// Where the SSH client config lives: `~/.ssh/config`, where the home
/// directory is known.
pub fn default_path(home: Option<&str>) -> (r: Option<String>)
    ensures
        match home {
            Some(h) => r is Some && r->0@ == path_joined(path_joined(h@, ".ssh"@), "config"@),
            None => r is None,
        },
{
    match home {
        Some(h) => {
            let ssh: String = path_join(h, ".ssh");
            Some(path_join(ssh.as_str(), "config"))
        },
        None => None,
    }
}

/// The hosts of the SSH client config, given its contents where the file
/// was found: none where it was not.
pub fn load(contents: Option<&str>, home: Option<&str>) -> (hosts: Vec<SshConfigHost>)
    ensures
        match contents {
            Some(c) => host_views(hosts@) == parse_spec(c@, match home {
                Some(h) => Some(h@),
                None => None,
            }),
            None => hosts@.len() == 0,
        },
{
    match contents {
        Some(c) => parse(c, home),
        None => Vec::new(),
    }
}

/// Parses a config file into its concrete hosts, in file order. `home` is
/// the home directory that `~/` in `IdentityFile` paths stands for.
pub fn parse(contents: &str, home: Option<&str>) -> (hosts: Vec<SshConfigHost>)
    ensures
        host_views(hosts@) == parse_spec(contents@, match home {
            Some(h) => Some(h@),
            None => None,
        }),
{
    let home_dir: Option<String> = match home {
        Some(h) => Some(h.to_owned()),
        None => None,
    };
    let s: Vec<char> = chars_of(contents);
    let mut hosts: Vec<SshConfigHost> = Vec::new();
    let mut group_start: usize = 0;
    let mut i: usize = 0;
    let ghost init = ParseState { hosts: Seq::empty(), group_start: 0 };
    proof {
        assert(host_views(hosts@) =~= Seq::<HostView>::empty());
    }
    while i < s.len()
        invariant
            i <= s.len(),
            s@ == contents@,
            group_start <= hosts@.len(),
            parse_from(s@, 0, init, opt_view(home_dir)) == parse_from(
                s@,
                i as int,
                ParseState { hosts: host_views(hosts@), group_start: group_start as int },
                opt_view(home_dir),
            ),
        decreases s.len() - i,
    {
        let j: usize = index_of_char(&s, i, '\n');
        proof {
            lemma_index_of_char_bounds(s@, i as int, '\n');
        }
        let mut end: usize = j;
        if j < s.len() && j > i && s[j - 1] == '\r' {
            end = j - 1;
        }
        let raw: Vec<char> = slice_chars(&s, i, end);
        proof {
            assert(raw@ == line_at(s@, i as int, j as int));
        }
        let ghost st = ParseState { hosts: host_views(hosts@), group_start: group_start as int };
        apply_line_exec(&mut hosts, &mut group_start, &raw, &home_dir);
        let ghost st2 = ParseState { hosts: host_views(hosts@), group_start: group_start as int };
        proof {
            assert(parse_from(s@, i as int, st, opt_view(home_dir)) == parse_from(s@, j + 1, st2, opt_view(home_dir)));
            if j >= s.len() {
                assert(parse_from(s@, j + 1, st2, opt_view(home_dir)) == st2);
                assert(parse_from(s@, s@.len() as int, st2, opt_view(home_dir)) == st2);
            }
        }
        if j >= s.len() {
            i = s.len();
        } else {
            i = j + 1;
        }
    }
    proof {
        assert(opt_view(home_dir) == match home {
            Some(h) => Some(h@),
            None => None::<Seq<char>>,
        });
        assert(parse_from(s@, i as int, ParseState { hosts: host_views(hosts@), group_start: group_start as int }, opt_view(home_dir)).hosts == host_views(hosts@));
    }
    hosts
}

/// Whether a line is a `Host` line: after comments and whitespace it names
/// the keyword `host`, in any case.
pub open spec fn opens_group(raw: Seq<char>) -> bool {
    let line = trim(strip_comment(raw));
    line.len() > 0 && (split_directive(line) matches Some((kw, _)) && ascii_lower_seq(kw) == "host"@)
}

/// Hosts that are closed (before the group directives now apply to) stay
/// as they are: a line changes none of the first `n` hosts when `n` is at
/// most where the current group starts, and the group still starts at or
/// after `n` afterwards.
proof fn lemma_line_keeps_closed(st: ParseState, raw: Seq<char>, home: Option<Seq<char>>, n: int)
    requires
        0 <= n <= st.group_start,
        n <= st.hosts.len(),
    ensures
        n <= apply_line(st, raw, home).group_start,
        n <= apply_line(st, raw, home).hosts.len(),
        apply_line(st, raw, home).hosts.take(n) == st.hosts.take(n),
{
    let r = apply_line(st, raw, home);
    assert(r.hosts.len() >= st.hosts.len());
    assert forall|k: int| 0 <= k < n implies r.hosts[k] == st.hosts[k] by {}
    assert(r.hosts.take(n) =~= st.hosts.take(n));
}

/// The first `n` hosts of the state stay as they are through the rest of
/// the file, when the current group starts at or after `n`.
proof fn lemma_parse_keeps_closed(s: Seq<char>, i: int, st: ParseState, home: Option<Seq<char>>, n: int)
    requires
        0 <= n <= st.group_start,
        n <= st.hosts.len(),
    ensures
        n <= parse_from(s, i, st, home).hosts.len(),
        parse_from(s, i, st, home).hosts.take(n) == st.hosts.take(n),
    decreases s.len() + 1 - i,
{
    if 0 <= i < s.len() {
        let j = index_of_char_from(s, i, '\n');
        lemma_index_of_char_bounds(s, i, '\n');
        let next = apply_line(st, line_at(s, i, j), home);
        lemma_line_keeps_closed(st, line_at(s, i, j), home, n);
        lemma_parse_keeps_closed(s, j + 1, next, home, n);
    }
}

/// A `Host` line closes the hosts opened before it: whatever follows, from
/// that line to the end of the file, leaves them as they were. So the
/// directives of a `Host` block apply to that block's aliases only.
pub proof fn lemma_host_line_closes_earlier_hosts(s: Seq<char>, i: int, st: ParseState, home: Option<Seq<char>>)
    requires
        0 <= i < s.len(),
        opens_group(line_at(s, i, index_of_char_from(s, i, '\n'))),
    ensures
        st.hosts.len() <= parse_from(s, i, st, home).hosts.len(),
        parse_from(s, i, st, home).hosts.take(st.hosts.len() as int) == st.hosts,
{
    let j = index_of_char_from(s, i, '\n');
    lemma_index_of_char_bounds(s, i, '\n');
    let next = apply_line(st, line_at(s, i, j), home);
    let n = st.hosts.len() as int;
    assert(next.group_start == n);
    assert(next.hosts.take(n) =~= st.hosts);
    lemma_parse_keeps_closed(s, j + 1, next, home, n);
}

proof fn lemma_index_shift(c1: Seq<char>, c2: Seq<char>, k: int, c: char)
    requires
        0 <= k,
    ensures
        index_of_char_from(c1 + c2, c1.len() + k, c) == c1.len() + index_of_char_from(c2, k, c),
    decreases c2.len() - k,
{
    let s = c1 + c2;
    if k < c2.len() {
        assert(s[c1.len() + k] == c2[k]);
        if c2[k] != c {
            lemma_index_shift(c1, c2, k + 1, c);
            assert(c1.len() + k + 1 == c1.len() + (k + 1));
        }
    }
}

proof fn lemma_index_prefix(c1: Seq<char>, c2: Seq<char>, i: int, c: char)
    requires
        0 <= i <= c1.len(),
        index_of_char_from(c1, i, c) < c1.len(),
    ensures
        index_of_char_from(c1 + c2, i, c) == index_of_char_from(c1, i, c),
    decreases c1.len() - i,
{
    let s = c1 + c2;
    if i < c1.len() {
        assert(s[i] == c1[i]);
        if c1[i] != c {
            lemma_index_prefix(c1, c2, i + 1, c);
        }
    }
}

/// Reading `c2` after `c1` goes on from where `c1` left off.
proof fn lemma_parse_shift(c1: Seq<char>, c2: Seq<char>, k: int, st: ParseState, home: Option<Seq<char>>)
    requires
        0 <= k,
    ensures
        parse_from(c1 + c2, c1.len() + k, st, home) == parse_from(c2, k, st, home),
    decreases c2.len() + 1 - k,
{
    let s = c1 + c2;
    if k < c2.len() {
        let j = index_of_char_from(c2, k, '\n');
        lemma_index_of_char_bounds(c2, k, '\n');
        lemma_index_shift(c1, c2, k, '\n');
        assert(s.subrange(c1.len() + k, c1.len() + j) =~= c2.subrange(k, j));
        assert(line_at(s, c1.len() + k, c1.len() + j) == line_at(c2, k, j));
        let next = apply_line(st, line_at(c2, k, j), home);
        lemma_parse_shift(c1, c2, j + 1, next, home);
        assert(c1.len() + j + 1 == c1.len() + (j + 1));
    }
}

/// A file whose first part ends a line is read as its first part, then
/// the rest from the state that part left.
pub proof fn lemma_parse_concat(c1: Seq<char>, c2: Seq<char>, i: int, st: ParseState, home: Option<Seq<char>>)
    requires
        0 <= i <= c1.len(),
        c1.len() == 0 || c1.last() == '\n',
    ensures
        parse_from(c1 + c2, i, st, home) == parse_from(c2, 0, parse_from(c1, i, st, home), home),
    decreases c1.len() - i,
{
    let s = c1 + c2;
    if i == c1.len() {
        lemma_parse_shift(c1, c2, 0, st, home);
        assert(c1.len() + 0 == c1.len());
    } else {
        lemma_index_of_char_bounds(c1, i, '\n');
        let j = index_of_char_from(c1, i, '\n');
        if j >= c1.len() {
            assert(c1[c1.len() - 1] == '\n');
        }
        assert(j < c1.len());
        lemma_index_prefix(c1, c2, i, '\n');
        assert(s.subrange(i, j) =~= c1.subrange(i, j));
        assert(line_at(s, i, j) == line_at(c1, i, j));
        let next = apply_line(st, line_at(c1, i, j), home);
        lemma_parse_concat(c1, c2, j + 1, next, home);
    }
}

/// Appending `Host` blocks to a config file leaves the hosts it defined as
/// they were: when `c2` starts with a `Host` line, the hosts of `c1 + c2`
/// begin with exactly the hosts of `c1`.
pub proof fn lemma_later_blocks_keep_earlier_hosts(c1: Seq<char>, c2: Seq<char>, home: Option<Seq<char>>)
    requires
        c1.len() == 0 || c1.last() == '\n',
        c2.len() > 0,
        opens_group(line_at(c2, 0, index_of_char_from(c2, 0, '\n'))),
    ensures
        parse_spec(c1, home).len() <= parse_spec(c1 + c2, home).len(),
        parse_spec(c1 + c2, home).take(parse_spec(c1, home).len() as int) == parse_spec(c1, home),
{
    let init = ParseState { hosts: Seq::empty(), group_start: 0 };
    lemma_parse_concat(c1, c2, 0, init, home);
    let st1 = parse_from(c1, 0, init, home);
    lemma_host_line_closes_earlier_hosts(c2, 0, st1, home);
}

} // verus!
