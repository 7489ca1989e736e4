//! The saved connections as the connections file holds them: a table of
//! profiles keyed by name, kept in name order.
use vstd::prelude::*;

use super::profile::{clone_opt_string, ConnectionProfile, ConnectionView};
use crate::paths::{path_join, path_joined};
use crate::text::chars_of;
use crate::tui::sort::{lemma_lex_antisym, lemma_lex_trans, lex_compare, lex_order};

verus! {

/// The profiles of the connections file, each under its name, in the
/// order `str` sorts names.
pub struct ConfigFile {
    connections: Vec<(String, ConnectionProfile)>,
}

pub open spec fn table_view(s: Seq<(String, ConnectionProfile)>) -> Seq<(Seq<char>, ConnectionView)> {
    s.map_values(|e: (String, ConnectionProfile)| (e.0@, e.1@))
}

/// Names strictly increase along the table.
pub open spec fn names_sorted(t: Seq<(Seq<char>, ConnectionView)>) -> bool {
    forall|i: int, j: int| 0 <= i < j < t.len() ==> lex_order(#[trigger] t[i].0, #[trigger] t[j].0) < 0
}

/// The profile saved under `name`, if any.
pub open spec fn lookup(t: Seq<(Seq<char>, ConnectionView)>, name: Seq<char>) -> Option<ConnectionView> {
    if exists|i: int| 0 <= i < t.len() && #[trigger] t[i].0 == name {
        Some(t[choose|i: int| 0 <= i < t.len() && #[trigger] t[i].0 == name].1)
    } else {
        None
    }
}

/// A profile as loaded: its name is the key it is saved under.
pub open spec fn loaded(name: Seq<char>, p: ConnectionView) -> ConnectionView {
    ConnectionView { name, ..p }
}

impl View for ConfigFile {
    type V = Seq<(Seq<char>, ConnectionView)>;

    closed spec fn view(&self) -> Seq<(Seq<char>, ConnectionView)> {
        table_view(self.connections@)
    }
}

proof fn lemma_sorted_unique(t: Seq<(Seq<char>, ConnectionView)>, i: int, j: int)
    requires
        names_sorted(t),
        0 <= i < t.len(),
        0 <= j < t.len(),
        t[i].0 == t[j].0,
    ensures
        i == j,
{
    if i < j {
        lemma_lex_antisym(t[i].0, t[j].0);
    }
    if j < i {
        lemma_lex_antisym(t[j].0, t[i].0);
    }
}

proof fn lemma_lookup_at(t: Seq<(Seq<char>, ConnectionView)>, i: int)
    requires
        names_sorted(t),
        0 <= i < t.len(),
    ensures
        lookup(t, t[i].0) == Some(t[i].1),
{
    let j = choose|j: int| 0 <= j < t.len() && #[trigger] t[j].0 == t[i].0;
    lemma_sorted_unique(t, i, j);
}

pub fn clone_profile(p: &ConnectionProfile) -> (r: ConnectionProfile)
    ensures
        r@ == p@,
{
    ConnectionProfile {
        name: p.name.clone(),
        host: p.host.clone(),
        port: p.port,
        username: p.username.clone(),
        identity_file: clone_opt_string(&p.identity_file),
        remote_path: clone_opt_string(&p.remote_path),
        password: clone_opt_string(&p.password),
    }
}

impl ConfigFile {
    /// Names are in order and none repeats.
    pub open spec fn wf(&self) -> bool {
        names_sorted(self@)
    }

    /// An empty table, as a missing file gives.
    pub fn new() -> (c: ConfigFile)
        ensures
            c.wf(),
            c@.len() == 0,
    {
        let c = ConfigFile { connections: Vec::new() };
        proof {
            assert(table_view(c.connections@) =~= Seq::<(Seq<char>, ConnectionView)>::empty());
        }
        c
    }

    /// The entries, in name order, for writing the file.
    pub fn entries(&self) -> (r: &[(String, ConnectionProfile)])
        ensures
            table_view(r@) == self@,
    {
        self.connections.as_slice()
    }

    /// Saves `profile` under `name`, replacing what was saved there.
    pub fn insert(&mut self, name: String, profile: ConnectionProfile)
        requires
            old(self).wf(),
        ensures
            final(self).wf(),
            lookup(final(self)@, name@) == Some(profile@),
            forall|k: Seq<char>| k != name@ ==> #[trigger] lookup(final(self)@, k) == lookup(old(self)@, k),
    {
        let ghost t = self@;
        let key: Vec<char> = chars_of(name.as_str());
        let mut i: usize = 0;
        while i < self.connections.len() && lex_compare(&chars_of(self.connections[i].0.as_str()), &key) < 0
            invariant
                i <= self.connections.len(),
                t == self@,
                names_sorted(t),
                key@ == name@,
                forall|m: int| 0 <= m < i ==> lex_order(#[trigger] t[m].0, name@) < 0,
            decreases self.connections.len() - i,
        {
            assert(t[i as int].0 == self.connections@[i as int].0@);
            i = i + 1;
        }
        let ghost pv = profile@;
        let ghost nv = name@;
        if i < self.connections.len() && lex_compare(&chars_of(self.connections[i].0.as_str()), &key) == 0 {
            proof {
                assert(t[i as int].0 == self.connections@[i as int].0@);
                lemma_lex_antisym(t[i as int].0, nv);
            }
            self.connections.set(i, (name, profile));
            proof {
                let u = self@;
                assert(u =~= t.update(i as int, (nv, pv)));
                assert(names_sorted(u)) by {
                    assert forall|a: int, b: int| 0 <= a < b < u.len() implies lex_order(#[trigger] u[a].0, #[trigger] u[b].0)
                        < 0 by {
                        assert(lex_order(t[a].0, t[b].0) < 0);
                    }
                }
                lemma_lookup_at(u, i as int);
                assert forall|k: Seq<char>| k != nv implies #[trigger] lookup(u, k) == lookup(t, k) by {
                    if exists|m: int| 0 <= m < t.len() && #[trigger] t[m].0 == k {
                        let m = choose|m: int| 0 <= m < t.len() && #[trigger] t[m].0 == k;
                        lemma_lookup_at(t, m);
                        assert(m != i);
                        assert(u[m] == t[m]);
                        lemma_lookup_at(u, m);
                    } else {
                        assert forall|m: int| 0 <= m < u.len() implies #[trigger] u[m].0 != k by {
                            if m != i {
                                assert(u[m] == t[m]);
                            }
                        }
                    }
                }
            }
        } else {
            proof {
                if i < t.len() {
                    assert(t[i as int].0 == self.connections@[i as int].0@);
                    lemma_lex_antisym(t[i as int].0, nv);
                    assert(lex_order(nv, t[i as int].0) < 0);
                }
            }
            self.connections.insert(i, (name, profile));
            proof {
                let u = self@;
                assert(u =~= t.insert(i as int, (nv, pv)));
                assert(names_sorted(u)) by {
                    assert forall|a: int, b: int| 0 <= a < b < u.len() implies lex_order(#[trigger] u[a].0, #[trigger] u[b].0)
                        < 0 by {
                        if b < i {
                            assert(u[a] == t[a] && u[b] == t[b]);
                        } else if b == i {
                            assert(u[a] == t[a]);
                        } else if a < i {
                            assert(u[a] == t[a] && u[b] == t[b - 1]);
                            assert(lex_order(t[a].0, nv) < 0);
                            if b - 1 > i {
                                assert(lex_order(t[i as int].0, t[b - 1].0) < 0);
                                lemma_lex_trans(nv, t[i as int].0, t[b - 1].0);
                            }
                            lemma_lex_trans(t[a].0, nv, t[b - 1].0);
                        } else if a == i {
                            assert(u[b] == t[b - 1]);
                            if b - 1 > i {
                                assert(lex_order(t[i as int].0, t[b - 1].0) < 0);
                                lemma_lex_trans(nv, t[i as int].0, t[b - 1].0);
                            }
                        } else {
                            assert(u[a] == t[a - 1] && u[b] == t[b - 1]);
                        }
                    }
                }
                lemma_lookup_at(u, i as int);
                assert forall|k: Seq<char>| k != nv implies #[trigger] lookup(u, k) == lookup(t, k) by {
                    if exists|m: int| 0 <= m < t.len() && #[trigger] t[m].0 == k {
                        let m = choose|m: int| 0 <= m < t.len() && #[trigger] t[m].0 == k;
                        lemma_lookup_at(t, m);
                        let q = if m < i {
                            m
                        } else {
                            m + 1
                        };
                        assert(u[q] == t[m]);
                        lemma_lookup_at(u, q);
                    } else {
                        assert forall|m: int| 0 <= m < u.len() implies #[trigger] u[m].0 != k by {
                            if m < i {
                                assert(u[m] == t[m]);
                            } else if m > i {
                                assert(u[m] == t[m - 1]);
                            }
                        }
                    }
                }
            }
        }
    }

    /// Removes what was saved under `name`, if anything.
    pub fn remove(&mut self, name: &str)
        requires
            old(self).wf(),
        ensures
            final(self).wf(),
            lookup(final(self)@, name@) is None,
            forall|k: Seq<char>| k != name@ ==> #[trigger] lookup(final(self)@, k) == lookup(old(self)@, k),
    {
        let ghost t = self@;
        let key: Vec<char> = chars_of(name);
        let mut i: usize = 0;
        while i < self.connections.len()
            invariant
                i <= self.connections.len(),
                t == self@,
                t == old(self)@,
                names_sorted(t),
                key@ == name@,
                forall|m: int| 0 <= m < i ==> #[trigger] t[m].0 != name@,
            decreases self.connections.len() - i,
        {
            assert(t[i as int].0 == self.connections@[i as int].0@);
            if lex_compare(&chars_of(self.connections[i].0.as_str()), &key) == 0 {
                proof {
                    lemma_lex_antisym(t[i as int].0, name@);
                }
                self.connections.remove(i);
                proof {
                    let u = self@;
                    assert(u =~= t.remove(i as int));
                    assert(names_sorted(u)) by {
                        assert forall|a: int, b: int| 0 <= a < b < u.len() implies lex_order(#[trigger] u[a].0, #[trigger] u[b].0)
                            < 0 by {
                            let a2 = if a < i {
                                a
                            } else {
                                a + 1
                            };
                            let b2 = if b < i {
                                b
                            } else {
                                b + 1
                            };
                            assert(u[a] == t[a2] && u[b] == t[b2]);
                        }
                    }
                    assert forall|m: int| 0 <= m < u.len() implies #[trigger] u[m].0 != name@ by {
                        let m2 = if m < i {
                            m
                        } else {
                            m + 1
                        };
                        assert(u[m] == t[m2]);
                        if u[m].0 == name@ {
                            lemma_sorted_unique(t, m2, i as int);
                        }
                    }
                    assert forall|k: Seq<char>| k != name@ implies #[trigger] lookup(u, k) == lookup(t, k) by {
                        if exists|m: int| 0 <= m < t.len() && #[trigger] t[m].0 == k {
                            let m = choose|m: int| 0 <= m < t.len() && #[trigger] t[m].0 == k;
                            lemma_lookup_at(t, m);
                            assert(m != i);
                            let q = if m < i {
                                m
                            } else {
                                m - 1
                            };
                            assert(u[q] == t[m]);
                            lemma_lookup_at(u, q);
                        } else {
                            assert forall|m: int| 0 <= m < u.len() implies #[trigger] u[m].0 != k by {
                                let m2 = if m < i {
                                    m
                                } else {
                                    m + 1
                                };
                                assert(u[m] == t[m2]);
                            }
                        }
                    }
                }
                return;
            }
            proof {
                lemma_lex_antisym(t[i as int].0, name@);
            }
            i = i + 1;
        }
    }
}

/// The saved profiles in name order, each named by its key.
pub fn load(file: &ConfigFile) -> (r: Vec<ConnectionProfile>)
    ensures
        r@.len() == file@.len(),
        forall|i: int| 0 <= i < r@.len() ==> #[trigger] r@[i]@ == loaded(file@[i].0, file@[i].1),
        r@.map_values(|p: ConnectionProfile| p@) == loaded_list(file@),
{
    let mut r: Vec<ConnectionProfile> = Vec::new();
    let mut i: usize = 0;
    while i < file.connections.len()
        invariant
            i <= file.connections.len(),
            r@.len() == i,
            forall|m: int| 0 <= m < i ==> #[trigger] r@[m]@ == loaded(file@[m].0, file@[m].1),
        decreases file.connections.len() - i,
    {
        let mut p: ConnectionProfile = clone_profile(&file.connections[i].1);
        p.name = file.connections[i].0.clone();
        r.push(p);
        i = i + 1;
    }
    proof {
        assert(r@.map_values(|p: ConnectionProfile| p@) =~= loaded_list(file@));
    }
    r
}

/// Saves `profile` under its own name, replacing what was saved there.
pub fn save(file: &mut ConfigFile, profile: &ConnectionProfile)
    requires
        old(file).wf(),
    ensures
        final(file).wf(),
        lookup(final(file)@, profile@.name) == Some(profile@),
        forall|k: Seq<char>| k != profile@.name ==> #[trigger] lookup(final(file)@, k) == lookup(old(file)@, k),
{
    file.insert(profile.name.clone(), clone_profile(profile));
}

/// Whether saving a profile called `name` would take the name of another
/// saved profile: one of `existing` has it and is not the profile being
/// edited (`original`, by its name before the edit).
pub open spec fn name_taken(existing: Seq<ConnectionView>, name: Seq<char>, original: Option<Seq<char>>) -> bool {
    exists|i: int|
        0 <= i < existing.len() && #[trigger] existing[i].name == name && match original {
            Some(o) => existing[i].name != o,
            None => true,
        }
}

pub open spec fn profile_views(s: Seq<ConnectionProfile>) -> Seq<ConnectionView> {
    s.map_values(|p: ConnectionProfile| p@)
}

/// Refuses a profile whose name another saved profile already has, with
/// the message the connection form shows.
pub fn check_name_free(existing: &Vec<ConnectionProfile>, name: &str, original: Option<&str>) -> (r: Result<(), String>)
    ensures
        match r {
            Ok(()) => !name_taken(profile_views(existing@), name@, crate::config::str_opt(original)),
            Err(m) => name_taken(profile_views(existing@), name@, crate::config::str_opt(original)) && m@
                == "A connection named \""@ + name@ + "\" already exists"@,
        },
{
    let ghost ev = profile_views(existing@);
    let mut i: usize = 0;
    while i < existing.len()
        invariant
            i <= existing.len(),
            ev == profile_views(existing@),
            forall|j: int|
                0 <= j < i ==> !(#[trigger] ev[j].name == name@ && match crate::config::str_opt(original) {
                    Some(o) => ev[j].name != o,
                    None => true,
                }),
        decreases existing.len() - i,
    {
        let same: bool = crate::text::str_eq(existing[i].name.as_str(), name);
        let clash: bool = same && match original {
            Some(o) => !crate::text::str_eq(existing[i].name.as_str(), o),
            None => true,
        };
        assert(ev[i as int] == existing@[i as int]@);
        if clash {
            proof {
                assert(ev[i as int].name == name@);
                assert(name_taken(ev, name@, crate::config::str_opt(original)));
            }
            let mut m: String = "A connection named \"".to_owned();
            m.append(name);
            m.append("\" already exists");
            return Err(m);
        }
        i = i + 1;
    }
    Ok(())
}

/// Where the connections file lives in the configuration directory.
pub fn config_path(config_dir: &str) -> (r: String)
    ensures
        r@ == path_joined(config_dir@, "connections.toml"@),
{
    path_join(config_dir, "connections.toml")
}

/// What is saved under a name is what loading lists under it.
pub proof fn lemma_saved_profile_loads(t: Seq<(Seq<char>, ConnectionView)>, name: Seq<char>)
    requires
        names_sorted(t),
        lookup(t, name) is Some,
    ensures
        exists|i: int| 0 <= i < t.len() && t[i].0 == name && loaded(t[i].0, t[i].1) == loaded(name, lookup(t, name)->0),
{
    let i = choose|i: int| 0 <= i < t.len() && #[trigger] t[i].0 == name;
    lemma_lookup_at(t, i);
}

/// The profiles loading lists for a table: one per entry, in table order,
/// each named by its key.
pub open spec fn loaded_list(t: Seq<(Seq<char>, ConnectionView)>) -> Seq<ConnectionView> {
    t.map_values(|e: (Seq<char>, ConnectionView)| loaded(e.0, e.1))
}

/// The profile a loaded list holds under `name`, if it holds one.
pub open spec fn listed_under(l: Seq<ConnectionView>, name: Seq<char>) -> Option<ConnectionView> {
    if exists|i: int| 0 <= i < l.len() && #[trigger] l[i].name == name {
        Some(l[choose|i: int| 0 <= i < l.len() && #[trigger] l[i].name == name])
    } else {
        None
    }
}

/// Names strictly increase along a loaded list.
pub open spec fn names_increasing(l: Seq<ConnectionView>) -> bool {
    forall|i: int, j: int| 0 <= i < j < l.len() ==> lex_order(#[trigger] l[i].name, #[trigger] l[j].name) < 0
}

/// Loading a table lists, under each name, the profile saved under it, in
/// name order.
pub proof fn lemma_listed_follows_lookup(t: Seq<(Seq<char>, ConnectionView)>, name: Seq<char>)
    requires
        names_sorted(t),
    ensures
        listed_under(loaded_list(t), name) == match lookup(t, name) {
            Some(p) => Some(loaded(name, p)),
            None => None::<ConnectionView>,
        },
        names_increasing(loaded_list(t)),
{
    let l = loaded_list(t);
    assert forall|i: int| 0 <= i < l.len() implies #[trigger] l[i].name == t[i].0 by {}
    if exists|i: int| 0 <= i < l.len() && #[trigger] l[i].name == name {
        let i = choose|i: int| 0 <= i < l.len() && #[trigger] l[i].name == name;
        assert(t[i].0 == name);
        lemma_lookup_at(t, i);
    } else {
        if exists|i: int| 0 <= i < t.len() && #[trigger] t[i].0 == name {
            let i = choose|i: int| 0 <= i < t.len() && #[trigger] t[i].0 == name;
            assert(l[i].name == name);
        }
    }
    assert forall|i: int, j: int| 0 <= i < j < l.len() implies lex_order(#[trigger] l[i].name, #[trigger] l[j].name) < 0 by {
        assert(l[i].name == t[i].0 && l[j].name == t[j].0);
    }
}

/// Saving a profile and loading again lists that profile under its name,
/// and under every other name what was listed before; names stay in order.
pub proof fn lemma_save_then_load(before: ConfigFile, after: ConfigFile, profile: ConnectionView)
    requires
        before.wf(),
        after.wf(),
        lookup(after@, profile.name) == Some(profile),
        forall|k: Seq<char>| k != profile.name ==> #[trigger] lookup(after@, k) == lookup(before@, k),
    ensures
        listed_under(loaded_list(after@), profile.name) == Some(profile),
        forall|k: Seq<char>|
            k != profile.name ==> #[trigger] listed_under(loaded_list(after@), k) == listed_under(loaded_list(before@), k),
        names_increasing(loaded_list(after@)),
{
    lemma_listed_follows_lookup(after@, profile.name);
    assert(loaded(profile.name, profile) == profile);
    assert forall|k: Seq<char>| k != profile.name implies #[trigger] listed_under(loaded_list(after@), k) == listed_under(
        loaded_list(before@),
        k,
    ) by {
        lemma_listed_follows_lookup(after@, k);
        lemma_listed_follows_lookup(before@, k);
    }
}

/// Removing a profile and loading again lists nothing under its name, and
/// under every other name what was listed before; names stay in order.
pub proof fn lemma_delete_then_load(before: ConfigFile, after: ConfigFile, name: Seq<char>)
    requires
        before.wf(),
        after.wf(),
        lookup(after@, name) is None,
        forall|k: Seq<char>| k != name ==> #[trigger] lookup(after@, k) == lookup(before@, k),
    ensures
        listed_under(loaded_list(after@), name) is None,
        forall|k: Seq<char>| k != name ==> #[trigger] listed_under(loaded_list(after@), k) == listed_under(loaded_list(before@), k),
        names_increasing(loaded_list(after@)),
{
    lemma_listed_follows_lookup(after@, name);
    assert forall|k: Seq<char>| k != name implies #[trigger] listed_under(loaded_list(after@), k) == listed_under(
        loaded_list(before@),
        k,
    ) by {
        lemma_listed_follows_lookup(after@, k);
        lemma_listed_follows_lookup(before@, k);
    }
}

/// In a list whose names strictly increase, the profile listed under the
/// name at position `i` is the one at `i`.
pub proof fn lemma_listed_under_at(l: Seq<ConnectionView>, i: int)
    requires
        names_increasing(l),
        0 <= i < l.len(),
    ensures
        listed_under(l, l[i].name) == Some(l[i]),
{
    let k = l[i].name;
    assert(l[i].name == k);
    let j = choose|j: int| 0 <= j < l.len() && #[trigger] l[j].name == k;
    if j < i {
        assert(lex_order(l[j].name, l[i].name) < 0);
        lemma_lex_antisym(l[j].name, l[i].name);
    } else if j > i {
        assert(lex_order(l[i].name, l[j].name) < 0);
        lemma_lex_antisym(l[i].name, l[j].name);
    }
}

/// Dropping the first profile of a name-ordered list leaves what was
/// listed under every other name, and nothing under the first name.
proof fn lemma_listed_under_rest(l: Seq<ConnectionView>, k: Seq<char>)
    requires
        names_increasing(l),
        l.len() > 0,
    ensures
        names_increasing(l.drop_first()),
        listed_under(l.drop_first(), k) == if k == l[0].name {
            None::<ConnectionView>
        } else {
            listed_under(l, k)
        },
{
    let d = l.drop_first();
    assert forall|i: int, j: int| 0 <= i < j < d.len() implies lex_order(#[trigger] d[i].name, #[trigger] d[j].name) < 0 by {
        assert(d[i] == l[i + 1] && d[j] == l[j + 1]);
    }
    if exists|i: int| 0 <= i < d.len() && #[trigger] d[i].name == k {
        let i = choose|i: int| 0 <= i < d.len() && #[trigger] d[i].name == k;
        assert(d[i] == l[i + 1]);
        lemma_listed_under_at(d, i);
        lemma_listed_under_at(l, i + 1);
        if k == l[0].name {
            assert(lex_order(l[0].name, l[i + 1].name) < 0);
            lemma_lex_antisym(l[0].name, l[i + 1].name);
        }
    } else {
        if k != l[0].name {
            if exists|i: int| 0 <= i < l.len() && #[trigger] l[i].name == k {
                let i = choose|i: int| 0 <= i < l.len() && #[trigger] l[i].name == k;
                assert(i > 0);
                assert(d[i - 1] == l[i]);
            }
        }
    }
}

/// A list whose names strictly increase is fixed by what it lists under
/// each name: two such lists that agree on every name are equal.
pub proof fn lemma_loaded_list_determined(l1: Seq<ConnectionView>, l2: Seq<ConnectionView>)
    requires
        names_increasing(l1),
        names_increasing(l2),
        forall|k: Seq<char>| #[trigger] listed_under(l1, k) == listed_under(l2, k),
    ensures
        l1 == l2,
    decreases l1.len() + l2.len(),
{
    if l1.len() == 0 || l2.len() == 0 {
        if l1.len() > 0 {
            lemma_listed_under_at(l1, 0);
            assert(listed_under(l2, l1[0].name) is Some);
        }
        if l2.len() > 0 {
            lemma_listed_under_at(l2, 0);
            assert(listed_under(l1, l2[0].name) is Some);
        }
        assert(l1 =~= l2);
    } else {
        let a = l1[0].name;
        let b = l2[0].name;
        lemma_listed_under_at(l1, 0);
        lemma_listed_under_at(l2, 0);
        if a != b {
            assert(listed_under(l2, a) is Some);
            let j = choose|j: int| 0 <= j < l2.len() && #[trigger] l2[j].name == a;
            assert(listed_under(l1, b) is Some);
            let i = choose|i: int| 0 <= i < l1.len() && #[trigger] l1[i].name == b;
            assert(j > 0 && i > 0);
            assert(lex_order(b, a) < 0);
            assert(lex_order(a, b) < 0);
            lemma_lex_antisym(a, b);
        }
        assert(l1[0] == l2[0]);
        assert forall|k: Seq<char>| #[trigger] listed_under(l1.drop_first(), k) == listed_under(l2.drop_first(), k) by {
            lemma_listed_under_rest(l1, k);
            lemma_listed_under_rest(l2, k);
        }
        lemma_listed_under_rest(l1, a);
        lemma_listed_under_rest(l2, a);
        lemma_loaded_list_determined(l1.drop_first(), l2.drop_first());
        assert(l1 =~= l2) by {
            assert forall|i: int| 0 <= i < l1.len() implies l1[i] == l2[i] by {
                if i > 0 {
                    assert(l1[i] == l1.drop_first()[i - 1]);
                    assert(l2[i] == l2.drop_first()[i - 1]);
                }
            }
        }
    }
}

/// Keeping some profiles of a name-ordered list keeps it name-ordered.
proof fn lemma_filter_increasing(l: Seq<ConnectionView>, p: spec_fn(ConnectionView) -> bool)
    requires
        names_increasing(l),
    ensures
        names_increasing(l.filter(p)),
    decreases l.len(),
{
    if l.len() > 0 {
        let init = l.drop_last();
        assert forall|i: int, j: int| 0 <= i < j < init.len() implies lex_order(#[trigger] init[i].name, #[trigger] init[j].name)
            < 0 by {
            assert(init[i] == l[i] && init[j] == l[j]);
        }
        lemma_filter_increasing(init, p);
        assert(init.push(l.last()) == l);
        init.lemma_filter_push(l.last(), p);
        if p(l.last()) {
            let f = init.filter(p);
            let g = f.push(l.last());
            assert forall|i: int, j: int| 0 <= i < j < g.len() implies lex_order(#[trigger] g[i].name, #[trigger] g[j].name) < 0 by {
                if j == f.len() {
                    crate::seq_facts::lemma_filter_elements(init, p, i);
                    let m = choose|m: int| 0 <= m < init.len() && init[m] == f[i];
                    assert(g[i] == l[m]);
                    assert(g[j] == l[l.len() - 1]);
                } else {
                    assert(g[i] == f[i] && g[j] == f[j]);
                }
            }
        }
    }
}

/// Removing a profile and loading again gives the list loaded before
/// without that name's profile, the others unchanged and in the same order.
pub proof fn lemma_delete_keeps_order(before: ConfigFile, after: ConfigFile, name: Seq<char>)
    requires
        before.wf(),
        after.wf(),
        lookup(after@, name) is None,
        forall|k: Seq<char>| k != name ==> #[trigger] lookup(after@, k) == lookup(before@, k),
    ensures
        loaded_list(after@) == loaded_list(before@).filter(|c: ConnectionView| c.name != name),
{
    let l = loaded_list(before@);
    let p = |c: ConnectionView| c.name != name;
    let f = l.filter(p);
    lemma_delete_then_load(before, after, name);
    lemma_listed_follows_lookup(before@, name);
    lemma_filter_increasing(l, p);
    assert forall|k: Seq<char>| #[trigger] listed_under(f, k) == listed_under(loaded_list(after@), k) by {
        if exists|i: int| 0 <= i < f.len() && #[trigger] f[i].name == k {
            let i = choose|i: int| 0 <= i < f.len() && #[trigger] f[i].name == k;
            crate::seq_facts::lemma_filter_elements(l, p, i);
            let m = choose|m: int| 0 <= m < l.len() && l[m] == f[i];
            lemma_listed_under_at(f, i);
            lemma_listed_under_at(l, m);
            assert(k != name);
        } else {
            if k != name {
                if exists|m: int| 0 <= m < l.len() && #[trigger] l[m].name == k {
                    let m = choose|m: int| 0 <= m < l.len() && #[trigger] l[m].name == k;
                    assert(p(l[m]));
                    l.lemma_filter_contains_rev(p, l[m]);
                    let i = choose|i: int| 0 <= i < f.len() && f[i] == l[m];
                    assert(f[i].name == k);
                }
            }
        }
    }
    lemma_loaded_list_determined(f, loaded_list(after@));
}

} // verus!
