//! Connections: saved profiles, `~/.ssh/config` hosts, the merged list the
//! connections screen shows, and the open sessions.
pub mod client;
pub mod connect;
pub mod form;
pub mod profile;
pub mod session;
pub mod store;
pub mod ssh_config;

pub use profile::{ConnectionEntry, ConnectionSource};

use vstd::prelude::*;

use crate::connection::profile::{clone_opt_string, opt_view, ConnectionProfile, ConnectionView};
use crate::connection::ssh_config::{HostView, SshConfigHost};
use crate::text::{chars_of, decimal, decimal_string, lowercase, push_char, to_lowercase};
use crate::tui::sort::{is_stable_sort_by_key, stable_order};

verus! {

/// The entry an `~/.ssh/config` host becomes: an unset host name is empty,
/// the port defaults to 22 and the user to `default_user`.
pub open spec fn host_entry(h: HostView, default_user: Seq<char>) -> ConnectionView {
    ConnectionView {
        name: h.name,
        host: match h.host_name {
            Some(n) => n,
            None => Seq::empty(),
        },
        port: match h.port {
            Some(p) => p,
            None => 22,
        },
        username: match h.user {
            Some(u) => u,
            None => default_user,
        },
        identity_file: h.identity_file,
        remote_path: None,
        password: None,
        source: ConnectionSource::SshConfig,
    }
}

/// The config hosts that join the list: those whose name no profile
/// already has, as entries.
pub open spec fn new_hosts(profiles: Seq<ConnectionView>, hosts: Seq<HostView>, default_user: Seq<char>) -> Seq<ConnectionView> {
    hosts.filter(|h: HostView| !profiles.map_values(|p: ConnectionView| p.name).contains(h.name)).map_values(
        |h: HostView| host_entry(h, default_user),
    )
}

pub open spec fn entry_views(s: Seq<ConnectionEntry>) -> Seq<ConnectionView> {
    s.map_values(|e: ConnectionEntry| e@)
}

pub open spec fn profile_views(s: Seq<ConnectionProfile>) -> Seq<ConnectionView> {
    s.map_values(|p: ConnectionProfile| p@)
}

pub open spec fn folded_name(c: ConnectionView) -> Seq<char> {
    lowercase(c.name)
}

/// `r` is `s` stably sorted by case-folded name.
pub open spec fn sorted_by_folded_name(r: Seq<ConnectionView>, s: Seq<ConnectionView>, perm: Seq<int>) -> bool {
    is_stable_sort_by_key(r, s, perm, |c: ConnectionView| folded_name(c))
}

fn profile_entry(p: &ConnectionProfile) -> (e: ConnectionEntry)
    ensures
        e@ == p@,
{
    ConnectionEntry {
        name: p.name.clone(),
        host: p.host.clone(),
        port: p.port,
        username: p.username.clone(),
        identity_file: clone_opt_string(&p.identity_file),
        remote_path: clone_opt_string(&p.remote_path),
        password: clone_opt_string(&p.password),
        source: ConnectionSource::Profile,
    }
}

fn host_entry_exec(h: &SshConfigHost, default_user: &str) -> (e: ConnectionEntry)
    ensures
        e@ == host_entry(h@, default_user@),
{
    ConnectionEntry {
        name: h.name.clone(),
        host: match &h.host_name {
            Some(n) => n.clone(),
            None => String::new(),
        },
        port: match h.port {
            Some(p) => p,
            None => 22,
        },
        username: match &h.user {
            Some(u) => u.clone(),
            None => default_user.to_owned(),
        },
        identity_file: clone_opt_string(&h.identity_file),
        remote_path: None,
        password: None,
        source: ConnectionSource::SshConfig,
    }
}

/// The connections available to dial: the saved profiles first, then the
/// `~/.ssh/config` hosts not already saved as a profile (so a saved
/// profile wins and no alias appears twice); each group in case-folded
/// name order, ties kept in the order given. `default_user` is the user
/// for hosts that name none.
pub fn list_all(profiles: Vec<ConnectionProfile>, hosts: Vec<SshConfigHost>, default_user: &str) -> (r: Vec<ConnectionEntry>)
    ensures
        r@.len() == profiles@.len() + new_hosts(
            profile_views(profiles@),
            crate::connection::ssh_config::host_views(hosts@),
            default_user@,
        ).len(),
        exists|perm: Seq<int>|
            sorted_by_folded_name(entry_views(r@).take(profiles@.len() as int), profile_views(profiles@), perm),
        exists|perm: Seq<int>|
            sorted_by_folded_name(
                entry_views(r@).skip(profiles@.len() as int),
                new_hosts(profile_views(profiles@), crate::connection::ssh_config::host_views(hosts@), default_user@),
                perm,
            ),
        forall|i: int| 0 <= i < profiles@.len() ==> (#[trigger] r@[i]).source == ConnectionSource::Profile,
        forall|i: int| profiles@.len() <= i < r@.len() ==> (#[trigger] r@[i]).source == ConnectionSource::SshConfig,
{
    let ghost pv = profile_views(profiles@);
    let ghost hv = crate::connection::ssh_config::host_views(hosts@);
    let ghost names = pv.map_values(|p: ConnectionView| p.name);
    let ghost pred = |h: HostView| !names.contains(h.name);
    let ghost mk = |h: HostView| host_entry(h, default_user@);
    let mut entries: Vec<ConnectionEntry> = Vec::new();
    let mut i: usize = 0;
    while i < profiles.len()
        invariant
            i <= profiles.len(),
            pv == profile_views(profiles@),
            entry_views(entries@) == pv.take(i as int),
        decreases profiles.len() - i,
    {
        let ghost prev = entries@;
        let e: ConnectionEntry = profile_entry(&profiles[i]);
        let ghost ev = e@;
        entries.push(e);
        i = i + 1;
        proof {
            assert(ev == pv[i - 1]);
            assert(entry_views(entries@) =~= entry_views(prev).push(ev));
            assert(pv.take(i as int) =~= pv.take(i - 1).push(pv[i - 1]));
        }
    }
    proof {
        assert(pv.take(pv.len() as int) == pv);
    }
    let mut extra: Vec<ConnectionEntry> = Vec::new();
    let mut j: usize = 0;
    while j < hosts.len()
        invariant
            j <= hosts.len(),
            hv == crate::connection::ssh_config::host_views(hosts@),
            names == pv.map_values(|p: ConnectionView| p.name),
            pv == profile_views(profiles@),
            pred == (|h: HostView| !names.contains(h.name)),
            mk == (|h: HostView| host_entry(h, default_user@)),
            entry_views(entries@) == pv,
            entry_views(extra@) == hv.take(j as int).filter(pred).map_values(mk),
        decreases hosts.len() - j,
    {
        proof {
            assert(hv.take(j + 1) == hv.take(j as int).push(hv[j as int]));
            hv.take(j as int).lemma_filter_push(hv[j as int], pred);
        }
        let mut known: bool = false;
        let mut k: usize = 0;
        while k < profiles.len()
            invariant
                k <= profiles.len(),
                j < hosts.len(),
                pv == profile_views(profiles@),
                names == pv.map_values(|p: ConnectionView| p.name),
                hv == crate::connection::ssh_config::host_views(hosts@),
                known == exists|q: int| 0 <= q < k && names[q] == hv[j as int].name,
            decreases profiles.len() - k,
        {
            if profiles[k].name == hosts[j].name {
                known = true;
            }
            proof {
                if known {
                    assert(names[k as int] == pv[k as int].name);
                }
            }
            k = k + 1;
        }
        proof {
            if known {
                let q = choose|q: int| 0 <= q < profiles.len() && names[q] == hv[j as int].name;
                assert(names.contains(hv[j as int].name));
            } else {
                assert forall|q: int| 0 <= q < names.len() implies names[q] != hv[j as int].name by {}
                assert(!names.contains(hv[j as int].name));
            }
        }
        if !known {
            let ghost before = entry_views(extra@);
            extra.push(host_entry_exec(&hosts[j], default_user));
            proof {
                let f = hv.take(j as int).filter(pred);
                assert(entry_views(extra@) =~= before.push(mk(hv[j as int])));
                assert(f.push(hv[j as int]).map_values(mk) =~= f.map_values(mk).push(mk(hv[j as int])));
            }
        }
        j = j + 1;
    }
    proof {
        assert(hv.take(hv.len() as int) == hv);
    }
    proof {
        assert(pred =~= (|h: HostView| !pv.map_values(|p: ConnectionView| p.name).contains(h.name)));
        assert(mk =~= (|h: HostView| host_entry(h, default_user@)));
        assert(entry_views(extra@) == new_hosts(pv, hv, default_user@));
        assert forall|x: int| 0 <= x < entries@.len() implies (#[trigger] entries@[x]).source == ConnectionSource::Profile by {
            assert(entry_views(entries@)[x] == pv[x]);
        }
        assert forall|x: int| 0 <= x < extra@.len() implies (#[trigger] extra@[x]).source == ConnectionSource::SshConfig by {
            assert(entry_views(extra@)[x] == new_hosts(pv, hv, default_user@)[x]);
        }
    }
    let first: Vec<ConnectionEntry> = sort_by_folded_name(entries);
    let mut r: Vec<ConnectionEntry> = sort_by_folded_name(extra);
    let ghost second = r@;
    let mut result: Vec<ConnectionEntry> = first;
    let ghost fv = result@;
    result.append(&mut r);
    proof {
        assert(result@ == fv + second);
        let p1 = choose|perm: Seq<int>| sorted_by_folded_name(entry_views(fv), pv, perm);
        let p2 = choose|perm: Seq<int>| sorted_by_folded_name(entry_views(second), new_hosts(pv, hv, default_user@), perm);
        assert forall|i: int| 0 <= i < fv.len() implies (#[trigger] result@[i]).source == ConnectionSource::Profile by {
            assert(entry_views(fv)[i] == pv[p1[i]]);
            assert(result@[i] == fv[i]);
        }
        assert forall|i: int| fv.len() <= i < result@.len() implies (#[trigger] result@[i]).source
            == ConnectionSource::SshConfig by {
            let k = i - fv.len();
            assert(entry_views(second)[k] == new_hosts(pv, hv, default_user@)[p2[k]]);
            assert(result@[i] == second[k]);
        }
        assert(entry_views(result@).take(fv.len() as int) =~= entry_views(fv));
        assert(entry_views(result@).skip(fv.len() as int) =~= entry_views(second));
    }
    result
}

/// `entries` stably sorted by case-folded name.
fn sort_by_folded_name(entries: Vec<ConnectionEntry>) -> (r: Vec<ConnectionEntry>)
    ensures
        exists|perm: Seq<int>| sorted_by_folded_name(entry_views(r@), entry_views(entries@), perm),
        r@.len() == entries@.len(),
{
    let ghost m = entry_views(entries@);
    let mut keys: Vec<Vec<char>> = Vec::new();
    let mut q: usize = 0;
    while q < entries.len()
        invariant
            q <= entries.len(),
            keys.len() == q,
            forall|t: int| 0 <= t < q ==> #[trigger] keys@[t]@ == lowercase(entries@[t].name@),
        decreases entries.len() - q,
    {
        let lowered: String = to_lowercase(entries[q].name.as_str());
        keys.push(chars_of(lowered.as_str()));
        q = q + 1;
    }
    let order: Vec<usize> = stable_order(&keys);
    let mut r: Vec<ConnectionEntry> = Vec::new();
    let mut t: usize = 0;
    while t < order.len()
        invariant
            t <= order.len() == entries.len() == keys.len(),
            forall|x: int| 0 <= x < order.len() ==> #[trigger] order@[x] < keys.len(),
            r.len() == t,
            forall|x: int| 0 <= x < t ==> #[trigger] r@[x] == entries@[order@[x] as int],
        decreases order.len() - t,
    {
        r.push(entries[order[t]].duplicate());
        t = t + 1;
    }
    proof {
        let perm = order@.map_values(|x: usize| x as int);
        let key = |c: ConnectionView| folded_name(c);
        assert forall|a: int, b: int| 0 <= a < b < perm.len() implies #[trigger] perm[a] != #[trigger] perm[b] by {
            assert(order@[a] != order@[b]);
        }
        assert forall|a: int| 0 <= a < r.len() implies #[trigger] entry_views(r@)[a] == m[perm[a]] by {
            assert(r@[a] == entries@[order@[a] as int]);
        }
        assert forall|a: int, b: int| 0 <= a < b < r.len() implies lex_order_of(key(#[trigger] entry_views(r@)[a]), key(
            #[trigger] entry_views(r@)[b],
        ), perm[a], perm[b]) by {
            assert(r@[a] == entries@[order@[a] as int]);
            assert(r@[b] == entries@[order@[b] as int]);
            assert(keys@[order@[a] as int]@ == lowercase(entries@[order@[a] as int].name@));
            assert(keys@[order@[b] as int]@ == lowercase(entries@[order@[b] as int].name@));
        }
        assert(is_stable_sort_by_key(entry_views(r@), m, perm, key));
        assert(sorted_by_folded_name(entry_views(r@), m, perm));
    }
    r
}

spec fn lex_order_of(a: Seq<char>, b: Seq<char>, ia: int, ib: int) -> bool {
    crate::tui::sort::lex_order(a, b) < 0 || (crate::tui::sort::lex_order(a, b) == 0 && ia < ib)
}

/// How the connections screen lists an entry: `* ` for the active
/// session's, `+ ` for another connected one, then the name and where it
/// connects.
pub open spec fn connection_line_text(e: ConnectionView, is_active: bool, is_connected: bool) -> Seq<char> {
    (if is_active {
        "* "@
    } else if is_connected {
        "+ "@
    } else {
        "  "@
    }) + e.name + " ("@ + e.username + seq!['@'] + e.host + seq![':'] + decimal(e.port as nat) + seq![')']
}

pub fn connection_line(entry: &ConnectionEntry, is_active: bool, is_connected: bool) -> (r: String)
    ensures
        r@ == connection_line_text(entry@, is_active, is_connected),
{
    let mut r: String = if is_active {
        "* ".to_owned()
    } else if is_connected {
        "+ ".to_owned()
    } else {
        "  ".to_owned()
    };
    r.append(entry.name.as_str());
    r.append(" (");
    r.append(entry.username.as_str());
    push_char(&mut r, '@');
    r.append(entry.host.as_str());
    push_char(&mut r, ':');
    let port: String = decimal_string(entry.port as u64);
    r.append(port.as_str());
    push_char(&mut r, ')');
    r
}

} // verus!
