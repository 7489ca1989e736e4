//! The open SSH sessions, one of which is active at a time.
use vstd::prelude::*;

use crate::connection::profile::ConnectionView;
use crate::connection::ConnectionEntry;
use crate::tui::panels::{PanelState, PanelView};

verus! {

/// One connected session: its id, the connection it was opened from, and
/// the state of its remote panel.
pub struct Session {
    pub id: u64,
    pub entry: ConnectionEntry,
    pub panel: PanelState,
}

pub struct SessionView {
    pub id: u64,
    pub entry: ConnectionView,
    pub panel: PanelView,
}

impl View for Session {
    type V = SessionView;

    open spec fn view(&self) -> SessionView {
        SessionView { id: self.id, entry: self.entry@, panel: self.panel@ }
    }
}

pub struct SessionsView {
    pub items: Seq<SessionView>,
    pub active: Option<int>,
    pub next_id: u64,
}

pub struct Sessions {
    items: Vec<Session>,
    active: Option<usize>,
    next_id: u64,
}

pub open spec fn session_views(s: Seq<Session>) -> Seq<SessionView> {
    s.map_values(|x: Session| x@)
}

pub open spec fn ids(items: Seq<SessionView>) -> Seq<u64> {
    items.map_values(|s: SessionView| s.id)
}

/// The position of the first session with `id`, if any.
#[verifier::opaque]
pub open spec fn index_of_id(items: Seq<SessionView>, id: u64) -> Option<int> {
    if exists|i: int| 0 <= i < items.len() && items[i].id == id {
        Some(
            choose|i: int|
                0 <= i < items.len() && items[i].id == id && forall|j: int|
                    0 <= j < i ==> items[j].id != id,
        )
    } else {
        None
    }
}

/// Where the active position goes when the session at `index` is removed
/// from `len` sessions: the next session takes the place of a removed
/// active one (the previous one if it was last), later positions shift
/// down, and nothing is active once the last session is gone.
pub open spec fn active_after_remove(active: Option<int>, index: int, len: int) -> Option<int> {
    match active {
        Some(a) => if a == index {
            if len - 1 == 0 {
                None
            } else if a < len - 1 {
                Some(a)
            } else {
                Some(len - 2)
            }
        } else if a > index {
            Some(a - 1)
        } else {
            Some(a)
        },
        None => None,
    }
}

/// The active position after `cycle`: the next one, wrapping, when there
/// are at least two sessions.
pub open spec fn active_after_cycle(active: Option<int>, len: int) -> Option<int> {
    if len < 2 {
        active
    } else {
        match active {
            Some(a) => Some((a + 1) % len),
            None => Some(1int % len),
        }
    }
}

impl View for Sessions {
    type V = SessionsView;

    closed spec fn view(&self) -> SessionsView {
        SessionsView {
            items: session_views(self.items@),
            active: match self.active {
                Some(i) => Some(i as int),
                None => None,
            },
            next_id: self.next_id,
        }
    }
}

proof fn lemma_views_update(s: Seq<Session>, i: int, x: Session)
    requires
        0 <= i < s.len(),
    ensures
        session_views(s.update(i, x)) == session_views(s).update(i, x@),
{
    assert(session_views(s.update(i, x)) =~= session_views(s).update(i, x@));
}

proof fn lemma_views_remove(s: Seq<Session>, i: int)
    requires
        0 <= i < s.len(),
    ensures
        session_views(s.remove(i)) == session_views(s).remove(i),
{
    assert(session_views(s.remove(i)) =~= session_views(s).remove(i));
}

proof fn lemma_first_index(items: Seq<SessionView>, id: u64, i: int)
    requires
        0 <= i < items.len(),
        items[i].id == id,
        forall|j: int| 0 <= j < i ==> items[j].id != id,
    ensures
        index_of_id(items, id) == Some(i),
{
    reveal(index_of_id);
    let k = choose|k: int|
        0 <= k < items.len() && items[k].id == id && forall|j: int| 0 <= j < k ==> items[j].id != id;
    assert(k == i) by {
        if k < i {
            assert(items[k].id != id);
        }
        if k > i {
            assert(items[i].id != id);
        }
    }
}

fn next_active(active: Option<usize>, index: usize, new_len: usize) -> (r: Option<usize>)
    requires
        active matches Some(a) ==> a <= new_len,
        index <= new_len,
    ensures
        match r {
            Some(x) => active_after_remove(
                match active {
                    Some(a) => Some(a as int),
                    None => None,
                },
                index as int,
                new_len + 1,
            ) == Some(x as int) && x < new_len,
            None => active_after_remove(
                match active {
                    Some(a) => Some(a as int),
                    None => None,
                },
                index as int,
                new_len + 1,
            ) is None,
        },
{
    match active {
        Some(a) => {
            if a == index {
                if new_len == 0 {
                    None
                } else if a < new_len {
                    Some(a)
                } else {
                    Some(new_len - 1)
                }
            } else if a > index {
                Some(a - 1)
            } else {
                Some(a)
            }
        },
        None => None,
    }
}

impl Sessions {
    /// The active position is on a session exactly when there are sessions,
    /// and every id is below `next_id`.
    pub open spec fn wf(&self) -> bool {
        &&& (self@.active is None <==> self@.items.len() == 0)
        &&& forall|a: int| self@.active == Some(a) ==> 0 <= a < self@.items.len()
        &&& forall|i: int| 0 <= i < self@.items.len() ==> #[trigger] self@.items[i].id < self@.next_id
    }

    pub fn new() -> (r: Sessions)
        ensures
            r.wf(),
            r@.items.len() == 0,
            r@.active is None,
            r@.next_id == 0,
    {
        Sessions { items: Vec::new(), active: None, next_id: 0 }
    }

    /// The active session, if any.
    pub fn active(&self) -> (r: Option<&Session>)
        requires
            self.wf(),
        ensures
            match self@.active {
                Some(a) => r is Some && r->0@ == self@.items[a],
                None => r is None,
            },
    {
        match self.active {
            Some(index) => Some(&self.items[index]),
            None => None,
        }
    }

    /// The active session, for changing its panel or entry.
    pub fn active_mut(&mut self) -> (r: Option<&mut Session>)
        requires
            old(self).wf(),
        ensures
            match old(self)@.active {
                Some(a) => r is Some && (*r->0)@ == old(self)@.items[a] && final(self)@ == (SessionsView {
                    items: old(self)@.items.update(a, (*final(r->0))@),
                    ..old(self)@
                }),
                None => r is None && final(self)@ == old(self)@,
            },
    {
        match self.active {
            Some(index) => {
                let ghost old_items = self.items@;
                let r = &mut self.items[index];
                proof {
                    lemma_views_update(old_items, index as int, *final(r));
                }
                Some(r)
            },
            None => None,
        }
    }

    /// The id of the active session, if any.
    pub fn active_id(&self) -> (r: Option<u64>)
        requires
            self.wf(),
        ensures
            r == match self@.active {
                Some(a) => Some(self@.items[a].id),
                None => None::<u64>,
            },
    {
        match self.active {
            Some(index) => Some(self.items[index].id),
            None => None,
        }
    }

    fn position_of(&self, id: u64) -> (r: Option<usize>)
        ensures
            match r {
                Some(i) => index_of_id(self@.items, id) == Some(i as int) && i < self@.items.len(),
                None => index_of_id(self@.items, id) is None,
            },
    {
        let mut i: usize = 0;
        while i < self.items.len()
            invariant
                i <= self.items.len(),
                forall|j: int| 0 <= j < i ==> self@.items[j].id != id,
            decreases self.items.len() - i,
        {
            if self.items[i].id == id {
                proof {
                    assert(self@.items[i as int].id == id);
                    lemma_first_index(self@.items, id, i as int);
                }
                return Some(i);
            }
            i = i + 1;
        }
        proof {
            reveal(index_of_id);
        }
        None
    }

    /// The session with `id`, for changing it.
    pub fn by_id_mut(&mut self, id: u64) -> (r: Option<&mut Session>)
        ensures
            match index_of_id(old(self)@.items, id) {
                Some(i) => r is Some && (*r->0)@ == old(self)@.items[i] && final(self)@ == (SessionsView {
                    items: old(self)@.items.update(i, (*final(r->0))@),
                    ..old(self)@
                }),
                None => r is None && final(self)@ == old(self)@,
            },
    {
        match self.position_of(id) {
            Some(index) => {
                let ghost old_items = self.items@;
                let r = &mut self.items[index];
                proof {
                    lemma_views_update(old_items, index as int, *final(r));
                }
                Some(r)
            },
            None => None,
        }
    }

    /// The first session whose connection is named `name`.
    pub fn by_host(&self, name: &str) -> (r: Option<&Session>)
        ensures
            match r {
                Some(s) => exists|i: int|
                    0 <= i < self@.items.len() && self@.items[i] == s@ && s@.entry.name == name@ && forall|j: int|
                        0 <= j < i ==> self@.items[j].entry.name != name@,
                None => forall|i: int| 0 <= i < self@.items.len() ==> self@.items[i].entry.name != name@,
            },
    {
        let mut i: usize = 0;
        while i < self.items.len()
            invariant
                i <= self.items.len(),
                forall|j: int| 0 <= j < i ==> self@.items[j].entry.name != name@,
            decreases self.items.len() - i,
        {
            if crate::text::str_eq(self.items[i].entry.name.as_str(), name) {
                proof {
                    assert(self@.items[i as int] == self.items@[i as int]@);
                }
                return Some(&self.items[i]);
            }
            i = i + 1;
        }
        None
    }

    /// Adds a session and makes it the active one; returns its id.
    pub fn insert(&mut self, entry: ConnectionEntry, panel: PanelState) -> (id: u64)
        requires
            old(self).wf(),
            old(self)@.next_id < u64::MAX,
        ensures
            final(self).wf(),
            id == old(self)@.next_id,
            final(self)@.next_id == old(self)@.next_id + 1,
            final(self)@.items == old(self)@.items.push(SessionView { id, entry: entry@, panel: panel@ }),
            final(self)@.active == Some(old(self)@.items.len() as int),
            forall|i: int| 0 <= i < old(self)@.items.len() ==> #[trigger] old(self)@.items[i].id < id,
    {
        let id: u64 = self.next_id;
        self.next_id = self.next_id + 1;
        self.items.push(Session { id, entry, panel });
        self.active = Some(self.items.len() - 1);
        proof {
            assert(session_views(self.items@) =~= session_views(old(self).items@).push(
                SessionView { id, entry: entry@, panel: panel@ },
            ));
        }
        id
    }

    /// Removes the session with `id` and returns it. If it was active, the
    /// next session (or the previous one, if it was last) becomes active;
    /// once the only session is gone, nothing is active.
    pub fn remove(&mut self, id: u64) -> (r: Option<Session>)
        requires
            old(self).wf(),
        ensures
            final(self).wf(),
            final(self)@.next_id == old(self)@.next_id,
            match index_of_id(old(self)@.items, id) {
                Some(i) => r is Some && r->0@ == old(self)@.items[i] && final(self)@.items == old(
                    self,
                )@.items.remove(i) && final(self)@.active == active_after_remove(
                    old(self)@.active,
                    i,
                    old(self)@.items.len() as int,
                ),
                None => r is None && final(self)@ == old(self)@,
            },
    {
        let index: usize = match self.position_of(id) {
            Some(index) => index,
            None => {
                return None;
            },
        };
        let ghost old_items = self.items@;
        let removed: Session = self.items.remove(index);
        proof {
            lemma_views_remove(old_items, index as int);
            assert(self@.items == old(self)@.items.remove(index as int));
        }
        self.active = next_active(self.active, index, self.items.len());
        proof {
            let ov = old(self)@.items;
            let nv = self@.items;
            assert forall|i: int| 0 <= i < nv.len() implies #[trigger] nv[i].id < self@.next_id by {
                if i < index {
                    assert(nv[i] == ov[i]);
                } else {
                    assert(nv[i] == ov[i + 1]);
                }
            }
        }
        Some(removed)
    }

    /// Makes the next session active, wrapping around; nothing happens with
    /// fewer than two sessions.
    pub fn cycle(&mut self)
        requires
            old(self).wf(),
        ensures
            final(self).wf(),
            final(self)@.items == old(self)@.items,
            final(self)@.next_id == old(self)@.next_id,
            final(self)@.active == active_after_cycle(old(self)@.active, old(self)@.items.len() as int),
    {
        if self.items.len() < 2 {
            return;
        }
        let current: usize = match self.active {
            Some(a) => a,
            None => 0,
        };
        self.active = Some((current + 1) % self.items.len());
    }

    pub fn is_empty(&self) -> (r: bool)
        ensures
            r == (self@.items.len() == 0),
    {
        self.items.len() == 0
    }

    pub fn len(&self) -> (r: usize)
        ensures
            r == self@.items.len(),
    {
        self.items.len()
    }

    /// The sessions, oldest first.
    pub fn iter(&self) -> (r: &[Session])
        ensures
            session_views(r@) == self@.items,
    {
        self.items.as_slice()
    }

    /// Makes the session with `id` active; returns whether it exists.
    pub fn activate(&mut self, id: u64) -> (found: bool)
        requires
            old(self).wf(),
        ensures
            final(self).wf(),
            final(self)@.items == old(self)@.items,
            final(self)@.next_id == old(self)@.next_id,
            found == (index_of_id(old(self)@.items, id) is Some),
            match index_of_id(old(self)@.items, id) {
                Some(i) => final(self)@.active == Some(i),
                None => final(self)@.active == old(self)@.active,
            },
    {
        match self.position_of(id) {
            Some(index) => {
                self.active = Some(index);
                true
            },
            None => false,
        }
    }
}

/// Some first position holds `id` when any position does.
proof fn lemma_first_position_exists(items: Seq<SessionView>, id: u64, i: int)
    requires
        0 <= i < items.len(),
        items[i].id == id,
    ensures
        exists|k: int| 0 <= k < items.len() && items[k].id == id && forall|j: int| 0 <= j < k ==> items[j].id != id,
    decreases i,
{
    if exists|j: int| 0 <= j < i && items[j].id == id {
        let j = choose|j: int| 0 <= j < i && items[j].id == id;
        lemma_first_position_exists(items, id, j);
    } else {
        assert(forall|j: int| 0 <= j < i ==> items[j].id != id);
    }
}

/// The position `index_of_id` finds holds a session with that id.
pub proof fn lemma_index_of_id_found(items: Seq<SessionView>, id: u64, i: int)
    requires
        index_of_id(items, id) == Some(i),
    ensures
        0 <= i < items.len(),
        items[i].id == id,
{
    reveal(index_of_id);
    let w = choose|w: int| 0 <= w < items.len() && items[w].id == id;
    lemma_first_position_exists(items, id, w);
}

/// Removing the session at `index` leaves the active session active when it
/// was another one; when it was the removed one, its neighbour (the next,
/// or the previous for the last) becomes active, and nothing once none is
/// left.
pub proof fn lemma_remove_keeps_active(items: Seq<SessionView>, active: int, index: int)
    requires
        0 <= index < items.len(),
        0 <= active < items.len(),
    ensures
        active != index ==> (active_after_remove(Some(active), index, items.len() as int) matches Some(a) && 0 <= a
            < items.len() - 1 && items.remove(index)[a] == items[active]),
        active == index && items.len() > 1 ==> (active_after_remove(Some(active), index, items.len() as int) matches Some(
            a,
        ) && 0 <= a < items.len() - 1 && items.remove(index)[a] == if index + 1 < items.len() {
            items[index + 1]
        } else {
            items[index - 1]
        }),
        active == index && items.len() == 1 ==> active_after_remove(Some(active), index, items.len() as int) is None,
{
}

/// Disconnecting a session other than the active one keeps the active
/// session: after `remove`, the session active is the one active before.
pub proof fn lemma_remove_other_session_keeps_active(before: SessionsView, after: SessionsView, id: u64, a: int, i: int)
    requires
        before.active == Some(a),
        0 <= a < before.items.len(),
        index_of_id(before.items, id) == Some(i),
        after.items == before.items.remove(i),
        after.active == active_after_remove(before.active, i, before.items.len() as int),
        before.items[a].id != id,
    ensures
        after.active matches Some(a2) && 0 <= a2 < after.items.len() && after.items[a2] == before.items[a],
{
    lemma_index_of_id_found(before.items, id, i);
    lemma_remove_keeps_active(before.items, a, i);
}

/// With two or more sessions, cycling makes another session active: the
/// next one, or the first after the last. With fewer, nothing changes.
pub proof fn lemma_cycle_moves_on(active: int, len: int)
    requires
        0 <= active < len,
    ensures
        len >= 2 ==> (active_after_cycle(Some(active), len) matches Some(b) && 0 <= b < len && b != active && (b
            == active + 1 || (active == len - 1 && b == 0))),
        len < 2 ==> active_after_cycle(Some(active), len) == Some(active),
{
    if len >= 2 {
        if active + 1 < len {
            vstd::arithmetic::div_mod::lemma_small_mod((active + 1) as nat, len as nat);
        } else {
            vstd::arithmetic::div_mod::lemma_mod_self_0(len);
        }
    }
}

} // verus!
