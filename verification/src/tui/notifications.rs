//! Messages shown to the user one at a time, oldest first. Informational
//! messages and warnings go away after a while; errors stay until
//! dismissed. Times are milliseconds on a clock the caller keeps.
use std::collections::VecDeque;

use vstd::prelude::*;

verus! {

#[derive(Debug, Clone, Copy, PartialEq, Eq, Structural)]
pub enum Severity {
    Info,
    Warning,
    Error,
}

/// How long a message of each severity stays, in milliseconds; errors
/// stay until dismissed.
pub open spec fn ttl_of(s: Severity) -> Option<u64> {
    match s {
        Severity::Info => Some(4000),
        Severity::Warning => Some(8000),
        Severity::Error => None,
    }
}

impl Severity {
    pub fn ttl(self) -> (r: Option<u64>)
        ensures
            r == ttl_of(self),
    {
        match self {
            Severity::Info => Some(4000),
            Severity::Warning => Some(8000),
            Severity::Error => None,
        }
    }
}

pub struct Notification {
    pub severity: Severity,
    pub message: String,
    expires_at: Option<u64>,
}

pub struct NotificationView {
    pub severity: Severity,
    pub message: Seq<char>,
    pub expires_at: Option<u64>,
}

impl View for Notification {
    type V = NotificationView;

    closed spec fn view(&self) -> NotificationView {
        NotificationView { severity: self.severity, message: self.message@, expires_at: self.expires_at }
    }
}

impl Notification {
    /// When the message goes away, if it does.
    pub fn expires_at(&self) -> (r: Option<u64>)
        ensures
            r == self@.expires_at,
    {
        self.expires_at
    }
}

/// The queue of messages.
pub struct Notifications {
    queue: VecDeque<Notification>,
}

pub open spec fn views(q: Seq<Notification>) -> Seq<NotificationView> {
    q.map_values(|n: Notification| n@)
}

/// Whether `n` has expired at `now`.
pub open spec fn expired(n: NotificationView, now: u64) -> bool {
    n.expires_at matches Some(at) && at <= now
}

/// How many messages at the front of `q` have expired at `now`.
pub open spec fn expired_front(q: Seq<NotificationView>, now: u64) -> nat
    decreases q.len(),
{
    if q.len() > 0 && expired(q[0], now) {
        1 + expired_front(q.drop_first(), now)
    } else {
        0
    }
}

impl View for Notifications {
    type V = Seq<NotificationView>;

    closed spec fn view(&self) -> Seq<NotificationView> {
        views(self.queue@)
    }
}

proof fn lemma_expired_front_bound(q: Seq<NotificationView>, now: u64)
    ensures
        expired_front(q, now) <= q.len(),
        expired_front(q, now) < q.len() ==> !expired(q[expired_front(q, now) as int], now),
    decreases q.len(),
{
    if q.len() > 0 && expired(q[0], now) {
        lemma_expired_front_bound(q.drop_first(), now);
        let k = expired_front(q.drop_first(), now);
        if k < q.drop_first().len() {
            assert(q[k as int + 1] == q.drop_first()[k as int]);
        }
    }
}

impl Notifications {
    pub fn new() -> (n: Notifications)
        ensures
            n@.len() == 0,
    {
        let n = Notifications { queue: VecDeque::new() };
        proof {
            assert(views(n.queue@) =~= Seq::<NotificationView>::empty());
        }
        n
    }

    /// Queues `message`; it expires at `now` plus its severity's time to
    /// live, if it has one.
    pub fn push(&mut self, severity: Severity, message: String, now: u64)
        requires
            ttl_of(severity) matches Some(t) ==> now + t <= u64::MAX,
        ensures
            final(self)@ == old(self)@.push(
                NotificationView {
                    severity,
                    message: message@,
                    expires_at: match ttl_of(severity) {
                        Some(t) => Some((now + t) as u64),
                        None => None,
                    },
                },
            ),
    {
        let expires_at: Option<u64> = match severity.ttl() {
            Some(ttl) => Some(now + ttl),
            None => None,
        };
        let n = Notification { severity, message, expires_at };
        let ghost nv = n@;
        let ghost prev = self.queue@;
        self.queue.push_back(n);
        proof {
            assert(views(self.queue@) =~= views(prev).push(nv));
        }
    }

    /// The oldest message, the one shown.
    pub fn current(&self) -> (r: Option<&Notification>)
        ensures
            match r {
                Some(n) => self@.len() > 0 && n@ == self@[0],
                None => self@.len() == 0,
            },
    {
        if self.queue.len() == 0 {
            None
        } else {
            Some(&self.queue[0])
        }
    }

    /// Drops the oldest message.
    pub fn dismiss_current(&mut self)
        ensures
            final(self)@ == if old(self)@.len() > 0 {
                old(self)@.drop_first()
            } else {
                old(self)@
            },
    {
        if self.queue.len() > 0 {
            let ghost prev = self.queue@;
            self.queue.pop_front();
            proof {
                assert(views(self.queue@) =~= views(prev).drop_first());
            }
        }
    }

    /// Drops the messages at the front that have expired at `now`; a
    /// message that stays keeps those behind it.
    pub fn expire(&mut self, now: u64)
        ensures
            final(self)@ == old(self)@.skip(expired_front(old(self)@, now) as int),
            final(self)@.len() > 0 ==> !expired(final(self)@[0], now),
    {
        let ghost orig = self@;
        proof {
            lemma_expired_front_bound(orig, now);
            assert(orig.skip(0) == orig);
        }
        let ghost mut dropped: int = 0;
        while self.queue.len() > 0
            invariant
                0 <= dropped <= orig.len(),
                self@ == orig.skip(dropped),
                expired_front(orig, now) == dropped + expired_front(self@, now),
            ensures
                self@ == orig.skip(dropped),
                expired_front(orig, now) == dropped,
                self@.len() > 0 ==> !expired(self@[0], now),
            decreases self.queue.len(),
        {
            let at: Option<u64> = self.queue[0].expires_at;
            assert(self@[0].expires_at == at);
            match at {
                Some(t) => {
                    if t <= now {
                        let ghost prev = self.queue@;
                        self.queue.pop_front();
                        proof {
                            assert(views(self.queue@) =~= views(prev).drop_first());
                            assert(orig.skip(dropped + 1) =~= orig.skip(dropped).drop_first());
                            dropped = dropped + 1;
                        }
                    } else {
                        assert(!expired(self@[0], now));
                        break;
                    }
                },
                None => {
                    assert(!expired(self@[0], now));
                    break;
                },
            }
        }
        proof {
            lemma_expired_front_bound(self@, now);
        }
    }

    /// When the shown message expires, if it does.
    pub fn next_wake(&self) -> (r: Option<u64>)
        ensures
            r == if self@.len() > 0 {
                self@[0].expires_at
            } else {
                None
            },
    {
        if self.queue.len() == 0 {
            None
        } else {
            self.queue[0].expires_at
        }
    }
}

/// Expiring twice at the same time drops nothing the second time.
pub proof fn lemma_expire_settles(q: Seq<NotificationView>, now: u64)
    ensures
        expired_front(q.skip(expired_front(q, now) as int), now) == 0,
{
    lemma_expired_front_bound(q, now);
    let k = expired_front(q, now) as int;
    let rest = q.skip(k);
    if rest.len() > 0 {
        assert(rest[0] == q[k]);
    }
}

/// A message without an expiry time (an error) is never dropped by
/// expiry: the expired front stops before it.
pub proof fn lemma_unexpiring_stays(q: Seq<NotificationView>, now: u64, i: int)
    requires
        0 <= i < q.len(),
        q[i].expires_at is None,
    ensures
        expired_front(q, now) <= i,
    decreases i,
{
    if i > 0 && expired(q[0], now) {
        assert(q.drop_first()[i - 1] == q[i]);
        lemma_unexpiring_stays(q.drop_first(), now, i - 1);
    }
}

} // verus!
