//! The transfer queue: every job ever enqueued, in order, with the rules
//! for which queued jobs may start, retries, cancellation and progress.
use vstd::prelude::*;

use crate::seq_facts::lemma_filter_take_step;

use super::execute::TransferOutcome;
use super::job::{destination_of, Destination, DestinationView, Direction, JobStatus, JobView, StatusView, TransferJob};

verus! {

/// A job that fails is retried until it has been attempted this many times.
pub const MAX_ATTEMPTS: u32 = 3;

/// Totals over the jobs of one batch.
#[derive(Debug, Clone, Copy, PartialEq, Eq)]
pub struct BatchProgress {
    pub total_files: usize,
    pub completed_files: usize,
    pub total_bytes: u64,
    pub transferred_bytes: u64,
}

pub struct QueueView {
    pub jobs: Seq<JobView>,
    pub next_id: u64,
    pub next_batch_id: u64,
    pub labels: Seq<(u64, Seq<char>)>,
}

pub struct TransferQueue {
    jobs: Vec<TransferJob>,
    next_id: u64,
    next_batch_id: u64,
    labels: Vec<(u64, String)>,
}

pub open spec fn job_views(s: Seq<TransferJob>) -> Seq<JobView> {
    s.map_values(|j: TransferJob| j@)
}

pub open spec fn label_views(s: Seq<(u64, String)>) -> Seq<(u64, Seq<char>)> {
    s.map_values(|l: (u64, String)| (l.0, l.1@))
}

pub open spec fn is_queued(j: JobView) -> bool {
    j.status is Queued
}

pub open spec fn is_active(j: JobView) -> bool {
    j.status is InProgress
}

pub open spec fn is_completed(j: JobView) -> bool {
    j.status is Completed
}

/// The number of jobs in `jobs` that satisfy `p`.
pub open spec fn count(jobs: Seq<JobView>, p: spec_fn(JobView) -> bool) -> nat {
    jobs.filter(p).len()
}

/// The destinations in use by jobs that are running.
pub open spec fn busy_destinations(jobs: Seq<JobView>) -> Set<DestinationView> {
    Set::new(|d: DestinationView| exists|i: int| 0 <= i < jobs.len() && is_active(jobs[i]) && destination_of(jobs[i]) == d)
}

/// Walking the jobs from `i`, the ids of queued jobs that may start: each
/// one takes a free slot, and none may share a destination with a running
/// job or with one picked before it.
pub open spec fn startable_from(jobs: Seq<JobView>, i: int, free: int, busy: Set<DestinationView>, picked: Seq<u64>) -> Seq<u64>
    decreases jobs.len() - i,
{
    if i < 0 || i >= jobs.len() || picked.len() >= free {
        picked
    } else if is_queued(jobs[i]) && !busy.contains(destination_of(jobs[i])) {
        startable_from(jobs, i + 1, free, busy.insert(destination_of(jobs[i])), picked.push(jobs[i].id))
    } else {
        startable_from(jobs, i + 1, free, busy, picked)
    }
}

/// Bytes summed over the jobs of batch `b`.
pub open spec fn batch_total_bytes(jobs: Seq<JobView>, b: u64) -> int
    decreases jobs.len(),
{
    if jobs.len() == 0 {
        0
    } else {
        batch_total_bytes(jobs.drop_last(), b) + if jobs.last().batch_id == Some(b) {
            jobs.last().total_bytes as int
        } else {
            0
        }
    }
}

pub open spec fn batch_transferred_bytes(jobs: Seq<JobView>, b: u64) -> int
    decreases jobs.len(),
{
    if jobs.len() == 0 {
        0
    } else {
        batch_transferred_bytes(jobs.drop_last(), b) + if jobs.last().batch_id == Some(b) {
            jobs.last().transferred_bytes as int
        } else {
            0
        }
    }
}

/// The label given last to batch `b`, if any.
pub open spec fn last_label(labels: Seq<(u64, Seq<char>)>, b: u64) -> Option<Seq<char>>
    decreases labels.len(),
{
    if labels.len() == 0 {
        None
    } else if labels.last().0 == b {
        Some(labels.last().1)
    } else {
        last_label(labels.drop_last(), b)
    }
}

pub open spec fn dest_views(s: Seq<Destination>) -> Seq<DestinationView> {
    s.map_values(|x: Destination| x@)
}

pub open spec fn active_dest_before(jobs: Seq<JobView>, i: int, d: DestinationView) -> bool {
    exists|k: int| 0 <= k < i && is_active(jobs[k]) && destination_of(jobs[k]) == d
}

pub open spec fn in_batch(j: JobView, b: u64) -> bool {
    j.batch_id == Some(b)
}

pub open spec fn new_job(
    id: u64,
    session_id: u64,
    direction: Direction,
    local_path: Seq<char>,
    remote_path: Seq<char>,
    display_name: Seq<char>,
    total_bytes: u64,
    batch_id: Option<u64>,
) -> JobView {
    JobView {
        id,
        session_id,
        direction,
        local_path,
        remote_path,
        display_name,
        total_bytes,
        transferred_bytes: 0,
        status: StatusView::Queued,
        attempts: 0,
        batch_id,
    }
}

proof fn lemma_views_update(s: Seq<TransferJob>, i: int, x: TransferJob)
    requires
        0 <= i < s.len(),
    ensures
        job_views(s.update(i, x)) == job_views(s).update(i, x@),
{
    assert(job_views(s.update(i, x)) =~= job_views(s).update(i, x@));
}

fn clone_status(s: &JobStatus) -> (r: JobStatus)
    ensures
        r == *s,
{
    match s {
        JobStatus::Queued => JobStatus::Queued,
        JobStatus::InProgress => JobStatus::InProgress,
        JobStatus::Completed => JobStatus::Completed,
        JobStatus::Failed(m) => JobStatus::Failed(m.clone()),
        JobStatus::Cancelled => JobStatus::Cancelled,
    }
}

/// A copy of a job.
pub fn clone_job(j: &TransferJob) -> (r: TransferJob)
    ensures
        r == *j,
{
    TransferJob {
        id: j.id,
        session_id: j.session_id,
        direction: j.direction,
        local_path: j.local_path.clone(),
        remote_path: j.remote_path.clone(),
        display_name: j.display_name.clone(),
        total_bytes: j.total_bytes,
        transferred_bytes: j.transferred_bytes,
        status: clone_status(&j.status),
        attempts: j.attempts,
        batch_id: j.batch_id,
    }
}

fn is_queued_exec(j: &TransferJob) -> (r: bool)
    ensures
        r == is_queued(j@),
{
    match j.status {
        JobStatus::Queued => true,
        _ => false,
    }
}

fn is_active_exec(j: &TransferJob) -> (r: bool)
    ensures
        r == is_active(j@),
{
    match j.status {
        JobStatus::InProgress => true,
        _ => false,
    }
}

impl View for TransferQueue {
    type V = QueueView;

    closed spec fn view(&self) -> QueueView {
        QueueView {
            jobs: job_views(self.jobs@),
            next_id: self.next_id,
            next_batch_id: self.next_batch_id,
            labels: label_views(self.labels@),
        }
    }
}

impl TransferQueue {
    /// Job ids are their positions in the queue, and the next id is the
    /// queue's length.
    pub open spec fn wf(&self) -> bool {
        &&& self@.next_id == self@.jobs.len()
        &&& forall|i: int| 0 <= i < self@.jobs.len() ==> #[trigger] self@.jobs[i].id == i
    }

    pub fn new() -> (q: TransferQueue)
        ensures
            q.wf(),
            q@.jobs.len() == 0,
            q@.next_batch_id == 0,
            q@.labels.len() == 0,
    {
        let q = TransferQueue { jobs: Vec::new(), next_id: 0, next_batch_id: 0, labels: Vec::new() };
        proof {
            assert(label_views(q.labels@) =~= Seq::<(u64, Seq<char>)>::empty());
        }
        q
    }

    /// Adds a queued job and returns its id.
    pub fn enqueue(
        &mut self,
        session_id: u64,
        direction: Direction,
        local_path: String,
        remote_path: String,
        display_name: String,
        total_bytes: u64,
        batch_id: Option<u64>,
    ) -> (id: u64)
        requires
            old(self).wf(),
            old(self)@.next_id < u64::MAX,
        ensures
            final(self).wf(),
            id == old(self)@.next_id,
            final(self)@.jobs == old(self)@.jobs.push(
                new_job(id, session_id, direction, local_path@, remote_path@, display_name@, total_bytes, batch_id),
            ),
            final(self)@.next_batch_id == old(self)@.next_batch_id,
            final(self)@.labels == old(self)@.labels,
    {
        let id: u64 = self.next_id;
        self.next_id = self.next_id + 1;
        let job = TransferJob {
            id,
            session_id,
            direction,
            local_path,
            remote_path,
            display_name,
            total_bytes,
            transferred_bytes: 0,
            status: JobStatus::Queued,
            attempts: 0,
            batch_id,
        };
        let ghost jv = job@;
        let ghost prev = self.jobs@;
        self.jobs.push(job);
        proof {
            assert(job_views(self.jobs@) =~= job_views(prev).push(jv));
        }
        id
    }

    /// Reserves a new batch id.
    pub fn start_batch(&mut self) -> (id: u64)
        requires
            old(self)@.next_batch_id < u64::MAX,
        ensures
            id == old(self)@.next_batch_id,
            final(self)@ == (QueueView { next_batch_id: (id + 1) as u64, ..old(self)@ }),
    {
        let id: u64 = self.next_batch_id;
        self.next_batch_id = self.next_batch_id + 1;
        id
    }

    /// Names batch `batch_id` `label` in the transfer list.
    pub fn set_batch_label(&mut self, batch_id: u64, label: String)
        ensures
            final(self)@ == (QueueView { labels: old(self)@.labels.push((batch_id, label@)), ..old(self)@ }),
    {
        let ghost prev = self.labels@;
        let ghost lv = label@;
        self.labels.push((batch_id, label));
        proof {
            assert(label_views(self.labels@) =~= label_views(prev).push((batch_id, lv)));
        }
    }

    /// The label most recently given to `batch_id`, if any.
    pub fn batch_label(&self, batch_id: u64) -> (r: Option<&String>)
        ensures
            match r {
                Some(l) => last_label(self@.labels, batch_id) == Some(l@),
                None => last_label(self@.labels, batch_id) is None,
            },
    {
        let mut i: usize = self.labels.len();
        proof {
            assert(self@.labels.take(i as int) == self@.labels);
        }
        while i > 0
            invariant
                i <= self.labels.len(),
                last_label(self@.labels, batch_id) == last_label(self@.labels.take(i as int), batch_id),
            decreases i,
        {
            proof {
                assert(self@.labels.take(i as int).drop_last() == self@.labels.take(i - 1));
                assert(self@.labels.take(i as int).last() == self@.labels[i - 1]);
                assert(self@.labels[i - 1] == (self.labels@[i - 1].0, self.labels@[i - 1].1@));
            }
            if self.labels[i - 1].0 == batch_id {
                return Some(&self.labels[i - 1].1);
            }
            i = i - 1;
        }
        None
    }

    /// Every job, in the order enqueued.
    pub fn jobs(&self) -> (r: &Vec<TransferJob>)
        ensures
            job_views(r@) == self@.jobs,
    {
        &self.jobs
    }

    /// The job with `id`.
    pub fn get(&self, id: u64) -> (r: Option<&TransferJob>)
        requires
            self.wf(),
        ensures
            match r {
                Some(j) => id < self@.jobs.len() && j@ == self@.jobs[id as int],
                None => id >= self@.jobs.len(),
            },
    {
        if id >= self.jobs.len() as u64 {
            return None;
        }
        let index: usize = id as usize;
        assert(self@.jobs[index as int] == self.jobs@[index as int]@);
        Some(&self.jobs[index])
    }

    /// The job with `id`, for changing it.
    pub fn get_mut(&mut self, id: u64) -> (r: Option<&mut TransferJob>)
        requires
            old(self).wf(),
        ensures
            match r {
                Some(j) => id < old(self)@.jobs.len() && (*j)@ == old(self)@.jobs[id as int] && final(self)@ == (
                QueueView { jobs: old(self)@.jobs.update(id as int, (*final(j))@), ..old(self)@ }),
                None => id >= old(self)@.jobs.len() && final(self)@ == old(self)@,
            },
    {
        if id >= self.jobs.len() as u64 {
            return None;
        }
        let index: usize = id as usize;
        let ghost prev = self.jobs@;
        let r = &mut self.jobs[index];
        proof {
            lemma_views_update(prev, index as int, *final(r));
        }
        Some(r)
    }

    /// The running jobs, in queue order.
    pub fn active_jobs(&self) -> (r: Vec<&TransferJob>)
        ensures
            r@.map_values(|j: &TransferJob| j@) == self@.jobs.filter(|j: JobView| is_active(j)),
    {
        let ghost p = |j: JobView| is_active(j);
        let mut r: Vec<&TransferJob> = Vec::new();
        let mut i: usize = 0;
        while i < self.jobs.len()
            invariant
                i <= self.jobs.len(),
                p == (|j: JobView| is_active(j)),
                r@.map_values(|j: &TransferJob| j@) == self@.jobs.take(i as int).filter(p),
            decreases self.jobs.len() - i,
        {
            proof {
                lemma_filter_take_step(self@.jobs, i as int, p);
            }
            if is_active_exec(&self.jobs[i]) {
                let ghost prev = r@;
                r.push(&self.jobs[i]);
                proof {
                    assert(r@.map_values(|j: &TransferJob| j@) =~= prev.map_values(|j: &TransferJob| j@).push(
                        self@.jobs[i as int],
                    ));
                }
            }
            i = i + 1;
        }
        proof {
            assert(self@.jobs.take(self@.jobs.len() as int) == self@.jobs);
        }
        r
    }

    /// The first running job, if any.
    pub fn active(&self) -> (r: Option<&TransferJob>)
        ensures
            match r {
                Some(j) => exists|i: int|
                    0 <= i < self@.jobs.len() && self@.jobs[i] == j@ && is_active(j@) && forall|k: int|
                        0 <= k < i ==> !is_active(self@.jobs[k]),
                None => forall|i: int| 0 <= i < self@.jobs.len() ==> !is_active(self@.jobs[i]),
            },
    {
        let mut i: usize = 0;
        while i < self.jobs.len()
            invariant
                i <= self.jobs.len(),
                forall|k: int| 0 <= k < i ==> !is_active(self@.jobs[k]),
            decreases self.jobs.len() - i,
        {
            if is_active_exec(&self.jobs[i]) {
                assert(self@.jobs[i as int] == self.jobs@[i as int]@);
                return Some(&self.jobs[i]);
            }
            i = i + 1;
        }
        None
    }

    fn count_where_active(&self) -> (n: usize)
        ensures
            n == count(self@.jobs, |j: JobView| is_active(j)),
    {
        let ghost p = |j: JobView| is_active(j);
        let mut n: usize = 0;
        let mut i: usize = 0;
        while i < self.jobs.len()
            invariant
                i <= self.jobs.len(),
                p == (|j: JobView| is_active(j)),
                n == self@.jobs.take(i as int).filter(p).len(),
                n <= i,
            decreases self.jobs.len() - i,
        {
            proof {
                lemma_filter_take_step(self@.jobs, i as int, p);
            }
            if is_active_exec(&self.jobs[i]) {
                n = n + 1;
            }
            i = i + 1;
        }
        proof {
            assert(self@.jobs.take(self@.jobs.len() as int) == self@.jobs);
        }
        n
    }

    /// How many jobs are running.
    pub fn active_count(&self) -> (n: usize)
        ensures
            n == count(self@.jobs, |j: JobView| is_active(j)),
    {
        self.count_where_active()
    }

    /// How many jobs wait to start.
    pub fn queued_count(&self) -> (n: usize)
        ensures
            n == count(self@.jobs, |j: JobView| is_queued(j)),
    {
        let ghost p = |j: JobView| is_queued(j);
        let mut n: usize = 0;
        let mut i: usize = 0;
        while i < self.jobs.len()
            invariant
                i <= self.jobs.len(),
                p == (|j: JobView| is_queued(j)),
                n == self@.jobs.take(i as int).filter(p).len(),
                n <= i,
            decreases self.jobs.len() - i,
        {
            proof {
                lemma_filter_take_step(self@.jobs, i as int, p);
            }
            if is_queued_exec(&self.jobs[i]) {
                n = n + 1;
            }
            i = i + 1;
        }
        proof {
            assert(self@.jobs.take(self@.jobs.len() as int) == self@.jobs);
        }
        n
    }

    /// The ids of the queued jobs that may start now, at most `limit` jobs
    /// running in all: in queue order, skipping any whose destination a
    /// running or an earlier picked job already writes.
    pub fn startable(&self, limit: usize) -> (ids: Vec<u64>)
        ensures
            ids@ == startable_from(
                self@.jobs,
                0,
                if limit >= count(self@.jobs, |j: JobView| is_active(j)) {
                    limit - count(self@.jobs, |j: JobView| is_active(j))
                } else {
                    0
                },
                busy_destinations(self@.jobs),
                Seq::empty(),
            ),
    {
        let active: usize = self.count_where_active();
        let free: usize = if limit >= active {
            limit - active
        } else {
            0
        };
        let mut busy: Vec<Destination> = Vec::new();
        let mut i: usize = 0;
        while i < self.jobs.len()
            invariant
                i <= self.jobs.len(),
                forall|d: DestinationView|
                    #[trigger] dest_views(busy@).contains(d) <==> active_dest_before(self@.jobs, i as int, d),
            decreases self.jobs.len() - i,
        {
            let ghost jobs = self@.jobs;
            proof {
                assert(self.jobs@[i as int]@ == jobs[i as int]);
                assert forall|d: DestinationView| active_dest_before(jobs, i + 1, d) <==> (active_dest_before(jobs, i as int, d)
                    || (is_active(jobs[i as int]) && destination_of(jobs[i as int]) == d)) by {
                    if active_dest_before(jobs, i + 1, d) {
                        let k = choose|k: int| 0 <= k < i + 1 && is_active(jobs[k]) && destination_of(jobs[k]) == d;
                        if k < i {
                            assert(active_dest_before(jobs, i as int, d));
                        }
                    }
                    if active_dest_before(jobs, i as int, d) {
                        let k = choose|k: int| 0 <= k < i && is_active(jobs[k]) && destination_of(jobs[k]) == d;
                        assert(0 <= k < i + 1 && is_active(jobs[k]) && destination_of(jobs[k]) == d);
                    }
                    if is_active(jobs[i as int]) && destination_of(jobs[i as int]) == d {
                        assert(0 <= i < i + 1 && is_active(jobs[i as int]) && destination_of(jobs[i as int]) == d);
                    }
                }
            }
            let ghost prev = dest_views(busy@);
            if is_active_exec(&self.jobs[i]) {
                busy.push(self.jobs[i].destination());
                proof {
                    assert(dest_views(busy@) =~= prev.push(destination_of(jobs[i as int])));
                    assert forall|d: DestinationView| #[trigger] dest_views(busy@).contains(d) <==> active_dest_before(jobs, i + 1, d) by {
                        if dest_views(busy@).contains(d) {
                            let q = choose|q: int| 0 <= q < dest_views(busy@).len() && dest_views(busy@)[q] == d;
                            if q < prev.len() {
                                assert(prev[q] == d);
                                assert(prev.contains(d));
                            }
                        }
                        if active_dest_before(jobs, i + 1, d) {
                            if d == destination_of(jobs[i as int]) {
                                assert(dest_views(busy@)[prev.len() as int] == d);
                            } else {
                                assert(prev.contains(d));
                                let q = choose|q: int| 0 <= q < prev.len() && prev[q] == d;
                                assert(dest_views(busy@)[q] == d);
                            }
                        }
                    }
                }
            } else {
                proof {
                    assert forall|d: DestinationView| #[trigger] dest_views(busy@).contains(d) <==> active_dest_before(jobs, i + 1, d) by {
                        assert(prev.contains(d) <==> active_dest_before(jobs, i as int, d));
                    }
                }
            }
            i = i + 1;
        }
        proof {
            assert(dest_views(busy@).to_set() =~= busy_destinations(self@.jobs));
        }
        let mut picked: Vec<u64> = Vec::new();
        let mut j: usize = 0;
        while j < self.jobs.len() && picked.len() < free
            invariant
                j <= self.jobs.len(),
                startable_from(self@.jobs, 0, free as int, busy_destinations(self@.jobs), Seq::empty())
                    == startable_from(self@.jobs, j as int, free as int, dest_views(busy@).to_set(), picked@),
            decreases self.jobs.len() - j,
        {
            if is_queued_exec(&self.jobs[j]) {
                let d: Destination = self.jobs[j].destination();
                let mut taken: bool = false;
                let mut k: usize = 0;
                while k < busy.len()
                    invariant
                        k <= busy.len(),
                        taken == exists|q: int| 0 <= q < k && busy@[q]@ == d@,
                    decreases busy.len() - k,
                {
                    if busy[k].same_as(&d) {
                        taken = true;
                    }
                    k = k + 1;
                }
                proof {
                    let bv = dest_views(busy@);
                    if taken {
                        let q = choose|q: int| 0 <= q < busy.len() && busy@[q]@ == d@;
                        assert(bv[q] == d@);
                        assert(bv.to_set().contains(d@));
                    } else {
                        assert(!bv.contains(d@));
                    }
                }
                if !taken {
                    let ghost prev = dest_views(busy@);
                    busy.push(d);
                    picked.push(self.jobs[j].id);
                    proof {
                        let bv = dest_views(busy@);
                        assert(bv =~= prev.push(destination_of(self@.jobs[j as int])));
                        prev.lemma_push_to_set_commute(destination_of(self@.jobs[j as int]));
                    }
                }
            }
            j = j + 1;
        }
        picked
    }

    /// The ids of the running jobs of `session_id`, in queue order.
    pub fn active_ids_for_session(&self, session_id: u64) -> (ids: Vec<u64>)
        ensures
            ids@ == self@.jobs.filter(|j: JobView| is_active(j) && j.session_id == session_id).map_values(
                |j: JobView| j.id,
            ),
    {
        let ghost p = |j: JobView| is_active(j) && j.session_id == session_id;
        let ghost f = |j: JobView| j.id;
        let mut ids: Vec<u64> = Vec::new();
        let mut i: usize = 0;
        while i < self.jobs.len()
            invariant
                i <= self.jobs.len(),
                p == (|j: JobView| is_active(j) && j.session_id == session_id),
                f == (|j: JobView| j.id),
                ids@ == self@.jobs.take(i as int).filter(p).map_values(f),
            decreases self.jobs.len() - i,
        {
            proof {
                lemma_filter_take_step(self@.jobs, i as int, p);
            }
            if is_active_exec(&self.jobs[i]) && self.jobs[i].session_id == session_id {
                ids.push(self.jobs[i].id);
                proof {
                    let fl = self@.jobs.take(i as int).filter(p);
                    assert(fl.push(self@.jobs[i as int]).map_values(f) =~= fl.map_values(f).push(f(self@.jobs[i as int])));
                }
            }
            i = i + 1;
        }
        proof {
            assert(self@.jobs.take(self@.jobs.len() as int) == self@.jobs);
        }
        ids
    }

    /// Whether `session_id` still has a queued or running job going in
    /// `direction`.
    pub fn has_pending(&self, session_id: u64, direction: Direction) -> (r: bool)
        ensures
            r == exists|i: int|
                0 <= i < self@.jobs.len() && #[trigger] self@.jobs[i].session_id == session_id && self@.jobs[i].direction
                    == direction && (is_queued(self@.jobs[i]) || is_active(self@.jobs[i])),
    {
        let mut i: usize = 0;
        while i < self.jobs.len()
            invariant
                i <= self.jobs.len(),
                forall|k: int|
                    0 <= k < i ==> !(#[trigger] self@.jobs[k].session_id == session_id && self@.jobs[k].direction
                        == direction && (is_queued(self@.jobs[k]) || is_active(self@.jobs[k]))),
            decreases self.jobs.len() - i,
        {
            let job: &TransferJob = &self.jobs[i];
            if job.session_id == session_id && job.direction == direction && (is_queued_exec(job) || is_active_exec(
                job,
            )) {
                assert(self@.jobs[i as int] == job@);
                assert(self@.jobs[i as int].session_id == session_id && self@.jobs[i as int].direction == direction && (
                is_queued(self@.jobs[i as int]) || is_active(self@.jobs[i as int])));
                return true;
            }
            i = i + 1;
        }
        false
    }

    /// Cancels every queued job; returns how many there were.
    pub fn cancel_all_queued(&mut self) -> (n: usize)
        ensures
            n == count(old(self)@.jobs, |j: JobView| is_queued(j)),
            final(self)@.jobs.len() == old(self)@.jobs.len(),
            forall|i: int|
                0 <= i < old(self)@.jobs.len() ==> #[trigger] final(self)@.jobs[i] == if is_queued(old(self)@.jobs[i]) {
                    JobView { status: StatusView::Cancelled, ..old(self)@.jobs[i] }
                } else {
                    old(self)@.jobs[i]
                },
            final(self)@.next_id == old(self)@.next_id,
            final(self)@.next_batch_id == old(self)@.next_batch_id,
            final(self)@.labels == old(self)@.labels,
    {
        let ghost orig = self@.jobs;
        let ghost p = |j: JobView| is_queued(j);
        let mut n: usize = 0;
        let mut i: usize = 0;
        while i < self.jobs.len()
            invariant
                i <= self.jobs.len() == orig.len(),
                p == (|j: JobView| is_queued(j)),
                n == orig.take(i as int).filter(p).len(),
                n <= i,
                forall|k: int|
                    0 <= k < orig.len() ==> #[trigger] self@.jobs[k] == if k < i && is_queued(orig[k]) {
                        JobView { status: StatusView::Cancelled, ..orig[k] }
                    } else {
                        orig[k]
                    },
                self@.next_id == old(self)@.next_id,
                self@.next_batch_id == old(self)@.next_batch_id,
                self@.labels == old(self)@.labels,
            decreases self.jobs.len() - i,
        {
            proof {
                lemma_filter_take_step(orig, i as int, p);
                assert(self.jobs@[i as int]@ == self@.jobs[i as int]);
                assert(self@.jobs[i as int] == orig[i as int]);
            }
            if is_queued_exec(&self.jobs[i]) {
                let mut job: TransferJob = clone_job(&self.jobs[i]);
                job.status = JobStatus::Cancelled;
                let ghost prev = self.jobs@;
                let ghost jv = job@;
                self.jobs.set(i, job);
                proof {
                    lemma_views_update(prev, i as int, self.jobs@[i as int]);
                    assert(self.jobs@ == prev.update(i as int, self.jobs@[i as int]));
                }
                n = n + 1;
            }
            i = i + 1;
        }
        proof {
            assert(orig.take(orig.len() as int) == orig);
        }
        n
    }

    /// Fails every queued job of `session_id` with `reason`; returns how
    /// many there were.
    pub fn fail_queued_for_session(&mut self, session_id: u64, reason: &str) -> (n: usize)
        ensures
            n == count(old(self)@.jobs, |j: JobView| is_queued(j) && j.session_id == session_id),
            final(self)@.jobs.len() == old(self)@.jobs.len(),
            forall|i: int|
                0 <= i < old(self)@.jobs.len() ==> #[trigger] final(self)@.jobs[i] == if is_queued(old(self)@.jobs[i])
                    && old(self)@.jobs[i].session_id == session_id {
                    JobView { status: StatusView::Failed(reason@), ..old(self)@.jobs[i] }
                } else {
                    old(self)@.jobs[i]
                },
            final(self)@.next_id == old(self)@.next_id,
            final(self)@.next_batch_id == old(self)@.next_batch_id,
            final(self)@.labels == old(self)@.labels,
    {
        let ghost orig = self@.jobs;
        let ghost p = |j: JobView| is_queued(j) && j.session_id == session_id;
        let mut n: usize = 0;
        let mut i: usize = 0;
        while i < self.jobs.len()
            invariant
                i <= self.jobs.len() == orig.len(),
                p == (|j: JobView| is_queued(j) && j.session_id == session_id),
                n == orig.take(i as int).filter(p).len(),
                n <= i,
                forall|k: int|
                    0 <= k < orig.len() ==> #[trigger] self@.jobs[k] == if k < i && is_queued(orig[k])
                        && orig[k].session_id == session_id {
                        JobView { status: StatusView::Failed(reason@), ..orig[k] }
                    } else {
                        orig[k]
                    },
                self@.next_id == old(self)@.next_id,
                self@.next_batch_id == old(self)@.next_batch_id,
                self@.labels == old(self)@.labels,
            decreases self.jobs.len() - i,
        {
            proof {
                lemma_filter_take_step(orig, i as int, p);
                assert(self.jobs@[i as int]@ == self@.jobs[i as int]);
                assert(self@.jobs[i as int] == orig[i as int]);
            }
            if self.jobs[i].session_id == session_id && is_queued_exec(&self.jobs[i]) {
                let mut job: TransferJob = clone_job(&self.jobs[i]);
                job.status = JobStatus::Failed(reason.to_owned());
                let ghost prev = self.jobs@;
                self.jobs.set(i, job);
                proof {
                    lemma_views_update(prev, i as int, self.jobs@[i as int]);
                    assert(self.jobs@ == prev.update(i as int, self.jobs@[i as int]));
                }
                n = n + 1;
            }
            i = i + 1;
        }
        proof {
            assert(orig.take(orig.len() as int) == orig);
        }
        n
    }

    /// After a failure of job `id`: puts it back in the queue with its
    /// progress reset, unless it has already been attempted
    /// `MAX_ATTEMPTS` times. Returns whether it was queued again.
    pub fn retry_or_give_up(&mut self, id: u64) -> (retried: bool)
        requires
            old(self).wf(),
        ensures
            final(self).wf(),
            retried == (id < old(self)@.jobs.len() && old(self)@.jobs[id as int].attempts < MAX_ATTEMPTS),
            final(self)@ == if retried {
                QueueView {
                    jobs: old(self)@.jobs.update(
                        id as int,
                        JobView { status: StatusView::Queued, transferred_bytes: 0, ..old(self)@.jobs[id as int] },
                    ),
                    ..old(self)@
                }
            } else {
                old(self)@
            },
    {
        if id >= self.jobs.len() as u64 {
            return false;
        }
        let index: usize = id as usize;
        if self.jobs[index].attempts < MAX_ATTEMPTS {
            let mut job: TransferJob = clone_job(&self.jobs[index]);
            job.status = JobStatus::Queued;
            job.transferred_bytes = 0;
            let ghost prev = self.jobs@;
            self.jobs.set(index, job);
            proof {
                lemma_views_update(prev, index as int, self.jobs@[index as int]);
                assert(self.jobs@ == prev.update(index as int, self.jobs@[index as int]));
                assert forall|i: int| 0 <= i < self@.jobs.len() implies #[trigger] self@.jobs[i].id == i by {
                    if i != index {
                        assert(self@.jobs[i] == old(self)@.jobs[i]);
                    }
                }
            }
            true
        } else {
            false
        }
    }

    /// Puts `job` at `index`, where a job with its id stood.
    fn replace_job(&mut self, index: usize, job: TransferJob)
        requires
            old(self).wf(),
            index < old(self)@.jobs.len(),
            job.id == index,
        ensures
            final(self).wf(),
            final(self)@ == (QueueView { jobs: old(self)@.jobs.update(index as int, job@), ..old(self)@ }),
    {
        let ghost prev = self.jobs@;
        self.jobs.set(index, job);
        proof {
            lemma_views_update(prev, index as int, self.jobs@[index as int]);
            assert(self.jobs@ == prev.update(index as int, self.jobs@[index as int]));
            assert forall|i: int| 0 <= i < self@.jobs.len() implies #[trigger] self@.jobs[i].id == i by {
                if i != index {
                    assert(self@.jobs[i] == old(self)@.jobs[i]);
                }
            }
        }
    }

    /// Job `id` starts: it is running, with one more attempt counted.
    /// Returns whether there is such a job.
    pub fn mark_started(&mut self, id: u64) -> (found: bool)
        requires
            old(self).wf(),
            id < old(self)@.jobs.len() ==> old(self)@.jobs[id as int].attempts < u32::MAX,
        ensures
            final(self).wf(),
            found == (id < old(self)@.jobs.len()),
            final(self)@ == if found {
                QueueView {
                    jobs: old(self)@.jobs.update(
                        id as int,
                        JobView {
                            status: StatusView::InProgress,
                            attempts: (old(self)@.jobs[id as int].attempts + 1) as u32,
                            ..old(self)@.jobs[id as int]
                        },
                    ),
                    ..old(self)@
                }
            } else {
                old(self)@
            },
    {
        if id >= self.jobs.len() as u64 {
            return false;
        }
        let index: usize = id as usize;
        assert(self.jobs@[index as int]@ == self@.jobs[index as int]);
        let mut job: TransferJob = clone_job(&self.jobs[index]);
        job.status = JobStatus::InProgress;
        job.attempts = job.attempts + 1;
        self.replace_job(index, job);
        true
    }

    /// Job `id` cannot start because its session is gone: it fails with
    /// `session disconnected`.
    pub fn mark_disconnected(&mut self, id: u64)
        requires
            old(self).wf(),
        ensures
            final(self).wf(),
            final(self)@ == if id < old(self)@.jobs.len() {
                QueueView {
                    jobs: old(self)@.jobs.update(
                        id as int,
                        JobView { status: StatusView::Failed("session disconnected"@), ..old(self)@.jobs[id as int] },
                    ),
                    ..old(self)@
                }
            } else {
                old(self)@
            },
    {
        if id >= self.jobs.len() as u64 {
            return;
        }
        let index: usize = id as usize;
        assert(self.jobs@[index as int]@ == self@.jobs[index as int]);
        let mut job: TransferJob = clone_job(&self.jobs[index]);
        job.status = JobStatus::Failed("session disconnected".to_owned());
        self.replace_job(index, job);
    }

    /// Job `id` reports `transferred` bytes copied so far.
    pub fn record_progress(&mut self, id: u64, transferred: u64)
        requires
            old(self).wf(),
        ensures
            final(self).wf(),
            final(self)@ == if id < old(self)@.jobs.len() {
                QueueView {
                    jobs: old(self)@.jobs.update(id as int, JobView { transferred_bytes: transferred, ..old(self)@.jobs[id as int] }),
                    ..old(self)@
                }
            } else {
                old(self)@
            },
    {
        if id >= self.jobs.len() as u64 {
            return;
        }
        let index: usize = id as usize;
        assert(self.jobs@[index as int]@ == self@.jobs[index as int]);
        let mut job: TransferJob = clone_job(&self.jobs[index]);
        job.transferred_bytes = transferred;
        self.replace_job(index, job);
    }

    /// Job `id` ended: completed, or cancelled.
    pub fn record_finished(&mut self, id: u64, outcome: TransferOutcome)
        requires
            old(self).wf(),
        ensures
            final(self).wf(),
            final(self)@ == if id < old(self)@.jobs.len() {
                QueueView {
                    jobs: old(self)@.jobs.update(
                        id as int,
                        JobView {
                            status: match outcome {
                                TransferOutcome::Completed => StatusView::Completed,
                                TransferOutcome::Cancelled => StatusView::Cancelled,
                            },
                            ..old(self)@.jobs[id as int]
                        },
                    ),
                    ..old(self)@
                }
            } else {
                old(self)@
            },
    {
        if id >= self.jobs.len() as u64 {
            return;
        }
        let index: usize = id as usize;
        assert(self.jobs@[index as int]@ == self@.jobs[index as int]);
        let mut job: TransferJob = clone_job(&self.jobs[index]);
        job.status = match outcome {
            TransferOutcome::Completed => JobStatus::Completed,
            TransferOutcome::Cancelled => JobStatus::Cancelled,
        };
        self.replace_job(index, job);
    }

    /// Job `id` failed with `message`, or was cancelled while it ran: a
    /// cancelled job stays cancelled; a failed one is queued again unless
    /// its attempts are used up, and then keeps the failure. Returns
    /// whether it was queued again.
    pub fn record_failure(&mut self, id: u64, message: String, cancelled: bool) -> (retried: bool)
        requires
            old(self).wf(),
        ensures
            final(self).wf(),
            retried == (!cancelled && id < old(self)@.jobs.len() && old(self)@.jobs[id as int].attempts < MAX_ATTEMPTS),
            final(self)@ == if id < old(self)@.jobs.len() {
                QueueView {
                    jobs: old(self)@.jobs.update(
                        id as int,
                        if cancelled {
                            JobView { status: StatusView::Cancelled, ..old(self)@.jobs[id as int] }
                        } else if retried {
                            JobView { status: StatusView::Queued, transferred_bytes: 0, ..old(self)@.jobs[id as int] }
                        } else {
                            JobView { status: StatusView::Failed(message@), ..old(self)@.jobs[id as int] }
                        },
                    ),
                    ..old(self)@
                }
            } else {
                old(self)@
            },
    {
        if id >= self.jobs.len() as u64 {
            return false;
        }
        let index: usize = id as usize;
        assert(self.jobs@[index as int]@ == self@.jobs[index as int]);
        let mut job: TransferJob = clone_job(&self.jobs[index]);
        job.status = if cancelled {
            JobStatus::Cancelled
        } else {
            JobStatus::Failed(message)
        };
        self.replace_job(index, job);
        if cancelled {
            false
        } else {
            let retried: bool = self.retry_or_give_up(id);
            proof {
                assert(self@.jobs =~= old(self)@.jobs.update(id as int, if retried {
                    JobView { status: StatusView::Queued, transferred_bytes: 0, ..old(self)@.jobs[id as int] }
                } else {
                    JobView { status: StatusView::Failed(message@), ..old(self)@.jobs[id as int] }
                }));
            }
            retried
        }
    }

    /// Cancels the queued jobs among `ids`; running jobs among them are
    /// left to stop themselves, and finished ones are left as they are.
    pub fn cancel_jobs(&mut self, ids: &Vec<u64>) -> (r: CancelOutcome)
        requires
            old(self).wf(),
        ensures
            final(self).wf(),
            final(self)@.jobs.len() == old(self)@.jobs.len(),
            forall|k: int|
                0 <= k < old(self)@.jobs.len() ==> #[trigger] final(self)@.jobs[k] == if ids@.contains(k as u64)
                    && is_queued(old(self)@.jobs[k]) {
                    JobView { status: StatusView::Cancelled, ..old(self)@.jobs[k] }
                } else {
                    old(self)@.jobs[k]
                },
            final(self)@.next_id == old(self)@.next_id,
            final(self)@.next_batch_id == old(self)@.next_batch_id,
            final(self)@.labels == old(self)@.labels,
            r.destinations@ == cancelled_destinations(old(self)@.jobs, ids@),
            r.running@ == ids@.filter(|id: u64| names_running(old(self)@.jobs, id)),
    {
        let ghost orig = self@.jobs;
        let ghost p = |id: u64| names_running(orig, id);
        let mut destinations: Vec<(u64, Direction)> = Vec::new();
        let mut running: Vec<u64> = Vec::new();
        let mut i: usize = 0;
        while i < ids.len()
            invariant
                i <= ids.len(),
                self.jobs.len() == orig.len(),
                old(self)@.jobs == orig,
                old(self).wf(),
                p == (|id: u64| names_running(orig, id)),
                forall|k: int|
                    0 <= k < orig.len() ==> #[trigger] self@.jobs[k] == if ids@.take(i as int).contains(k as u64)
                        && is_queued(orig[k]) {
                        JobView { status: StatusView::Cancelled, ..orig[k] }
                    } else {
                        orig[k]
                    },
                forall|j: int|
                    0 <= j < i && ids@[j] < orig.len() && is_queued(orig[ids@[j] as int]) ==> destinations@.contains(
                        (orig[ids@[j] as int].session_id, orig[ids@[j] as int].direction),
                    ),
                destinations@ == cancelled_destinations(orig, ids@.take(i as int)),
                running@ == ids@.take(i as int).filter(p),
                self@.next_id == old(self)@.next_id,
                self@.next_batch_id == old(self)@.next_batch_id,
                self@.labels == old(self)@.labels,
            decreases ids.len() - i,
        {
            let id: u64 = ids[i];
            proof {
                lemma_filter_take_step(ids@, i as int, p);
                assert(ids@.take(i + 1).drop_last() == ids@.take(i as int));
                assert(ids@.take(i + 1).last() == id);
                assert forall|k: int| 0 <= k < orig.len() implies #[trigger] ids@.take(i + 1).contains(k as u64) == (
                ids@.take(i as int).contains(k as u64) || k as u64 == id) by {
                    if ids@.take(i + 1).contains(k as u64) {
                        let j = choose|j: int| 0 <= j < i + 1 && #[trigger] ids@.take(i + 1)[j] == k as u64;
                        if j < i {
                            assert(ids@.take(i as int)[j] == k as u64);
                        }
                    }
                    if ids@.take(i as int).contains(k as u64) {
                        let j = choose|j: int| 0 <= j < i && #[trigger] ids@.take(i as int)[j] == k as u64;
                        assert(ids@.take(i + 1)[j] == k as u64);
                    }
                    if k as u64 == id {
                        assert(ids@.take(i + 1)[i as int] == k as u64);
                    }
                }
            }
            if id < self.jobs.len() as u64 {
                let index: usize = id as usize;
                proof {
                    assert(self.jobs@[index as int]@ == self@.jobs[index as int]);
                    assert(orig[index as int].id == id);
                    if ids@.take(i as int).contains(id) && is_queued(orig[index as int]) {
                        let j = choose|j: int| 0 <= j < i && #[trigger] ids@.take(i as int)[j] == id;
                        assert(ids@[j] == id);
                        assert(destinations@.contains((orig[index as int].session_id, orig[index as int].direction)));
                    }
                }
                match self.jobs[index].status {
                    JobStatus::Queued => {
                        let d: (u64, Direction) = (self.jobs[index].session_id, self.jobs[index].direction);
                        let mut job: TransferJob = clone_job(&self.jobs[index]);
                        job.status = JobStatus::Cancelled;
                        let ghost prev = self.jobs@;
                        self.jobs.set(index, job);
                        proof {
                            lemma_views_update(prev, index as int, self.jobs@[index as int]);
                            assert(self.jobs@ == prev.update(index as int, self.jobs@[index as int]));
                        }
                        let ghost before = destinations@;
                        if !contains_destination(&destinations, d) {
                            destinations.push(d);
                            proof {
                                assert(destinations@[before.len() as int] == d);
                                assert forall|x: (u64, Direction)| before.contains(x) implies destinations@.contains(x) by {
                                    let w = choose|w: int| 0 <= w < before.len() && before[w] == x;
                                    assert(destinations@[w] == x);
                                }
                            }
                        }
                    },
                    JobStatus::InProgress => {
                        running.push(id);
                    },
                    _ => {},
                }
            }
            i = i + 1;
        }
        proof {
            assert(ids@.take(ids@.len() as int) == ids@);
            assert forall|k: int| 0 <= k < self@.jobs.len() implies #[trigger] self@.jobs[k].id == k by {
                assert(orig[k].id == k);
            }
        }
        CancelOutcome { destinations, running }
    }

    /// Files and bytes of batch `batch_id`: how many files, how many of
    /// them completed, and the bytes in all and transferred so far.
    pub fn batch_progress(&self, batch_id: u64) -> (p: BatchProgress)
        requires
            batch_total_bytes(self@.jobs, batch_id) <= u64::MAX,
            batch_transferred_bytes(self@.jobs, batch_id) <= u64::MAX,
        ensures
            p.total_files == count(self@.jobs, |j: JobView| in_batch(j, batch_id)),
            p.completed_files == count(self@.jobs, |j: JobView| in_batch(j, batch_id) && is_completed(j)),
            p.total_bytes == batch_total_bytes(self@.jobs, batch_id),
            p.transferred_bytes == batch_transferred_bytes(self@.jobs, batch_id),
    {
        let ghost jobs = self@.jobs;
        let ghost pf = |j: JobView| in_batch(j, batch_id);
        let ghost pc = |j: JobView| in_batch(j, batch_id) && is_completed(j);
        let mut progress = BatchProgress { total_files: 0, completed_files: 0, total_bytes: 0, transferred_bytes: 0 };
        let mut i: usize = 0;
        proof {
            lemma_batch_sums_monotone(jobs, batch_id, 0);
        }
        while i < self.jobs.len()
            invariant
                i <= self.jobs.len(),
                jobs == self@.jobs,
                pf == (|j: JobView| in_batch(j, batch_id)),
                pc == (|j: JobView| in_batch(j, batch_id) && is_completed(j)),
                progress.total_files == jobs.take(i as int).filter(pf).len(),
                progress.completed_files == jobs.take(i as int).filter(pc).len(),
                progress.total_files <= i,
                progress.completed_files <= i,
                progress.total_bytes == batch_total_bytes(jobs.take(i as int), batch_id),
                progress.transferred_bytes == batch_transferred_bytes(jobs.take(i as int), batch_id),
                batch_total_bytes(jobs, batch_id) <= u64::MAX,
                batch_transferred_bytes(jobs, batch_id) <= u64::MAX,
            decreases self.jobs.len() - i,
        {
            proof {
                lemma_filter_take_step(jobs, i as int, pf);
                lemma_filter_take_step(jobs, i as int, pc);
                lemma_batch_sums_monotone(jobs, batch_id, i + 1);
                assert(jobs.take(i + 1).drop_last() == jobs.take(i as int));
            }
            let job: &TransferJob = &self.jobs[i];
            if job.batch_id == Some(batch_id) {
                progress.total_files = progress.total_files + 1;
                progress.total_bytes = progress.total_bytes + job.total_bytes;
                progress.transferred_bytes = progress.transferred_bytes + job.transferred_bytes;
                match job.status {
                    JobStatus::Completed => {
                        progress.completed_files = progress.completed_files + 1;
                    },
                    _ => {},
                }
            }
            i = i + 1;
        }
        proof {
            assert(jobs.take(jobs.len() as int) == jobs);
        }
        progress
    }
}

/// The (session, direction) pairs of the queued jobs among `ids`, each
/// once, in the order in which they first occur.
pub open spec fn cancelled_destinations(jobs: Seq<JobView>, ids: Seq<u64>) -> Seq<(u64, Direction)>
    decreases ids.len(),
{
    if ids.len() == 0 {
        Seq::empty()
    } else {
        let prev = cancelled_destinations(jobs, ids.drop_last());
        let id = ids.last();
        if id < jobs.len() && is_queued(jobs[id as int]) && !prev.contains(
            (jobs[id as int].session_id, jobs[id as int].direction),
        ) {
            prev.push((jobs[id as int].session_id, jobs[id as int].direction))
        } else {
            prev
        }
    }
}

/// Whether `id` names a running job.
pub open spec fn names_running(jobs: Seq<JobView>, id: u64) -> bool {
    id < jobs.len() && is_active(jobs[id as int])
}

/// What cancelling a group of jobs leaves to do: list again the
/// destinations whose queued jobs were cancelled, and signal the running
/// jobs to stop.
pub struct CancelOutcome {
    pub destinations: Vec<(u64, Direction)>,
    pub running: Vec<u64>,
}

fn contains_destination(v: &Vec<(u64, Direction)>, d: (u64, Direction)) -> (r: bool)
    ensures
        r == v@.contains(d),
{
    let mut j: usize = 0;
    while j < v.len()
        invariant
            j <= v.len(),
            forall|k: int| 0 <= k < j ==> v@[k] != d,
        decreases v.len() - j,
    {
        if v[j].0 == d.0 && v[j].1 == d.1 {
            assert(v@[j as int] == d);
            return true;
        }
        j = j + 1;
    }
    false
}

proof fn lemma_batch_sums_monotone(jobs: Seq<JobView>, b: u64, i: int)
    requires
        0 <= i <= jobs.len(),
    ensures
        0 <= batch_total_bytes(jobs.take(i), b) <= batch_total_bytes(jobs, b),
        0 <= batch_transferred_bytes(jobs.take(i), b) <= batch_transferred_bytes(jobs, b),
    decreases jobs.len(),
{
    if jobs.len() > 0 {
        if i == jobs.len() {
            assert(jobs.take(i) == jobs);
            lemma_batch_sums_monotone(jobs.drop_last(), b, i - 1);
            assert(jobs.drop_last().take(i - 1) == jobs.drop_last());
        } else {
            lemma_batch_sums_monotone(jobs.drop_last(), b, i);
            assert(jobs.drop_last().take(i) == jobs.take(i));
        }
    } else {
        assert(jobs.take(i) == jobs);
    }
}

} // verus!
