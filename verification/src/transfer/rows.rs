//! The rows of the transfer list: one per job that belongs to no batch,
//! one per batch (at the place of its first job), then one per directory
//! scan still running.
use vstd::prelude::*;

use vstd::arithmetic::div_mod::lemma_fundamental_div_mod;
use vstd::arithmetic::power2::{lemma2_to64, lemma2_to64_rest, lemma_pow2_adds, lemma_pow2_pos, lemma_pow2_strictly_increases, lemma_pow2_unfold, pow2};

use crate::rounding::{
    as_f64, div_round_even, in_binade, lemma_as_f64_at_least, lemma_binade_at_or_above, lemma_binade_below,
    lemma_binade_unique, lemma_scaled_round, lemma_unscale, nearest_f64, quotient_exponent, quotient_mantissa,
};
use crate::seq_facts::{lemma_filter_keeps_all_iff, lemma_filter_keeps_none_iff, lemma_filter_take_step};

use super::job::{Direction, JobStatus, JobView, StatusView, TransferJob};
use super::queue::{count, is_active, is_completed, is_queued, last_label, TransferQueue};

verus! {

#[derive(Debug, Clone, Copy, PartialEq, Eq, Structural)]
pub enum RowKind {
    Single(u64),
    Batch(u64),
    Scan(u64),
}

#[derive(Debug, Clone, Copy, PartialEq, Eq, Structural)]
pub enum RowState {
    Scanning,
    Running,
    Queued,
    Done,
    PartlyFailed(usize),
    Failed,
    Cancelled,
}

#[derive(Debug, Clone)]
pub struct QueueRow {
    pub kind: RowKind,
    pub label: String,
    pub direction: Direction,
    pub files_done: usize,
    pub files_total: usize,
    pub bytes_done: u64,
    pub bytes_total: u64,
    pub state: RowState,
    pub job_ids: Vec<u64>,
}

pub struct QueueRowView {
    pub kind: RowKind,
    pub label: Seq<char>,
    pub direction: Direction,
    pub files_done: usize,
    pub files_total: usize,
    pub bytes_done: u64,
    pub bytes_total: u64,
    pub state: RowState,
    pub job_ids: Seq<u64>,
}

impl View for QueueRow {
    type V = QueueRowView;

    open spec fn view(&self) -> QueueRowView {
        QueueRowView {
            kind: self.kind,
            label: self.label@,
            direction: self.direction,
            files_done: self.files_done,
            files_total: self.files_total,
            bytes_done: self.bytes_done,
            bytes_total: self.bytes_total,
            state: self.state,
            job_ids: self.job_ids@,
        }
    }
}

/// A directory scan still running for a batch.
pub struct ScanInfo<'a> {
    pub batch_id: u64,
    pub label: &'a str,
    pub direction: Direction,
}

pub open spec fn is_failed(j: JobView) -> bool {
    j.status is Failed
}

pub open spec fn finished(state: RowState) -> bool {
    match state {
        RowState::Done | RowState::PartlyFailed(_) | RowState::Failed | RowState::Cancelled => true,
        _ => false,
    }
}

/// Bytes to transfer, summed over `g`.
pub open spec fn sum_total(g: Seq<JobView>) -> int
    decreases g.len(),
{
    if g.len() == 0 {
        0
    } else {
        sum_total(g.drop_last()) + g.last().total_bytes
    }
}

/// Bytes transferred, summed over `g`.
pub open spec fn sum_transferred(g: Seq<JobView>) -> int
    decreases g.len(),
{
    if g.len() == 0 {
        0
    } else {
        sum_transferred(g.drop_last()) + g.last().transferred_bytes
    }
}

/// The state shown for a group of jobs: running while any runs, queued
/// while any waits, then done, cancelled, partly failed or failed.
pub open spec fn group_state(g: Seq<JobView>) -> RowState {
    let completed = count(g, |j: JobView| is_completed(j));
    let failed = count(g, |j: JobView| is_failed(j));
    if exists|i: int| 0 <= i < g.len() && is_active(#[trigger] g[i]) {
        RowState::Running
    } else if exists|i: int| 0 <= i < g.len() && is_queued(#[trigger] g[i]) {
        RowState::Queued
    } else if completed == g.len() {
        RowState::Done
    } else if failed == 0 {
        RowState::Cancelled
    } else if completed > 0 {
        RowState::PartlyFailed(failed as usize)
    } else {
        RowState::Failed
    }
}

/// The row for a nonempty group of jobs: named by its batch's label, or by
/// the first job's display name.
pub open spec fn group_row(labels: Seq<(u64, Seq<char>)>, g: Seq<JobView>) -> QueueRowView {
    let first = g[0];
    QueueRowView {
        kind: match first.batch_id {
            Some(b) => RowKind::Batch(b),
            None => RowKind::Single(first.id),
        },
        label: match first.batch_id {
            Some(b) => match last_label(labels, b) {
                Some(l) => l,
                None => first.display_name,
            },
            None => first.display_name,
        },
        direction: first.direction,
        files_done: count(g, |j: JobView| is_completed(j)) as usize,
        files_total: g.len() as usize,
        bytes_done: sum_transferred(g) as u64,
        bytes_total: sum_total(g) as u64,
        state: group_state(g),
        job_ids: g.map_values(|j: JobView| j.id),
    }
}

/// The jobs of batch `b`, in queue order.
pub open spec fn batch_jobs(jobs: Seq<JobView>, b: u64) -> Seq<JobView> {
    jobs.filter(|j: JobView| j.batch_id == Some(b))
}

/// Whether job `i` starts a row: it has no batch, or no earlier job has
/// its batch.
pub open spec fn starts_row(jobs: Seq<JobView>, i: int) -> bool {
    match jobs[i].batch_id {
        None => true,
        Some(b) => forall|k: int| 0 <= k < i ==> #[trigger] jobs[k].batch_id != Some(b),
    }
}

/// The jobs of the row that job `i` starts.
pub open spec fn group_at(jobs: Seq<JobView>, i: int) -> Seq<JobView> {
    match jobs[i].batch_id {
        None => seq![jobs[i]],
        Some(b) => batch_jobs(jobs, b),
    }
}

/// The job rows for the first `n` jobs' row starts, in order.
pub open spec fn job_rows(jobs: Seq<JobView>, labels: Seq<(u64, Seq<char>)>, n: int) -> Seq<QueueRowView>
    decreases n,
{
    if n <= 0 {
        Seq::empty()
    } else if starts_row(jobs, n - 1) {
        job_rows(jobs, labels, n - 1).push(group_row(labels, group_at(jobs, n - 1)))
    } else {
        job_rows(jobs, labels, n - 1)
    }
}

pub open spec fn scan_row_view(batch_id: u64, label: Seq<char>, direction: Direction) -> QueueRowView {
    QueueRowView {
        kind: RowKind::Scan(batch_id),
        label,
        direction,
        files_done: 0,
        files_total: 0,
        bytes_done: 0,
        bytes_total: 0,
        state: RowState::Scanning,
        job_ids: Seq::empty(),
    }
}

/// What `((done as f64 / total as f64) * 100.0) as u8` gives: 100 for a
/// total of zero and 0 for nothing done; otherwise both sizes rounded to
/// `f64`s, their quotient rounded to an `f64` (a mantissa and an exponent),
/// that times 100 rounded to an `f64`, cut to a whole number and capped at
/// 255.
pub open spec fn percent(done: u64, total: u64) -> u8 {
    if total == 0 {
        100
    } else if done == 0 {
        0
    } else {
        let n = as_f64(done as nat);
        let d = as_f64(total as nat);
        let e = quotient_exponent(n, d);
        let product = as_f64(100 * quotient_mantissa(n, d));
        let whole = product * pow2((e + 128) as nat) / pow2(128);
        if whole > 255 {
            255
        } else {
            whole as u8
        }
    }
}

/// How much of `total` is `done`, in whole percent: the quotient taken in
/// `f64`, times 100, truncated. A total of zero counts as complete.
pub fn percent_of(done: u64, total: u64) -> (r: u8)
    ensures
        r == percent(done, total),
{
    if total == 0 {
        return 100;
    }
    if done == 0 {
        return 0;
    }
    let n: u128 = nearest_f64(done);
    let d: u128 = nearest_f64(total);
    proof {
        lemma2_to64();
        lemma2_to64_rest();
        lemma_as_f64_at_least(total as nat, 1);
        lemma_as_f64_at_least(done as nat, 1);
    }
    if n / d >= 0x10_0000_0000_0000 {
        proof {
            lemma_fundamental_div_mod(n as int, d as int);
            assert(pow2(52) * (d as nat * pow2(0)) <= n) by (nonlinear_arith)
                requires
                    n == d * (n / d) + n % d,
                    n % d >= 0,
                    n / d >= 0x10_0000_0000_0000,
                    pow2(52) == 0x10_0000_0000_0000,
                    pow2(0) == 1,
            ;
            lemma_binade_at_or_above(n as nat, d as nat, 0);
            let e2 = choose|e2: int| e2 >= 0 && in_binade(n as nat, d as nat, e2);
            let e = quotient_exponent(n as nat, d as nat);
            lemma_binade_unique(n as nat, d as nat, e, e2);
            let y = d as nat * pow2((e + 128) as nat);
            let x = n as nat * pow2(128);
            lemma_pow2_pos((e + 128) as nat);
            lemma_fundamental_div_mod(x as int, y as int);
            let m = quotient_mantissa(n as nat, d as nat);
            assert(m >= x / y);
            assert(x / y >= pow2(52)) by (nonlinear_arith)
                requires
                    pow2(52) * y <= x,
                    x == y * (x / y) + x % y,
                    x % y < y,
                    y >= 1,
            ;
            lemma_as_f64_at_least(100 * m, 256);
            let product = as_f64(100 * m);
            if e > 0 {
                lemma_pow2_strictly_increases(128, (e + 128) as nat);
            }
            lemma_pow2_pos(128);
            assert(product * pow2(128) <= product * pow2((e + 128) as nat)) by (nonlinear_arith)
                requires
                    pow2(128) <= pow2((e + 128) as nat),
            ;
            vstd::arithmetic::div_mod::lemma_div_is_ordered(
                (product * pow2(128)) as int,
                (product * pow2((e + 128) as nat)) as int,
                pow2(128) as int,
            );
            vstd::arithmetic::div_mod::lemma_div_by_multiple(product as int, pow2(128) as int);
        }
        return 255;
    }
    let mut q: u128 = n / d;
    let mut r: u128 = n % d;
    let mut pw: u128 = 1;
    let ghost mut s: nat = 0;
    proof {
        lemma_fundamental_div_mod(n as int, d as int);
    }
    while q < 0x10_0000_0000_0000
        invariant
            1 <= d <= 0x1_0000_0000_0000_1000,
            1 <= n <= 0x1_0000_0000_0000_1000,
            pw == pow2(s),
            pw >= 1,
            s <= 117,
            n * pw == q * d + r,
            r < d,
            q < 0x20_0000_0000_0000,
            pow2(52) == 0x10_0000_0000_0000,
            pow2(53) == 0x20_0000_0000_0000,
            pow2(64) == 0x1_0000_0000_0000_0000,
        decreases 117 - s,
    {
        proof {
            lemma_pow2_adds(64, 53);
            assert(n * pw < pow2(117)) by (nonlinear_arith)
                requires
                    n * pw == q * d + r,
                    r < d,
                    q < 0x10_0000_0000_0000,
                    d <= 0x1_0000_0000_0000_1000,
                    pow2(117) == pow2(64) * pow2(53),
                    pow2(64) == 0x1_0000_0000_0000_0000,
                    pow2(53) == 0x20_0000_0000_0000,
            ;
            assert(pw < pow2(117)) by (nonlinear_arith)
                requires
                    n * pw < pow2(117),
                    n >= 1,
                    pw >= 0,
            ;
            if s >= 117 {
                if s > 117 {
                    lemma_pow2_strictly_increases(117, s);
                }
            }
            assert(s < 117);
            lemma_pow2_unfold(s + 1);
        }
        let bit: bool = 2 * r >= d;
        proof {
            assert(n * (2 * pw) == (2 * q + if bit { 1int } else { 0int }) * d + (if bit { 2 * r - d } else { 2 * r }))
                by (nonlinear_arith)
                requires
                    n * pw == q * d + r,
                    bit == (2 * r >= d),
            ;
        }
        q = if bit {
            2 * q + 1
        } else {
            2 * q
        };
        r = if bit {
            2 * r - d
        } else {
            2 * r
        };
        pw = 2 * pw;
        proof {
            s = s + 1;
        }
    }
    let m: u128 = if 2 * r > d || (2 * r == d && q % 2 == 1) {
        q + 1
    } else {
        q
    };
    let f: u128 = nearest_f64((100 * m) as u64);
    let whole: u128 = f / pw;
    proof {
        lemma_binade_below(n as nat, d as nat, s, q as nat, r as nat);
        let e = quotient_exponent(n as nat, d as nat);
        lemma_binade_unique(n as nat, d as nat, e, -(s as int));
        let c = pow2((128 - s) as nat);
        lemma_pow2_adds(s, (128 - s) as nat);
        lemma_pow2_pos((128 - s) as nat);
        assert(n * pow2(128) == (q * d + r) * c) by (nonlinear_arith)
            requires
                pow2(128) == pow2(s) * c,
                n * pow2(s) == q * d + r,
        ;
        assert(pow2(((-(s as int)) + 128) as nat) == c);
        lemma_scaled_round(q as nat, r as nat, d as nat, c);
        assert(quotient_mantissa(n as nat, d as nat) == m);
        lemma_unscale(f as nat, s);
    }
    if whole > 255 {
        255
    } else {
        whole as u8
    }
}

pub open spec fn row_views(rows: Seq<QueueRow>) -> Seq<QueueRowView> {
    rows.map_values(|r: QueueRow| r@)
}

/// The sums of every batch fit in a `u64`.
pub open spec fn batch_sums_fit(jobs: Seq<JobView>) -> bool {
    forall|b: u64|
        sum_total(#[trigger] batch_jobs(jobs, b)) <= u64::MAX && sum_transferred(batch_jobs(jobs, b)) <= u64::MAX
}

impl QueueRow {
    pub fn is_finished(&self) -> (r: bool)
        ensures
            r == finished(self.state),
    {
        Self::finished_state(&self.state)
    }

    pub fn finished_state(state: &RowState) -> (r: bool)
        ensures
            r == finished(*state),
    {
        match state {
            RowState::Done | RowState::PartlyFailed(_) | RowState::Failed | RowState::Cancelled => true,
            _ => false,
        }
    }
}

proof fn lemma_sums_prefix(g: Seq<JobView>, i: int)
    requires
        0 <= i <= g.len(),
    ensures
        0 <= sum_total(g.take(i)) <= sum_total(g),
        0 <= sum_transferred(g.take(i)) <= sum_transferred(g),
    decreases g.len(),
{
    if g.len() > 0 {
        if i == g.len() {
            assert(g.take(i) == g);
            lemma_sums_prefix(g.drop_last(), i - 1);
            assert(g.drop_last().take(i - 1) == g.drop_last());
        } else {
            lemma_sums_prefix(g.drop_last(), i);
            assert(g.drop_last().take(i) == g.take(i));
        }
    } else {
        assert(g.take(i) == g);
    }
}

pub open spec fn ref_views(v: Seq<&TransferJob>) -> Seq<JobView> {
    v.map_values(|j: &TransferJob| j@)
}

fn row_state(jobs: &Vec<&TransferJob>) -> (r: RowState)
    ensures
        r == group_state(ref_views(jobs@)),
{
    let ghost g = ref_views(jobs@);
    let ghost pc = |j: JobView| is_completed(j);
    let ghost pf = |j: JobView| is_failed(j);
    let mut completed: usize = 0;
    let mut failed: usize = 0;
    let mut any_running: bool = false;
    let mut any_queued: bool = false;
    let mut i: usize = 0;
    while i < jobs.len()
        invariant
            i <= jobs.len(),
            g == ref_views(jobs@),
            pc == (|j: JobView| is_completed(j)),
            pf == (|j: JobView| is_failed(j)),
            completed == g.take(i as int).filter(pc).len(),
            failed == g.take(i as int).filter(pf).len(),
            completed <= i,
            failed <= i,
            any_running == exists|k: int| 0 <= k < i && is_active(#[trigger] g[k]),
            any_queued == exists|k: int| 0 <= k < i && is_queued(#[trigger] g[k]),
        decreases jobs.len() - i,
    {
        proof {
            lemma_filter_take_step(g, i as int, pc);
            lemma_filter_take_step(g, i as int, pf);
            assert(g[i as int] == jobs@[i as int]@);
        }
        match jobs[i].status {
            JobStatus::Completed => {
                completed = completed + 1;
            },
            JobStatus::Failed(_) => {
                failed = failed + 1;
            },
            JobStatus::InProgress => {
                any_running = true;
            },
            JobStatus::Queued => {
                any_queued = true;
            },
            JobStatus::Cancelled => {},
        }
        proof {
            if is_active(g[i as int]) {
                assert(0 <= i < i + 1 && is_active(g[i as int]));
            }
            if is_queued(g[i as int]) {
                assert(0 <= i < i + 1 && is_queued(g[i as int]));
            }
        }
        i = i + 1;
    }
    proof {
        assert(g.take(g.len() as int) == g);
    }
    if any_running {
        RowState::Running
    } else if any_queued {
        RowState::Queued
    } else if completed == jobs.len() {
        RowState::Done
    } else if failed == 0 {
        RowState::Cancelled
    } else if completed > 0 {
        RowState::PartlyFailed(failed)
    } else {
        RowState::Failed
    }
}

fn row_for_jobs(queue: &TransferQueue, jobs: &Vec<&TransferJob>) -> (r: QueueRow)
    requires
        jobs.len() > 0,
        sum_total(ref_views(jobs@)) <= u64::MAX,
        sum_transferred(ref_views(jobs@)) <= u64::MAX,
    ensures
        r@ == group_row(queue@.labels, ref_views(jobs@)),
{
    let ghost g = ref_views(jobs@);
    let first: &TransferJob = jobs[0];
    let (kind, label) = match first.batch_id {
        Some(batch_id) => {
            let label: String = match queue.batch_label(batch_id) {
                Some(l) => l.clone(),
                None => first.display_name.clone(),
            };
            (RowKind::Batch(batch_id), label)
        },
        None => (RowKind::Single(first.id), first.display_name.clone()),
    };
    let ghost pc = |j: JobView| is_completed(j);
    let ghost f = |j: JobView| j.id;
    let mut files_done: usize = 0;
    let mut bytes_done: u64 = 0;
    let mut bytes_total: u64 = 0;
    let mut job_ids: Vec<u64> = Vec::new();
    let mut i: usize = 0;
    while i < jobs.len()
        invariant
            i <= jobs.len(),
            g == ref_views(jobs@),
            pc == (|j: JobView| is_completed(j)),
            f == (|j: JobView| j.id),
            sum_total(g) <= u64::MAX,
            sum_transferred(g) <= u64::MAX,
            files_done == g.take(i as int).filter(pc).len(),
            files_done <= i,
            bytes_done == sum_transferred(g.take(i as int)),
            bytes_total == sum_total(g.take(i as int)),
            job_ids@ == g.take(i as int).map_values(f),
        decreases jobs.len() - i,
    {
        proof {
            lemma_filter_take_step(g, i as int, pc);
            lemma_sums_prefix(g, i + 1);
            assert(g.take(i + 1).drop_last() == g.take(i as int));
            assert(g[i as int] == jobs@[i as int]@);
        }
        let job: &TransferJob = jobs[i];
        match job.status {
            JobStatus::Completed => {
                files_done = files_done + 1;
            },
            _ => {},
        }
        bytes_done = bytes_done + job.transferred_bytes;
        bytes_total = bytes_total + job.total_bytes;
        job_ids.push(job.id);
        proof {
            assert(g.take(i + 1).map_values(f) == g.take(i as int).map_values(f).push(f(g[i as int])));
        }
        i = i + 1;
    }
    proof {
        assert(g.take(g.len() as int) == g);
        assert(g[0] == first@);
    }
    QueueRow {
        kind,
        label,
        direction: first.direction,
        files_done,
        files_total: jobs.len(),
        bytes_done,
        bytes_total,
        state: row_state(jobs),
        job_ids,
    }
}

fn scan_row(scan: &ScanInfo) -> (r: QueueRow)
    ensures
        r@ == scan_row_view(scan.batch_id, scan.label@, scan.direction),
{
    QueueRow {
        kind: RowKind::Scan(scan.batch_id),
        label: scan.label.to_owned(),
        direction: scan.direction,
        files_done: 0,
        files_total: 0,
        bytes_done: 0,
        bytes_total: 0,
        state: RowState::Scanning,
        job_ids: Vec::new(),
    }
}

/// Whether job `i` starts a row.
fn starts_row_exec(jobs: &Vec<TransferJob>, i: usize) -> (r: bool)
    requires
        i < jobs.len(),
    ensures
        r == starts_row(super::queue::job_views(jobs@), i as int),
{
    let ghost js = super::queue::job_views(jobs@);
    assert(js[i as int] == jobs@[i as int]@);
    match jobs[i].batch_id {
        None => true,
        Some(b) => {
            let mut k: usize = 0;
            while k < i
                invariant
                    k <= i < jobs.len(),
                    js == super::queue::job_views(jobs@),
                    js[i as int].batch_id == Some(b),
                    forall|m: int| 0 <= m < k ==> #[trigger] js[m].batch_id != Some(b),
                decreases i - k,
            {
                assert(js[k as int] == jobs@[k as int]@);
                if jobs[k].batch_id == Some(b) {
                    assert(js[k as int].batch_id == Some(b));
                    return false;
                }
                k = k + 1;
            }
            true
        },
    }
}

/// The jobs of the row that job `i` starts.
fn group_for<'a>(jobs: &'a Vec<TransferJob>, i: usize) -> (g: Vec<&'a TransferJob>)
    requires
        i < jobs.len(),
    ensures
        ref_views(g@) == group_at(super::queue::job_views(jobs@), i as int),
        g.len() > 0,
{
    let ghost js = super::queue::job_views(jobs@);
    let mut g: Vec<&TransferJob> = Vec::new();
    match jobs[i].batch_id {
        None => {
            g.push(&jobs[i]);
            proof {
                assert(ref_views(g@) =~= seq![js[i as int]]);
            }
        },
        Some(b) => {
            let ghost p = |j: JobView| j.batch_id == Some(b);
            let mut k: usize = 0;
            while k < jobs.len()
                invariant
                    k <= jobs.len(),
                    i < jobs.len(),
                    js == super::queue::job_views(jobs@),
                    js[i as int].batch_id == Some(b),
                    p == (|j: JobView| j.batch_id == Some(b)),
                    ref_views(g@) == js.take(k as int).filter(p),
                    k > i ==> g.len() > 0,
                decreases jobs.len() - k,
            {
                proof {
                    lemma_filter_take_step(js, k as int, p);
                    assert(js[k as int] == jobs@[k as int]@);
                }
                if jobs[k].batch_id == Some(b) {
                    let ghost prev = g@;
                    g.push(&jobs[k]);
                    proof {
                        assert(ref_views(g@) =~= ref_views(prev).push(js[k as int]));
                    }
                }
                k = k + 1;
            }
            proof {
                assert(js.take(js.len() as int) == js);
            }
        },
    }
    g
}

/// The transfer list: a row per job without a batch and per batch, in the
/// order of each one's first job, then a row per running scan.
pub fn queue_rows(queue: &TransferQueue, scans: &[ScanInfo]) -> (rows: Vec<QueueRow>)
    requires
        batch_sums_fit(queue@.jobs),
    ensures
        row_views(rows@) == job_rows(queue@.jobs, queue@.labels, queue@.jobs.len() as int) + scans@.map_values(
            |s: ScanInfo| scan_row_view(s.batch_id, s.label@, s.direction),
        ),
{
    let jobs: &Vec<TransferJob> = queue.jobs();
    let ghost js = queue@.jobs;
    let mut rows: Vec<QueueRow> = Vec::new();
    let mut i: usize = 0;
    while i < jobs.len()
        invariant
            i <= jobs.len(),
            js == queue@.jobs,
            super::queue::job_views(jobs@) == js,
            batch_sums_fit(js),
            row_views(rows@) == job_rows(js, queue@.labels, i as int),
        decreases jobs.len() - i,
    {
        if starts_row_exec(jobs, i) {
            let g: Vec<&TransferJob> = group_for(jobs, i);
            proof {
                match js[i as int].batch_id {
                    Some(b) => {
                        assert(sum_total(batch_jobs(js, b)) <= u64::MAX);
                        assert(sum_transferred(batch_jobs(js, b)) <= u64::MAX);
                    },
                    None => {
                        let one = seq![js[i as int]];
                        assert(one.drop_last() =~= Seq::<JobView>::empty());
                        assert(sum_total(Seq::<JobView>::empty()) == 0);
                        assert(sum_transferred(Seq::<JobView>::empty()) == 0);
                        assert(sum_total(one) == js[i as int].total_bytes);
                        assert(sum_transferred(one) == js[i as int].transferred_bytes);
                    },
                }
            }
            let row: QueueRow = row_for_jobs(queue, &g);
            let ghost prev = rows@;
            rows.push(row);
            proof {
                assert(row_views(rows@) =~= row_views(prev).push(row@));
            }
        }
        i = i + 1;
    }
    let ghost job_part = row_views(rows@);
    let ghost sf = |s: ScanInfo| scan_row_view(s.batch_id, s.label@, s.direction);
    let mut k: usize = 0;
    while k < scans.len()
        invariant
            k <= scans.len(),
            sf == (|s: ScanInfo| scan_row_view(s.batch_id, s.label@, s.direction)),
            row_views(rows@) == job_part + scans@.take(k as int).map_values(sf),
        decreases scans.len() - k,
    {
        let row: QueueRow = scan_row(&scans[k]);
        let ghost prev = rows@;
        rows.push(row);
        proof {
            assert(scans@.take(k + 1).map_values(sf) =~= scans@.take(k as int).map_values(sf).push(sf(scans@[k as int])));
            assert(row_views(rows@) =~= row_views(prev).push(row@));
        }
        k = k + 1;
    }
    proof {
        assert(scans@.take(scans@.len() as int) == scans@);
    }
    rows
}

/// What a finished group's state says of its jobs: it is done exactly when
/// every job completed; a group whose jobs were all cancelled reads
/// cancelled; a cancelled group has no failed job and some job that did
/// not complete; a failed group has no completed job.
pub proof fn lemma_group_state_meaning(g: Seq<JobView>)
    ensures
        group_state(g) == RowState::Done ==> forall|i: int| 0 <= i < g.len() ==> (#[trigger] g[i]).status is Completed,
        (forall|i: int| 0 <= i < g.len() ==> (#[trigger] g[i]).status is Completed) ==> group_state(g) == RowState::Done,
        g.len() > 0 && (forall|i: int| 0 <= i < g.len() ==> (#[trigger] g[i]).status is Cancelled) ==> group_state(g)
            == RowState::Cancelled,
        group_state(g) == RowState::Cancelled ==> (forall|i: int| 0 <= i < g.len() ==> !((#[trigger] g[i]).status is Failed))
            && exists|i: int| 0 <= i < g.len() && (#[trigger] g[i]).status is Cancelled,
        group_state(g) == RowState::Failed ==> forall|i: int| 0 <= i < g.len() ==> !((#[trigger] g[i]).status is Completed),
        (exists|i: int| 0 <= i < g.len() && (#[trigger] g[i]).status is InProgress) == (group_state(g) == RowState::Running),
        group_state(g) == RowState::Queued ==> exists|i: int| 0 <= i < g.len() && (#[trigger] g[i]).status is Queued,
        group_state(g) is PartlyFailed ==> (exists|i: int| 0 <= i < g.len() && (#[trigger] g[i]).status is Completed)
            && exists|i: int| 0 <= i < g.len() && (#[trigger] g[i]).status is Failed,
{
    let pc = |j: JobView| is_completed(j);
    let pf = |j: JobView| is_failed(j);
    lemma_filter_keeps_all_iff(g, pc);
    lemma_filter_keeps_none_iff(g, pf);
    lemma_filter_keeps_none_iff(g, pc);
    if group_state(g) is PartlyFailed {
        assert(count(g, pc) > 0);
        assert(count(g, pf) != 0);
        assert(!(forall|i: int| 0 <= i < g.len() ==> !pc(#[trigger] g[i])));
        assert(!(forall|i: int| 0 <= i < g.len() ==> !pf(#[trigger] g[i])));
        let k = choose|k: int| 0 <= k < g.len() && pc(#[trigger] g[k]);
        let m = choose|m: int| 0 <= m < g.len() && pf(#[trigger] g[m]);
        assert(g[k].status is Completed && g[m].status is Failed);
    }
    if g.len() > 0 && (forall|i: int| 0 <= i < g.len() ==> (#[trigger] g[i]).status is Cancelled) {
        assert(!pc(g[0]));
        assert(!(exists|i: int| 0 <= i < g.len() && is_active(#[trigger] g[i])));
        assert(!(exists|i: int| 0 <= i < g.len() && is_queued(#[trigger] g[i])));
    }
    if group_state(g) == RowState::Cancelled {
        assert(count(g, pc) != g.len());
        let k = choose|k: int| 0 <= k < g.len() && !pc(#[trigger] g[k]);
        assert(!is_active(g[k]) && !is_queued(g[k]) && !is_failed(g[k]));
        assert(g[k].status is Cancelled);
    }
}

} // verus!
