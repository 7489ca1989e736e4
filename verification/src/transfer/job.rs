//! One queued file transfer and its status.
use vstd::prelude::*;

verus! {

#[derive(Debug, Clone, Copy, PartialEq, Eq, Structural)]
pub enum Direction {
    Upload,
    Download,
}

#[derive(Debug, Clone, PartialEq, Eq)]
pub enum JobStatus {
    Queued,
    InProgress,
    Completed,
    Failed(String),
    Cancelled,
}

pub enum StatusView {
    Queued,
    InProgress,
    Completed,
    Failed(Seq<char>),
    Cancelled,
}

impl View for JobStatus {
    type V = StatusView;

    open spec fn view(&self) -> StatusView {
        match self {
            JobStatus::Queued => StatusView::Queued,
            JobStatus::InProgress => StatusView::InProgress,
            JobStatus::Completed => StatusView::Completed,
            JobStatus::Failed(m) => StatusView::Failed(m@),
            JobStatus::Cancelled => StatusView::Cancelled,
        }
    }
}

/// Where a transfer writes: a local path, or a path on one session's server.
#[derive(Debug, Clone, PartialEq, Eq)]
pub enum Destination {
    Local(String),
    Remote { session_id: u64, path: String },
}

pub enum DestinationView {
    Local(Seq<char>),
    Remote(u64, Seq<char>),
}

impl View for Destination {
    type V = DestinationView;

    open spec fn view(&self) -> DestinationView {
        match self {
            Destination::Local(p) => DestinationView::Local(p@),
            Destination::Remote { session_id, path } => DestinationView::Remote(*session_id, path@),
        }
    }
}

/// One file to copy between a local path and a path on a session's server.
#[derive(Debug, Clone)]
pub struct TransferJob {
    pub id: u64,
    pub session_id: u64,
    pub direction: Direction,
    pub local_path: String,
    pub remote_path: String,
    pub display_name: String,
    pub total_bytes: u64,
    pub transferred_bytes: u64,
    pub status: JobStatus,
    pub attempts: u32,
    pub batch_id: Option<u64>,
}

pub struct JobView {
    pub id: u64,
    pub session_id: u64,
    pub direction: Direction,
    pub local_path: Seq<char>,
    pub remote_path: Seq<char>,
    pub display_name: Seq<char>,
    pub total_bytes: u64,
    pub transferred_bytes: u64,
    pub status: StatusView,
    pub attempts: u32,
    pub batch_id: Option<u64>,
}

impl View for TransferJob {
    type V = JobView;

    open spec fn view(&self) -> JobView {
        JobView {
            id: self.id,
            session_id: self.session_id,
            direction: self.direction,
            local_path: self.local_path@,
            remote_path: self.remote_path@,
            display_name: self.display_name@,
            total_bytes: self.total_bytes,
            transferred_bytes: self.transferred_bytes,
            status: self.status@,
            attempts: self.attempts,
            batch_id: self.batch_id,
        }
    }
}

/// The destination of a job: the local file for a download, the remote
/// file on the job's session for an upload.
pub open spec fn destination_of(j: JobView) -> DestinationView {
    match j.direction {
        Direction::Download => DestinationView::Local(j.local_path),
        Direction::Upload => DestinationView::Remote(j.session_id, j.remote_path),
    }
}

impl TransferJob {
    pub fn destination(&self) -> (d: Destination)
        ensures
            d@ == destination_of(self@),
    {
        match self.direction {
            Direction::Download => Destination::Local(self.local_path.clone()),
            Direction::Upload => Destination::Remote { session_id: self.session_id, path: self.remote_path.clone() },
        }
    }
}

impl Destination {
    pub fn same_as(&self, other: &Destination) -> (r: bool)
        ensures
            r == (self@ == other@),
    {
        match (self, other) {
            (Destination::Local(a), Destination::Local(b)) => crate::text::str_eq(a.as_str(), b.as_str()),
            (
                Destination::Remote { session_id: s1, path: p1 },
                Destination::Remote { session_id: s2, path: p2 },
            ) => *s1 == *s2 && crate::text::str_eq(p1.as_str(), p2.as_str()),
            _ => false,
        }
    }
}

} // verus!
