//! File transfers: jobs, the queue, the rows the transfer list shows,
//! directory-copy plans, conflict resolution, and resume offsets.
pub mod conflicts;
pub mod execute;
pub mod job;
pub mod notices;
pub mod plan;
pub mod queue;
pub mod rows;

pub use job::{Direction, JobStatus, TransferJob};
pub use queue::TransferQueue;
