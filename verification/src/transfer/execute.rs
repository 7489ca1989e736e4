//! The decisions of one file copy: where an interrupted copy resumes, the
//! name of the part file it writes, and when progress is reported.
use vstd::prelude::*;

use crate::text::push_char;

verus! {

/// How many writes the SFTP client keeps in flight.
pub const SFTP_MAX_CONCURRENT_WRITES: usize = 16;

/// The largest write packet the SFTP client sends.
pub const SFTP_MAX_WRITE_PACKET_LEN: u32 = 32768;

/// A resumed copy starts this far before the end of its part file, since
/// the writes in flight when it stopped may not all have landed.
pub const RESUME_BACKOFF_BYTES: u64 = 524288;

/// A part file may look this many seconds older than its source and still
/// be resumed.
pub const CLOCK_SKEW_TOLERANCE_SECS: u64 = 120;

/// Progress is reported each time this many more bytes were copied.
pub const PROGRESS_STEP_BYTES: u64 = 65536;

#[derive(Debug, Clone, Copy, PartialEq, Eq, Structural)]
pub enum TransferOutcome {
    Completed,
    Cancelled,
}

/// Where a copy resumes: at zero unless both modification times are
/// known, the part file is no longer than the source, and the source was
/// not changed after the part file (allowing for clock skew); otherwise
/// a little before the part file's end.
pub open spec fn resume_at(part_len: u64, source_len: u64, part_modified: Option<u64>, source_modified: Option<u64>) -> u64 {
    match (part_modified, source_modified) {
        (Some(pm), Some(sm)) => if part_len > source_len || sm > pm + CLOCK_SKEW_TOLERANCE_SECS {
            0
        } else if part_len >= RESUME_BACKOFF_BYTES {
            (part_len - RESUME_BACKOFF_BYTES) as u64
        } else {
            0
        },
        _ => 0,
    }
}

pub fn resume_offset(part_len: u64, source_len: u64, part_modified: Option<u64>, source_modified: Option<u64>) -> (r: u64)
    requires
        part_modified is Some && source_modified is Some ==> part_modified->0 + CLOCK_SKEW_TOLERANCE_SECS <= u64::MAX,
    ensures
        r == resume_at(part_len, source_len, part_modified, source_modified),
        r <= part_len,
{
    proof {
        assert(RESUME_BACKOFF_BYTES == SFTP_MAX_CONCURRENT_WRITES * SFTP_MAX_WRITE_PACKET_LEN);
    }
    let (part_modified, source_modified) = match (part_modified, source_modified) {
        (Some(p), Some(s)) => (p, s),
        _ => {
            return 0;
        },
    };
    if part_len > source_len || source_modified > part_modified + CLOCK_SKEW_TOLERANCE_SECS {
        return 0;
    }
    part_len.saturating_sub(RESUME_BACKOFF_BYTES)
}

/// The part file a copy to `path` writes before it is renamed into place.
pub fn part_path(path: &str) -> (r: String)
    ensures
        r@ == path@ + seq!['.', 'p', 'a', 'r', 't'],
{
    let mut r: String = path.to_owned();
    push_char(&mut r, '.');
    push_char(&mut r, 'p');
    push_char(&mut r, 'a');
    push_char(&mut r, 'r');
    push_char(&mut r, 't');
    r
}

/// Bytes copied so far, and since progress was last reported.
pub struct ProgressMeter {
    pub transferred: u64,
    pub since_last_report: u64,
}

impl ProgressMeter {
    /// A copy that starts at `start` bytes; that much is reported first.
    pub fn starting_at(start: u64) -> (m: ProgressMeter)
        ensures
            m.transferred == start,
            m.since_last_report == 0,
    {
        ProgressMeter { transferred: start, since_last_report: 0 }
    }

    /// Counts `bytes` more copied; returns the total to report once at
    /// least `PROGRESS_STEP_BYTES` were copied since the last report.
    pub fn advance(&mut self, bytes: u64) -> (report: Option<u64>)
        requires
            old(self).transferred + bytes <= u64::MAX,
            old(self).since_last_report + bytes <= u64::MAX,
        ensures
            final(self).transferred == old(self).transferred + bytes,
            old(self).since_last_report + bytes >= PROGRESS_STEP_BYTES ==> report == Some(final(self).transferred)
                && final(self).since_last_report == 0,
            old(self).since_last_report + bytes < PROGRESS_STEP_BYTES ==> report is None
                && final(self).since_last_report == old(self).since_last_report + bytes,
    {
        self.transferred = self.transferred + bytes;
        self.since_last_report = self.since_last_report + bytes;
        if self.since_last_report >= PROGRESS_STEP_BYTES {
            self.since_last_report = 0;
            Some(self.transferred)
        } else {
            None
        }
    }
}

} // verus!
