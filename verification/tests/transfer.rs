use termconnect::filesystem::Entry;
use termconnect::transfer::conflicts::{
    conflict_choice, conflict_choice_labels, conflict_indices, fits_the_rest, resolve, unique_name, ConflictPolicy,
    ConflictReview, Resolution,
};
use termconnect::transfer::execute::{part_path, resume_offset, ProgressMeter, TransferOutcome};
use termconnect::transfer::job::{Direction, JobStatus};
use termconnect::transfer::notices::{
    cancelled_by_disconnect_notice, copy_display_name, disconnected_notice, skipped_symlinks_notice,
};
use termconnect::transfer::plan::{
    planned_file_for_loose_entry, planned_files_for_tree, DirectoryPlan, DiscoveredTree, EntryKind, ExistingFile,
    PlannedFile,
};
use termconnect::transfer::queue::TransferQueue;
use termconnect::transfer::rows::{percent_of, queue_rows, RowKind, RowState, ScanInfo};

fn upload(queue: &mut TransferQueue, session: u64, remote: &str, bytes: u64, batch: Option<u64>) -> u64 {
    queue.enqueue(session, Direction::Upload, format!("/local{remote}"), remote.to_string(), remote.to_string(), bytes, batch)
}

#[test]
fn enqueued_jobs_get_consecutive_ids_and_start_queued() {
    let mut queue = TransferQueue::new();
    let a = upload(&mut queue, 1, "/a", 10, None);
    let b = upload(&mut queue, 1, "/b", 20, None);
    assert_eq!((a, b), (0, 1));
    assert_eq!(queue.get(b).unwrap().status, JobStatus::Queued);
    assert!(queue.get(2).is_none());
    assert_eq!(queue.queued_count(), 2);
    assert_eq!(queue.active_count(), 0);
}

#[test]
fn startable_respects_the_limit_and_busy_destinations() {
    let mut queue = TransferQueue::new();
    let a = upload(&mut queue, 1, "/same", 1, None);
    let _b = upload(&mut queue, 1, "/same", 1, None);
    let c = upload(&mut queue, 1, "/other", 1, None);
    let d = upload(&mut queue, 2, "/same", 1, None);
    assert_eq!(queue.startable(10), vec![a, c, d]);
    assert_eq!(queue.startable(2), vec![a, c]);
    queue.mark_started(a);
    assert_eq!(queue.startable(10), vec![c, d]);
    assert_eq!(queue.startable(1), Vec::<u64>::new());
    assert_eq!(queue.active_ids_for_session(1), vec![a]);
    assert!(queue.has_pending(2, Direction::Upload));
    assert!(!queue.has_pending(2, Direction::Download));
}

#[test]
fn failures_are_retried_until_the_attempts_run_out() {
    let mut queue = TransferQueue::new();
    let id = upload(&mut queue, 1, "/f", 100, None);
    for _ in 0..2 {
        queue.mark_started(id);
        queue.record_progress(id, 50);
        assert!(queue.record_failure(id, "boom".to_string(), false));
        let job = queue.get(id).unwrap();
        assert_eq!(job.status, JobStatus::Queued);
        assert_eq!(job.transferred_bytes, 0);
    }
    queue.mark_started(id);
    assert_eq!(queue.get(id).unwrap().attempts, 3);
    assert!(!queue.record_failure(id, "boom".to_string(), false));
    assert_eq!(queue.get(id).unwrap().status, JobStatus::Failed("boom".to_string()));
}

#[test]
fn a_cancelled_job_is_not_retried() {
    let mut queue = TransferQueue::new();
    let id = upload(&mut queue, 1, "/f", 100, None);
    queue.mark_started(id);
    assert!(!queue.record_failure(id, "stopped".to_string(), true));
    assert_eq!(queue.get(id).unwrap().status, JobStatus::Cancelled);
    queue.record_finished(id, TransferOutcome::Completed);
    assert_eq!(queue.get(id).unwrap().status, JobStatus::Completed);
}

#[test]
fn cancelling_and_failing_queued_jobs_counts_them() {
    let mut queue = TransferQueue::new();
    let a = upload(&mut queue, 1, "/a", 1, None);
    let _b = upload(&mut queue, 2, "/b", 1, None);
    let _c = upload(&mut queue, 2, "/c", 1, None);
    queue.mark_started(a);
    assert_eq!(queue.fail_queued_for_session(2, "gone"), 2);
    assert_eq!(queue.get(1).unwrap().status, JobStatus::Failed("gone".to_string()));
    assert_eq!(queue.cancel_all_queued(), 0);
    let d = upload(&mut queue, 3, "/d", 1, None);
    assert_eq!(queue.cancel_all_queued(), 1);
    assert_eq!(queue.get(d).unwrap().status, JobStatus::Cancelled);
    queue.mark_disconnected(a);
    assert_eq!(queue.get(a).unwrap().status, JobStatus::Failed("session disconnected".to_string()));
}

#[test]
fn batch_progress_sums_the_batch() {
    let mut queue = TransferQueue::new();
    let batch = queue.start_batch();
    let a = upload(&mut queue, 1, "/a", 10, Some(batch));
    let _b = upload(&mut queue, 1, "/b", 30, Some(batch));
    let _c = upload(&mut queue, 1, "/c", 99, None);
    queue.record_progress(a, 10);
    queue.record_finished(a, TransferOutcome::Completed);
    let progress = queue.batch_progress(batch);
    assert_eq!(progress.total_files, 2);
    assert_eq!(progress.completed_files, 1);
    assert_eq!(progress.total_bytes, 40);
    assert_eq!(progress.transferred_bytes, 10);
}

#[test]
fn rows_group_batches_at_their_first_job_and_list_scans_last() {
    let mut queue = TransferQueue::new();
    let single = upload(&mut queue, 1, "/single", 5, None);
    let batch = queue.start_batch();
    queue.set_batch_label(batch, "photos".to_string());
    let p1 = upload(&mut queue, 1, "/p1", 10, Some(batch));
    let late = upload(&mut queue, 1, "/late", 1, None);
    let p2 = upload(&mut queue, 1, "/p2", 20, Some(batch));
    queue.mark_started(p1);
    let scans = [ScanInfo { batch_id: 7, label: "music", direction: Direction::Download }];
    let rows = queue_rows(&queue, &scans);
    assert_eq!(rows.len(), 4);
    assert_eq!(rows[0].kind, RowKind::Single(single));
    assert_eq!(rows[0].state, RowState::Queued);
    assert_eq!(rows[1].kind, RowKind::Batch(batch));
    assert_eq!(rows[1].label, "photos");
    assert_eq!(rows[1].job_ids, vec![p1, p2]);
    assert_eq!(rows[1].bytes_total, 30);
    assert_eq!(rows[1].files_total, 2);
    assert_eq!(rows[1].state, RowState::Running);
    assert_eq!(rows[2].kind, RowKind::Single(late));
    assert_eq!(rows[3].kind, RowKind::Scan(7));
    assert_eq!(rows[3].state, RowState::Scanning);
    assert!(!rows[3].is_finished());
}

#[test]
fn a_finished_batch_reports_partial_failure() {
    let mut queue = TransferQueue::new();
    let batch = queue.start_batch();
    let a = upload(&mut queue, 1, "/a", 1, Some(batch));
    let b = upload(&mut queue, 1, "/b", 1, Some(batch));
    let c = upload(&mut queue, 1, "/c", 1, Some(batch));
    queue.record_finished(a, TransferOutcome::Completed);
    queue.mark_started(b);
    queue.mark_started(b);
    queue.mark_started(b);
    queue.record_failure(b, "x".to_string(), false);
    queue.record_finished(c, TransferOutcome::Cancelled);
    let rows = queue_rows(&queue, &[]);
    assert_eq!(rows[0].label, "/a");
    assert_eq!(rows[0].state, RowState::PartlyFailed(1));
    assert!(rows[0].is_finished());
}

#[test]
fn unique_names_count_up_before_the_extension() {
    let taken = vec!["a (1).txt".to_string()];
    assert_eq!(unique_name("a.txt", &taken), "a (2).txt");
    assert_eq!(unique_name("a.txt", &Vec::new()), "a (1).txt");
    assert_eq!(unique_name(".bashrc", &Vec::new()), ".bashrc (1)");
    assert_eq!(unique_name("archive.tar.gz", &Vec::new()), "archive.tar (1).gz");
    assert_eq!(unique_name("noext", &vec!["noext (1)".to_string(), "noext (2)".to_string()]), "noext (3)");
}

fn planned(existing: Option<ExistingFile>, partial: Option<ExistingFile>) -> PlannedFile {
    PlannedFile {
        local_path: "/local/dir/f.txt".to_string(),
        remote_path: "/remote/dir/f.txt".to_string(),
        display_name: "dir/f.txt".to_string(),
        size: 100,
        source_modified: None,
        existing,
        partial,
        resume: false,
    }
}

fn file(size: u64) -> Option<ExistingFile> {
    Some(ExistingFile { size, modified: None, is_dir: false })
}

fn folder() -> Option<ExistingFile> {
    Some(ExistingFile { size: 0, modified: None, is_dir: true })
}

#[test]
fn policies_answer_conflicts_without_asking() {
    assert_eq!(ConflictPolicy::Ask.resolution_for(&planned(file(5), None)), None);
    assert_eq!(ConflictPolicy::Skip.resolution_for(&planned(None, file(10))), Some(Resolution::Resume));
    assert_eq!(ConflictPolicy::Skip.resolution_for(&planned(None, file(100))), Some(Resolution::Overwrite));
    assert_eq!(ConflictPolicy::Overwrite.resolution_for(&planned(file(5), file(1))), Some(Resolution::Resume));
    assert_eq!(ConflictPolicy::Overwrite.resolution_for(&planned(file(5), None)), Some(Resolution::Overwrite));
    assert_eq!(ConflictPolicy::Skip.resolution_for(&planned(file(5), None)), Some(Resolution::Skip));
    assert_eq!(ConflictPolicy::Rename.resolution_for(&planned(file(5), None)), Some(Resolution::Rename));
}

#[test]
fn an_answer_fits_later_files_of_the_same_kind() {
    let existing = planned(file(5), None);
    let partial_only = planned(None, file(5));
    let blocked = planned(folder(), file(5));
    assert!(fits_the_rest(Resolution::Resume, &partial_only, &partial_only));
    assert!(!fits_the_rest(Resolution::Resume, &partial_only, &blocked));
    assert!(fits_the_rest(Resolution::Overwrite, &existing, &blocked));
    assert!(!fits_the_rest(Resolution::Overwrite, &existing, &partial_only));
    assert!(!fits_the_rest(Resolution::Rename, &existing, &partial_only));
    assert!(fits_the_rest(Resolution::Skip, &existing, &partial_only));
}

#[test]
fn resolving_applies_answers_to_conflicts_in_order() {
    let plan = DirectoryPlan {
        files: vec![
            planned(None, None),
            planned(file(5), None),
            planned(folder(), None),
            planned(None, file(5)),
            planned(file(5), None),
            planned(file(5), None),
        ],
        skipped_symlinks: 0,
        taken_names: vec![("/remote/dir".to_string(), vec!["f (1).txt".to_string()])],
    };
    assert_eq!(conflict_indices(&plan), vec![1, 2, 3, 4, 5]);
    let answers = [Resolution::Rename, Resolution::Overwrite, Resolution::Resume, Resolution::Rename];
    let resolved = resolve(plan, &answers, Direction::Upload);
    assert_eq!(resolved.blocked_by_folder, 1);
    assert_eq!(resolved.skipped, 1);
    assert_eq!(resolved.skipped_partials, 0);
    assert_eq!(resolved.files.len(), 4);
    assert_eq!(resolved.files[1].remote_path, "/remote/dir/f (2).txt");
    assert_eq!(resolved.files[1].display_name, "dir/f (2).txt");
    assert!(!resolved.files[1].resume);
    assert!(resolved.files[2].resume);
    assert_eq!(resolved.files[3].remote_path, "/remote/dir/f (3).txt");
}

#[test]
fn loose_files_and_walked_trees_map_to_their_destinations() {
    let entry = Entry { name: "notes.txt".to_string(), path: "/home/me/notes.txt".to_string(), is_dir: false, size: 7, permissions: None };
    let up = planned_file_for_loose_entry(Direction::Upload, &entry, "/srv");
    assert_eq!(up.local_path, "/home/me/notes.txt");
    assert_eq!(up.remote_path, "/srv/notes.txt");
    let down = planned_file_for_loose_entry(Direction::Download, &entry, "/tmp");
    assert_eq!(down.local_path, "/tmp/notes.txt");
    assert_eq!(down.remote_path, "/home/me/notes.txt");

    let mut tree = DiscoveredTree::new();
    assert!(tree.record("sub".to_string(), EntryKind::Directory, 0));
    assert!(!tree.record("sub/a.txt".to_string(), EntryKind::File, 3));
    assert!(!tree.record("link".to_string(), EntryKind::Symlink, 0));
    assert_eq!(tree.skipped_symlinks, 1);
    let dir = Entry { name: "docs".to_string(), path: "/home/me/docs".to_string(), is_dir: true, size: 0, permissions: None };
    let files = planned_files_for_tree(Direction::Upload, &dir, "/srv/docs", &tree);
    assert_eq!(files.len(), 1);
    assert_eq!(files[0].local_path, "/home/me/docs/sub/a.txt");
    assert_eq!(files[0].remote_path, "/srv/docs/sub/a.txt");
    assert_eq!(files[0].display_name, "sub/a.txt");
    assert_eq!(tree.destination_directories("/srv/docs"), vec!["/srv/docs".to_string(), "/srv/docs/sub".to_string()]);
}

#[test]
fn resume_offsets_back_off_and_refuse_stale_parts() {
    assert_eq!(resume_offset(1_000_000, 2_000_000, Some(100), Some(100)), 1_000_000 - 524_288);
    assert_eq!(resume_offset(1_000, 2_000, Some(100), Some(100)), 0);
    assert_eq!(resume_offset(3_000_000, 2_000_000, Some(100), Some(100)), 0);
    assert_eq!(resume_offset(1_000_000, 2_000_000, Some(100), Some(221)), 0);
    assert_eq!(resume_offset(1_000_000, 2_000_000, Some(100), Some(220)), 1_000_000 - 524_288);
    assert_eq!(resume_offset(1_000_000, 2_000_000, None, Some(100)), 0);
    assert_eq!(part_path("/tmp/file.bin"), "/tmp/file.bin.part");
}

#[test]
fn progress_is_reported_every_step() {
    let mut meter = ProgressMeter::starting_at(10);
    assert_eq!(meter.advance(60_000), None);
    assert_eq!(meter.advance(6_000), Some(66_010));
    assert_eq!(meter.since_last_report, 0);
}

#[test]
fn copy_notices_read_naturally() {
    assert_eq!(disconnected_notice("f.txt"), "Transfer failed: f.txt \u{2014} session disconnected");
    assert_eq!(skipped_symlinks_notice(0), None);
    assert_eq!(skipped_symlinks_notice(1), Some("Skipped 1 symlink".to_string()));
    assert_eq!(skipped_symlinks_notice(3), Some("Skipped 3 symlinks".to_string()));
    let one = vec![Entry { name: "docs".to_string(), path: "/docs".to_string(), is_dir: true, size: 0, permissions: None }];
    assert_eq!(copy_display_name(&one), "docs");
    assert_eq!(copy_display_name(&Vec::new()), "0 items");
}

#[test]
fn cancelling_a_row_stops_queued_jobs_and_names_running_ones() {
    let mut queue = TransferQueue::new();
    let a = upload(&mut queue, 1, "/a", 10, None);
    let b = upload(&mut queue, 1, "/b", 10, None);
    let c = upload(&mut queue, 2, "/c", 10, None);
    let d = queue.enqueue(1, Direction::Download, "/local/d".to_string(), "/d".to_string(), "d".to_string(), 5, None);
    let e = upload(&mut queue, 1, "/e", 10, None);
    queue.mark_started(a);
    queue.record_finished(e, TransferOutcome::Completed);
    let outcome = queue.cancel_jobs(&vec![a, b, c, b, d, e, 99]);
    assert_eq!(outcome.running, vec![a]);
    assert_eq!(outcome.destinations, vec![(1, Direction::Upload), (2, Direction::Upload), (1, Direction::Download)]);
    assert_eq!(queue.get(a).unwrap().status, JobStatus::InProgress);
    assert_eq!(queue.get(b).unwrap().status, JobStatus::Cancelled);
    assert_eq!(queue.get(c).unwrap().status, JobStatus::Cancelled);
    assert_eq!(queue.get(d).unwrap().status, JobStatus::Cancelled);
    assert_eq!(queue.get(e).unwrap().status, JobStatus::Completed);
}

#[test]
fn a_review_asks_each_conflict_until_all_are_answered() {
    let plan = DirectoryPlan {
        files: vec![planned(file(5), None), planned(None, None), planned(file(7), None), planned(None, file(3))],
        skipped_symlinks: 0,
        taken_names: Vec::new(),
    };
    let mut review = ConflictReview::new(9, 2, Direction::Upload, plan);
    assert_eq!(review.conflicts, vec![0, 2, 3]);
    assert_eq!(review.asked_file(), Some(0));
    assert!(!review.answer(Resolution::Skip, false));
    assert_eq!(review.asked_file(), Some(2));
    assert!(review.answer(Resolution::Overwrite, true));
    assert_eq!(review.answers, vec![Resolution::Skip, Resolution::Overwrite, Resolution::Overwrite]);
    assert_eq!(review.asked_file(), None);
    assert_eq!((review.batch_id, review.session_id, review.direction), (9, 2, Direction::Upload));
}

#[test]
fn a_disconnect_says_how_many_transfers_it_cancelled() {
    assert_eq!(cancelled_by_disconnect_notice(0), None);
    assert_eq!(cancelled_by_disconnect_notice(1), Some("1 transfer cancelled \u{2014} session disconnected".to_string()));
    assert_eq!(cancelled_by_disconnect_notice(3), Some("3 transfers cancelled \u{2014} session disconnected".to_string()));
}

#[test]
fn the_conflict_question_names_the_file_and_offers_each_answer() {
    let plan = DirectoryPlan {
        files: vec![planned(None, None), planned(file(2048), None), planned(None, file(3))],
        skipped_symlinks: 0,
        taken_names: Vec::new(),
    };
    let mut review = ConflictReview::new(1, 1, Direction::Download, plan);
    assert_eq!(
        review.question(),
        Some("\"dir/f.txt\" exists (2.0K there, copying 100) \u{2014} conflict 1 of 2".to_string())
    );
    review.answer(Resolution::Skip, false);
    assert_eq!(
        review.question(),
        Some("\"dir/f.txt\" exists (a partial copy there, copying 100) \u{2014} conflict 2 of 2".to_string())
    );
    review.answer(Resolution::Resume, false);
    assert_eq!(review.question(), None);
    assert_eq!(conflict_choice_labels().len(), 8);
    assert_eq!(conflict_choice_labels()[4], "Keep both (rename)");
    assert_eq!(conflict_choice(0), Some((Resolution::Overwrite, false)));
    assert_eq!(conflict_choice(5), Some((Resolution::Rename, true)));
    assert_eq!(conflict_choice(7), Some((Resolution::Resume, true)));
    assert_eq!(conflict_choice(8), None);
}

/// The percentage written with `f64` arithmetic.
fn percent_in_floats(done: u64, total: u64) -> u8 {
    if total == 0 {
        100
    } else {
        ((done as f64 / total as f64) * 100.0) as u8
    }
}

#[test]
fn percent_of_agrees_with_floating_point_arithmetic() {
    assert_eq!(percent_of(0, 0), 100);
    assert_eq!(percent_of(5, 0), 100);
    assert_eq!(percent_of(0, 7), 0);
    assert_eq!(percent_of(50, 100), 50);
    assert_eq!(percent_of(1, 3), 33);
    assert_eq!(percent_of(100, 100), 100);
    assert_eq!(percent_of(300, 100), 255);
    assert_eq!(percent_of(29, 100), percent_in_floats(29, 100));
    let mut pairs: Vec<(u64, u64)> = vec![
        (u64::MAX, u64::MAX),
        (u64::MAX - 1, u64::MAX),
        (1, u64::MAX),
        ((1 << 53) + 1, (1 << 53) + 3),
        (u64::MAX, 1),
        (257, 100),
        (255, 100),
        (256, 100),
    ];
    for total in 1..300u64 {
        for done in 0..=total + 3 {
            pairs.push((done, total));
        }
    }
    let mut x: u64 = 0x2545_F491_4F6C_DD1D;
    for _ in 0..50_000 {
        x ^= x << 13;
        x ^= x >> 7;
        x ^= x << 17;
        let total = x >> (x % 64);
        let done = total / ((x >> 3) % 7 + 1) + (x >> 11) % 5;
        pairs.push((done, total));
        pairs.push((x % 1_000_003, x % 1_000_033 + 1));
    }
    for (done, total) in pairs {
        assert_eq!(percent_of(done, total), percent_in_floats(done, total), "{done} of {total}");
    }
}
