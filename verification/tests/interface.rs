use termconnect::filesystem::search::search_pattern;
use termconnect::filesystem::{join, path_to_remote_string, Entry};
use termconnect::transfer::rows::{QueueRow, RowKind, RowState};
use termconnect::transfer::job::Direction;
use termconnect::tui::notifications::{Notifications, Severity};
use termconnect::tui::panels::{sort_indicator, ActivePanel, PanelState, Row};
use termconnect::tui::sort::{SortKey, SortOrder, SortSpec};
use termconnect::tui::status::{title_status, transfer_status, ConnectionStatus};
use termconnect::tui::transfer_list::{
    amount_text, batch_amount_text, columns_for, percent_text, row_text, state_text, TransferColumns,
};
use termconnect::tui::widgets::dialog::{delete_prompt, dialog_followup, DialogOutcome, Followup, PendingAction};

#[test]
fn info_and_warnings_expire_but_errors_stay() {
    let mut notifications = Notifications::new();
    notifications.push(Severity::Info, "saved".to_string(), 1_000);
    notifications.push(Severity::Error, "boom".to_string(), 1_000);
    notifications.push(Severity::Warning, "careful".to_string(), 1_000);
    assert_eq!(notifications.next_wake(), Some(5_000));
    notifications.expire(4_999);
    assert_eq!(notifications.current().unwrap().message, "saved");
    notifications.expire(5_000);
    assert_eq!(notifications.current().unwrap().severity, Severity::Error);
    assert_eq!(notifications.next_wake(), None);
    notifications.expire(1_000_000);
    assert_eq!(notifications.current().unwrap().message, "boom");
    notifications.dismiss_current();
    assert_eq!(notifications.current().unwrap().message, "careful");
    assert_eq!(notifications.current().unwrap().expires_at(), Some(9_000));
    notifications.dismiss_current();
    assert!(notifications.current().is_none());
    notifications.dismiss_current();
    assert_eq!(Severity::Warning.ttl(), Some(8_000));
}

fn entry(name: &str, is_dir: bool) -> Entry {
    Entry { name: name.to_string(), path: format!("/home/user/{name}"), is_dir, size: 1, permissions: Some(0o644) }
}

#[test]
fn panels_hide_dotfiles_and_list_the_parent_first() {
    let mut panel = PanelState::from_listing("/home/user".to_string(), vec![entry("b.txt", false), entry(".hidden", false), entry("dir", true)]);
    assert_eq!(panel.rows().len(), 3);
    assert_eq!(panel.rows()[0], Row::Parent);
    assert_eq!(panel.rows()[1], Row::Entry(entry("dir", true)));
    panel.toggle_hidden();
    assert!(panel.show_hidden());
    assert_eq!(panel.rows().len(), 4);
    panel.set_sort_spec(SortSpec { key: SortKey::Name, order: SortOrder::Descending });
    assert_eq!(panel.rows()[1], Row::Entry(entry("dir", true)));
    assert_eq!(panel.rows()[2], Row::Entry(entry("b.txt", false)));
    assert_eq!(sort_indicator(panel.sort_spec()), "Name \u{25BC}");
    panel.cycle_sort();
    assert_eq!(sort_indicator(panel.sort_spec()), "Size \u{25B2}");
}

#[test]
fn the_cursor_opens_directories_and_the_parent() {
    let mut panel = PanelState::from_listing("/home/user".to_string(), vec![entry("dir", true), entry("a.txt", false)]);
    assert_eq!(panel.target_path_for_open(), Some("/home".to_string()));
    panel.move_cursor(1);
    assert_eq!(panel.target_path_for_open(), Some("/home/user/dir".to_string()));
    assert_eq!(panel.current_entry_name(), Some("dir".to_string()));
    panel.move_cursor(5);
    assert_eq!(panel.cursor(), 2);
    assert_eq!(panel.target_path_for_open(), None);
    assert_eq!(panel.targets(), vec!["/home/user/a.txt".to_string()]);
    assert_eq!(panel.rename_current("b.txt"), Some(("/home/user/a.txt".to_string(), "/home/user/b.txt".to_string())));
    assert_eq!(panel.create_directory("new"), "/home/user/new");
    panel.move_cursor(-10);
    assert_eq!(panel.cursor(), 0);
    assert_eq!(panel.rename_current("x"), None);
}

#[test]
fn selection_decides_the_targets() {
    let mut panel = PanelState::from_listing("/".to_string(), vec![entry("a", false), entry("b", false)]);
    assert_eq!(panel.rows().len(), 2);
    panel.toggle_selection();
    panel.move_cursor(1);
    panel.toggle_selection();
    assert_eq!(panel.targets(), vec!["/home/user/a".to_string(), "/home/user/b".to_string()]);
    assert_eq!(panel.target_entries().len(), 2);
    panel.toggle_selection();
    assert_eq!(panel.targets(), vec!["/home/user/a".to_string()]);
    panel.refresh(vec![entry("c", false)]);
    assert_eq!(panel.targets(), vec!["/home/user/c".to_string()]);
}

#[test]
fn switching_panels_toggles() {
    let mut active = ActivePanel::Local;
    active.toggle();
    assert_eq!(active, ActivePanel::Remote);
    active.toggle();
    assert_eq!(active, ActivePanel::Local);
}

#[test]
fn dialog_answers_lead_to_what_the_dialog_was_for() {
    let step = dialog_followup(DialogOutcome::Submitted("docs".to_string()), Some(PendingAction::Mkdir), ActivePanel::Remote);
    assert!(step.close && step.take_pending);
    assert_eq!(step.followup, Followup::Mkdir(ActivePanel::Remote, "docs".to_string()));
    let step = dialog_followup(DialogOutcome::Confirmed, Some(PendingAction::Delete), ActivePanel::Local);
    assert_eq!(step.followup, Followup::Delete(ActivePanel::Local));
    let step = dialog_followup(DialogOutcome::Cancelled, Some(PendingAction::SubmitPassword), ActivePanel::Local);
    assert_eq!(step.followup, Followup::CancelPasswordPrompt);
    let step = dialog_followup(DialogOutcome::Pending, Some(PendingAction::Delete), ActivePanel::Local);
    assert!(!step.close && !step.take_pending);
    let step = dialog_followup(DialogOutcome::Removed(2), None, ActivePanel::Local);
    assert!(!step.close);
    assert_eq!(step.followup, Followup::RemoveBookmark(2));
    let step = dialog_followup(DialogOutcome::Confirmed, Some(PendingAction::Rename), ActivePanel::Local);
    assert_eq!(step.followup, Followup::Nothing);
}

#[test]
fn the_delete_question_names_one_target_or_counts_them() {
    assert_eq!(delete_prompt(&vec!["/home/user/doomed.txt".to_string()]), Some("Delete \"doomed.txt\"?".to_string()));
    assert_eq!(delete_prompt(&vec!["/a".to_string(), "/b".to_string()]), Some("Delete 2 selected items?".to_string()));
    assert_eq!(delete_prompt(&Vec::new()), None);
}

fn row(state: RowState) -> QueueRow {
    QueueRow {
        kind: RowKind::Single(0),
        label: "f".to_string(),
        direction: Direction::Upload,
        files_done: 0,
        files_total: 1,
        bytes_done: 0,
        bytes_total: 0,
        state,
        job_ids: vec![0],
    }
}

#[test]
fn transfer_rows_describe_their_state() {
    assert_eq!(state_text(RowState::Scanning), "scanning\u{2026}");
    assert_eq!(state_text(RowState::PartlyFailed(2)), "done, 2 failed");
    assert_eq!(state_text(RowState::Cancelled), "cancelled");
    assert_eq!(batch_amount_text(3, 5), "3/5 files");
}

#[test]
fn transfer_columns_drop_the_amount_then_the_percentage() {
    let rows = vec![row(RowState::Running), row(RowState::Queued)];
    let wide = columns_for(&rows, 9, 80);
    assert_eq!(wide.amount, Some(9));
    assert!(wide.show_percent);
    assert_eq!(wide.label, 80 - 2 - 10 - 5 - 9);
    let middle = columns_for(&rows, 9, 30);
    assert_eq!(middle.amount, None);
    assert!(middle.show_percent);
    assert_eq!(middle.label, 30 - 2 - 5 - 9);
    let narrow = columns_for(&rows, 9, 12);
    assert!(!narrow.show_percent);
    assert_eq!(narrow.label, 1);
}

#[test]
fn the_search_box_looks_for_names_containing_the_text() {
    assert_eq!(search_pattern("log"), Some("*log*".to_string()));
    assert_eq!(search_pattern(""), None);
    let pattern = search_pattern("Targ").unwrap();
    assert!(termconnect::filesystem::search::glob_match(&pattern, "my_target.log"));
    assert!(!termconnect::filesystem::search::glob_match(&pattern, "tar.gz"));
}

#[test]
fn remote_paths_join_without_doubling_slashes() {
    assert_eq!(join("/srv", "a"), "/srv/a");
    assert_eq!(join("/", "a"), "/a");
    assert_eq!(path_to_remote_string("/x/y"), "/x/y");
}

#[test]
fn opening_enters_directories_only() {
    let mut panel = PanelState::from_listing("/home/user".to_string(), vec![entry("dir", true), entry("a.txt", false)]);
    panel.move_cursor(1);
    let inside = Entry { name: "x".to_string(), path: "/home/user/dir/x".to_string(), is_dir: false, size: 3, permissions: None };
    assert!(panel.open_selected(vec![inside]));
    assert_eq!(panel.path(), "/home/user/dir");
    assert_eq!(panel.cursor(), 0);
    assert_eq!(panel.rows().len(), 2);
    panel.move_cursor(1);
    assert!(!panel.open_selected(Vec::new()));
    assert_eq!(panel.path(), "/home/user/dir");
    assert_eq!(panel.cursor(), 1);
}

#[test]
fn the_amount_column_shows_files_for_a_batch_and_bytes_for_a_file() {
    let mut single = row(RowState::Running);
    single.bytes_total = 1536;
    assert_eq!(amount_text(&single), "1.5K");
    let mut batch = row(RowState::Running);
    batch.kind = RowKind::Batch(4);
    batch.files_done = 2;
    batch.files_total = 7;
    assert_eq!(amount_text(&batch), "2/7 files");
    let mut scan = row(RowState::Scanning);
    scan.kind = RowKind::Scan(4);
    assert_eq!(amount_text(&scan), "");
}

#[test]
fn the_title_tells_how_the_connection_stands() {
    let connecting = ConnectionStatus::Connecting("prod".to_string());
    assert_eq!(title_status(&connecting, None, true), "Connecting to prod\u{2026}");
    let failed = ConnectionStatus::Failed("refused".to_string());
    assert_eq!(title_status(&failed, None, true), "Connection failed: refused");
    assert_eq!(title_status(&failed, Some("web"), false), "web \u{2014} SSH: Connected");
    assert_eq!(title_status(&ConnectionStatus::Idle, None, true), "Not connected");
}

#[test]
fn the_status_line_shows_the_running_copy() {
    assert_eq!(transfer_status(Direction::Upload, "a.txt", 42, 0), "Uploading a.txt: 42%");
    assert_eq!(transfer_status(Direction::Download, "b", 100, 3), "Downloading b: 100% (3 queued)");
}

#[test]
fn transfer_rows_read_arrow_label_amount_percent_and_state() {
    let mut single = row(RowState::Running);
    single.label = "report.pdf".to_string();
    single.bytes_done = 512;
    single.bytes_total = 2048;
    assert_eq!(percent_text(&single), "25%");
    let columns = TransferColumns { label: 12, amount: Some(5), show_percent: true };
    assert_eq!(row_text(&single, &columns), "\u{2191} report.pdf    2.0K  25%  running");
    let narrow = TransferColumns { label: 5, amount: None, show_percent: false };
    assert_eq!(row_text(&single, &narrow), "\u{2191} repo\u{2026}  running");
    let mut scan = row(RowState::Scanning);
    scan.kind = RowKind::Scan(1);
    scan.direction = Direction::Download;
    assert_eq!(percent_text(&scan), "");
    let wide = TransferColumns { label: 3, amount: Some(2), show_percent: true };
    assert_eq!(row_text(&scan, &wide), format!("\u{2193} f{}scanning\u{2026}", " ".repeat(12)));
}

#[test]
fn a_selected_entry_stays_a_target_while_hidden() {
    let mut panel = PanelState::from_listing("/home/user".to_string(), vec![entry(".profile", false), entry("a", false)]);
    panel.toggle_hidden();
    assert_eq!(panel.rows()[1], Row::Entry(entry(".profile", false)));
    panel.move_cursor(1);
    panel.toggle_selection();
    panel.move_cursor(1);
    panel.toggle_selection();
    panel.toggle_hidden();
    assert_eq!(panel.rows().len(), 2);
    assert_eq!(panel.targets(), vec!["/home/user/.profile".to_string(), "/home/user/a".to_string()]);
    assert_eq!(panel.target_entries(), vec![entry("a", false), entry(".profile", false)]);
}

#[test]
fn toggling_twice_gives_back_the_rows_and_the_selection() {
    let mut panel = PanelState::from_listing("/home/user".to_string(), vec![entry("b", false), entry(".x", true), entry("a", true)]);
    let rows = panel.rows().clone();
    panel.toggle_hidden();
    assert_ne!(panel.rows(), &rows);
    panel.toggle_hidden();
    assert_eq!(panel.rows(), &rows);
    panel.move_cursor(1);
    panel.toggle_selection();
    panel.move_cursor(1);
    panel.toggle_selection();
    assert_eq!(panel.targets(), vec!["/home/user/a".to_string(), "/home/user/b".to_string()]);
    panel.toggle_selection();
    panel.toggle_selection();
    assert_eq!(panel.targets(), vec!["/home/user/a".to_string(), "/home/user/b".to_string()]);
    panel.move_cursor(-1);
    panel.toggle_selection();
    panel.toggle_selection();
    assert_eq!(panel.targets(), vec!["/home/user/b".to_string(), "/home/user/a".to_string()]);
}

#[test]
fn selected_entries_come_in_row_order() {
    let mut panel = PanelState::from_listing("/home/user".to_string(), vec![entry("c", false), entry("b", false), entry("a", false)]);
    panel.move_cursor(3);
    panel.toggle_selection();
    panel.move_cursor(-2);
    panel.toggle_selection();
    assert_eq!(panel.targets(), vec!["/home/user/c".to_string(), "/home/user/a".to_string()]);
    assert_eq!(panel.target_entries(), vec![entry("a", false), entry("c", false)]);
}
