use termconnect::filesystem::search::{
    find_command, find_output_paths, glob_match, remote_name, shell_quote, SearchWalk, Visit, WalkAction,
};
use termconnect::filesystem::Entry;
use termconnect::tui::keys::{KeyCode, KeyEvent, KeyModifiers};
use termconnect::tui::widgets::search_view::{SearchOutcome, SearchView};

fn key(code: KeyCode) -> KeyEvent {
    KeyEvent { code, modifiers: KeyModifiers::none() }
}

fn entry(name: &str) -> Entry {
    Entry { name: name.to_string(), path: format!("/{name}"), is_dir: false, size: 0, permissions: None }
}

#[test]
fn typing_inserts_at_the_cursor_and_reports_pattern_changed() {
    let mut view = SearchView::new();
    assert_eq!(view.handle_key(key(KeyCode::Char('a'))), SearchOutcome::PatternChanged);
    assert_eq!(view.pattern, "a");
    assert_eq!(view.cursor, 1);
}

#[test]
fn ctrl_modified_characters_are_not_inserted() {
    let mut view = SearchView::new();
    let event = KeyEvent { code: KeyCode::Char('c'), modifiers: KeyModifiers::control_only() };
    assert_eq!(view.handle_key(event), SearchOutcome::Pending);
    assert_eq!(view.pattern, "");
}

#[test]
fn down_and_up_move_the_selection_within_bounds() {
    let mut view = SearchView::new();
    view.push_result(entry("a"));
    view.push_result(entry("b"));
    view.handle_key(key(KeyCode::Down));
    assert_eq!(view.selected, 1);
    view.handle_key(key(KeyCode::Down));
    assert_eq!(view.selected, 1);
    view.handle_key(key(KeyCode::Up));
    view.handle_key(key(KeyCode::Up));
    assert_eq!(view.selected, 0);
}

#[test]
fn start_clears_previous_results_and_state() {
    let mut view = SearchView::new();
    view.push_result(entry("a"));
    view.selected = 1;
    view.finish(true);
    view.start();
    assert!(view.results.is_empty());
    assert!(!view.truncated);
    assert_eq!(view.selected, 0);
}

#[test]
fn esc_reports_cancel() {
    let mut view = SearchView::new();
    assert_eq!(view.handle_key(key(KeyCode::Esc)), SearchOutcome::Cancel);
}

#[test]
fn enter_reports_open() {
    let mut view = SearchView::new();
    assert_eq!(view.handle_key(key(KeyCode::Enter)), SearchOutcome::Open);
}

#[test]
fn backspace_with_nothing_before_the_cursor_changes_nothing() {
    let mut view = SearchView::new();
    assert_eq!(view.handle_key(key(KeyCode::Backspace)), SearchOutcome::Pending);
    view.handle_key(key(KeyCode::Char('x')));
    assert_eq!(view.handle_key(key(KeyCode::Backspace)), SearchOutcome::PatternChanged);
    assert_eq!(view.pattern, "");
    assert!(view.selected_entry().is_none());
}

#[test]
fn glob_matches_star_and_question_mark_case_insensitively() {
    assert!(glob_match("*.LOG", "target.log"));
    assert!(glob_match("t?rget*", "Target.log"));
    assert!(!glob_match("*.txt", "target.log"));
    assert!(glob_match("*", ""));
    assert!(!glob_match("?", ""));
}

#[test]
fn shell_quote_escapes_single_quotes() {
    assert_eq!(shell_quote("it's"), "'it'\\''s'");
    assert_eq!(shell_quote(""), "''");
}

#[test]
fn find_command_quotes_root_and_pattern() {
    assert_eq!(find_command("/srv/data", "*.log", 16), "find '/srv/data' -maxdepth 16 -iname '*.log'");
}

#[test]
fn find_output_keeps_nonempty_lines() {
    assert_eq!(find_output_paths("/a\n\n/b\r\n/c"), vec!["/a".to_string(), "/b".to_string(), "/c".to_string()]);
    assert!(find_output_paths("").is_empty());
}

#[test]
fn remote_name_is_the_last_component() {
    assert_eq!(remote_name("/srv/data/file.txt"), "file.txt");
    assert_eq!(remote_name("file.txt"), "file.txt");
    assert_eq!(remote_name("/srv/"), "");
}

#[test]
fn walk_reads_deepest_first_and_stops_at_the_cap() {
    let mut walk = SearchWalk::new("/root".to_string(), "*.log".to_string(), 1, 2);
    match walk.next_dir() {
        WalkAction::Read { dir, depth } => {
            assert_eq!(dir, "/root");
            assert_eq!(depth, 0);
        }
        WalkAction::Finish { .. } => panic!("expected a directory"),
    }
    walk.read_ok();
    assert_eq!(walk.visit("/root/a.log".to_string(), "a.log", false, 0), Visit::Next { matched: true });
    assert_eq!(walk.visit("/root/sub".to_string(), "sub", true, 0), Visit::Next { matched: false });
    assert!(!walk.end_dir());
    match walk.next_dir() {
        WalkAction::Read { dir, depth } => {
            assert_eq!(dir, "/root/sub");
            assert_eq!(depth, 1);
        }
        WalkAction::Finish { .. } => panic!("expected a directory"),
    }
    assert_eq!(walk.visit("/root/sub/deep".to_string(), "deep", true, 1), Visit::Next { matched: false });
    assert_eq!(walk.visit("/root/sub/b.LOG".to_string(), "b.LOG", false, 1), Visit::Next { matched: true });
    assert_eq!(walk.visit("/root/sub/c.log".to_string(), "c.log", false, 1), Visit::Stop);
    assert!(walk.end_dir());
    assert!(walk.truncated());
}

#[test]
fn walk_skips_directories_below_the_depth_limit() {
    let mut walk = SearchWalk::new("/root".to_string(), "x".to_string(), 0, 10);
    assert!(matches!(walk.next_dir(), WalkAction::Read { .. }));
    assert!(walk.read_failed());
    walk.read_ok();
    assert!(!walk.read_failed());
    walk.visit("/root/sub".to_string(), "sub", true, 0);
    match walk.next_dir() {
        WalkAction::Finish { truncated } => assert!(!truncated),
        WalkAction::Read { .. } => panic!("the sub directory is too deep"),
    }
}
