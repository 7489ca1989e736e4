use termconnect::tui::dialog::list::{ListDialog, ListOutcome};
use termconnect::tui::keys::{KeyCode, KeyEvent, KeyModifiers};
use termconnect::tui::widgets::dialog::confirm::{ConfirmDialog, ConfirmFocus, ConfirmOutcome};
use termconnect::tui::widgets::dialog::text_input::{TextInputDialog, TextInputOutcome};
use termconnect::tui::widgets::dialog::{Dialog, DialogOutcome};

fn key(code: KeyCode) -> KeyEvent {
    KeyEvent { code, modifiers: KeyModifiers::none() }
}

#[test]
fn default_focus_is_no() {
    let dialog = ConfirmDialog::new("Delete?");
    assert_eq!(dialog.focus, ConfirmFocus::No);
}

#[test]
fn tab_toggles_focus_between_yes_and_no() {
    let mut dialog = ConfirmDialog::new("Delete?");
    dialog.handle_key(key(KeyCode::Tab));
    assert_eq!(dialog.focus, ConfirmFocus::Yes);
    dialog.handle_key(key(KeyCode::Tab));
    assert_eq!(dialog.focus, ConfirmFocus::No);
}

#[test]
fn enter_confirms_only_when_yes_is_focused() {
    let mut dialog = ConfirmDialog::new("Delete?");
    assert_eq!(dialog.handle_key(key(KeyCode::Enter)), ConfirmOutcome::Cancelled);

    let mut dialog = ConfirmDialog::new("Delete?");
    dialog.handle_key(key(KeyCode::Tab));
    assert_eq!(dialog.handle_key(key(KeyCode::Enter)), ConfirmOutcome::Confirmed);
}

#[test]
fn y_and_n_shortcuts_work_regardless_of_focus() {
    let mut dialog = ConfirmDialog::new("Delete?");
    assert_eq!(dialog.handle_key(key(KeyCode::Char('y'))), ConfirmOutcome::Confirmed);
    assert_eq!(dialog.handle_key(key(KeyCode::Char('n'))), ConfirmOutcome::Cancelled);
}

#[test]
fn typing_characters_appends_to_value() {
    let mut dialog = TextInputDialog::new("New name", "");
    dialog.handle_key(key(KeyCode::Char('a')));
    dialog.handle_key(key(KeyCode::Char('b')));
    assert_eq!(dialog.value, "ab");
}

#[test]
fn backspace_removes_the_last_character() {
    let mut dialog = TextInputDialog::new("New name", "abc");
    dialog.handle_key(key(KeyCode::Backspace));
    assert_eq!(dialog.value, "ab");
}

#[test]
fn enter_submits_the_current_value() {
    let mut dialog = TextInputDialog::new("New name", "final");
    assert_eq!(dialog.handle_key(key(KeyCode::Enter)), TextInputOutcome::Submitted("final".to_string()));
}

#[test]
fn esc_cancels() {
    let mut dialog = TextInputDialog::new("New name", "final");
    assert_eq!(dialog.handle_key(key(KeyCode::Esc)), TextInputOutcome::Cancelled);
}

#[test]
fn new_masked_starts_empty_and_marks_masked() {
    let dialog = TextInputDialog::new_masked("Password");
    assert!(dialog.value.is_empty());
    assert!(dialog.masked);
}

#[test]
fn left_and_right_move_the_cursor_without_changing_the_value() {
    let mut dialog = TextInputDialog::new("Name", "abc");
    assert_eq!(dialog.cursor, 3);
    dialog.handle_key(key(KeyCode::Left));
    assert_eq!(dialog.cursor, 2);
    dialog.handle_key(key(KeyCode::Right));
    assert_eq!(dialog.cursor, 3);
    assert_eq!(dialog.value, "abc");
}

#[test]
fn home_and_end_jump_to_the_boundaries() {
    let mut dialog = TextInputDialog::new("Name", "abc");
    dialog.handle_key(key(KeyCode::Home));
    assert_eq!(dialog.cursor, 0);
    dialog.handle_key(key(KeyCode::End));
    assert_eq!(dialog.cursor, 3);
}

#[test]
fn typing_inserts_at_the_cursor_not_only_at_the_end() {
    let mut dialog = TextInputDialog::new("Name", "abc");
    dialog.handle_key(key(KeyCode::Home));
    dialog.handle_key(key(KeyCode::Char('x')));
    assert_eq!(dialog.value, "xabc");
    assert_eq!(dialog.cursor, 1);
}

#[test]
fn delete_removes_the_character_at_the_cursor() {
    let mut dialog = TextInputDialog::new("Name", "abc");
    dialog.handle_key(key(KeyCode::Home));
    dialog.handle_key(key(KeyCode::Delete));
    assert_eq!(dialog.value, "bc");
    assert_eq!(dialog.cursor, 0);
}

#[test]
fn backspace_at_the_start_does_nothing() {
    let mut dialog = TextInputDialog::new("Name", "abc");
    dialog.handle_key(key(KeyCode::Home));
    dialog.handle_key(key(KeyCode::Backspace));
    assert_eq!(dialog.value, "abc");
    assert_eq!(dialog.cursor, 0);
}

#[test]
fn cursor_stays_within_bounds_on_an_empty_value() {
    let mut dialog = TextInputDialog::new("Name", "");
    dialog.handle_key(key(KeyCode::Right));
    assert_eq!(dialog.cursor, 0);
    dialog.handle_key(key(KeyCode::Left));
    assert_eq!(dialog.cursor, 0);
}

#[test]
fn editing_works_on_characters_beyond_ascii() {
    let mut dialog = TextInputDialog::new("Name", "héllo");
    dialog.handle_key(key(KeyCode::Left));
    dialog.handle_key(key(KeyCode::Backspace));
    assert_eq!(dialog.value, "hélo");
    dialog.handle_key(key(KeyCode::Char('ü')));
    assert_eq!(dialog.value, "hélüo");
}

#[test]
fn dialog_wraps_the_outcome_of_the_dialog_shown() {
    let mut dialog = Dialog::TextInput(TextInputDialog::new("Name", "x"));
    assert_eq!(dialog.handle_key(key(KeyCode::Enter)), DialogOutcome::Submitted("x".to_string()));
    let mut dialog = Dialog::Confirm(ConfirmDialog::new("Sure?"));
    assert_eq!(dialog.handle_key(key(KeyCode::Char('Y'))), DialogOutcome::Confirmed);
    assert_eq!(dialog.handle_key(key(KeyCode::Left)), DialogOutcome::Pending);
}

#[test]
fn list_dialog_selects_and_removes_at_the_cursor() {
    let items = vec!["one".to_string(), "two".to_string()];
    let mut dialog = ListDialog::new("Bookmarks", items).removable(true);
    dialog.handle_key(key(KeyCode::Down));
    dialog.handle_key(key(KeyCode::Down));
    assert_eq!(dialog.cursor, 1);
    assert_eq!(dialog.handle_key(key(KeyCode::Enter)), ListOutcome::Selected(1));
    assert_eq!(dialog.handle_key(key(KeyCode::F(8))), ListOutcome::Removed(1));
    assert_eq!(dialog.handle_key(key(KeyCode::Esc)), ListOutcome::Cancelled);
}

#[test]
fn list_dialog_without_items_selects_nothing() {
    let mut dialog = ListDialog::new("Bookmarks", Vec::new()).removable(true);
    assert_eq!(dialog.handle_key(key(KeyCode::Enter)), ListOutcome::Pending);
    assert_eq!(dialog.handle_key(key(KeyCode::F(8))), ListOutcome::Pending);
    let mut fixed = ListDialog::new("Bookmarks", vec!["one".to_string()]);
    assert_eq!(fixed.handle_key(key(KeyCode::F(8))), ListOutcome::Pending);
}
