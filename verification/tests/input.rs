use termconnect::tui::input::{format_key_spec, help_line, parse_key_spec, Action, KeyBindings, KeySpec, ALL_ACTIONS};
use termconnect::tui::keys::{KeyCode, KeyEvent, KeyModifiers};


fn ctrl(c: char) -> KeySpec {
    KeySpec { code: KeyCode::Char(c), modifiers: KeyModifiers::control_only() }
}

fn plain(code: KeyCode) -> KeySpec {
    KeySpec { code, modifiers: KeyModifiers::none() }
}

#[test]
fn every_action_is_found_again_by_its_name() {
    for action in ALL_ACTIONS {
        assert_eq!(Action::from_name(action.name()), Some(action));
    }
    assert_eq!(Action::Noop.name(), "noop");
    assert_eq!(Action::from_name("noop"), None);
    assert_eq!(Action::from_name("Quit"), None);
}

#[test]
fn key_specs_parse_modifiers_in_any_case_and_order() {
    assert_eq!(parse_key_spec("ctrl+r"), Ok(ctrl('r')));
    assert_eq!(parse_key_spec("Ctrl+R"), Ok(ctrl('r')));
    let spec = parse_key_spec("shift+alt+tab").unwrap();
    assert_eq!(spec.code, KeyCode::Tab);
    assert!(spec.modifiers.shift && spec.modifiers.alt && !spec.modifiers.control);
}

#[test]
fn key_names_and_function_keys_parse() {
    assert_eq!(parse_key_spec("F5"), Ok(plain(KeyCode::F(5))));
    assert_eq!(parse_key_spec("f12"), Ok(plain(KeyCode::F(12))));
    assert_eq!(parse_key_spec("space"), Ok(plain(KeyCode::Char(' '))));
    assert_eq!(parse_key_spec("escape"), Ok(plain(KeyCode::Esc)));
    assert_eq!(parse_key_spec("del"), Ok(plain(KeyCode::Delete)));
    assert_eq!(parse_key_spec("x"), Ok(plain(KeyCode::Char('x'))));
    assert_eq!(parse_key_spec("f"), Ok(plain(KeyCode::Char('f'))));
}

#[test]
fn unknown_keys_are_reported() {
    let err = parse_key_spec("f13").unwrap_err();
    assert_eq!(err.0, "unrecognized key \"f13\"");
    let err = parse_key_spec("ctrl+banana").unwrap_err();
    assert_eq!(err.0, "unrecognized key \"banana\"");
}

#[test]
fn key_specs_format_for_display() {
    assert_eq!(format_key_spec(ctrl('r')), "Ctrl+R");
    assert_eq!(format_key_spec(plain(KeyCode::F(10))), "F10");
    assert_eq!(format_key_spec(plain(KeyCode::Char(' '))), "Space");
    assert_eq!(format_key_spec(parse_key_spec("shift+alt+tab").unwrap()), "Alt+Shift+Tab");
}

#[test]
fn default_bindings_map_keys_to_actions() {
    let bindings = KeyBindings::defaults();
    assert_eq!(bindings.map_key(KeyEvent::plain(KeyCode::F(10))), Action::Quit);
    assert_eq!(bindings.map_key(KeyEvent { code: KeyCode::Char('r'), modifiers: KeyModifiers::control_only() }), Action::Refresh);
    assert_eq!(bindings.map_key(KeyEvent::plain(KeyCode::Char('r'))), Action::Noop);
    assert_eq!(bindings.key_for(Action::Help), Some(plain(KeyCode::F(1))));
    assert_eq!(bindings.key_for(Action::Noop), None);
    for action in ALL_ACTIONS {
        let key = bindings.key_for(action).unwrap();
        assert_eq!(bindings.map_key(KeyEvent { code: key.code, modifiers: key.modifiers }), action);
    }
}

#[test]
fn overrides_rebind_and_warn() {
    let overrides = vec![
        ("quit".to_string(), "ctrl+q".to_string()),
        ("fly".to_string(), "f3".to_string()),
        ("help".to_string(), "hyper+x+y".to_string()),
        ("refresh".to_string(), "f5".to_string()),
    ];
    let (bindings, warnings) = KeyBindings::from_overrides(&overrides);
    assert_eq!(bindings.map_key(KeyEvent { code: KeyCode::Char('q'), modifiers: KeyModifiers::control_only() }), Action::Quit);
    assert_eq!(bindings.map_key(KeyEvent::plain(KeyCode::F(10))), Action::Noop);
    assert_eq!(bindings.map_key(KeyEvent::plain(KeyCode::F(5))), Action::Refresh);
    assert_eq!(bindings.key_for(Action::Copy), None);
    assert_eq!(
        warnings,
        vec![
            "unknown key binding action \"fly\"".to_string(),
            "invalid key \"hyper+x+y\" for \"help\": unrecognized key \"hyper+x+y\"".to_string(),
            "key \"f5\" is already bound to \"copy\"; \"refresh\" now overrides it".to_string(),
        ]
    );
}

#[test]
fn key_bindings_from_config_are_used_for_key_mapping() {
    let overrides = vec![("quit".to_string(), "ctrl+q".to_string())];
    let (bindings, warnings) = KeyBindings::from_overrides(&overrides);
    assert!(warnings.is_empty());
    assert_eq!(bindings.map_key(KeyEvent { code: KeyCode::Char('q'), modifiers: KeyModifiers::control_only() }), Action::Quit);
}

#[test]
fn hint_line_shows_the_keys_in_force() {
    let bindings = KeyBindings::defaults();
    assert_eq!(termconnect::tui::input::build_hint_text(&bindings), "F1 Help  F9 Connections  F10 Quit");
    let overrides = vec![("quit".to_string(), "ctrl+q".to_string())];
    let (bindings, _) = KeyBindings::from_overrides(&overrides);
    assert_eq!(termconnect::tui::input::build_hint_text(&bindings), "F1 Help  F9 Connections  Ctrl+Q Quit");
}

#[test]
fn help_lines_pair_each_key_with_its_action() {
    let bindings = KeyBindings::defaults();
    assert_eq!(help_line(&bindings, Action::Quit), format!("{:<10} quit", format_key_spec(bindings.key_for(Action::Quit).unwrap())));
    assert_eq!(ALL_ACTIONS.len(), 24);
    assert!(!ALL_ACTIONS.contains(&Action::Noop));
    let (rebound, _) = KeyBindings::from_overrides(&vec![("help".to_string(), "f10".to_string())]);
    assert_eq!(rebound.key_for(Action::Quit), None);
    assert_eq!(help_line(&rebound, Action::Quit), "(unbound)  quit");
}
