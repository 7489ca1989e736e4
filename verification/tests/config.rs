use termconnect::config::bookmarks::{bookmark_label, bookmarks_path, Bookmark, Bookmarks};
use termconnect::config::bookmarks::load as load_bookmarks;
use termconnect::config::{config_dir, load, FileContents};
use termconnect::config::settings::{
    parse_sort_spec, settings_from_file, PanelSettings, PanelSettingsFile, Settings, SettingsFile, TransferSettingsFile,
};
use termconnect::logging::{log_path, state_dir};
use termconnect::tui::sort::{SortKey, SortOrder, SortSpec};

fn file(key: Option<&str>, order: Option<&str>, parallel: Option<i64>) -> SettingsFile {
    SettingsFile {
        panel: PanelSettingsFile { show_hidden: Some(true), sort_key: key.map(String::from), sort_order: order.map(String::from) },
        keys: vec![("quit".to_string(), "ctrl+q".to_string())],
        transfers: TransferSettingsFile { max_parallel: parallel },
    }
}

#[test]
fn settings_use_valid_values_as_given() {
    let (settings, warnings) = settings_from_file(file(Some("size"), Some("descending"), Some(8)));
    assert!(warnings.is_empty());
    assert!(settings.panel.show_hidden);
    assert_eq!(settings.panel.sort_key, "size");
    assert_eq!(settings.panel.sort_order, "descending");
    assert_eq!(settings.transfers.max_parallel, 8);
    assert_eq!(settings.keys, vec![("quit".to_string(), "ctrl+q".to_string())]);
    assert_eq!(parse_sort_spec(&settings.panel), SortSpec { key: SortKey::Size, order: SortOrder::Descending });
}

#[test]
fn settings_replace_bad_values_with_a_warning_each() {
    let (settings, warnings) = settings_from_file(file(Some("date"), Some("up"), Some(64)));
    assert_eq!(settings.panel.sort_key, "name");
    assert_eq!(settings.panel.sort_order, "ascending");
    assert_eq!(settings.transfers.max_parallel, 16);
    assert_eq!(
        warnings,
        vec![
            "unknown panel.sort_key \"date\", using \"name\"".to_string(),
            "unknown panel.sort_order \"up\", using \"ascending\"".to_string(),
            "transfers.max_parallel is capped at 16, using 16".to_string(),
        ]
    );
    let (settings, warnings) = settings_from_file(file(None, None, Some(0)));
    assert_eq!(settings.transfers.max_parallel, 1);
    assert_eq!(warnings, vec!["transfers.max_parallel must be at least 1, using 1".to_string()]);
}

#[test]
fn missing_settings_take_the_defaults() {
    let empty = SettingsFile {
        panel: PanelSettingsFile { show_hidden: None, sort_key: None, sort_order: None },
        keys: Vec::new(),
        transfers: TransferSettingsFile { max_parallel: None },
    };
    let (settings, warnings) = settings_from_file(empty);
    assert!(warnings.is_empty());
    assert_eq!(settings, Settings::default());
    assert_eq!(PanelSettings::default().sort_key, "name");
    assert_eq!(parse_sort_spec(&settings.panel), SortSpec::default());
}

fn bookmark(label: &str) -> Bookmark {
    Bookmark { label: label.to_string(), path: format!("/{label}"), host: None }
}

#[test]
fn bookmarks_keep_their_order() {
    let mut bookmarks = Bookmarks::default();
    assert!(bookmarks.is_empty());
    bookmarks.add(bookmark("a"));
    bookmarks.add(bookmark("b"));
    bookmarks.add(Bookmark { label: "prod etc".to_string(), path: "/etc".to_string(), host: Some("production".to_string()) });
    assert_eq!(bookmarks.len(), 3);
    assert_eq!(bookmarks.get(1).unwrap().label, "b");
    assert_eq!(bookmarks.remove(0).unwrap().label, "a");
    assert!(bookmarks.remove(5).is_none());
    assert_eq!(bookmarks.iter().iter().map(|b| b.label.as_str()).collect::<Vec<_>>(), vec!["b", "prod etc"]);
    assert!(bookmarks.get(2).is_none());
}

#[test]
fn configuration_paths_follow_the_environment() {
    assert_eq!(config_dir(Some("/xdg"), Some("/home/me")), Ok("/xdg/termconnect".to_string()));
    assert_eq!(config_dir(None, Some("/home/me")), Ok("/home/me/.config/termconnect".to_string()));
    assert_eq!(config_dir(None, None), Err("HOME environment variable is not set".to_string()));
    assert_eq!(bookmarks_path("/cfg"), "/cfg/bookmarks.toml");
    assert_eq!(state_dir(None, Some("/home/me")), Ok("/home/me/.local/state/termconnect".to_string()));
    assert_eq!(state_dir(Some("/st"), None), Ok("/st/termconnect".to_string()));
    assert_eq!(log_path("/st/termconnect"), "/st/termconnect/termconnect.log");
}

#[test]
fn a_missing_or_broken_settings_file_gives_the_defaults() {
    let (settings, warnings) = load(FileContents::Missing);
    assert_eq!(settings, Settings::default());
    assert!(warnings.is_empty());
    let (settings, warnings) = load(FileContents::Unparsable("expected `=`".to_string()));
    assert_eq!(settings, Settings::default());
    assert_eq!(warnings.len(), 1);
    assert_eq!(warnings[0].0, "failed to parse config.toml: expected `=`");
    let (settings, warnings) = load(FileContents::Parsed(file(Some("bogus"), None, Some(2))));
    assert_eq!(settings.transfers.max_parallel, 2);
    assert!(settings.panel.show_hidden);
    assert_eq!(warnings.len(), 1);
    assert_eq!(warnings[0].0, "unknown panel.sort_key \"bogus\", using \"name\"");
}

#[test]
fn bookmarks_load_from_what_the_file_held() {
    let (bookmarks, warnings) = load_bookmarks(FileContents::Missing);
    assert!(bookmarks.is_empty());
    assert!(warnings.is_empty());
    let (bookmarks, warnings) = load_bookmarks(FileContents::Unparsable("bad".to_string()));
    assert!(bookmarks.is_empty());
    assert_eq!(warnings[0].0, "failed to parse bookmarks.toml: bad");
    let (bookmarks, warnings) = load_bookmarks(FileContents::Parsed(vec![bookmark("a"), bookmark("b")]));
    assert_eq!(bookmarks.len(), 2);
    assert_eq!(bookmarks.get(1).unwrap().label, "b");
    assert!(warnings.is_empty());
}

#[test]
fn the_bookmark_list_names_the_host_of_a_remote_bookmark() {
    assert_eq!(bookmark_label(&bookmark("home")), "home \u{2014} /home");
    let remote = Bookmark { label: "logs".to_string(), path: "/var/log".to_string(), host: Some("prod".to_string()) };
    assert_eq!(bookmark_label(&remote), "logs \u{2014} /var/log [prod]");
}
