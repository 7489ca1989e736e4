use termconnect::connection::client::{HostKeyCheck, TermConnectHandler};
use termconnect::connection::ssh_config::SshConfigHost;
use termconnect::connection::{connection_line, list_all};
use termconnect::connection::connect::{connect_step, ConnectCommand, ConnectReport, ConnectStage};
use termconnect::connection::form::{build_connection_form, build_connection_profile, FormOutcome};
use termconnect::connection::profile::{ConnectionEntry, ConnectionProfile, ConnectionSource};
use termconnect::connection::store::{check_name_free, config_path, load, save, ConfigFile};
use termconnect::errors::user_message;
use termconnect::terminal::command_for_with;
use termconnect::tui::keys::{KeyCode, KeyEvent};

fn sample_entry() -> ConnectionEntry {
    ConnectionEntry {
        name: "production".to_string(),
        host: "server.example.com".to_string(),
        port: 2222,
        username: "deploy".to_string(),
        identity_file: Some("/home/user/.ssh/id_ed25519".to_string()),
        remote_path: None,
        password: None,
        source: ConnectionSource::Profile,
    }
}

#[test]
fn command_includes_port_identity_and_user_at_host() {
    let command = command_for_with(&sample_entry(), None);
    assert_eq!(command.program, "ssh");
    assert_eq!(command.args, vec!["-p", "2222", "-i", "/home/user/.ssh/id_ed25519", "deploy@server.example.com"]);
}

#[test]
fn command_omits_identity_flag_when_none_is_set() {
    let mut entry = sample_entry();
    entry.identity_file = None;
    let command = command_for_with(&entry, None);
    assert_eq!(command.args, vec!["-p", "2222", "deploy@server.example.com"]);
}

#[test]
fn a_saved_password_goes_through_sshpass_when_it_is_installed() {
    let mut entry = sample_entry();
    entry.password = Some("s3cret".to_string());
    let command = command_for_with(&entry, Some("/usr/bin/sshpass".to_string()));
    assert_eq!(command.program, "/usr/bin/sshpass");
    assert_eq!(command.args[..2], ["-e".to_string(), "ssh".to_string()]);
    assert_eq!(command.env, vec![("SSHPASS".to_string(), "s3cret".to_string())]);
    let without = command_for_with(&entry, None);
    assert_eq!(without.program, "ssh");
    assert!(without.env.is_empty());
}

fn profile(name: &str, host: &str) -> ConnectionProfile {
    ConnectionProfile {
        name: name.to_string(),
        host: host.to_string(),
        port: 22,
        username: "user".to_string(),
        identity_file: None,
        remote_path: None,
        password: None,
    }
}

#[test]
fn saved_profiles_load_in_name_order_under_their_keys() {
    let mut file = ConfigFile::new();
    save(&mut file, &profile("staging", "s.example.com"));
    save(&mut file, &profile("alpha", "a.example.com"));
    file.insert("beta".to_string(), profile("", "b.example.com"));
    let loaded = load(&file);
    let names: Vec<&str> = loaded.iter().map(|p| p.name.as_str()).collect();
    assert_eq!(names, vec!["alpha", "beta", "staging"]);
    assert_eq!(loaded[1].host, "b.example.com");
    save(&mut file, &profile("alpha", "new.example.com"));
    assert_eq!(load(&file).len(), 3);
    assert_eq!(load(&file)[0].host, "new.example.com");
    file.remove("beta");
    file.remove("missing");
    let names: Vec<String> = load(&file).into_iter().map(|p| p.name).collect();
    assert_eq!(names, vec!["alpha".to_string(), "staging".to_string()]);
    assert_eq!(file.entries().len(), 2);
    assert_eq!(config_path("/cfg"), "/cfg/connections.toml");
}

#[test]
fn the_connection_form_starts_from_the_entry_or_blank() {
    let blank = build_connection_form("Add Connection", None);
    let values: Vec<&str> = blank.fields.iter().map(|f| f.value.as_str()).collect();
    assert_eq!(values, vec!["", "", "22", "", ""]);
    assert!(blank.fields[4].masked && !blank.fields[0].masked);
    let mut entry = sample_entry();
    entry.password = Some("pw".to_string());
    let edit = build_connection_form("Edit Connection", Some(&entry));
    let values: Vec<&str> = edit.fields.iter().map(|f| f.value.as_str()).collect();
    assert_eq!(values, vec!["production", "server.example.com", "2222", "deploy", "pw"]);
    assert_eq!(edit.fields[2].label, "Port");
}

fn values(v: [&str; 5]) -> Vec<String> {
    v.iter().map(|s| s.to_string()).collect()
}

#[test]
fn form_values_make_a_profile_or_say_what_is_wrong() {
    let ok = build_connection_profile(&values([" prod ", "host", " 2200 ", "me", ""]), Some(&sample_entry())).unwrap();
    assert_eq!(ok.name, "prod");
    assert_eq!(ok.port, 2200);
    assert_eq!(ok.password, None);
    assert_eq!(ok.identity_file.as_deref(), Some("/home/user/.ssh/id_ed25519"));
    let with_password = build_connection_profile(&values(["p", "h", "22", "u", " pw "]), None).unwrap();
    assert_eq!(with_password.password.as_deref(), Some(" pw "));
    assert_eq!(build_connection_profile(&values(["  ", "h", "22", "u", ""]), None).err().unwrap(), "Name can't be empty");
    assert_eq!(build_connection_profile(&values(["n", "", "22", "u", ""]), None).err().unwrap(), "Host can't be empty");
    assert_eq!(build_connection_profile(&values(["n", "h", "22", " ", ""]), None).err().unwrap(), "Username can't be empty");
    assert_eq!(build_connection_profile(&values(["n", "h", "0", "u", ""]), None).err().unwrap(), "Port must be a number from 1-65535");
    assert_eq!(build_connection_profile(&values(["n", "h", "70000", "u", ""]), None).err().unwrap(), "Port must be a number from 1-65535");
    assert_eq!(build_connection_profile(&values(["n", "h", "x", "u", ""]), None).err().unwrap(), "Port must be a number from 1-65535");
    assert_eq!(build_connection_profile(&["a".to_string()], None).err().unwrap(), "Unexpected number of fields");
}

#[test]
fn debug_output_hides_the_password() {
    let mut entry = sample_entry();
    assert_eq!(entry.redacted_password(), None);
    entry.password = Some("hunter2".to_string());
    assert_eq!(entry.redacted_password(), Some("<redacted>"));
    let mut p = profile("a", "h");
    p.password = Some("x".to_string());
    assert_eq!(p.redacted_password(), Some("<redacted>"));
    assert_eq!(termconnect::connection::profile::default_port(), 22);
}

#[test]
fn a_connection_with_keys_goes_straight_to_sftp() {
    let entry = sample_entry();
    let (stage, command) = connect_step(ConnectStage::Connecting, &entry, ConnectReport::Connected);
    assert_eq!((stage, command), (ConnectStage::Authenticating, ConnectCommand::AuthenticateWithoutPassword));
    let (stage, command) = connect_step(stage, &entry, ConnectReport::AuthAccepted(true));
    assert_eq!((stage, command), (ConnectStage::OpeningSftp, ConnectCommand::OpenSftp));
    let (stage, command) = connect_step(stage, &entry, ConnectReport::SftpOpened);
    assert_eq!((stage, command), (ConnectStage::Finished, ConnectCommand::Done));
    let (stage, command) = connect_step(stage, &entry, ConnectReport::Connected);
    assert_eq!((stage, command), (ConnectStage::Finished, ConnectCommand::Ignore));
}

#[test]
fn a_refused_key_asks_for_a_password() {
    let entry = sample_entry();
    let (stage, command) = connect_step(ConnectStage::Authenticating, &entry, ConnectReport::AuthAccepted(false));
    assert_eq!(stage, ConnectStage::AwaitingPassword);
    assert_eq!(command, ConnectCommand::AskPassword { name: "production".to_string(), username: "deploy".to_string() });
    let (stage, command) = connect_step(stage, &entry, ConnectReport::PasswordGiven("pw".to_string()));
    assert_eq!(command, ConnectCommand::AuthenticateWithPassword("pw".to_string()));
    let (stage, command) = connect_step(stage, &entry, ConnectReport::PasswordChecked(false));
    assert_eq!(stage, ConnectStage::Finished);
    assert_eq!(command, ConnectCommand::Fail("Authentication failed for production".to_string()));
    let (_, command) = connect_step(ConnectStage::AwaitingPassword, &entry, ConnectReport::PasswordWithdrawn);
    assert_eq!(command, ConnectCommand::Fail("Connection cancelled".to_string()));
}

#[test]
fn failures_name_the_connection_and_the_cause() {
    let entry = sample_entry();
    let (_, command) = connect_step(ConnectStage::Connecting, &entry, ConnectReport::ConnectFailed("refused".to_string()));
    assert_eq!(command, ConnectCommand::Fail("Unable to connect to production:\nrefused".to_string()));
    let (_, command) = connect_step(ConnectStage::OpeningSftp, &entry, ConnectReport::SftpFailed("no subsystem".to_string()));
    assert_eq!(command, ConnectCommand::Fail("Connected to production but failed to start SFTP:\nno subsystem".to_string()));
    assert_eq!(user_message("Copy failed", "disk full"), "Copy failed:\ndisk full");
}

#[test]
fn only_keys_listed_in_known_hosts_are_trusted() {
    let handler = TermConnectHandler::new("example.com", 2222);
    assert_eq!(handler.host(), "example.com");
    assert_eq!(handler.port(), 2222);
    assert_eq!(handler.check_server_key(&HostKeyCheck::Known), Ok(true));
    assert_eq!(
        handler.check_server_key(&HostKeyCheck::Certificate),
        Err("the host key for example.com is a certificate, which TermConnect does not yet support".to_string())
    );
    assert_eq!(
        handler.check_server_key(&HostKeyCheck::Unknown),
        Err("host key for example.com:2222 is not in ~/.ssh/known_hosts \u{2014} connect once with the system `ssh` client to trust it, or add it manually".to_string())
    );
    assert_eq!(
        handler.check_server_key(&HostKeyCheck::Changed { line: 17 }),
        Err("REMOTE HOST IDENTIFICATION HAS CHANGED for example.com:2222 (see ~/.ssh/known_hosts line 17) \u{2014} refusing to connect".to_string())
    );
    assert_eq!(handler.check_server_key(&HostKeyCheck::Unreadable("io".to_string())), Err("io".to_string()));
}

#[test]
fn the_form_edits_the_focused_field_and_submits_every_value() {
    let mut form = build_connection_form("Add connection", None);
    assert_eq!(form.focus, 0);
    for c in "box".chars() {
        assert!(matches!(form.handle_key(KeyEvent::plain(KeyCode::Char(c))), FormOutcome::Pending));
    }
    form.handle_key(KeyEvent::plain(KeyCode::Backspace));
    form.handle_key(KeyEvent::plain(KeyCode::Tab));
    form.handle_key(KeyEvent::plain(KeyCode::Char('h')));
    form.handle_key(KeyEvent::plain(KeyCode::Up));
    form.handle_key(KeyEvent::plain(KeyCode::Up));
    assert_eq!(form.focus, 4);
    form.handle_key(KeyEvent::plain(KeyCode::Char('p')));
    match form.handle_key(KeyEvent::plain(KeyCode::Enter)) {
        FormOutcome::Submitted(values) => assert_eq!(values, vec!["bo", "h", "22", "", "p"]),
        _ => panic!("Enter submits"),
    }
    assert!(matches!(form.handle_key(KeyEvent::plain(KeyCode::Esc)), FormOutcome::Cancelled));
    assert!(form.fields[4].masked);
}

#[test]
fn a_profile_name_may_not_take_another_profiles_name() {
    let existing = vec![profile("alpha", "a.example.com"), profile("beta", "b.example.com")];
    assert_eq!(check_name_free(&existing, "gamma", None), Ok(()));
    assert_eq!(check_name_free(&existing, "beta", None), Err("A connection named \"beta\" already exists".to_string()));
    assert_eq!(check_name_free(&existing, "beta", Some("beta")), Ok(()));
    assert_eq!(check_name_free(&existing, "beta", Some("alpha")), Err("A connection named \"beta\" already exists".to_string()));
}

#[test]
fn the_connections_screen_marks_active_and_connected_entries() {
    let entry = sample_entry();
    assert_eq!(connection_line(&entry, true, true), "* production (deploy@server.example.com:2222)");
    assert_eq!(connection_line(&entry, false, true), "+ production (deploy@server.example.com:2222)");
    assert_eq!(connection_line(&entry, false, false), "  production (deploy@server.example.com:2222)");
}

fn host(name: &str) -> SshConfigHost {
    SshConfigHost { name: name.to_string(), host_name: Some(format!("{name}.example.com")), user: None, port: None, identity_file: None }
}

#[test]
fn saved_profiles_come_before_config_hosts() {
    let profiles = vec![profile("zeta", "z.example.com"), profile("Beta", "b.example.com")];
    let hosts = vec![host("alpha"), host("zeta"), host("Gamma"), host("delta")];
    let all = list_all(profiles, hosts, "me");
    let names: Vec<&str> = all.iter().map(|e| e.name.as_str()).collect();
    assert_eq!(names, vec!["Beta", "zeta", "alpha", "delta", "Gamma"]);
    assert_eq!(all[0].source, ConnectionSource::Profile);
    assert_eq!(all[1].host, "z.example.com");
    assert_eq!(all[2].source, ConnectionSource::SshConfig);
    assert_eq!(all[2].username, "me");
    assert_eq!(all[2].port, 22);
}
