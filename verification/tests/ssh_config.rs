use termconnect::connection::ssh_config::{default_path, load, parse};

#[test]
fn parses_a_single_host_block() {
    let config = "\
Host production
    HostName server.example.com
    User deploy
    Port 2222
    IdentityFile ~/.ssh/id_ed25519
";
    let hosts = parse(config, None);

    assert_eq!(hosts.len(), 1);
    assert_eq!(hosts[0].name, "production");
    assert_eq!(hosts[0].host_name.as_deref(), Some("server.example.com"));
    assert_eq!(hosts[0].user.as_deref(), Some("deploy"));
    assert_eq!(hosts[0].port, Some(2222));
}

#[test]
fn skips_wildcard_host_patterns() {
    let config = "\
Host *
    User default_user

Host staging
    HostName staging.example.com
";
    let hosts = parse(config, None);

    assert_eq!(hosts.len(), 1);
    assert_eq!(hosts[0].name, "staging");
}

#[test]
fn one_host_line_with_multiple_aliases_shares_settings() {
    let config = "\
Host a b
    HostName shared.example.com
";
    let hosts = parse(config, None);

    assert_eq!(hosts.len(), 2);
    assert_eq!(hosts[0].name, "a");
    assert_eq!(hosts[1].name, "b");
    assert_eq!(hosts[0].host_name.as_deref(), Some("shared.example.com"));
    assert_eq!(hosts[1].host_name.as_deref(), Some("shared.example.com"));
}

#[test]
fn ignores_comments_and_blank_lines() {
    let config = "\
# a comment
Host production # trailing comment
    HostName server.example.com

";
    let hosts = parse(config, None);

    assert_eq!(hosts.len(), 1);
    assert_eq!(hosts[0].name, "production");
    assert_eq!(hosts[0].host_name.as_deref(), Some("server.example.com"));
}

#[test]
fn unknown_directives_are_ignored() {
    let config = "\
Host production
    ProxyJump bastion
    HostName server.example.com
";
    let hosts = parse(config, None);

    assert_eq!(hosts.len(), 1);
    assert_eq!(hosts[0].host_name.as_deref(), Some("server.example.com"));
}

#[test]
fn identity_file_tilde_expands_to_the_given_home() {
    let config = "\
Host production
    IdentityFile ~/.ssh/id_ed25519
";
    let hosts = parse(config, Some("/home/deploy"));
    assert_eq!(hosts[0].identity_file.as_deref(), Some("/home/deploy/.ssh/id_ed25519"));
}

#[test]
fn an_unreadable_port_is_ignored() {
    let config = "\
Host production
    Port seventy
";
    let hosts = parse(config, None);
    assert_eq!(hosts[0].port, None);
}

#[test]
fn loading_reads_the_file_only_where_there_is_one() {
    assert_eq!(default_path(Some("/home/me")), Some("/home/me/.ssh/config".to_string()));
    assert_eq!(default_path(None), None);
    assert!(load(None, Some("/home/me")).is_empty());
    let hosts = load(Some("Host box\n    IdentityFile ~/.ssh/key\n"), Some("/home/me"));
    assert_eq!(hosts.len(), 1);
    assert_eq!(hosts[0].name, "box");
    assert_eq!(hosts[0].identity_file.as_deref(), Some("/home/me/.ssh/key"));
}
