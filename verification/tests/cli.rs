use tinysocks::cli::{Cli, Command};

#[test]
fn cli_runtime_options_copy_every_option() {
    let cli = Cli {
        bind: "127.0.0.1:2080".to_string(),
        max_connections: 7,
        username: Some("admin".to_string()),
        password: None,
        bypass_ips: vec!["127.0.0.1".to_string(), "192.168.1.1".to_string()],
        command: Some(Command::Install),
    };
    let options = cli.runtime_options();
    assert_eq!(options.bind, "127.0.0.1:2080");
    assert_eq!(options.max_connections, 7);
    assert_eq!(options.username.as_deref(), Some("admin"));
    assert_eq!(options.password, None);
    assert_eq!(options.bypass_ips, vec!["127.0.0.1", "192.168.1.1"]);
    assert_eq!(cli.command, Some(Command::Install));
}
