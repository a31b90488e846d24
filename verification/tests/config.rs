use tinysocks::config::{
    parse_allowlist_entries, parse_allowlist_entry, Config, ConfigError, RuntimeOptions, DEFAULT_BIND,
    DEFAULT_MAX_CONNECTIONS,
};
use tinysocks::net::IpAddress;

fn sample_options() -> RuntimeOptions {
    RuntimeOptions {
        bind: "0.0.0.0:2080".to_string(),
        max_connections: 4096,
        username: Some("cli-user".to_string()),
        password: Some("cli-pass".to_string()),
        bypass_ips: vec!["127.0.0.1".to_string(), "10.0.0.0/8".to_string()],
    }
}

#[test]
fn runtime_options_build_config() {
    let cfg = Config::from_runtime_options(sample_options()).expect("should build config");

    assert_eq!(cfg.server.bind, "0.0.0.0:2080");
    assert_eq!(cfg.server.max_connections, 4096);
    assert_eq!(cfg.auth.username.as_deref(), Some("cli-user"));
    assert_eq!(cfg.auth.password.as_deref(), Some("cli-pass"));
    assert_eq!(cfg.auth.bypass_ips.len(), 2);
    assert_eq!(cfg.auth.bypass_ips[0].prefix_len(), 32);
    assert_eq!(cfg.auth.bypass_ips[1].prefix_len(), 8);
}

#[test]
fn runtime_options_use_cli_defaults() {
    let cfg = Config::from_runtime_options(RuntimeOptions {
        bind: DEFAULT_BIND.to_string(),
        max_connections: DEFAULT_MAX_CONNECTIONS,
        username: Some("user".to_string()),
        password: Some("pass".to_string()),
        bypass_ips: Vec::new(),
    })
    .expect("should build config");

    assert_eq!(cfg.server.bind, DEFAULT_BIND);
    assert_eq!(cfg.server.max_connections, DEFAULT_MAX_CONNECTIONS);
    assert!(cfg.auth.bypass_ips.is_empty());
}

#[test]
fn runtime_options_reject_missing_credentials() {
    let mut options = sample_options();
    options.bypass_ips.clear();
    options.password = None;

    assert!(Config::from_runtime_options(options).is_err());
}

#[test]
fn runtime_options_allow_bypass_ips_without_credentials() {
    let mut options = sample_options();
    options.username = None;
    options.password = None;

    let cfg = Config::from_runtime_options(options).expect("should build allowlist-only config");
    assert!(cfg.auth.username.is_none());
    assert!(cfg.auth.password.is_none());
    assert_eq!(cfg.auth.bypass_ips.len(), 2);
}

#[test]
fn runtime_options_reject_partial_credentials_even_with_bypass_ips() {
    let mut options = sample_options();
    options.password = None;

    assert!(Config::from_runtime_options(options).is_err());
}

#[test]
fn runtime_options_reject_zero_max_connections() {
    let mut options = sample_options();
    options.max_connections = 0;

    assert!(Config::from_runtime_options(options).is_err());
}

#[test]
fn runtime_options_reject_empty_bind() {
    let cfg = Config::from_runtime_options(RuntimeOptions {
        bind: "".to_string(),
        max_connections: DEFAULT_MAX_CONNECTIONS,
        username: Some("user".to_string()),
        password: Some("pass".to_string()),
        bypass_ips: Vec::new(),
    });
    assert!(cfg.is_err());
}

#[test]
fn runtime_options_reject_max_connections_above_limit() {
    // MAX_CONNECTIONS_LIMIT is 1_000_000
    let cfg = Config::from_runtime_options(RuntimeOptions {
        bind: DEFAULT_BIND.to_string(),
        max_connections: 2_000_000,
        username: Some("user".to_string()),
        password: Some("pass".to_string()),
        bypass_ips: Vec::new(),
    });
    assert!(cfg.is_err());
}

#[test]
fn parse_allowlist_ipv6_without_cidr_defaults_to_host() {
    let cfg = Config::from_runtime_options(RuntimeOptions {
        bind: DEFAULT_BIND.to_string(),
        max_connections: DEFAULT_MAX_CONNECTIONS,
        username: Some("user".to_string()),
        password: Some("pass".to_string()),
        bypass_ips: vec!["::1".to_string()],
    })
    .expect("should build config");
    assert_eq!(cfg.auth.bypass_ips.len(), 1);
    assert_eq!(cfg.auth.bypass_ips[0].prefix_len(), 128);
}

#[test]
fn parse_ipv4_without_cidr_defaults_to_host() {
    let net = parse_allowlist_entry("1.2.3.4").expect("should parse IPv4");
    assert_eq!(net.prefix_len(), 32);
    assert_eq!(net.addr(), IpAddress::V4([1, 2, 3, 4]));
}

#[test]
fn parse_ipv4_network_preserves_prefix() {
    let net = parse_allowlist_entry("10.0.0.0/8").expect("should parse IPv4 network");
    assert_eq!(net.prefix_len(), 8);
    assert_eq!(net.addr(), IpAddress::V4([10, 0, 0, 0]));
}

#[test]
fn parse_ipv6_network() {
    let net = parse_allowlist_entry("2001:db8::/32").expect("should parse IPv6 network");
    assert_eq!(net.prefix_len(), 32);
    assert_eq!(net.addr(), IpAddress::V6([0x20, 0x01, 0x0d, 0xb8, 0, 0, 0, 0, 0, 0, 0, 0, 0, 0, 0, 0]));
}

#[test]
fn parse_invalid_entry_returns_none() {
    assert!(parse_allowlist_entry("not-an-ip").is_none());
}

// Each refusal names its rule, in the order the rules are checked.

#[test]
fn runtime_options_errors_name_the_rule() {
    let err = |o: RuntimeOptions| Config::from_runtime_options(o).unwrap_err();
    let mut o = sample_options();
    o.bind = String::new();
    o.max_connections = 0;
    assert_eq!(err(o), ConfigError::EmptyBind);
    let mut o = sample_options();
    o.max_connections = 0;
    assert_eq!(err(o), ConfigError::ZeroMaxConnections);
    let mut o = sample_options();
    o.max_connections = 1_000_001;
    assert_eq!(err(o), ConfigError::MaxConnectionsAboveLimit);
    let mut o = sample_options();
    o.bypass_ips.clear();
    o.password = Some(String::new());
    assert_eq!(err(o), ConfigError::MissingAuth);
    let mut o = sample_options();
    o.password = None;
    assert_eq!(err(o), ConfigError::PartialCredentials);
    let mut o = sample_options();
    o.max_connections = 0;
    o.bypass_ips = vec!["10.0.0.1".to_string(), " bogus ".to_string(), "also bad".to_string()];
    assert_eq!(err(o), ConfigError::InvalidBypassIp("bogus".to_string()));
    assert_eq!(ConfigError::InvalidBypassIp("x".to_string()).message(), "invalid bypass IP: x");
    assert_eq!(ConfigError::EmptyBind.message(), "bind address cannot be empty");
}

#[test]
fn allowlist_entries_are_trimmed_and_validated() {
    let nets = parse_allowlist_entries(vec![" 192.168.0.0/16 ".to_string(), "::1".to_string()]).unwrap();
    assert_eq!(nets.len(), 2);
    assert_eq!(nets[0].prefix_len(), 16);
    assert_eq!(nets[1].addr(), IpAddress::V6([0, 0, 0, 0, 0, 0, 0, 0, 0, 0, 0, 0, 0, 0, 0, 1]));
    assert!(parse_allowlist_entry("10.0.0.0/33").is_none());
    assert!(parse_allowlist_entry("::/129").is_none());
    assert_eq!(parse_allowlist_entry("10.1.2.3/8").unwrap().addr(), IpAddress::V4([10, 1, 2, 3]));
}

#[test]
fn validate_checks_the_built_config() {
    let cfg = Config::from_runtime_options(sample_options()).unwrap();
    assert!(cfg.validate().is_ok());
    let mut bad = cfg.clone();
    bad.auth.username = None;
    assert_eq!(bad.validate(), Err(ConfigError::PartialCredentials));
}
