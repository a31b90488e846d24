use tinysocks::config::{AuthConfig, Config, ConfigError, ServerConfig};
use tinysocks::io_timeout::timeout_message;
use tinysocks::protocol::AuthMethod;
use tinysocks::server::{detect_protocol, socks_auth_method, ProxyProtocol, ProxyServer};
use tinysocks::stats::Stats;

fn config(bind: &str) -> Config {
    Config {
        server: ServerConfig { bind: bind.to_string(), max_connections: 16 },
        auth: AuthConfig {
            username: Some("user".to_string()),
            password: Some("pass".to_string()),
            bypass_ips: Vec::new(),
        },
    }
}

#[test]
fn proxy_server_instances_do_not_share_global_auth_state() {
    ProxyServer::new(config("127.0.0.1:0")).expect("first server should build");
    ProxyServer::new(config("127.0.0.1:0")).expect("second server should build");
}

#[test]
fn proxy_server_keeps_its_settings() {
    let server = ProxyServer::new(config("127.0.0.1:1080")).unwrap();
    assert_eq!(server.bind(), "127.0.0.1:1080");
    assert_eq!(server.max_connections(), 16);
    assert_eq!(server.auth().username.as_deref(), Some("user"));
    let mut stats = Stats::new();
    stats.inc_total_connections();
    let with = ProxyServer::with_stats(config("x"), stats).unwrap();
    assert_eq!(with.into_stats().snapshot().total_connections, 1);
}

#[test]
fn proxy_server_refuses_invalid_config() {
    let mut cfg = config("");
    assert_eq!(ProxyServer::new(cfg.clone()).err(), Some(ConfigError::EmptyBind));
    cfg.server.bind = "a".to_string();
    cfg.auth.password = None;
    assert_eq!(ProxyServer::new(cfg).err(), Some(ConfigError::MissingAuth));
}

#[test]
fn first_byte_and_auth_method() {
    assert_eq!(detect_protocol(0x05), ProxyProtocol::Socks5);
    assert_eq!(detect_protocol(b'G'), ProxyProtocol::Http);
    assert_eq!(detect_protocol(0x04), ProxyProtocol::Http);
    assert_eq!(socks_auth_method(true), AuthMethod::NoAuth);
    assert_eq!(socks_auth_method(false), AuthMethod::UsernamePassword);
}

#[test]
fn timeout_message_names_action_and_limit() {
    assert_eq!(timeout_message("HTTP request header read"), "HTTP request header read timed out after 180s");
}
