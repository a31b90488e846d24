use tinysocks::auth::{
    auth_step, basic_credentials_authorized, basic_payload, credentials_match, http_basic_authorized,
    ip_authenticate, AuthStep,
};
use tinysocks::config::{parse_allowlist_entry, AuthConfig};
use tinysocks::net::{IpAddress, IpNetwork};
use tinysocks::protocol::SocksError;

fn net(text: &str) -> IpNetwork {
    parse_allowlist_entry(text).unwrap()
}

#[test]
fn ip_authenticate_respects_allowlist() {
    let allowlist = vec![net("127.0.0.1/8"), net("::1/128")];

    assert!(ip_authenticate(&allowlist, IpAddress::V4([127, 0, 0, 1])));
    assert!(ip_authenticate(&allowlist, IpAddress::V6([0, 0, 0, 0, 0, 0, 0, 0, 0, 0, 0, 0, 0, 0, 0, 1])));
}

#[test]
fn ip_authenticate_rejects_outside_allowlist() {
    let allowlist = vec![net("127.0.0.1/8")];

    assert!(!ip_authenticate(&allowlist, IpAddress::V4([192, 0, 2, 1])));
    assert!(!ip_authenticate(&[], IpAddress::V4([127, 0, 0, 1])));
}

#[test]
fn http_basic_authorized_accepts_valid_credentials() {
    let auth = AuthConfig {
        username: Some("user".into()),
        password: Some("secret".into()),
        bypass_ips: Vec::new(),
    };
    let header = "Basic dXNlcjpzZWNyZXQ=";

    assert!(http_basic_authorized(Some(header), &auth));
}

#[test]
fn http_basic_authorized_rejects_invalid_credentials() {
    let auth = AuthConfig {
        username: Some("user".into()),
        password: Some("secret".into()),
        bypass_ips: Vec::new(),
    };
    let wrong_pass = "Basic dXNlcjp3cm9uZw==";
    let wrong_user = "Basic YWRtaW46c2VjcmV0";

    assert!(!http_basic_authorized(Some(wrong_pass), &auth));
    assert!(!http_basic_authorized(Some(wrong_user), &auth));
}

#[test]
fn http_basic_authorized_rejects_bad_prefix() {
    let auth = AuthConfig {
        username: Some("user".into()),
        password: Some("secret".into()),
        bypass_ips: Vec::new(),
    };

    assert!(!http_basic_authorized(Some("Bearer abc"), &auth));
}

#[test]
fn http_basic_authorized_rejects_none_header() {
    let auth = AuthConfig {
        username: Some("user".into()),
        password: Some("secret".into()),
        bypass_ips: Vec::new(),
    };
    assert!(!http_basic_authorized(None, &auth));
}

#[test]
fn http_basic_authorized_rejects_too_short_header() {
    let auth = AuthConfig {
        username: Some("user".into()),
        password: Some("secret".into()),
        bypass_ips: Vec::new(),
    };
    assert!(!http_basic_authorized(Some("Basic"), &auth));
    assert!(!http_basic_authorized(Some(""), &auth));
}

#[test]
fn http_basic_authorized_rejects_bad_base64() {
    let auth = AuthConfig {
        username: Some("user".into()),
        password: Some("secret".into()),
        bypass_ips: Vec::new(),
    };
    // Not valid base64
    assert!(!http_basic_authorized(Some("Basic !!!"), &auth));
}

#[test]
fn http_basic_authorized_rejects_no_colon_in_credentials() {
    let auth = AuthConfig {
        username: Some("user".into()),
        password: Some("secret".into()),
        bypass_ips: Vec::new(),
    };
    // "justuser" in base64 with no colon
    assert!(!http_basic_authorized(Some("Basic anVzdHVzZXI="), &auth));
}

#[test]
fn http_basic_authorized_rejects_when_auth_has_no_username() {
    let auth = AuthConfig {
        username: None,
        password: Some("secret".into()),
        bypass_ips: Vec::new(),
    };
    let header = "Basic dXNlcjpzZWNyZXQ=";
    assert!(!http_basic_authorized(Some(header), &auth));
}

#[test]
fn http_basic_authorized_rejects_when_auth_has_no_password() {
    let auth = AuthConfig {
        username: Some("user".into()),
        password: None,
        bypass_ips: Vec::new(),
    };
    let header = "Basic dXNlcjpzZWNyZXQ=";
    assert!(!http_basic_authorized(Some(header), &auth));
}

#[test]
fn http_basic_authorized_accepts_lowercase_basic_prefix() {
    let auth = AuthConfig {
        username: Some("user".into()),
        password: Some("secret".into()),
        bypass_ips: Vec::new(),
    };
    let header = "basic dXNlcjpzZWNyZXQ=";
    assert!(http_basic_authorized(Some(header), &auth));
}

#[test]
fn http_basic_authorized_accepts_mixed_case_basic_prefix() {
    let auth = AuthConfig {
        username: Some("user".into()),
        password: Some("secret".into()),
        bypass_ips: Vec::new(),
    };
    let header = "BaSiC dXNlcjpzZWNyZXQ=";
    assert!(http_basic_authorized(Some(header), &auth));
}

#[test]
fn http_basic_authorized_with_leading_spaces_in_encoded_part() {
    let auth = AuthConfig {
        username: Some("user".into()),
        password: Some("secret".into()),
        bypass_ips: Vec::new(),
    };
    // "Basic " followed by spaces then the base64-encoded credentials
    let header = "Basic   dXNlcjpzZWNyZXQ=";
    assert!(http_basic_authorized(Some(header), &auth));
}

// The pieces of the Basic check, and the SOCKS5 username/password exchange.

fn sample_auth() -> AuthConfig {
    AuthConfig {
        username: Some("user".into()),
        password: Some("secret".into()),
        bypass_ips: Vec::new(),
    }
}

#[test]
fn basic_pieces() {
    assert_eq!(basic_payload(b"Basic   abc"), Some(&b"abc"[..]));
    assert_eq!(basic_payload(b"bAsIc x"), Some(&b"x"[..]));
    assert_eq!(basic_payload(b"Basix abc"), None);
    assert_eq!(basic_payload(b"Basic"), None);
    let auth = sample_auth();
    assert!(basic_credentials_authorized(b"user:secret", &auth));
    assert!(!basic_credentials_authorized(b"user:secret:x", &auth));
    assert!(!basic_credentials_authorized(b"usersecret", &auth));
    assert!(credentials_match(b"a", b"b", b"a", b"b"));
    assert!(!credentials_match(b"a", b"b", b"a", b"c"));
    assert!(!credentials_match(b"a", b"b", b"ab", b"b"));
}

#[test]
fn password_with_colon_is_kept_whole() {
    let auth = AuthConfig {
        username: Some("u".into()),
        password: Some("p:q".into()),
        bypass_ips: Vec::new(),
    };
    // "u:p:q"
    assert!(http_basic_authorized(Some("Basic dTpwOnE="), &auth));
}

#[test]
fn auth_step_exchange() {
    let auth = sample_auth();
    let mut msg = vec![1, 4];
    msg.extend_from_slice(b"user");
    msg.push(6);
    msg.extend_from_slice(b"secret");
    assert_eq!(auth_step(&msg, &auth), AuthStep::Reply { status: 0, accepted: true });
    let mut wrong = vec![1, 4];
    wrong.extend_from_slice(b"user");
    wrong.push(5);
    wrong.extend_from_slice(b"wrong");
    assert_eq!(auth_step(&wrong, &auth), AuthStep::Reply { status: 1, accepted: false });
    assert_eq!(auth_step(&[], &auth), AuthStep::NeedBytes(1));
    assert_eq!(auth_step(&[1], &auth), AuthStep::NeedBytes(2));
    assert_eq!(auth_step(&[1, 4, b'u'], &auth), AuthStep::NeedBytes(7));
    assert_eq!(auth_step(&msg[..8], &auth), AuthStep::NeedBytes(13));
    assert_eq!(auth_step(&[2, 0, 0], &auth), AuthStep::Invalid(SocksError::InvalidProtocol));
    let none = AuthConfig { username: None, password: None, bypass_ips: Vec::new() };
    assert_eq!(auth_step(&msg, &none), AuthStep::Invalid(SocksError::AuthUnavailable));
}
