use tinysocks::config::AuthConfig;
use tinysocks::http::{
    connection_header_names, format_host_header, format_target_endpoint, forward_request_head,
    get_header, head_from_parse, host_header_port, host_targets_listener_port, is_absolute_http_target,
    is_stats_request, normalize_host, normalize_path_and_query, parse_absolute_target,
    parse_connect_target, request_head_step, route_http_request, should_drop_forward_header,
    split_target, stats_authorized, stats_page_response, validate_message_framing, authority_host_port,
    absolute_target_from_uri, AuthorityParts, HeadStep, UriParts, HttpError, HttpRequest, HttpRoute, ParsedHead, MAX_HEADER_SIZE,
    CONNECT_ESTABLISHED_RESPONSE, PROXY_AUTH_REQUIRED_RESPONSE, STATS_AUTH_REQUIRED_RESPONSE,
};

fn request(method: &str, target: &str, host: &str) -> HttpRequest {
    HttpRequest {
        method: method.to_string(),
        target: target.to_string(),
        version: "HTTP/1.1".to_string(),
        headers: vec![("Host".to_string(), host.to_string())],
        body_start: Vec::new(),
    }
}

fn credentials() -> AuthConfig {
    AuthConfig {
        username: Some("user".to_string()),
        password: Some("secret".to_string()),
        bypass_ips: Vec::new(),
    }
}

#[test]
fn stats_request_accepts_lan_host_on_listener_port() {
    let req = request("GET", "/stats", "192.168.1.10:1080");

    assert!(is_stats_request(&req, 1080));
}

#[test]
fn stats_request_accepts_ipv6_host_on_listener_port() {
    let req = request("GET", "/stats", "[fd00::1]:1080");

    assert!(is_stats_request(&req, 1080));
}

#[test]
fn stats_request_rejects_different_port() {
    let req = request("GET", "/", "192.168.1.10:8080");

    assert!(!is_stats_request(&req, 1080));
}

#[test]
fn stats_request_rejects_absolute_proxy_target() {
    let req = request("GET", "http://example.com/", "192.168.1.10:1080");

    assert!(!is_stats_request(&req, 1080));
}

#[test]
fn split_target_keeps_query_without_slash() {
    let (host, port, path) = split_target("http://example.com?token=1", None, 80).expect("should parse");
    assert_eq!(host, "example.com");
    assert_eq!(port, 80);
    assert_eq!(path, "/?token=1");
}

#[test]
fn split_target_defaults_to_root() {
    let (host, port, path) = split_target("http://example.com", None, 80).expect("should parse");
    assert_eq!(host, "example.com");
    assert_eq!(port, 80);
    assert_eq!(path, "/");
}

#[test]
fn split_target_supports_ipv6_authority() {
    let (host, port, path) =
        split_target("http://[2001:db8::1]:8080/api", None, 80).expect("should parse");
    assert_eq!(host, "2001:db8::1");
    assert_eq!(port, 8080);
    assert_eq!(path, "/api");
}

#[test]
fn split_target_accepts_case_insensitive_scheme() {
    let (host, port, path) =
        split_target("HTTP://example.com:8080/api", None, 80).expect("should parse");
    assert_eq!(host, "example.com");
    assert_eq!(port, 8080);
    assert_eq!(path, "/api");
}

#[test]
fn parse_connect_target_supports_ipv6_authority() {
    let (host, port) = parse_connect_target("[2001:db8::1]:8443").expect("should parse");
    assert_eq!(host, "2001:db8::1");
    assert_eq!(port, 8443);
}

#[test]
fn connection_header_names_collects_extensions() {
    let headers = vec![
        ("Connection".to_string(), "Keep-Alive, X-Hop".to_string()),
        ("connection".to_string(), "Another-Hop".to_string()),
    ];

    assert_eq!(connection_header_names(&headers), vec!["keep-alive", "x-hop", "another-hop"]);
}

#[test]
fn should_drop_forward_header_uses_connection_extensions() {
    let connection_headers = vec!["x-hop".to_string()];

    assert!(should_drop_forward_header("X-Hop", &connection_headers));
    assert!(should_drop_forward_header("Connection", &connection_headers));
    assert!(should_drop_forward_header("Host", &connection_headers));
    assert!(!should_drop_forward_header("X-End-To-End", &connection_headers));
}

#[test]
fn validate_message_framing_accepts_same_content_length_values() {
    let headers = vec![
        ("Host".to_string(), "example.com".to_string()),
        ("Content-Length".to_string(), "12".to_string()),
        ("Content-Length".to_string(), "12".to_string()),
    ];
    assert!(validate_message_framing(&headers).is_ok());
}

#[test]
fn validate_message_framing_rejects_conflicting_content_length_values() {
    let headers = vec![
        ("Content-Length".to_string(), "12".to_string()),
        ("Content-Length".to_string(), "13".to_string()),
    ];
    assert!(validate_message_framing(&headers).is_err());
}

#[test]
fn validate_message_framing_rejects_conflicting_transfer_encoding_and_content_length() {
    let headers = vec![
        ("Transfer-Encoding".to_string(), "chunked".to_string()),
        ("Content-Length".to_string(), "12".to_string()),
    ];
    assert!(validate_message_framing(&headers).is_err());
}

#[test]
fn validate_message_framing_rejects_empty_content_length_value() {
    let headers = vec![("Content-Length".to_string(), "".to_string())];
    assert!(validate_message_framing(&headers).is_err());
}

#[test]
fn is_stats_request_rejects_post() {
    let req = request("POST", "/stats", "127.0.0.1:1080");
    assert!(!is_stats_request(&req, 1080));
}

#[test]
fn is_stats_request_rejects_wrong_path() {
    let req = request("GET", "/health", "127.0.0.1:1080");
    assert!(!is_stats_request(&req, 1080));
}

#[test]
fn is_stats_request_rejects_missing_host_header() {
    let req = HttpRequest {
        method: "GET".to_string(),
        target: "/stats".to_string(),
        version: "HTTP/1.1".to_string(),
        headers: Vec::new(),
        body_start: Vec::new(),
    };
    assert!(!is_stats_request(&req, 1080));
}

#[test]
fn is_stats_request_rejects_path_with_query_on_stats_prefix() {
    let req = request("GET", "/stats?refresh=1", "127.0.0.1:1080");
    assert!(is_stats_request(&req, 1080));
}

#[test]
fn is_absolute_http_target_detects_https() {
    assert!(is_absolute_http_target("https://example.com/"));
}

#[test]
fn is_absolute_http_target_detects_http() {
    assert!(is_absolute_http_target("http://example.com/"));
}

#[test]
fn is_absolute_http_target_detects_uppercase() {
    assert!(is_absolute_http_target("HTTP://example.com/"));
    assert!(is_absolute_http_target("HTTPS://example.com/"));
}

#[test]
fn is_absolute_http_target_rejects_origin_form() {
    assert!(!is_absolute_http_target("/path"));
}

#[test]
fn is_absolute_http_target_rejects_short_string() {
    assert!(!is_absolute_http_target("http"));
    assert!(!is_absolute_http_target(""));
}

#[test]
fn is_absolute_http_target_rejects_ftp() {
    assert!(!is_absolute_http_target("ftp://example.com/"));
}

#[test]
fn normalize_host_strips_ipv6_brackets() {
    assert_eq!(normalize_host("[::1]"), "::1");
    assert_eq!(normalize_host("[2001:db8::1]"), "2001:db8::1");
}

#[test]
fn normalize_host_passes_through_ipv4() {
    assert_eq!(normalize_host("127.0.0.1"), "127.0.0.1");
}

#[test]
fn normalize_host_passes_through_domain() {
    assert_eq!(normalize_host("example.com"), "example.com");
}

#[test]
fn normalize_path_and_query_defaults_to_root() {
    assert_eq!(normalize_path_and_query(None), "/");
    assert_eq!(normalize_path_and_query(Some("")), "/");
}

#[test]
fn normalize_path_and_query_preserves_path() {
    assert_eq!(normalize_path_and_query(Some("/api")), "/api");
    assert_eq!(normalize_path_and_query(Some("/api/")), "/api/");
}

#[test]
fn normalize_path_and_query_prepends_slash_to_query_only() {
    assert_eq!(normalize_path_and_query(Some("?key=val")), "/?key=val");
}

#[test]
fn format_target_endpoint_ipv4() {
    assert_eq!(format_target_endpoint("127.0.0.1", 8080), "127.0.0.1:8080");
}

#[test]
fn format_target_endpoint_ipv6() {
    assert_eq!(format_target_endpoint("::1", 8080), "[::1]:8080");
}

#[test]
fn format_host_header_default_port_omitted() {
    assert_eq!(format_host_header("example.com", 80, 80), "example.com");
}

#[test]
fn format_host_header_non_default_port_included() {
    assert_eq!(format_host_header("example.com", 8080, 80), "example.com:8080");
}

#[test]
fn format_host_header_ipv6() {
    assert_eq!(format_host_header("::1", 80, 80), "[::1]");
    assert_eq!(format_host_header("::1", 443, 80), "[::1]:443");
}

#[test]
fn get_header_finds_exact_match() {
    let headers = vec![("Host".to_string(), "example.com".to_string())];
    assert_eq!(get_header(&headers, "Host"), Some("example.com"));
}

#[test]
fn get_header_is_case_insensitive() {
    let headers = vec![("host".to_string(), "example.com".to_string())];
    assert_eq!(get_header(&headers, "Host"), Some("example.com"));
    assert_eq!(get_header(&headers, "HOST"), Some("example.com"));
}

#[test]
fn get_header_returns_none_for_missing() {
    let headers = vec![("Host".to_string(), "example.com".to_string())];
    assert_eq!(get_header(&headers, "Content-Type"), None);
}

#[test]
fn get_header_returns_none_for_empty_headers() {
    let headers: Vec<(String, String)> = Vec::new();
    assert_eq!(get_header(&headers, "Host"), None);
}

#[test]
fn host_header_port_ipv4_default() {
    assert_eq!(host_header_port("127.0.0.1"), Some(80));
}

#[test]
fn host_header_port_ipv4_explicit() {
    assert_eq!(host_header_port("127.0.0.1:8080"), Some(8080));
}

#[test]
fn host_header_port_ipv6_default() {
    assert_eq!(host_header_port("[::1]"), Some(80));
}

#[test]
fn host_header_port_ipv6_explicit() {
    assert_eq!(host_header_port("[::1]:443"), Some(443));
}

#[test]
fn host_header_port_domain_default() {
    assert_eq!(host_header_port("example.com"), Some(80));
}

#[test]
fn host_header_port_domain_explicit() {
    assert_eq!(host_header_port("example.com:443"), Some(443));
}

#[test]
fn split_target_origin_form_with_host_header() {
    let (host, port, path) =
        split_target("/api/users", Some("example.com:8080"), 80).expect("should parse");
    assert_eq!(host, "example.com");
    assert_eq!(port, 8080);
    assert_eq!(path, "/api/users");
}

#[test]
fn split_target_origin_form_default_port() {
    let (host, port, path) = split_target("/api", Some("example.com"), 80).expect("should parse");
    assert_eq!(host, "example.com");
    assert_eq!(port, 80);
    assert_eq!(path, "/api");
}

#[test]
fn split_target_origin_form_empty_path() {
    let (host, port, path) = split_target("", Some("example.com:8080"), 80).expect("should parse");
    assert_eq!(host, "example.com");
    assert_eq!(port, 8080);
    assert_eq!(path, "/");
}

#[test]
fn split_target_missing_host_header() {
    assert!(split_target("/api", None, 80).is_err());
}

#[test]
fn split_target_invalid_host_header() {
    assert!(split_target("/api", Some("bad host"), 80).is_err());
}

#[test]
fn split_target_rejects_https_absolute() {
    assert!(split_target("https://example.com/", None, 443).is_err());
}

#[test]
fn parse_connect_target_ipv4() {
    let (host, port) = parse_connect_target("192.168.1.1:443").expect("should parse");
    assert_eq!(host, "192.168.1.1");
    assert_eq!(port, 443);
}

#[test]
fn parse_connect_target_domain_default_port() {
    let (host, port) = parse_connect_target("example.com").expect("should parse");
    assert_eq!(host, "example.com");
    assert_eq!(port, 443);
}

#[test]
fn parse_absolute_target_https_rejected() {
    let err = parse_absolute_target("https://example.com/path").unwrap_err();
    assert!(err.message().contains("HttpsNotSupported"));
}

#[test]
fn parse_absolute_target_unsupported_scheme() {
    assert!(parse_absolute_target("ftp://example.com/").is_err());
}

#[test]
fn parse_absolute_target_missing_authority() {
    assert!(parse_absolute_target("http:///path").is_err());
}

#[test]
fn validate_message_framing_allows_chunked_without_content_length() {
    let headers = vec![("Transfer-Encoding".to_string(), "chunked".to_string())];
    assert!(validate_message_framing(&headers).is_ok());
}

#[test]
fn validate_message_framing_allows_comma_separated_transfer_encoding() {
    let headers = vec![("Transfer-Encoding".to_string(), "gzip, chunked".to_string())];
    assert!(validate_message_framing(&headers).is_ok());
}

#[test]
fn validate_message_framing_rejects_content_length_with_comma_values() {
    let headers = vec![("Content-Length".to_string(), "12, 13".to_string())];
    assert!(validate_message_framing(&headers).is_err());
}

#[test]
fn should_drop_forward_header_drops_proxy_authorization() {
    assert!(should_drop_forward_header("Proxy-Authorization", &[]));
}

#[test]
fn should_drop_forward_header_drops_proxy_connection() {
    assert!(should_drop_forward_header("Proxy-Connection", &[]));
}

#[test]
fn should_drop_forward_header_drops_keep_alive() {
    assert!(should_drop_forward_header("Keep-Alive", &[]));
}

#[test]
fn should_drop_forward_header_drops_te() {
    assert!(should_drop_forward_header("TE", &[]));
}

#[test]
fn should_drop_forward_header_drops_trailer() {
    assert!(should_drop_forward_header("Trailer", &[]));
}

#[test]
fn should_drop_forward_header_drops_upgrade() {
    assert!(should_drop_forward_header("Upgrade", &[]));
}

// Each error of the framing check, and the order in which they come.

#[test]
fn framing_errors_name_the_fault() {
    let bad = vec![("Content-Length".to_string(), "twelve".to_string())];
    assert_eq!(validate_message_framing(&bad), Err(HttpError::BadContentLength));
    let ambiguous = vec![("Content-Length".to_string(), "12, 13".to_string())];
    assert_eq!(validate_message_framing(&ambiguous), Err(HttpError::AmbiguousContentLength));
    let conflicting = vec![
        ("Content-Length".to_string(), "5".to_string()),
        ("transfer-encoding".to_string(), "gzip, CHUNKED".to_string()),
    ];
    assert_eq!(validate_message_framing(&conflicting), Err(HttpError::ConflictingLengthHeaders));
    let first_fault = vec![
        ("Transfer-Encoding".to_string(), "chunked".to_string()),
        ("Content-Length".to_string(), "x".to_string()),
    ];
    assert_eq!(validate_message_framing(&first_fault), Err(HttpError::BadContentLength));
    let repeated = vec![("Content-Length".to_string(), " 7 , 7".to_string())];
    assert_eq!(validate_message_framing(&repeated), Ok(()));
    let too_big = vec![("Content-Length".to_string(), "18446744073709551616".to_string())];
    assert_eq!(validate_message_framing(&too_big), Err(HttpError::BadContentLength));
}

// Reading a request head.

#[test]
fn request_head_step_reads_a_complete_head() {
    let buf = b"GET http://example.com/a HTTP/1.1\r\nHost:  example.com \r\nX-Test: yes\r\n\r\nbody";
    match request_head_step(buf) {
        HeadStep::Complete(req) => {
            assert_eq!(req.method, "GET");
            assert_eq!(req.target, "http://example.com/a");
            assert_eq!(req.version, "HTTP/1.1");
            assert_eq!(
                req.headers,
                vec![
                    ("Host".to_string(), "example.com".to_string()),
                    ("X-Test".to_string(), "yes".to_string())
                ]
            );
            assert_eq!(req.body_start, b"body".to_vec());
        }
        _ => panic!("expected a complete head"),
    }
}

#[test]
fn request_head_step_reads_http10() {
    match request_head_step(b"CONNECT example.com:443 HTTP/1.0\r\n\r\n") {
        HeadStep::Complete(req) => {
            assert_eq!(req.version, "HTTP/1.0");
            assert!(req.headers.is_empty());
            assert!(req.body_start.is_empty());
        }
        _ => panic!("expected a complete head"),
    }
}

#[test]
fn request_head_step_waits_for_more() {
    assert!(matches!(request_head_step(b"GET / HTTP/1.1\r\nHost: a"), HeadStep::NeedMore));
    assert!(matches!(request_head_step(b""), HeadStep::NeedMore));
}

#[test]
fn request_head_step_refuses_each_fault() {
    assert!(matches!(request_head_step(b"GET / HTTP/1.1\r\nBad Header\r\n\r\n"), HeadStep::Invalid(HttpError::BadRequest)));
    assert!(matches!(
        request_head_step(b"GET / HTTP/1.1\r\nX: \xff\xfe\r\n\r\n"),
        HeadStep::Invalid(HttpError::InvalidHeaderUtf8)
    ));
    assert!(matches!(
        request_head_step(b"POST / HTTP/1.1\r\nContent-Length: 1\r\nContent-Length: 2\r\n\r\n"),
        HeadStep::Invalid(HttpError::AmbiguousContentLength)
    ));
    let mut many = b"GET / HTTP/1.1\r\n".to_vec();
    for i in 0..200 {
        many.extend_from_slice(format!("X-{i}: v\r\n").as_bytes());
    }
    many.extend_from_slice(b"\r\n");
    assert!(matches!(request_head_step(&many), HeadStep::Invalid(HttpError::TooManyHeaders)));
    let big = vec![b'a'; MAX_HEADER_SIZE + 1];
    assert!(matches!(request_head_step(&big), HeadStep::Invalid(HttpError::HeaderTooLarge)));
}

#[test]
fn head_from_parse_handles_each_parse_result() {
    let buf = b"xyz";
    assert!(matches!(head_from_parse(buf, ParsedHead::Partial), HeadStep::NeedMore));
    assert!(matches!(head_from_parse(buf, ParsedHead::TooManyHeaders), HeadStep::Invalid(HttpError::TooManyHeaders)));
    assert!(matches!(head_from_parse(buf, ParsedHead::Invalid), HeadStep::Invalid(HttpError::BadRequest)));
    let no_version = ParsedHead::Complete(0, Some("GET".to_string()), Some("/".to_string()), Some(2), Vec::new());
    assert!(matches!(head_from_parse(buf, no_version), HeadStep::Invalid(HttpError::BadRequest)));
    let no_method = ParsedHead::Complete(0, None, Some("/".to_string()), Some(1), Vec::new());
    assert!(matches!(head_from_parse(buf, no_method), HeadStep::Invalid(HttpError::BadRequest)));
    let complete = ParsedHead::Complete(
        1,
        Some("GET".to_string()),
        Some("/".to_string()),
        Some(1),
        vec![(" Host ".to_string(), b" a ".to_vec())],
    );
    match head_from_parse(buf, complete) {
        HeadStep::Complete(req) => {
            assert_eq!(req.headers, vec![("Host".to_string(), "a".to_string())]);
            assert_eq!(req.body_start, b"yz".to_vec());
        }
        _ => panic!("expected a complete head"),
    }
}

// The request forwarded upstream.

#[test]
fn forward_request_head_rewrites_host_and_drops_hop_headers() {
    let req = HttpRequest {
        method: "GET".to_string(),
        target: "http://example.com:8080/a?b=1".to_string(),
        version: "HTTP/1.1".to_string(),
        headers: vec![
            ("Host".to_string(), "evil.example".to_string()),
            ("Proxy-Authorization".to_string(), "Basic abc".to_string()),
            ("Connection".to_string(), "X-Hop".to_string()),
            ("X-Hop".to_string(), "1".to_string()),
            ("Accept".to_string(), "*/*".to_string()),
        ],
        body_start: Vec::new(),
    };
    let head = forward_request_head(&req, "example.com", 8080, "/a?b=1");
    assert_eq!(head, "GET /a?b=1 HTTP/1.1\r\nAccept: */*\r\nHost: example.com:8080\r\n\r\n");
    let v6 = forward_request_head(&request("GET", "/", "x"), "::1", 80, "/");
    assert_eq!(v6, "GET / HTTP/1.1\r\nHost: [::1]\r\n\r\n");
}

// Routing.

#[test]
fn route_sends_each_request_where_it_belongs() {
    let auth = credentials();
    let stats = request("GET", "/stats", "127.0.0.1:1080");
    assert_eq!(route_http_request(&stats, false, &auth, 1080), HttpRoute::StatsAuthRequired);
    assert_eq!(route_http_request(&stats, true, &auth, 1080), HttpRoute::StatsPage);
    let mut authorized = request("GET", "/stats", "127.0.0.1:1080");
    authorized.headers.push(("Authorization".to_string(), "Basic dXNlcjpzZWNyZXQ=".to_string()));
    assert_eq!(route_http_request(&authorized, false, &auth, 1080), HttpRoute::StatsPage);
    assert!(stats_authorized(&authorized, &auth));

    let proxy = request("GET", "http://example.com/", "example.com");
    assert_eq!(route_http_request(&proxy, false, &auth, 1080), HttpRoute::ProxyAuthRequired);
    assert_eq!(route_http_request(&proxy, true, &auth, 1080), HttpRoute::Forward);
    let mut with_creds = request("CONNECT", "example.com:443", "example.com:443");
    with_creds.headers.push(("Proxy-Authorization".to_string(), "Basic dXNlcjpzZWNyZXQ=".to_string()));
    assert_eq!(route_http_request(&with_creds, false, &auth, 1080), HttpRoute::Connect);
}

#[test]
fn fixed_responses_are_complete_http_messages() {
    assert!(STATS_AUTH_REQUIRED_RESPONSE.starts_with("HTTP/1.1 401 Unauthorized\r\n"));
    assert!(PROXY_AUTH_REQUIRED_RESPONSE.starts_with("HTTP/1.1 407 Proxy Authentication Required\r\n"));
    assert_eq!(CONNECT_ESTABLISHED_RESPONSE, "HTTP/1.1 200 Connection Established\r\n\r\n");
    for r in [STATS_AUTH_REQUIRED_RESPONSE, PROXY_AUTH_REQUIRED_RESPONSE] {
        assert!(r.ends_with("Content-Length: 0\r\nConnection: close\r\n\r\n"));
    }
}

#[test]
fn stats_page_response_counts_body_bytes() {
    let r = stats_page_response("hé");
    assert_eq!(
        r,
        "HTTP/1.1 200 OK\r\nContent-Type: text/html; charset=utf-8\r\nCache-Control: no-store\r\nContent-Length: 3\r\nConnection: close\r\n\r\nhé"
    );
}

// The wrappers around the `http` crate.

#[test]
fn authority_and_uri_parts() {
    let a = AuthorityParts { host: "[::1]".to_string(), port: Some(8080) };
    let (host, port) = authority_host_port(&a, 80).expect("host");
    assert_eq!((host.as_str(), port), ("::1", 8080));
    let empty = AuthorityParts { host: String::new(), port: None };
    assert_eq!(authority_host_port(&empty, 80), Err(HttpError::MissingHost));
    let (h, p, path) = split_target("http://example.com/x?y", None, 80).unwrap();
    assert_eq!((h.as_str(), p, path.as_str()), ("example.com", 80, "/x?y"));
    assert!(host_targets_listener_port("example.com:1080", 1080));
    assert!(!host_targets_listener_port("example.com", 1080));
}

#[test]
fn target_errors_name_the_fault() {
    assert_eq!(parse_connect_target("bad host"), Err(HttpError::BadConnectTarget));
    assert_eq!(split_target("/api", None, 80), Err(HttpError::MissingHost));
    assert_eq!(split_target("/api", Some("bad host"), 80), Err(HttpError::BadHost));
    assert_eq!(parse_absolute_target("ftp://example.com/"), Err(HttpError::UnsupportedScheme));
    assert_eq!(parse_absolute_target("https://example.com/"), Err(HttpError::HttpsNotSupported));
    assert_eq!(parse_absolute_target("http://exa mple.com/"), Err(HttpError::BadRequestTarget));
}

#[test]
fn absolute_target_from_parsed_uri() {
    let uri = |scheme: Option<&str>, host: Option<&str>, pq: Option<&str>| UriParts {
        scheme: scheme.map(String::from),
        authority: host.map(|h| AuthorityParts { host: h.to_string(), port: None }),
        path_and_query: pq.map(String::from),
    };
    assert_eq!(
        absolute_target_from_uri(&uri(Some("HTTP"), Some("[::1]"), Some("?q"))),
        Ok(("::1".to_string(), 80, "/?q".to_string()))
    );
    assert_eq!(absolute_target_from_uri(&uri(Some("hTTps"), Some("a"), None)), Err(HttpError::HttpsNotSupported));
    assert_eq!(absolute_target_from_uri(&uri(None, Some("a"), None)), Err(HttpError::UnsupportedScheme));
    assert_eq!(absolute_target_from_uri(&uri(Some("http"), None, None)), Err(HttpError::MissingHost));
    assert_eq!(absolute_target_from_uri(&uri(Some("http"), Some(""), None)), Err(HttpError::MissingHost));
}
