//! HTTP proxy request handling: reading a request head, checking its body
//! framing, recognising the statistics page, splitting targets into host,
//! port and path, and building the request that is forwarded upstream.

use vstd::prelude::*;
use vstd::string::*;
use vstd::utf8::*;

use crate::auth::{
    http_basic_authorized, spec_base64_decode, spec_basic_payload, spec_first_colon, spec_http_basic_authorized,
    spec_opt_bytes, spec_opt_chars,
};
use crate::config::AuthConfig;
use crate::protocol::{bracket_ipv6, spec_bracket_ipv6};
use crate::text::{
    chars_eq_ignore_case, chars_of, decimal, eq_ignore_ascii_case, owned, parse_u64,
    spec_decimal, spec_eq_ignore_case, spec_lower_seq, spec_parse_u64, spec_split, spec_split_from,
    spec_trim,
    split_chars, spec_strings, string_of, to_ascii_lowercase, trim, trim_bounds, utf8_str,
    lemma_utf8_chars,
};

verus! {

/// The largest request head, in bytes, the proxy reads.
pub const MAX_HEADER_SIZE: usize = 64 * 1024;

/// The most header lines a request head may have.
pub const MAX_HEADERS: usize = 128;

/// Why an HTTP proxy request was refused.
#[derive(Clone, Copy, Debug, PartialEq, Eq, Structural)]
pub enum HttpError {
    UnexpectedEof,
    HeaderTooLarge,
    BadRequest,
    TooManyHeaders,
    InvalidHeaderUtf8,
    BadContentLength,
    AmbiguousContentLength,
    ConflictingLengthHeaders,
    BadConnectTarget,
    MissingHost,
    BadHost,
    BadRequestTarget,
    HttpsNotSupported,
    UnsupportedScheme,
    ConnectFailed,
    RelayFailed,
}

/// The name of an error, as `HttpError::<variant>`.
pub open spec fn spec_http_error_name(e: HttpError) -> Seq<char> {
    match e {
        HttpError::UnexpectedEof => "HttpError::UnexpectedEof"@,
        HttpError::HeaderTooLarge => "HttpError::HeaderTooLarge"@,
        HttpError::BadRequest => "HttpError::BadRequest"@,
        HttpError::TooManyHeaders => "HttpError::TooManyHeaders"@,
        HttpError::InvalidHeaderUtf8 => "HttpError::InvalidHeaderUtf8"@,
        HttpError::BadContentLength => "HttpError::BadContentLength"@,
        HttpError::AmbiguousContentLength => "HttpError::AmbiguousContentLength"@,
        HttpError::ConflictingLengthHeaders => "HttpError::ConflictingLengthHeaders"@,
        HttpError::BadConnectTarget => "HttpError::BadConnectTarget"@,
        HttpError::MissingHost => "HttpError::MissingHost"@,
        HttpError::BadHost => "HttpError::BadHost"@,
        HttpError::BadRequestTarget => "HttpError::BadRequestTarget"@,
        HttpError::HttpsNotSupported => "HttpError::HttpsNotSupported"@,
        HttpError::UnsupportedScheme => "HttpError::UnsupportedScheme"@,
        HttpError::ConnectFailed => "HttpError::ConnectFailed"@,
        HttpError::RelayFailed => "HttpError::RelayFailed"@,
    }
}

impl HttpError {
    /// The name of the error, as `HttpError::<variant>`.
    pub fn message(&self) -> (r: &'static str)
        ensures
            r@ == spec_http_error_name(*self),
    {
        match self {
            HttpError::UnexpectedEof => "HttpError::UnexpectedEof",
            HttpError::HeaderTooLarge => "HttpError::HeaderTooLarge",
            HttpError::BadRequest => "HttpError::BadRequest",
            HttpError::TooManyHeaders => "HttpError::TooManyHeaders",
            HttpError::InvalidHeaderUtf8 => "HttpError::InvalidHeaderUtf8",
            HttpError::BadContentLength => "HttpError::BadContentLength",
            HttpError::AmbiguousContentLength => "HttpError::AmbiguousContentLength",
            HttpError::ConflictingLengthHeaders => "HttpError::ConflictingLengthHeaders",
            HttpError::BadConnectTarget => "HttpError::BadConnectTarget",
            HttpError::MissingHost => "HttpError::MissingHost",
            HttpError::BadHost => "HttpError::BadHost",
            HttpError::BadRequestTarget => "HttpError::BadRequestTarget",
            HttpError::HttpsNotSupported => "HttpError::HttpsNotSupported",
            HttpError::UnsupportedScheme => "HttpError::UnsupportedScheme",
            HttpError::ConnectFailed => "HttpError::ConnectFailed",
            HttpError::RelayFailed => "HttpError::RelayFailed",
        }
    }
}

/// One parsed HTTP request head and the bytes read after it.
pub struct HttpRequest {
    pub method: String,
    pub target: String,
    pub version: String,
    pub headers: Vec<(String, String)>,
    pub body_start: Vec<u8>,
}

/// The names and values of header lines.
pub open spec fn spec_headers(hs: Seq<(String, String)>) -> Seq<(Seq<char>, Seq<char>)> {
    Seq::new(hs.len(), |i: int| (hs[i].0@, hs[i].1@))
}

// ---------------------------------------------------------------------
// Authority and URI parsing (the `http` crate)
// ---------------------------------------------------------------------

/// The host (as written, IPv6 in brackets) and port of an authority.
#[derive(Clone, Debug)]
pub struct AuthorityParts {
    pub host: String,
    pub port: Option<u16>,
}

impl View for AuthorityParts {
    type V = (Seq<char>, Option<u16>);

    open spec fn view(&self) -> (Seq<char>, Option<u16>) {
        (self.host@, self.port)
    }
}

/// The scheme, authority and path-and-query of a URI.
pub struct UriParts {
    pub scheme: Option<String>,
    pub authority: Option<AuthorityParts>,
    pub path_and_query: Option<String>,
}

/// The value of an optional authority.
pub open spec fn spec_opt_authority(a: Option<AuthorityParts>) -> Option<(Seq<char>, Option<u16>)> {
    match a {
        Some(x) => Some(x@),
        None => None,
    }
}

impl View for UriParts {
    type V = (Option<Seq<char>>, Option<(Seq<char>, Option<u16>)>, Option<Seq<char>>);

    open spec fn view(&self) -> (Option<Seq<char>>, Option<(Seq<char>, Option<u16>)>, Option<Seq<char>>) {
        (spec_opt_chars(self.scheme), spec_opt_authority(self.authority), spec_opt_chars(self.path_and_query))
    }
}

/// The host and port that `http::uri::Authority` parses from a text.
pub uninterp spec fn spec_parse_authority(text: Seq<char>) -> Option<(Seq<char>, Option<u16>)>;

/// The scheme, authority and path-and-query that `http::Uri` parses from a
/// text.
pub uninterp spec fn spec_parse_uri(text: Seq<char>) -> Option<
    (Option<Seq<char>>, Option<(Seq<char>, Option<u16>)>, Option<Seq<char>>),
>;

/// `str::parse::<http::uri::Authority>`, read through `Authority::host`
/// and `Authority::port_u16`.
#[verifier::external_body]
pub(crate) fn parse_authority(text: &str) -> (r: Option<AuthorityParts>)
    ensures
        spec_opt_authority(r) == spec_parse_authority(text@),
{
    match text.parse::<http::uri::Authority>() {
        Ok(a) => Some(AuthorityParts { host: a.host().to_string(), port: a.port_u16() }),
        Err(_) => None,
    }
}

/// `str::parse::<http::Uri>`, read through `Uri::scheme_str`,
/// `Uri::authority` and `Uri::path_and_query`.
#[verifier::external_body]
pub(crate) fn parse_uri(text: &str) -> (r: Option<UriParts>)
    ensures
        match r {
            Some(u) => spec_parse_uri(text@) == Some(u@),
            None => spec_parse_uri(text@) is None,
        },
{
    let uri = text.parse::<http::Uri>().ok()?;
    Some(UriParts {
        scheme: uri.scheme_str().map(String::from),
        authority: uri.authority().map(|a| AuthorityParts { host: a.host().to_string(), port: a.port_u16() }),
        path_and_query: uri.path_and_query().map(|p| p.as_str().to_string()),
    })
}

// ---------------------------------------------------------------------
// Small text rules
// ---------------------------------------------------------------------

/// Whether a target is an absolute `http://` or `https://` URI, the scheme
/// in any case.
pub open spec fn spec_is_absolute_http_target(t: Seq<char>) -> bool {
    ||| t.len() >= 7 && spec_eq_ignore_case(t.take(7), "http://"@)
    ||| t.len() >= 8 && spec_eq_ignore_case(t.take(8), "https://"@)
}

/// Checks whether a target is an absolute HTTP or HTTPS URI.
pub fn is_absolute_http_target(target: &str) -> (r: bool)
    ensures
        r == spec_is_absolute_http_target(target@),
{
    let cs = chars_of(target);
    let http = chars_of("http://");
    let https = chars_of("https://");
    proof {
        reveal_strlit("http://");
        reveal_strlit("https://");
    }
    (cs.len() >= 7 && chars_eq_ignore_case(vstd::slice::slice_subrange(cs.as_slice(), 0, 7), http.as_slice()))
        || (cs.len() >= 8 && chars_eq_ignore_case(vstd::slice::slice_subrange(cs.as_slice(), 0, 8), https.as_slice()))
}

/// A host without the brackets of an IPv6 literal.
pub open spec fn spec_normalize_host(h: Seq<char>) -> Seq<char> {
    if h.len() >= 2 && h[0] == '[' && h.last() == ']' {
        h.subrange(1, h.len() - 1)
    } else {
        h
    }
}

/// Removes IPv6 brackets from a host value.
pub fn normalize_host(host: &str) -> (r: String)
    ensures
        r@ == spec_normalize_host(host@),
{
    let cs = chars_of(host);
    let n = cs.len();
    if n >= 2 && cs[0] == '[' && cs[n - 1] == ']' {
        string_of(vstd::slice::slice_subrange(cs.as_slice(), 1, n - 1))
    } else {
        owned(host)
    }
}

/// A path and query in origin form: absent or empty is `/`, a bare query
/// gets a leading `/`.
pub open spec fn spec_normalize_path_and_query(pq: Option<Seq<char>>) -> Seq<char> {
    match pq {
        None => seq!['/'],
        Some(v) => if v.len() == 0 {
            seq!['/']
        } else if v[0] == '?' {
            seq!['/'] + v
        } else {
            v
        },
    }
}

/// The value of an optional string slice.
pub open spec fn spec_opt_str(o: Option<&str>) -> Option<Seq<char>> {
    match o {
        Some(s) => Some(s@),
        None => None,
    }
}

/// Normalizes a URI path and query into origin form.
pub fn normalize_path_and_query(path_and_query: Option<&str>) -> (r: String)
    ensures
        r@ == spec_normalize_path_and_query(spec_opt_str(path_and_query)),
{
    match path_and_query {
        None => {
            let mut s = String::new();
            s.push('/');
            s
        },
        Some(value) => {
            let cs = chars_of(value);
            if cs.len() == 0 {
                let mut s = String::new();
                s.push('/');
                s
            } else if cs[0] == '?' {
                let mut s = String::new();
                s.push('/');
                s.push_str(value);
                s
            } else {
                owned(value)
            }
        },
    }
}

/// `host:port`, with an IPv6 host in brackets.
pub open spec fn spec_target_endpoint(host: Seq<char>, port: u16) -> Seq<char> {
    spec_bracket_ipv6(host) + seq![':'] + spec_decimal(port as nat)
}

/// Formats a host and port for a TCP connect.
pub fn format_target_endpoint(host: &str, port: u16) -> (r: String)
    ensures
        r@ == spec_target_endpoint(host@, port),
{
    let mut s = bracket_ipv6(host);
    s.push(':');
    s.push_str(decimal(port as u64).as_str());
    s
}

/// A `Host` header value: the host, with `:port` unless it is the default.
pub open spec fn spec_host_header(host: Seq<char>, port: u16, default_port: u16) -> Seq<char> {
    if port == default_port {
        spec_bracket_ipv6(host)
    } else {
        spec_bracket_ipv6(host) + seq![':'] + spec_decimal(port as nat)
    }
}

/// Formats a `Host` header value.
pub fn format_host_header(host: &str, port: u16, default_port: u16) -> (r: String)
    ensures
        r@ == spec_host_header(host@, port, default_port),
{
    let mut s = bracket_ipv6(host);
    if port != default_port {
        s.push(':');
        s.push_str(decimal(port as u64).as_str());
    }
    s
}

// ---------------------------------------------------------------------
// Headers
// ---------------------------------------------------------------------

/// The value of the first header whose name matches, up to ASCII case.
pub open spec fn spec_find_header(hs: Seq<(Seq<char>, Seq<char>)>, name: Seq<char>) -> Option<
    Seq<char>,
>
    decreases hs.len(),
{
    if hs.len() == 0 {
        None
    } else if spec_eq_ignore_case(hs[0].0, name) {
        Some(hs[0].1)
    } else {
        spec_find_header(hs.drop_first(), name)
    }
}

/// Finds a header value by case-insensitive name.
pub fn get_header<'a>(headers: &'a [(String, String)], name: &str) -> (r: Option<&'a str>)
    ensures
        spec_opt_str(r) == spec_find_header(spec_headers(headers@), name@),
{
    let ghost hs = spec_headers(headers@);
    let mut i: usize = 0;
    assert(hs.skip(0) =~= hs);
    while i < headers.len()
        invariant
            i <= headers@.len(),
            hs == spec_headers(headers@),
            spec_find_header(hs, name@) == spec_find_header(hs.skip(i as int), name@),
        decreases headers@.len() - i,
    {
        assert(hs.skip(i as int).drop_first() =~= hs.skip(i + 1));
        assert(hs.skip(i as int)[0] == hs[i as int]);
        if eq_ignore_ascii_case(headers[i].0.as_str(), name) {
            return Some(headers[i].1.as_str());
        }
        i = i + 1;
    }
    None
}

/// The names of the hop-by-hop headers listed by one `Connection` value:
/// each comma-separated item, trimmed, if not empty, in lower case.
pub open spec fn spec_connection_tokens(parts: Seq<Seq<char>>) -> Seq<Seq<char>>
    decreases parts.len(),
{
    if parts.len() == 0 {
        Seq::empty()
    } else {
        (if spec_trim(parts[0]).len() > 0 {
            seq![spec_lower_seq(spec_trim(parts[0]))]
        } else {
            Seq::empty()
        }) + spec_connection_tokens(parts.drop_first())
    }
}

/// The header names that all `Connection` headers list, in order.
pub open spec fn spec_connection_names(hs: Seq<(Seq<char>, Seq<char>)>) -> Seq<Seq<char>>
    decreases hs.len(),
{
    if hs.len() == 0 {
        Seq::empty()
    } else {
        (if spec_eq_ignore_case(hs[0].0, "connection"@) {
            spec_connection_tokens(spec_split(hs[0].1, ','))
        } else {
            Seq::empty()
        }) + spec_connection_names(hs.drop_first())
    }
}

proof fn lemma_tokens_step(parts: Seq<Seq<char>>, j: int)
    requires
        0 <= j < parts.len(),
    ensures
        spec_connection_tokens(parts.skip(j)) == (if spec_trim(parts[j]).len() > 0 {
            seq![spec_lower_seq(spec_trim(parts[j]))]
        } else {
            Seq::<Seq<char>>::empty()
        }) + spec_connection_tokens(parts.skip(j + 1)),
{
    assert(parts.skip(j).drop_first() =~= parts.skip(j + 1));
    assert(parts.skip(j)[0] == parts[j]);
}

proof fn lemma_names_step(hs: Seq<(Seq<char>, Seq<char>)>, i: int)
    requires
        0 <= i < hs.len(),
    ensures
        spec_connection_names(hs.skip(i)) == (if spec_eq_ignore_case(hs[i].0, "connection"@) {
            spec_connection_tokens(spec_split(hs[i].1, ','))
        } else {
            Seq::<Seq<char>>::empty()
        }) + spec_connection_names(hs.skip(i + 1)),
{
    assert(hs.skip(i).drop_first() =~= hs.skip(i + 1));
    assert(hs.skip(i)[0] == hs[i]);
}

/// Returns the header names listed by all `Connection` headers.
pub fn connection_header_names(headers: &[(String, String)]) -> (r: Vec<String>)
    ensures
        spec_strings(r@) == spec_connection_names(spec_headers(headers@)),
{
    let ghost hs = spec_headers(headers@);
    let connection = "connection";
    proof {
        reveal_strlit("connection");
    }
    let mut out: Vec<String> = Vec::new();
    let mut i: usize = 0;
    assert(hs.skip(0) =~= hs);
    assert(spec_strings(out@) =~= Seq::<Seq<char>>::empty());
    while i < headers.len()
        invariant
            i <= headers@.len(),
            hs == spec_headers(headers@),
            connection@ == "connection"@,
            spec_strings(out@) + spec_connection_names(hs.skip(i as int)) == spec_connection_names(hs),
        decreases headers@.len() - i,
    {
        proof {
            lemma_names_step(hs, i as int);
        }
        let (name, value) = &headers[i];
        if eq_ignore_ascii_case(name.as_str(), connection) {
            let vc = chars_of(value.as_str());
            let parts = split_chars(vc.as_slice(), ',');
            let ghost ps = spec_split(value@, ',');
            assert(ps.len() == parts@.len());
            let ghost before = spec_strings(out@);
            let mut j: usize = 0;
            assert(ps.skip(0) =~= ps);
            while j < parts.len()
                invariant
                    j <= parts@.len(),
                    ps.len() == parts@.len(),
                    forall|k: int| 0 <= k < parts@.len() ==> #[trigger] parts@[k]@ == ps[k],
                    spec_strings(out@) + spec_connection_tokens(ps.skip(j as int)) == before
                        + spec_connection_tokens(ps),
                decreases parts@.len() - j,
            {
                proof {
                    lemma_tokens_step(ps, j as int);
                }
                let (a, b) = trim_bounds(parts[j].as_slice());
                let ghost prev = spec_strings(out@);
                if a < b {
                    let piece = string_of(vstd::slice::slice_subrange(parts[j].as_slice(), a, b));
                    let lowered = to_ascii_lowercase(piece.as_str());
                    out.push(lowered);
                    assert(spec_strings(out@) =~= prev.push(spec_lower_seq(spec_trim(ps[j as int]))));
                    assert(prev.push(spec_lower_seq(spec_trim(ps[j as int]))) + spec_connection_tokens(
                        ps.skip(j + 1),
                    ) =~= prev + (seq![spec_lower_seq(spec_trim(ps[j as int]))]
                        + spec_connection_tokens(ps.skip(j + 1))));
                } else {
                    assert(spec_trim(ps[j as int]).len() == 0);
                    assert(prev + spec_connection_tokens(ps.skip(j as int)) =~= prev
                        + spec_connection_tokens(ps.skip(j + 1)));
                }
                j = j + 1;
            }
            assert(ps.skip(j as int) =~= Seq::<Seq<char>>::empty());
            assert(spec_strings(out@) + spec_connection_names(hs.skip(i + 1)) =~= before + (
            spec_connection_tokens(ps) + spec_connection_names(hs.skip(i + 1))));
        } else {
            assert(spec_strings(out@) + spec_connection_names(hs.skip(i + 1)) =~= spec_strings(out@)
                + spec_connection_names(hs.skip(i as int)));
        }
        i = i + 1;
    }
    assert(hs.skip(i as int) =~= Seq::<(Seq<char>, Seq<char>)>::empty());
    assert(spec_strings(out@) =~= spec_strings(out@) + Seq::<Seq<char>>::empty());
    out
}

/// The headers never forwarded upstream: proxy credentials, hop-by-hop
/// headers, `Host` (rewritten) and any header a `Connection` header lists.
pub open spec fn spec_should_drop(name: Seq<char>, connection_headers: Seq<Seq<char>>) -> bool {
    ||| spec_eq_ignore_case(name, "proxy-authorization"@)
    ||| spec_eq_ignore_case(name, "proxy-connection"@)
    ||| spec_eq_ignore_case(name, "host"@)
    ||| spec_eq_ignore_case(name, "connection"@)
    ||| spec_eq_ignore_case(name, "keep-alive"@)
    ||| spec_eq_ignore_case(name, "te"@)
    ||| spec_eq_ignore_case(name, "trailer"@)
    ||| spec_eq_ignore_case(name, "upgrade"@)
    ||| exists|i: int|
        0 <= i < connection_headers.len() && spec_eq_ignore_case(
            #[trigger] connection_headers[i],
            name,
        )
}

/// Checks whether a header must be removed before forwarding.
pub fn should_drop_forward_header(name: &str, connection_headers: &[String]) -> (r: bool)
    ensures
        r == spec_should_drop(name@, spec_strings(connection_headers@)),
{
    if eq_ignore_ascii_case(name, "proxy-authorization") || eq_ignore_ascii_case(name, "proxy-connection")
        || eq_ignore_ascii_case(name, "host") || eq_ignore_ascii_case(name, "connection")
        || eq_ignore_ascii_case(name, "keep-alive") || eq_ignore_ascii_case(name, "te")
        || eq_ignore_ascii_case(name, "trailer") || eq_ignore_ascii_case(name, "upgrade") {
        return true;
    }
    let ghost cs = spec_strings(connection_headers@);
    let mut i: usize = 0;
    while i < connection_headers.len()
        invariant
            i <= connection_headers@.len(),
            cs == spec_strings(connection_headers@),
            forall|k: int| 0 <= k < i ==> !spec_eq_ignore_case(#[trigger] cs[k], name@),
        decreases connection_headers@.len() - i,
    {
        if eq_ignore_ascii_case(connection_headers[i].as_str(), name) {
            assert(cs[i as int] == connection_headers@[i as int]@);
            return true;
        }
        i = i + 1;
    }
    false
}

// ---------------------------------------------------------------------
// Targets
// ---------------------------------------------------------------------

/// The host (brackets removed) and port of an authority, with a default
/// port; an empty host is refused.
pub open spec fn spec_authority_host_port(a: (Seq<char>, Option<u16>), default_port: u16) -> Result<
    (Seq<char>, u16),
    HttpError,
> {
    let host = spec_normalize_host(a.0);
    if host.len() == 0 {
        Err(HttpError::MissingHost)
    } else {
        Ok(
            (
                host,
                match a.1 {
                    Some(p) => p,
                    None => default_port,
                },
            ),
        )
    }
}

/// The value of a host-and-port result.
pub open spec fn spec_hp(r: Result<(String, u16), HttpError>) -> Result<(Seq<char>, u16), HttpError> {
    match r {
        Ok((h, p)) => Ok((h@, p)),
        Err(e) => Err(e),
    }
}

/// The value of a host, port and path result.
pub open spec fn spec_hpp(r: Result<(String, u16, String), HttpError>) -> Result<
    (Seq<char>, u16, Seq<char>),
    HttpError,
> {
    match r {
        Ok((h, p, path)) => Ok((h@, p, path@)),
        Err(e) => Err(e),
    }
}

/// Extracts the normalized host and port from an authority.
pub fn authority_host_port(authority: &AuthorityParts, default_port: u16) -> (r: Result<
    (String, u16),
    HttpError,
>)
    ensures
        spec_hp(r) == spec_authority_host_port(authority@, default_port),
{
    let host = normalize_host(authority.host.as_str());
    if host.as_str().is_empty() {
        return Err(HttpError::MissingHost);
    }
    let port = match authority.port {
        Some(p) => p,
        None => default_port,
    };
    Ok((host, port))
}

/// The host and port of a CONNECT target; the default port is 443.
pub open spec fn spec_parse_connect_target(t: Seq<char>) -> Result<(Seq<char>, u16), HttpError> {
    match spec_parse_authority(t) {
        None => Err(HttpError::BadConnectTarget),
        Some(a) => spec_authority_host_port(a, 443),
    }
}

/// Parses a CONNECT authority target into host and port.
pub fn parse_connect_target(target: &str) -> (r: Result<(String, u16), HttpError>)
    ensures
        spec_hp(r) == spec_parse_connect_target(target@),
{
    match parse_authority(target) {
        None => Err(HttpError::BadConnectTarget),
        Some(authority) => authority_host_port(&authority, 443),
    }
}

/// Host, port and origin-form path of an absolute `http://` target;
/// `https://` and other schemes are refused.
pub open spec fn spec_parse_absolute_target(t: Seq<char>) -> Result<(Seq<char>, u16, Seq<char>), HttpError> {
    match spec_parse_uri(t) {
        None => Err(HttpError::BadRequestTarget),
        Some(u) => spec_absolute_target_from_uri(u),
    }
}

/// Host, port and origin-form path of a parsed absolute URI: the scheme
/// must be `http` (any case; `https` has its own error), the authority
/// must be there and name a host, the port defaults to 80.
pub open spec fn spec_absolute_target_from_uri(
    u: (Option<Seq<char>>, Option<(Seq<char>, Option<u16>)>, Option<Seq<char>>),
) -> Result<(Seq<char>, u16, Seq<char>), HttpError> {
    let (scheme, authority, pq) = u;
    if !(scheme matches Some(s) && spec_eq_ignore_case(s, "http"@)) {
        if scheme matches Some(s) && spec_eq_ignore_case(s, "https"@) {
            Err(HttpError::HttpsNotSupported)
        } else {
            Err(HttpError::UnsupportedScheme)
        }
    } else {
        match authority {
            None => Err(HttpError::MissingHost),
            Some(a) => match spec_authority_host_port(a, 80) {
                Err(e) => Err(e),
                Ok((host, port)) => Ok((host, port, spec_normalize_path_and_query(pq))),
            },
        }
    }
}

/// Parses an absolute-form HTTP target.
pub fn parse_absolute_target(target: &str) -> (r: Result<(String, u16, String), HttpError>)
    ensures
        spec_hpp(r) == spec_parse_absolute_target(target@),
{
    match parse_uri(target) {
        None => Err(HttpError::BadRequestTarget),
        Some(uri) => absolute_target_from_uri(&uri),
    }
}

/// Takes host, port and origin-form path from a parsed absolute URI.
pub fn absolute_target_from_uri(uri: &UriParts) -> (r: Result<(String, u16, String), HttpError>)
    ensures
        spec_hpp(r) == spec_absolute_target_from_uri(uri@),
{
    let is_http = match &uri.scheme {
        Some(scheme) => eq_ignore_ascii_case(scheme.as_str(), "http"),
        None => false,
    };
    if !is_http {
        let is_https = match &uri.scheme {
            Some(scheme) => eq_ignore_ascii_case(scheme.as_str(), "https"),
            None => false,
        };
        if is_https {
            return Err(HttpError::HttpsNotSupported);
        }
        return Err(HttpError::UnsupportedScheme);
    }
    let authority = match &uri.authority {
        None => return Err(HttpError::MissingHost),
        Some(a) => a,
    };
    let (host, port) = match authority_host_port(authority, 80) {
        Err(e) => return Err(e),
        Ok(hp) => hp,
    };
    let pq: Option<&str> = match &uri.path_and_query {
        Some(p) => Some(p.as_str()),
        None => None,
    };
    let path = normalize_path_and_query(pq);
    Ok((host, port, path))
}

/// Host, port and path of a request target: an absolute target carries
/// its own authority, an origin-form target takes the `Host` header.
pub open spec fn spec_split_target(t: Seq<char>, host_header: Option<Seq<char>>, default_port: u16) -> Result<
    (Seq<char>, u16, Seq<char>),
    HttpError,
> {
    if spec_is_absolute_http_target(t) {
        spec_parse_absolute_target(t)
    } else {
        match host_header {
            None => Err(HttpError::MissingHost),
            Some(h) => match spec_parse_authority(h) {
                None => Err(HttpError::BadHost),
                Some(a) => match spec_authority_host_port(a, default_port) {
                    Err(e) => Err(e),
                    Ok((host, port)) => Ok(
                        (
                            host,
                            port,
                            if t.len() == 0 {
                                seq!['/']
                            } else {
                                t
                            },
                        ),
                    ),
                },
            },
        }
    }
}

/// Splits an HTTP request target into host, port and path.
pub fn split_target(target: &str, host_header: Option<&str>, default_port: u16) -> (r: Result<
    (String, u16, String),
    HttpError,
>)
    ensures
        spec_hpp(r) == spec_split_target(target@, spec_opt_str(host_header), default_port),
{
    if is_absolute_http_target(target) {
        return parse_absolute_target(target);
    }
    let host_header = match host_header {
        None => return Err(HttpError::MissingHost),
        Some(h) => h,
    };
    let authority = match parse_authority(host_header) {
        None => return Err(HttpError::BadHost),
        Some(a) => a,
    };
    let (host, port) = match authority_host_port(&authority, default_port) {
        Err(e) => return Err(e),
        Ok(hp) => hp,
    };
    let path = if target.is_empty() {
        let mut s = String::new();
        s.push('/');
        s
    } else {
        owned(target)
    };
    Ok((host, port, path))
}

/// The port a `Host` value names: its explicit port, or 80.
pub open spec fn spec_host_header_port(host: Seq<char>) -> Option<u16> {
    match spec_parse_authority(spec_trim(host)) {
        None => None,
        Some(a) => Some(
            match a.1 {
                Some(p) => p,
                None => 80u16,
            },
        ),
    }
}

/// Extracts the port from a Host header value.
pub fn host_header_port(host: &str) -> (r: Option<u16>)
    ensures
        r == spec_host_header_port(host@),
{
    let a = parse_authority(trim(host))?;
    Some(
        match a.port {
            Some(p) => p,
            None => 80,
        },
    )
}

/// Checks whether a Host header points at the listener port.
pub fn host_targets_listener_port(host: &str, listener_port: u16) -> (r: bool)
    ensures
        r == (spec_host_header_port(host@) == Some(listener_port)),
{
    match host_header_port(host) {
        Some(port) => port == listener_port,
        None => false,
    }
}

/// The part of a text before its first `c` (all of it when there is none).
pub open spec fn spec_until(s: Seq<char>, c: char) -> Seq<char>
    decreases s.len(),
{
    if s.len() == 0 {
        s
    } else if s[0] == c {
        Seq::empty()
    } else {
        seq![s[0]] + spec_until(s.drop_first(), c)
    }
}

/// The characters before the first `c`.
fn until_char(cs: &[char], c: char) -> (r: usize)
    ensures
        r <= cs@.len(),
        cs@.take(r as int) == spec_until(cs@, c),
{
    let mut i: usize = 0;
    assert(cs@.skip(0) =~= cs@);
    assert(cs@.take(0) =~= Seq::<char>::empty());
    while i < cs.len() && cs[i] != c
        invariant
            i <= cs@.len(),
            spec_until(cs@, c) == cs@.take(i as int) + spec_until(cs@.skip(i as int), c),
        decreases cs@.len() - i,
    {
        assert(cs@.skip(i as int).drop_first() =~= cs@.skip(i + 1));
        assert(cs@.take(i as int) + seq![cs@[i as int]] =~= cs@.take(i + 1));
        assert(cs@.take(i as int) + (seq![cs@[i as int]] + spec_until(cs@.skip(i + 1), c))
            =~= cs@.take(i + 1) + spec_until(cs@.skip(i + 1), c));
        i = i + 1;
    }
    if i < cs.len() {
        assert(spec_until(cs@.skip(i as int), c) =~= Seq::<char>::empty());
    } else {
        assert(cs@.skip(i as int) =~= Seq::<char>::empty());
    }
    assert(cs@.take(i as int) + Seq::<char>::empty() =~= cs@.take(i as int));
    i
}

/// Whether a request asks for the built-in statistics page: a `GET` of the
/// origin-form path `/stats` (any query) whose `Host` names the listener
/// port.
pub open spec fn spec_is_stats_request(
    method: Seq<char>,
    target: Seq<char>,
    hs: Seq<(Seq<char>, Seq<char>)>,
    listener_port: u16,
) -> bool {
    &&& spec_eq_ignore_case(method, "GET"@)
    &&& !spec_is_absolute_http_target(target)
    &&& spec_until(target, '?') == "/stats"@
    &&& match spec_find_header(hs, "host"@) {
        None => false,
        Some(h) => spec_host_header_port(h) == Some(listener_port),
    }
}

/// Checks whether a request targets the built-in stats page.
pub fn is_stats_request(req: &HttpRequest, listener_port: u16) -> (r: bool)
    ensures
        r == spec_is_stats_request(req.method@, req.target@, spec_headers(req.headers@), listener_port),
{
    if !eq_ignore_ascii_case(req.method.as_str(), "GET") {
        return false;
    }
    if is_absolute_http_target(req.target.as_str()) {
        return false;
    }
    let cs = chars_of(req.target.as_str());
    let end = until_char(cs.as_slice(), '?');
    let stats = chars_of("/stats");
    let path = vstd::slice::slice_subrange(cs.as_slice(), 0, end);
    assert(path@ =~= cs@.take(end as int));
    if !chars_equal(path, stats.as_slice()) {
        return false;
    }
    match get_header(req.headers.as_slice(), "host") {
        None => false,
        Some(host) => host_targets_listener_port(host, listener_port),
    }
}

/// Whether two character sequences are equal.
fn chars_equal(a: &[char], b: &[char]) -> (r: bool)
    ensures
        r == (a@ == b@),
{
    if a.len() != b.len() {
        return false;
    }
    let mut i: usize = 0;
    while i < a.len()
        invariant
            i <= a@.len() == b@.len(),
            forall|k: int| 0 <= k < i ==> a@[k] == b@[k],
        decreases a@.len() - i,
    {
        if a[i] != b[i] {
            return false;
        }
        i = i + 1;
    }
    assert(a@ =~= b@);
    true
}

/// The UTF-8 bytes of an optional text.
pub open spec fn spec_opt_encoded(o: Option<Seq<char>>) -> Option<Seq<u8>> {
    match o {
        Some(s) => Some(encode_utf8(s)),
        None => None,
    }
}

/// Whether a request carries the configured credentials for the stats page,
/// in `Authorization` or in `Proxy-Authorization`.
pub open spec fn spec_stats_authorized(
    hs: Seq<(Seq<char>, Seq<char>)>,
    username: Option<Seq<char>>,
    password: Option<Seq<char>>,
) -> bool {
    ||| spec_http_basic_authorized(
        spec_opt_encoded(spec_find_header(hs, "authorization"@)),
        username,
        password,
    )
    ||| spec_http_basic_authorized(
        spec_opt_encoded(spec_find_header(hs, "proxy-authorization"@)),
        username,
        password,
    )
}

/// Checks Basic credentials for the stats page.
pub fn stats_authorized(req: &HttpRequest, auth: &AuthConfig) -> (r: bool)
    ensures
        r == spec_stats_authorized(
            spec_headers(req.headers@),
            spec_opt_chars(auth.username),
            spec_opt_chars(auth.password),
        ),
{
    let a = get_header(req.headers.as_slice(), "authorization");
    let p = get_header(req.headers.as_slice(), "proxy-authorization");
    assert(spec_opt_bytes(a) == spec_opt_encoded(spec_opt_str(a)));
    assert(spec_opt_bytes(p) == spec_opt_encoded(spec_opt_str(p)));
    http_basic_authorized(a, auth) || http_basic_authorized(p, auth)
}


// ---------------------------------------------------------------------
// Body framing
// ---------------------------------------------------------------------

/// The body length that the comma-separated `Content-Length` items `parts`
/// give, starting from the length `cl` that earlier items gave: every item,
/// trimmed, must be a number, and all numbers must agree.
pub open spec fn spec_cl_parts(parts: Seq<Seq<char>>, cl: Option<u64>) -> Result<Option<u64>, HttpError>
    decreases parts.len(),
{
    if parts.len() == 0 {
        Ok(cl)
    } else {
        match spec_parse_u64(spec_trim(parts[0])) {
            None => Err(HttpError::BadContentLength),
            Some(v) => match cl {
                Some(prev) if prev != v => Err(HttpError::AmbiguousContentLength),
                _ => spec_cl_parts(parts.drop_first(), Some(v)),
            },
        }
    }
}

/// Some comma-separated item, trimmed, is `chunked` up to ASCII case.
pub open spec fn spec_has_chunked(parts: Seq<Seq<char>>) -> bool {
    exists|k: int| 0 <= k < parts.len() && spec_eq_ignore_case(#[trigger] spec_trim(parts[k]), "chunked"@)
}

/// The framing check over the headers `hs` that remain, given the
/// `Content-Length` found so far and whether chunked transfer coding was seen.
pub open spec fn spec_framing_from(
    hs: Seq<(Seq<char>, Seq<char>)>,
    cl: Option<u64>,
    chunked: bool,
) -> Result<(), HttpError>
    decreases hs.len(),
{
    if hs.len() == 0 {
        if chunked && cl is Some {
            Err(HttpError::ConflictingLengthHeaders)
        } else {
            Ok(())
        }
    } else if spec_eq_ignore_case(hs[0].0, "content-length"@) {
        match spec_cl_parts(spec_split(hs[0].1, ','), cl) {
            Err(e) => Err(e),
            Ok(c) => spec_framing_from(hs.drop_first(), c, chunked),
        }
    } else if spec_eq_ignore_case(hs[0].0, "transfer-encoding"@) && spec_has_chunked(
        spec_split(hs[0].1, ','),
    ) {
        spec_framing_from(hs.drop_first(), cl, true)
    } else {
        spec_framing_from(hs.drop_first(), cl, chunked)
    }
}

/// Whether the headers describe the body length unambiguously: every
/// `Content-Length` item is a number and all agree, and no request carries
/// both a `Content-Length` and a chunked `Transfer-Encoding`. The first
/// fault, in header order, is the error.
pub open spec fn spec_validate_framing(hs: Seq<(Seq<char>, Seq<char>)>) -> Result<(), HttpError> {
    spec_framing_from(hs, None, false)
}

proof fn lemma_cl_parts_step(parts: Seq<Seq<char>>, j: int, cl: Option<u64>)
    requires
        0 <= j < parts.len(),
    ensures
        spec_cl_parts(parts.skip(j), cl) == (match spec_parse_u64(spec_trim(parts[j])) {
            None => Err(HttpError::BadContentLength),
            Some(v) => match cl {
                Some(prev) if prev != v => Err(HttpError::AmbiguousContentLength),
                _ => spec_cl_parts(parts.skip(j + 1), Some(v)),
            },
        }),
{
    assert(parts.skip(j).drop_first() =~= parts.skip(j + 1));
    assert(parts.skip(j)[0] == parts[j]);
}

proof fn lemma_framing_step(hs: Seq<(Seq<char>, Seq<char>)>, i: int, cl: Option<u64>, chunked: bool)
    requires
        0 <= i < hs.len(),
    ensures
        spec_framing_from(hs.skip(i), cl, chunked) == (if spec_eq_ignore_case(
            hs[i].0,
            "content-length"@,
        ) {
            match spec_cl_parts(spec_split(hs[i].1, ','), cl) {
                Err(e) => Err(e),
                Ok(c) => spec_framing_from(hs.skip(i + 1), c, chunked),
            }
        } else if spec_eq_ignore_case(hs[i].0, "transfer-encoding"@) && spec_has_chunked(
            spec_split(hs[i].1, ','),
        ) {
            spec_framing_from(hs.skip(i + 1), cl, true)
        } else {
            spec_framing_from(hs.skip(i + 1), cl, chunked)
        }),
{
    assert(hs.skip(i).drop_first() =~= hs.skip(i + 1));
    assert(hs.skip(i)[0] == hs[i]);
}

/// Some header is a `Content-Length`.
pub open spec fn spec_has_content_length(hs: Seq<(Seq<char>, Seq<char>)>) -> bool {
    exists|i: int| 0 <= i < hs.len() && spec_eq_ignore_case(#[trigger] hs[i].0, "content-length"@)
}

/// Some header is a `Transfer-Encoding` that lists `chunked`.
pub open spec fn spec_has_chunked_encoding(hs: Seq<(Seq<char>, Seq<char>)>) -> bool {
    exists|i: int|
        0 <= i < hs.len() && spec_eq_ignore_case(#[trigger] hs[i].0, "transfer-encoding"@)
            && spec_has_chunked(spec_split(hs[i].1, ','))
}

proof fn lemma_split_from_nonempty(cur: Seq<char>, s: Seq<char>, sep: char)
    ensures
        spec_split_from(cur, s, sep).len() >= 1,
    decreases s.len(),
{
    if s.len() > 0 {
        if s[0] == sep {
            lemma_split_from_nonempty(Seq::empty(), s.drop_first(), sep);
        } else {
            lemma_split_from_nonempty(cur.push(s[0]), s.drop_first(), sep);
        }
    }
}

proof fn lemma_cl_parts_some(parts: Seq<Seq<char>>, cl: Option<u64>)
    requires
        parts.len() > 0 || cl is Some,
        spec_cl_parts(parts, cl) is Ok,
    ensures
        spec_cl_parts(parts, cl)->Ok_0 is Some,
    decreases parts.len(),
{
    if parts.len() > 0 {
        match spec_parse_u64(spec_trim(parts[0])) {
            Some(v) => lemma_cl_parts_some(parts.drop_first(), Some(v)),
            None => {},
        }
    }
}

proof fn lemma_framing_conflict_from(hs: Seq<(Seq<char>, Seq<char>)>, cl: Option<u64>, chunked: bool)
    requires
        cl is Some || spec_has_content_length(hs),
        chunked || spec_has_chunked_encoding(hs),
    ensures
        spec_framing_from(hs, cl, chunked) is Err,
    decreases hs.len(),
{
    if hs.len() > 0 {
        let rest = hs.drop_first();
        assert(spec_has_content_length(hs) && !spec_eq_ignore_case(hs[0].0, "content-length"@)
            ==> spec_has_content_length(rest)) by {
            if spec_has_content_length(hs) && !spec_eq_ignore_case(hs[0].0, "content-length"@) {
                let i = choose|i: int| 0 <= i < hs.len() && spec_eq_ignore_case(#[trigger] hs[i].0, "content-length"@);
                assert(rest[i - 1] == hs[i]);
            }
        }
        assert(spec_has_chunked_encoding(hs) && !(spec_eq_ignore_case(hs[0].0, "transfer-encoding"@)
            && spec_has_chunked(spec_split(hs[0].1, ','))) ==> spec_has_chunked_encoding(rest)) by {
            if spec_has_chunked_encoding(hs) && !(spec_eq_ignore_case(hs[0].0, "transfer-encoding"@)
                && spec_has_chunked(spec_split(hs[0].1, ','))) {
                let i = choose|i: int|
                    0 <= i < hs.len() && spec_eq_ignore_case(#[trigger] hs[i].0, "transfer-encoding"@)
                        && spec_has_chunked(spec_split(hs[i].1, ','));
                assert(rest[i - 1] == hs[i]);
            }
        }
        if spec_eq_ignore_case(hs[0].0, "content-length"@) {
            let parts = spec_split(hs[0].1, ',');
            lemma_split_from_nonempty(Seq::empty(), hs[0].1, ',');
            if spec_cl_parts(parts, cl) is Ok {
                lemma_cl_parts_some(parts, cl);
                let c = spec_cl_parts(parts, cl)->Ok_0;
                assert(!spec_eq_ignore_case(hs[0].0, "transfer-encoding"@)) by {
                    reveal_strlit("content-length");
                    reveal_strlit("transfer-encoding");
                    assert(spec_lower_seq(hs[0].0).len() == 14);
                }
                lemma_framing_conflict_from(rest, c, chunked);
            }
        } else if spec_eq_ignore_case(hs[0].0, "transfer-encoding"@) && spec_has_chunked(
            spec_split(hs[0].1, ','),
        ) {
            lemma_framing_conflict_from(rest, cl, true);
        } else {
            lemma_framing_conflict_from(rest, cl, chunked);
        }
    }
}

/// Law: a request whose headers give both a `Content-Length` and a chunked
/// `Transfer-Encoding` is refused, whatever else they hold.
pub proof fn lemma_conflicting_framing_refused(hs: Seq<(Seq<char>, Seq<char>)>)
    requires
        spec_has_content_length(hs),
        spec_has_chunked_encoding(hs),
    ensures
        spec_validate_framing(hs) is Err,
{
    lemma_framing_conflict_from(hs, None, false);
}

/// The number that item `k` of comma-separated `Content-Length` items
/// gives, trimmed.
pub open spec fn spec_item_value(parts: Seq<Seq<char>>, k: int) -> Option<u64> {
    spec_parse_u64(spec_trim(parts[k]))
}

/// The length every item must give: the one earlier values gave, else the
/// first item's.
pub open spec fn spec_cl_expected(parts: Seq<Seq<char>>, cl: Option<u64>) -> Option<u64> {
    if cl is Some {
        cl
    } else if parts.len() > 0 {
        spec_item_value(parts, 0)
    } else {
        None
    }
}

proof fn lemma_cl_parts_closed(parts: Seq<Seq<char>>, cl: Option<u64>)
    ensures
        (spec_cl_parts(parts, cl) is Ok) <==> (forall|k: int|
            0 <= k < parts.len() ==> (#[trigger] spec_item_value(parts, k)) is Some
                && spec_item_value(parts, k) == spec_cl_expected(parts, cl)),
        spec_cl_parts(parts, cl) is Ok ==> spec_cl_parts(parts, cl)->Ok_0 == spec_cl_expected(parts, cl),
    decreases parts.len(),
{
    if parts.len() > 0 {
        let rest = parts.drop_first();
        assert forall|k: int| 0 <= k < rest.len() implies #[trigger] spec_item_value(rest, k)
            == spec_item_value(parts, k + 1) by {
            assert(rest[k] == parts[k + 1]);
        }
        match spec_item_value(parts, 0) {
            None => {},
            Some(v) => {
                if cl matches Some(prev) && prev != v {
                } else {
                    lemma_cl_parts_closed(rest, Some(v));
                    assert(spec_cl_expected(parts, cl) == Some(v));
                    if forall|k: int|
                        0 <= k < rest.len() ==> (#[trigger] spec_item_value(rest, k)) is Some
                            && spec_item_value(rest, k) == Some(v) {
                        assert forall|k: int| 0 <= k < parts.len() implies (#[trigger] spec_item_value(
                            parts,
                            k,
                        )) is Some && spec_item_value(parts, k) == Some(v) by {
                            if k > 0 {
                                assert(spec_item_value(rest, k - 1) == spec_item_value(parts, k));
                            }
                        }
                    } else {
                        let k = choose|k: int|
                            !(0 <= k < rest.len() ==> (#[trigger] spec_item_value(rest, k)) is Some
                                && spec_item_value(rest, k) == Some(v));
                        assert(spec_item_value(rest, k) == spec_item_value(parts, k + 1));
                    }
                }
            },
        }
    }
}

/// Item `k` of header `i` is a `Content-Length` item.
pub open spec fn spec_is_cl_item(hs: Seq<(Seq<char>, Seq<char>)>, i: int, k: int) -> bool {
    &&& 0 <= i < hs.len()
    &&& spec_eq_ignore_case(hs[i].0, "content-length"@)
    &&& 0 <= k < spec_split(hs[i].1, ',').len()
}

/// The number that item `k` of header `i` gives, trimmed.
pub open spec fn spec_cl_value(hs: Seq<(Seq<char>, Seq<char>)>, i: int, k: int) -> Option<u64> {
    spec_item_value(spec_split(hs[i].1, ','), k)
}

/// Every `Content-Length` item, trimmed, is a number.
pub open spec fn spec_cl_values_parse(hs: Seq<(Seq<char>, Seq<char>)>) -> bool {
    forall|i: int, k: int| spec_is_cl_item(hs, i, k) ==> (#[trigger] spec_cl_value(hs, i, k)) is Some
}

/// All `Content-Length` items give the same number.
pub open spec fn spec_cl_values_agree(hs: Seq<(Seq<char>, Seq<char>)>) -> bool {
    forall|i: int, k: int, j: int, l: int|
        spec_is_cl_item(hs, i, k) && spec_is_cl_item(hs, j, l) ==> #[trigger] spec_cl_value(hs, i, k)
            == #[trigger] spec_cl_value(hs, j, l)
}

/// Every `Content-Length` item gives the number `c`.
pub open spec fn spec_cl_values_equal(hs: Seq<(Seq<char>, Seq<char>)>, c: u64) -> bool {
    forall|i: int, k: int| spec_is_cl_item(hs, i, k) ==> #[trigger] spec_cl_value(hs, i, k) == Some(c)
}

/// The framing rule in closed form: every `Content-Length` item, trimmed,
/// is a number, all of them agree, and no `Content-Length` comes together
/// with a chunked `Transfer-Encoding`.
pub open spec fn spec_framing_closed(hs: Seq<(Seq<char>, Seq<char>)>) -> bool {
    &&& spec_cl_values_parse(hs)
    &&& spec_cl_values_agree(hs)
    &&& !(spec_has_content_length(hs) && spec_has_chunked_encoding(hs))
}

/// The closed form for the headers that remain, after a length `cl` and
/// the chunked flag of the headers before them.
pub open spec fn spec_framing_closed_from(hs: Seq<(Seq<char>, Seq<char>)>, cl: Option<u64>, chunked: bool) -> bool {
    &&& spec_cl_values_parse(hs)
    &&& spec_cl_values_agree(hs)
    &&& (cl matches Some(c) ==> spec_cl_values_equal(hs, c))
    &&& !((cl is Some || spec_has_content_length(hs)) && (chunked || spec_has_chunked_encoding(hs)))
}

proof fn lemma_length_name_not_encoding(name: Seq<char>)
    requires
        spec_eq_ignore_case(name, "content-length"@),
    ensures
        !spec_eq_ignore_case(name, "transfer-encoding"@),
{
    reveal_strlit("content-length");
    reveal_strlit("transfer-encoding");
    assert(spec_lower_seq(name).len() == 14);
}

proof fn lemma_shift_headers(hs: Seq<(Seq<char>, Seq<char>)>)
    requires
        hs.len() > 0,
    ensures
        forall|i: int, k: int|
            0 <= i ==> (#[trigger] spec_is_cl_item(hs.drop_first(), i, k) <==> spec_is_cl_item(hs, i + 1, k)),
        forall|i: int, k: int|
            0 <= i < hs.len() - 1 ==> #[trigger] spec_cl_value(hs.drop_first(), i, k) == spec_cl_value(hs, i + 1, k),
        spec_has_content_length(hs) <==> (spec_eq_ignore_case(hs[0].0, "content-length"@)
            || spec_has_content_length(hs.drop_first())),
        spec_has_chunked_encoding(hs) <==> ((spec_eq_ignore_case(hs[0].0, "transfer-encoding"@)
            && spec_has_chunked(spec_split(hs[0].1, ','))) || spec_has_chunked_encoding(hs.drop_first())),
{
    let rest = hs.drop_first();
    assert forall|i: int, k: int| 0 <= i implies (#[trigger] spec_is_cl_item(rest, i, k) <==> spec_is_cl_item(
        hs,
        i + 1,
        k,
    )) by {
        if 0 <= i < rest.len() {
            assert(rest[i] == hs[i + 1]);
        }
    }
    assert forall|i: int, k: int| 0 <= i < hs.len() - 1 implies #[trigger] spec_cl_value(rest, i, k)
        == spec_cl_value(hs, i + 1, k) by {
        assert(rest[i] == hs[i + 1]);
    }
    if spec_has_content_length(hs) && !spec_eq_ignore_case(hs[0].0, "content-length"@) {
        let i = choose|i: int| 0 <= i < hs.len() && spec_eq_ignore_case(#[trigger] hs[i].0, "content-length"@);
        assert(rest[i - 1] == hs[i]);
    }
    if spec_has_content_length(rest) {
        let i = choose|i: int| 0 <= i < rest.len() && spec_eq_ignore_case(#[trigger] rest[i].0, "content-length"@);
        assert(hs[i + 1] == rest[i]);
    }
    if spec_has_chunked_encoding(hs) && !(spec_eq_ignore_case(hs[0].0, "transfer-encoding"@)
        && spec_has_chunked(spec_split(hs[0].1, ','))) {
        let i = choose|i: int|
            0 <= i < hs.len() && spec_eq_ignore_case(#[trigger] hs[i].0, "transfer-encoding"@)
                && spec_has_chunked(spec_split(hs[i].1, ','));
        assert(rest[i - 1] == hs[i]);
    }
    if spec_has_chunked_encoding(rest) {
        let i = choose|i: int|
            0 <= i < rest.len() && spec_eq_ignore_case(#[trigger] rest[i].0, "transfer-encoding"@)
                && spec_has_chunked(spec_split(rest[i].1, ','));
        assert(hs[i + 1] == rest[i]);
    }
}

/// For a first header that is not a `Content-Length`, the value rules over
/// all headers are those over the rest.
proof fn lemma_values_skip_head(hs: Seq<(Seq<char>, Seq<char>)>, c: u64)
    requires
        hs.len() > 0,
        !spec_eq_ignore_case(hs[0].0, "content-length"@),
    ensures
        spec_cl_values_parse(hs) <==> spec_cl_values_parse(hs.drop_first()),
        spec_cl_values_agree(hs) <==> spec_cl_values_agree(hs.drop_first()),
        spec_cl_values_equal(hs, c) <==> spec_cl_values_equal(hs.drop_first(), c),
{
    let rest = hs.drop_first();
    lemma_shift_headers(hs);
    if spec_cl_values_parse(rest) {
        assert forall|i: int, k: int| spec_is_cl_item(hs, i, k) implies (#[trigger] spec_cl_value(hs, i, k)) is Some by {
            assert(spec_is_cl_item(rest, i - 1, k));
            assert(spec_cl_value(rest, i - 1, k) == spec_cl_value(hs, i, k));
        }
    }
    if spec_cl_values_parse(hs) {
        assert forall|i: int, k: int| spec_is_cl_item(rest, i, k) implies (#[trigger] spec_cl_value(rest, i, k)) is Some by {
            assert(spec_is_cl_item(hs, i + 1, k));
            assert(spec_cl_value(hs, i + 1, k) is Some);
        }
    }
    if spec_cl_values_agree(rest) {
        assert forall|i: int, k: int, j: int, l: int|
            spec_is_cl_item(hs, i, k) && spec_is_cl_item(hs, j, l) implies #[trigger] spec_cl_value(hs, i, k)
            == #[trigger] spec_cl_value(hs, j, l) by {
            assert(spec_is_cl_item(rest, i - 1, k));
            assert(spec_is_cl_item(rest, j - 1, l));
            assert(spec_cl_value(rest, i - 1, k) == spec_cl_value(rest, j - 1, l));
        }
    }
    if spec_cl_values_agree(hs) {
        assert forall|i: int, k: int, j: int, l: int|
            spec_is_cl_item(rest, i, k) && spec_is_cl_item(rest, j, l) implies #[trigger] spec_cl_value(rest, i, k)
            == #[trigger] spec_cl_value(rest, j, l) by {
            assert(spec_is_cl_item(hs, i + 1, k));
            assert(spec_is_cl_item(hs, j + 1, l));
            assert(spec_cl_value(hs, i + 1, k) == spec_cl_value(hs, j + 1, l));
        }
    }
    if spec_cl_values_equal(rest, c) {
        assert forall|i: int, k: int| spec_is_cl_item(hs, i, k) implies #[trigger] spec_cl_value(hs, i, k) == Some(c) by {
            assert(spec_is_cl_item(rest, i - 1, k));
            assert(spec_cl_value(rest, i - 1, k) == spec_cl_value(hs, i, k));
        }
    }
    if spec_cl_values_equal(hs, c) {
        assert forall|i: int, k: int| spec_is_cl_item(rest, i, k) implies #[trigger] spec_cl_value(rest, i, k) == Some(c) by {
            assert(spec_is_cl_item(hs, i + 1, k));
            assert(spec_cl_value(hs, i + 1, k) == Some(c));
        }
    }
}

/// For a first header that is a `Content-Length` whose items all give `c`,
/// the value rules over all headers are those over the rest with `c`.
proof fn lemma_values_with_head(hs: Seq<(Seq<char>, Seq<char>)>, c: u64)
    requires
        hs.len() > 0,
        spec_eq_ignore_case(hs[0].0, "content-length"@),
        spec_split(hs[0].1, ',').len() > 0,
        forall|k: int|
            0 <= k < spec_split(hs[0].1, ',').len() ==> #[trigger] spec_cl_value(hs, 0, k) == Some(c),
    ensures
        (spec_cl_values_parse(hs) && spec_cl_values_agree(hs)) <==> (spec_cl_values_parse(hs.drop_first())
            && spec_cl_values_agree(hs.drop_first()) && spec_cl_values_equal(hs.drop_first(), c)),
        spec_cl_values_equal(hs, c) <==> spec_cl_values_equal(hs.drop_first(), c),
{
    let rest = hs.drop_first();
    lemma_shift_headers(hs);
    assert(spec_is_cl_item(hs, 0, 0));
    if spec_cl_values_parse(hs) && spec_cl_values_agree(hs) {
        assert forall|i: int, k: int| spec_is_cl_item(rest, i, k) implies (#[trigger] spec_cl_value(rest, i, k))
            == Some(c) by {
            assert(spec_is_cl_item(hs, i + 1, k));
            assert(spec_cl_value(hs, i + 1, k) == spec_cl_value(hs, 0, 0));
        }
        assert forall|i: int, k: int| spec_is_cl_item(rest, i, k) implies (#[trigger] spec_cl_value(rest, i, k)) is Some by {
            assert(spec_is_cl_item(hs, i + 1, k));
            assert(spec_cl_value(hs, i + 1, k) == spec_cl_value(hs, 0, 0));
        }
        assert forall|i: int, k: int, j: int, l: int|
            spec_is_cl_item(rest, i, k) && spec_is_cl_item(rest, j, l) implies #[trigger] spec_cl_value(rest, i, k)
            == #[trigger] spec_cl_value(rest, j, l) by {
            assert(spec_is_cl_item(hs, i + 1, k));
            assert(spec_is_cl_item(hs, j + 1, l));
            assert(spec_cl_value(hs, i + 1, k) == spec_cl_value(hs, j + 1, l));
        }
    }
    if spec_cl_values_equal(rest, c) {
        assert forall|i: int, k: int| spec_is_cl_item(hs, i, k) implies #[trigger] spec_cl_value(hs, i, k) == Some(c) by {
            if i > 0 {
                assert(spec_is_cl_item(rest, i - 1, k));
                assert(spec_cl_value(rest, i - 1, k) == spec_cl_value(hs, i, k));
            }
        }
        assert(spec_cl_values_equal(hs, c));
        assert forall|i: int, k: int| spec_is_cl_item(hs, i, k) implies (#[trigger] spec_cl_value(hs, i, k)) is Some by {
            assert(spec_cl_value(hs, i, k) == Some(c));
        }
        assert forall|i: int, k: int, j: int, l: int|
            spec_is_cl_item(hs, i, k) && spec_is_cl_item(hs, j, l) implies #[trigger] spec_cl_value(hs, i, k)
            == #[trigger] spec_cl_value(hs, j, l) by {
            assert(spec_cl_value(hs, i, k) == Some(c));
            assert(spec_cl_value(hs, j, l) == Some(c));
        }
    }
    if spec_cl_values_equal(hs, c) {
        assert forall|i: int, k: int| spec_is_cl_item(rest, i, k) implies #[trigger] spec_cl_value(rest, i, k) == Some(c) by {
            assert(spec_is_cl_item(hs, i + 1, k));
            assert(spec_cl_value(hs, i + 1, k) == Some(c));
        }
    }
}

proof fn lemma_framing_closed_from(hs: Seq<(Seq<char>, Seq<char>)>, cl: Option<u64>, chunked: bool)
    ensures
        (spec_framing_from(hs, cl, chunked) is Ok) <==> spec_framing_closed_from(hs, cl, chunked),
    decreases hs.len(),
{
    if hs.len() == 0 {
        return;
    }
    let rest = hs.drop_first();
    lemma_shift_headers(hs);
    if spec_eq_ignore_case(hs[0].0, "content-length"@) {
        lemma_length_name_not_encoding(hs[0].0);
        let parts = spec_split(hs[0].1, ',');
        lemma_split_from_nonempty(Seq::empty(), hs[0].1, ',');
        lemma_cl_parts_closed(parts, cl);
        assert forall|k: int| 0 <= k < parts.len() implies #[trigger] spec_cl_value(hs, 0, k)
            == spec_item_value(parts, k) && spec_is_cl_item(hs, 0, k) by {}
        if spec_cl_parts(parts, cl) is Ok {
            let c2 = spec_cl_parts(parts, cl)->Ok_0;
            assert(spec_item_value(parts, 0) is Some);
            assert(c2 is Some);
            let c = c2->0;
            assert forall|k: int| 0 <= k < parts.len() implies #[trigger] spec_cl_value(hs, 0, k) == Some(c) by {
                assert(spec_item_value(parts, k) == spec_cl_expected(parts, cl));
            }
            lemma_values_with_head(hs, c);
            lemma_framing_closed_from(rest, c2, chunked);
        } else {
            let k = choose|k: int|
                !(0 <= k < parts.len() ==> (#[trigger] spec_item_value(parts, k)) is Some
                    && spec_item_value(parts, k) == spec_cl_expected(parts, cl));
            assert(spec_is_cl_item(hs, 0, k));
            assert(spec_is_cl_item(hs, 0, 0));
            if spec_cl_value(hs, 0, k) is None {
            } else if cl is Some {
            } else {
                assert(spec_cl_value(hs, 0, k) != spec_cl_value(hs, 0, 0));
            }
        }
    } else {
        lemma_values_skip_head(hs, if cl is Some { cl->0 } else { 0 });
        if spec_eq_ignore_case(hs[0].0, "transfer-encoding"@) && spec_has_chunked(spec_split(hs[0].1, ',')) {
            lemma_framing_closed_from(rest, cl, true);
        } else {
            lemma_framing_closed_from(rest, cl, chunked);
        }
    }
}

/// Law: the framing check accepts exactly the headers whose
/// `Content-Length` items, trimmed, all parse as numbers and all agree, and
/// which do not give a `Content-Length` together with a chunked
/// `Transfer-Encoding`.
pub proof fn lemma_framing_closed_form(hs: Seq<(Seq<char>, Seq<char>)>)
    ensures
        (spec_validate_framing(hs) is Ok) <==> spec_framing_closed(hs),
{
    lemma_framing_closed_from(hs, None, false);
}

proof fn lemma_framing_without_length_from(hs: Seq<(Seq<char>, Seq<char>)>, chunked: bool)
    requires
        !spec_has_content_length(hs),
    ensures
        spec_framing_from(hs, None, chunked) == Ok::<(), HttpError>(()),
    decreases hs.len(),
{
    if hs.len() > 0 {
        let rest = hs.drop_first();
        assert(!spec_eq_ignore_case(hs[0].0, "content-length"@));
        assert(!spec_has_content_length(rest)) by {
            if spec_has_content_length(rest) {
                let i = choose|i: int| 0 <= i < rest.len() && spec_eq_ignore_case(#[trigger] rest[i].0, "content-length"@);
                assert(hs[i + 1] == rest[i]);
            }
        }
        lemma_framing_without_length_from(rest, true);
        lemma_framing_without_length_from(rest, chunked);
    }
}

/// Law: headers without any `Content-Length` always pass the framing
/// check, whatever transfer coding they name.
pub proof fn lemma_no_content_length_accepted(hs: Seq<(Seq<char>, Seq<char>)>)
    requires
        !spec_has_content_length(hs),
    ensures
        spec_validate_framing(hs) == Ok::<(), HttpError>(()),
{
    lemma_framing_without_length_from(hs, false);
}

/// The length that a `Content-Length` value gives, after the length `cl`
/// that earlier values gave.
fn content_length_items(value: &str, cl: Option<u64>) -> (r: Result<Option<u64>, HttpError>)
    ensures
        r == spec_cl_parts(spec_split(value@, ','), cl),
{
    let vc = chars_of(value);
    let parts = split_chars(vc.as_slice(), ',');
    let ghost ps = spec_split(value@, ',');
    let mut cur = cl;
    let mut j: usize = 0;
    assert(ps.skip(0) =~= ps);
    while j < parts.len()
        invariant
            j <= parts@.len(),
            ps.len() == parts@.len(),
            ps == spec_split(value@, ','),
            forall|k: int| 0 <= k < parts@.len() ==> #[trigger] parts@[k]@ == ps[k],
            spec_cl_parts(ps.skip(j as int), cur) == spec_cl_parts(ps, cl),
        decreases parts@.len() - j,
    {
        proof {
            lemma_cl_parts_step(ps, j as int, cur);
        }
        let (a, b) = trim_bounds(parts[j].as_slice());
        let item = vstd::slice::slice_subrange(parts[j].as_slice(), a, b);
        assert(item@ == spec_trim(ps[j as int]));
        match parse_u64(item) {
            None => {
                return Err(HttpError::BadContentLength);
            },
            Some(v) => {
                match cur {
                    Some(prev) => {
                        if prev != v {
                            return Err(HttpError::AmbiguousContentLength);
                        }
                    },
                    None => {},
                }
                cur = Some(v);
            },
        }
        j = j + 1;
    }
    assert(ps.skip(j as int) =~= Seq::<Seq<char>>::empty());
    Ok(cur)
}

/// Whether some comma-separated item of a header value is `chunked`.
fn lists_chunked(value: &str) -> (r: bool)
    ensures
        r == spec_has_chunked(spec_split(value@, ',')),
{
    let vc = chars_of(value);
    let parts = split_chars(vc.as_slice(), ',');
    let ghost ps = spec_split(value@, ',');
    let chunked = chars_of("chunked");
    proof {
        reveal_strlit("chunked");
    }
    let mut j: usize = 0;
    while j < parts.len()
        invariant
            j <= parts@.len(),
            ps.len() == parts@.len(),
            chunked@ == "chunked"@,
            ps == spec_split(value@, ','),
            forall|k: int| 0 <= k < parts@.len() ==> #[trigger] parts@[k]@ == ps[k],
            forall|k: int| 0 <= k < j ==> !spec_eq_ignore_case(#[trigger] spec_trim(ps[k]), "chunked"@),
        decreases parts@.len() - j,
    {
        let (a, b) = trim_bounds(parts[j].as_slice());
        let item = vstd::slice::slice_subrange(parts[j].as_slice(), a, b);
        assert(item@ == spec_trim(ps[j as int]));
        if chars_eq_ignore_case(item, chunked.as_slice()) {
            assert(spec_eq_ignore_case(spec_trim(ps[j as int]), "chunked"@));
            return true;
        }
        j = j + 1;
    }
    false
}

/// Rejects ambiguous HTTP request body framing.
pub fn validate_message_framing(headers: &[(String, String)]) -> (r: Result<(), HttpError>)
    ensures
        r == spec_validate_framing(spec_headers(headers@)),
{
    let ghost hs = spec_headers(headers@);
    let mut cl: Option<u64> = None;
    let mut chunked = false;
    let mut i: usize = 0;
    assert(hs.skip(0) =~= hs);
    while i < headers.len()
        invariant
            i <= headers@.len(),
            hs == spec_headers(headers@),
            spec_framing_from(hs.skip(i as int), cl, chunked) == spec_validate_framing(hs),
        decreases headers@.len() - i,
    {
        proof {
            lemma_framing_step(hs, i as int, cl, chunked);
        }
        let (name, value) = &headers[i];
        if eq_ignore_ascii_case(name.as_str(), "content-length") {
            match content_length_items(value.as_str(), cl) {
                Err(e) => {
                    return Err(e);
                },
                Ok(c) => {
                    cl = c;
                },
            }
        } else if eq_ignore_ascii_case(name.as_str(), "transfer-encoding") && lists_chunked(
            value.as_str(),
        ) {
            chunked = true;
        }
        i = i + 1;
    }
    assert(hs.skip(i as int) =~= Seq::<(Seq<char>, Seq<char>)>::empty());
    if chunked && cl.is_some() {
        Err(HttpError::ConflictingLengthHeaders)
    } else {
        Ok(())
    }
}


// ---------------------------------------------------------------------
// Reading a request head (httparse)
// ---------------------------------------------------------------------

/// What `httparse` makes of a buffer that should start with a request head.
pub enum ParsedHead {
    /// A whole head: where it ends, the method, target and minor version,
    /// and each header line's name and raw value.
    Complete(usize, Option<String>, Option<String>, Option<u8>, Vec<(String, Vec<u8>)>),
    /// The head is not complete yet.
    Partial,
    /// The head has more header lines than were allowed.
    TooManyHeaders,
    /// The head is malformed.
    Invalid,
}

/// A parse result as plain values.
pub enum ParsedHeadView {
    Complete(usize, Option<Seq<char>>, Option<Seq<char>>, Option<u8>, Seq<(Seq<char>, Seq<u8>)>),
    Partial,
    TooManyHeaders,
    Invalid,
}

/// The names and raw values of parsed header lines.
pub open spec fn spec_raw_headers(hs: Seq<(String, Vec<u8>)>) -> Seq<(Seq<char>, Seq<u8>)> {
    Seq::new(hs.len(), |i: int| (hs[i].0@, hs[i].1@))
}

impl View for ParsedHead {
    type V = ParsedHeadView;

    open spec fn view(&self) -> ParsedHeadView {
        match self {
            ParsedHead::Complete(end, m, p, v, hs) => ParsedHeadView::Complete(
                *end,
                spec_opt_chars(*m),
                spec_opt_chars(*p),
                *v,
                spec_raw_headers(hs@),
            ),
            ParsedHead::Partial => ParsedHeadView::Partial,
            ParsedHead::TooManyHeaders => ParsedHeadView::TooManyHeaders,
            ParsedHead::Invalid => ParsedHeadView::Invalid,
        }
    }
}

/// What `httparse::Request::parse` makes of `buf` with room for `max_headers`
/// header lines.
pub uninterp spec fn spec_httparse_request(buf: Seq<u8>, max_headers: usize) -> ParsedHeadView;

/// `httparse::Request::parse` on `buf`, with room for `max_headers` header
/// lines. Its result is named; of a whole head it is stated besides that the
/// head ends within the buffer (the offset is a count of bytes of `buf`).
#[verifier::external_body]
fn httparse_request(buf: &[u8], max_headers: usize) -> (r: ParsedHead)
    ensures
        r@ == spec_httparse_request(buf@, max_headers),
        r matches ParsedHead::Complete(end, _, _, _, _) ==> end <= buf@.len(),
{
    let mut raw = vec![httparse::EMPTY_HEADER; max_headers];
    let mut req = httparse::Request::new(&mut raw);
    match req.parse(buf) {
        Ok(httparse::Status::Complete(end)) => ParsedHead::Complete(
            end,
            req.method.map(|m| m.to_string()),
            req.path.map(|p| p.to_string()),
            req.version,
            req.headers.iter().map(|h| (h.name.to_string(), h.value.to_vec())).collect(),
        ),
        Ok(httparse::Status::Partial) => ParsedHead::Partial,
        Err(httparse::Error::TooManyHeaders) => ParsedHead::TooManyHeaders,
        Err(_) => ParsedHead::Invalid,
    }
}

/// A request head as plain values: method, target, version, headers and the
/// bytes that followed the head.
pub type RequestView = (Seq<char>, Seq<char>, Seq<char>, Seq<(Seq<char>, Seq<char>)>, Seq<u8>);

impl View for HttpRequest {
    type V = RequestView;

    open spec fn view(&self) -> RequestView {
        (self.method@, self.target@, self.version@, spec_headers(self.headers@), self.body_start@)
    }
}

/// What reading a request head from the bytes received so far gives.
pub enum HeadStep {
    /// The head is not complete; read more bytes.
    NeedMore,
    /// The request is refused with this error.
    Invalid(HttpError),
    /// The request head, read whole.
    Complete(HttpRequest),
}

/// A head-reading step as plain values.
pub enum HeadView {
    NeedMore,
    Invalid(HttpError),
    Complete(RequestView),
}

impl View for HeadStep {
    type V = HeadView;

    open spec fn view(&self) -> HeadView {
        match self {
            HeadStep::NeedMore => HeadView::NeedMore,
            HeadStep::Invalid(e) => HeadView::Invalid(*e),
            HeadStep::Complete(req) => HeadView::Complete(req@),
        }
    }
}

/// The request line's version text for a minor version of HTTP/1.
pub open spec fn spec_version_text(v: Option<u8>) -> Option<Seq<char>> {
    match v {
        Some(1) => Some("HTTP/1.1"@),
        Some(0) => Some("HTTP/1.0"@),
        _ => None,
    }
}

/// The header lines with their values decoded as UTF-8 and names and values
/// trimmed; `None` when some value is not UTF-8.
pub open spec fn spec_decode_headers(hs: Seq<(Seq<char>, Seq<u8>)>) -> Option<Seq<(Seq<char>, Seq<char>)>> {
    if forall|i: int| 0 <= i < hs.len() ==> valid_utf8(#[trigger] hs[i].1) {
        Some(Seq::new(hs.len(), |i: int| (spec_trim(hs[i].0), spec_trim(decode_utf8(hs[i].1)))))
    } else {
        None
    }
}

/// The request head with the given request line, header lines and end:
/// every header value must be UTF-8, then the body framing must be
/// unambiguous. The bytes after the head start the body.
pub open spec fn spec_head_from_lines(
    buf: Seq<u8>,
    end: int,
    method: Seq<char>,
    target: Seq<char>,
    version: Seq<char>,
    hs: Seq<(Seq<char>, Seq<u8>)>,
) -> HeadView {
    match spec_decode_headers(hs) {
        None => HeadView::Invalid(HttpError::InvalidHeaderUtf8),
        Some(d) => match spec_validate_framing(d) {
            Err(e) => HeadView::Invalid(e),
            Ok(_) => HeadView::Complete((method, target, version, d, buf.skip(end))),
        },
    }
}

/// What the request head is, given what `httparse` made of the buffer `buf`:
/// a head without method, target or an HTTP/1.0 or HTTP/1.1 version is a bad
/// request; then every header value must be UTF-8; then the body framing
/// must be unambiguous. The bytes after the head start the body.
pub open spec fn spec_head_from_parse(buf: Seq<u8>, p: ParsedHeadView) -> HeadView {
    match p {
        ParsedHeadView::Partial => HeadView::NeedMore,
        ParsedHeadView::TooManyHeaders => HeadView::Invalid(HttpError::TooManyHeaders),
        ParsedHeadView::Invalid => HeadView::Invalid(HttpError::BadRequest),
        ParsedHeadView::Complete(end, method, path, version, hs) => {
            if method is None || path is None || spec_version_text(version) is None {
                HeadView::Invalid(HttpError::BadRequest)
            } else {
                spec_head_from_lines(
                    buf,
                    end as int,
                    method.unwrap(),
                    path.unwrap(),
                    spec_version_text(version).unwrap(),
                    hs,
                )
            }
        },
    }
}

/// The bytes of `buf` from `start` on.
fn bytes_from(buf: &[u8], start: usize) -> (r: Vec<u8>)
    requires
        start <= buf@.len(),
    ensures
        r@ == buf@.skip(start as int),
{
    let mut out: Vec<u8> = Vec::new();
    let mut i = start;
    while i < buf.len()
        invariant
            start <= i <= buf@.len(),
            out@ == buf@.subrange(start as int, i as int),
        decreases buf@.len() - i,
    {
        out.push(buf[i]);
        i = i + 1;
        assert(out@ =~= buf@.subrange(start as int, i as int));
    }
    assert(out@ =~= buf@.skip(start as int));
    out
}

/// Turns what `httparse` made of the buffer `buf` into a request head or
/// the error it is refused with.
pub fn head_from_parse(buf: &[u8], parsed: ParsedHead) -> (r: HeadStep)
    requires
        parsed matches ParsedHead::Complete(end, _, _, _, _) ==> end <= buf@.len(),
    ensures
        r@ == spec_head_from_parse(buf@, parsed@),
{
    let ghost pv = parsed@;
    match parsed {
        ParsedHead::Partial => HeadStep::NeedMore,
        ParsedHead::TooManyHeaders => HeadStep::Invalid(HttpError::TooManyHeaders),
        ParsedHead::Invalid => HeadStep::Invalid(HttpError::BadRequest),
        ParsedHead::Complete(end, method, path, version, raw) => {
            let method = match method {
                Some(m) => m,
                None => {
                    return HeadStep::Invalid(HttpError::BadRequest);
                },
            };
            let target = match path {
                Some(p) => p,
                None => {
                    return HeadStep::Invalid(HttpError::BadRequest);
                },
            };
            let version = match version {
                Some(1) => {
                    proof {
                        reveal_strlit("HTTP/1.1");
                    }
                    owned("HTTP/1.1")
                },
                Some(0) => {
                    proof {
                        reveal_strlit("HTTP/1.0");
                    }
                    owned("HTTP/1.0")
                },
                _ => {
                    return HeadStep::Invalid(HttpError::BadRequest);
                },
            };
            let ghost rh = spec_raw_headers(raw@);
            let mut headers: Vec<(String, String)> = Vec::new();
            let mut i: usize = 0;
            while i < raw.len()
                invariant
                    i <= raw@.len(),
                    rh == spec_raw_headers(raw@),
                    pv == parsed@,
                    spec_head_from_parse(buf@, pv) == spec_head_from_lines(
                        buf@,
                        end as int,
                        method@,
                        target@,
                        version@,
                        rh,
                    ),
                    headers@.len() == i,
                    forall|k: int| 0 <= k < i ==> valid_utf8(#[trigger] rh[k].1),
                    forall|k: int|
                        0 <= k < i ==> #[trigger] spec_headers(headers@)[k] == (
                            spec_trim(rh[k].0),
                            spec_trim(decode_utf8(rh[k].1)),
                        ),
                decreases raw@.len() - i,
            {
                let value = match utf8_str(raw[i].1.as_slice()) {
                    Some(v) => v,
                    None => {
                        assert(!valid_utf8(rh[i as int].1));
                        return HeadStep::Invalid(HttpError::InvalidHeaderUtf8);
                    },
                };
                proof {
                    lemma_utf8_chars(value, raw@[i as int].1@);
                }
                let name = owned(trim(raw[i].0.as_str()));
                let v = owned(trim(value));
                let ghost entry = (name@, v@);
                let ghost before = headers@;
                headers.push((name, v));
                assert(spec_headers(headers@)[i as int] == entry);
                assert(entry == (spec_trim(rh[i as int].0), spec_trim(decode_utf8(rh[i as int].1))));
                assert forall|k: int| 0 <= k < i + 1 implies #[trigger] spec_headers(headers@)[k] == (
                    spec_trim(rh[k].0),
                    spec_trim(decode_utf8(rh[k].1)),
                ) by {
                    if k < i {
                        assert(spec_headers(headers@)[k] == spec_headers(before)[k]);
                    }
                }
                i = i + 1;
            }
            let ghost d = spec_decode_headers(rh);
            assert(d is Some);
            assert(spec_headers(headers@) =~= d.unwrap());
            match validate_message_framing(headers.as_slice()) {
                Err(e) => HeadStep::Invalid(e),
                Ok(()) => {
                    let body_start = bytes_from(buf, end);
                    HeadStep::Complete(HttpRequest { method, target, version, headers, body_start })
                },
            }
        },
    }
}

/// Reads one request head from the bytes received so far: a buffer longer
/// than the limit is refused; otherwise `httparse` reads it and
/// `head_from_parse` says what it is.
pub fn request_head_step(buf: &[u8]) -> (r: HeadStep)
    ensures
        buf@.len() > MAX_HEADER_SIZE ==> r@ == HeadView::Invalid(HttpError::HeaderTooLarge),
        buf@.len() <= MAX_HEADER_SIZE ==> r@ == spec_head_from_parse(
            buf@,
            spec_httparse_request(buf@, MAX_HEADERS),
        ),
{
    if buf.len() > MAX_HEADER_SIZE {
        return HeadStep::Invalid(HttpError::HeaderTooLarge);
    }
    let parsed = httparse_request(buf, MAX_HEADERS);
    head_from_parse(buf, parsed)
}


// ---------------------------------------------------------------------
// Forwarding and routing
// ---------------------------------------------------------------------

/// The header lines forwarded upstream: each header that is not dropped,
/// as `name: value` and CRLF, in order.
pub open spec fn spec_forward_lines(hs: Seq<(Seq<char>, Seq<char>)>, conn: Seq<Seq<char>>) -> Seq<char>
    decreases hs.len(),
{
    if hs.len() == 0 {
        Seq::empty()
    } else {
        (if spec_should_drop(hs[0].0, conn) {
            Seq::empty()
        } else {
            hs[0].0 + ": "@ + hs[0].1 + "\r\n"@
        }) + spec_forward_lines(hs.drop_first(), conn)
    }
}

/// The request head sent upstream for a forwarded request: the request
/// line with the origin-form path, the headers that are kept, a `Host`
/// header naming the target, and the blank line.
pub open spec fn spec_forward_head(
    method: Seq<char>,
    version: Seq<char>,
    hs: Seq<(Seq<char>, Seq<char>)>,
    host: Seq<char>,
    port: u16,
    path: Seq<char>,
) -> Seq<char> {
    method + " "@ + path + " "@ + version + "\r\n"@ + spec_forward_lines(hs, spec_connection_names(hs))
        + "Host: "@ + spec_host_header(host, port, 80) + "\r\n"@ + "\r\n"@
}

proof fn lemma_forward_step(hs: Seq<(Seq<char>, Seq<char>)>, conn: Seq<Seq<char>>, i: int)
    requires
        0 <= i < hs.len(),
    ensures
        spec_forward_lines(hs.skip(i), conn) == (if spec_should_drop(hs[i].0, conn) {
            Seq::<char>::empty()
        } else {
            hs[i].0 + ": "@ + hs[i].1 + "\r\n"@
        }) + spec_forward_lines(hs.skip(i + 1), conn),
{
    assert(hs.skip(i).drop_first() =~= hs.skip(i + 1));
    assert(hs.skip(i)[0] == hs[i]);
}

/// Builds the request head sent upstream for a non-CONNECT request to
/// `host:port`, asking for `path`.
pub fn forward_request_head(req: &HttpRequest, host: &str, port: u16, path: &str) -> (r: String)
    ensures
        r@ == spec_forward_head(req.method@, req.version@, spec_headers(req.headers@), host@, port, path@),
{
    let ghost hs = spec_headers(req.headers@);
    let mut out = String::new();
    out.push_str(req.method.as_str());
    out.push_str(" ");
    out.push_str(path);
    out.push_str(" ");
    out.push_str(req.version.as_str());
    out.push_str("\r\n");
    let ghost line = out@;
    proof {
        reveal_strlit(" ");
        reveal_strlit("\r\n");
        reveal_strlit(": ");
        reveal_strlit("Host: ");
        assert(line =~= req.method@ + " "@ + path@ + " "@ + req.version@ + "\r\n"@);
    }
    let conn = connection_header_names(req.headers.as_slice());
    let ghost cn = spec_strings(conn@);
    let mut i: usize = 0;
    assert(hs.skip(0) =~= hs);
    assert(out@ =~= line + Seq::<char>::empty());
    while i < req.headers.len()
        invariant
            i <= req.headers@.len(),
            hs == spec_headers(req.headers@),
            cn == spec_strings(conn@),
            cn == spec_connection_names(hs),
            ": "@ == seq![':', ' '],
            "\r\n"@ == seq!['\r', '\n'],
            out@ + spec_forward_lines(hs.skip(i as int), cn) == line + spec_forward_lines(hs, cn),
        decreases req.headers@.len() - i,
    {
        proof {
            lemma_forward_step(hs, cn, i as int);
        }
        let (name, value) = &req.headers[i];
        let ghost prev = out@;
        if !should_drop_forward_header(name.as_str(), conn.as_slice()) {
            out.push_str(name.as_str());
            out.push_str(": ");
            out.push_str(value.as_str());
            out.push_str("\r\n");
            assert(out@ =~= prev + (name@ + ": "@ + value@ + "\r\n"@));
            assert(out@ + spec_forward_lines(hs.skip(i + 1), cn) =~= prev + ((name@ + ": "@ + value@
                + "\r\n"@) + spec_forward_lines(hs.skip(i + 1), cn)));
        } else {
            assert(prev + spec_forward_lines(hs.skip(i as int), cn) =~= prev + spec_forward_lines(
                hs.skip(i + 1),
                cn,
            ));
        }
        i = i + 1;
    }
    assert(hs.skip(i as int) =~= Seq::<(Seq<char>, Seq<char>)>::empty());
    assert(out@ =~= line + spec_forward_lines(hs, cn));
    let host_header = format_host_header(host, port, 80);
    out.push_str("Host: ");
    out.push_str(host_header.as_str());
    out.push_str("\r\n");
    out.push_str("\r\n");
    assert(out@ =~= spec_forward_head(req.method@, req.version@, hs, host@, port, path@));
    out
}

/// Where an HTTP proxy request goes.
#[derive(Clone, Copy, Debug, PartialEq, Eq, Structural)]
pub enum HttpRoute {
    /// Serve the statistics page.
    StatsPage,
    /// Ask for credentials for the statistics page (401).
    StatsAuthRequired,
    /// Ask for proxy credentials (407).
    ProxyAuthRequired,
    /// Open a CONNECT tunnel.
    Connect,
    /// Forward the request to its origin server.
    Forward,
}

/// Where a request goes: the statistics page when it asks for it (with
/// credentials unless authentication is bypassed), else a 407 without proxy
/// credentials (unless bypassed), else a tunnel for `CONNECT` and a
/// forwarded request for any other method.
pub open spec fn spec_route(
    method: Seq<char>,
    target: Seq<char>,
    hs: Seq<(Seq<char>, Seq<char>)>,
    bypass_auth: bool,
    username: Option<Seq<char>>,
    password: Option<Seq<char>>,
    listener_port: u16,
) -> HttpRoute {
    if spec_is_stats_request(method, target, hs, listener_port) {
        if !bypass_auth && !spec_stats_authorized(hs, username, password) {
            HttpRoute::StatsAuthRequired
        } else {
            HttpRoute::StatsPage
        }
    } else if !bypass_auth && !spec_http_basic_authorized(
        spec_opt_encoded(spec_find_header(hs, "proxy-authorization"@)),
        username,
        password,
    ) {
        HttpRoute::ProxyAuthRequired
    } else if spec_eq_ignore_case(method, "CONNECT"@) {
        HttpRoute::Connect
    } else {
        HttpRoute::Forward
    }
}

/// Decides what to do with one HTTP proxy or stats-page request.
pub fn route_http_request(req: &HttpRequest, bypass_auth: bool, auth: &AuthConfig, listener_port: u16) -> (r:
    HttpRoute)
    ensures
        r == spec_route(
            req.method@,
            req.target@,
            spec_headers(req.headers@),
            bypass_auth,
            spec_opt_chars(auth.username),
            spec_opt_chars(auth.password),
            listener_port,
        ),
{
    if is_stats_request(req, listener_port) {
        if !bypass_auth && !stats_authorized(req, auth) {
            return HttpRoute::StatsAuthRequired;
        }
        return HttpRoute::StatsPage;
    }
    if !bypass_auth {
        let p = get_header(req.headers.as_slice(), "proxy-authorization");
        assert(spec_opt_bytes(p) == spec_opt_encoded(spec_opt_str(p)));
        if !http_basic_authorized(p, auth) {
            return HttpRoute::ProxyAuthRequired;
        }
    }
    if eq_ignore_ascii_case(req.method.as_str(), "CONNECT") {
        HttpRoute::Connect
    } else {
        HttpRoute::Forward
    }
}

/// The answer to a request for the statistics page without valid credentials.
pub const STATS_AUTH_REQUIRED_RESPONSE: &'static str = "HTTP/1.1 401 Unauthorized\r\nWWW-Authenticate: Basic realm=\"tinysocks stats\"\r\nContent-Length: 0\r\nConnection: close\r\n\r\n";

/// The answer to a proxy request without valid credentials.
pub const PROXY_AUTH_REQUIRED_RESPONSE: &'static str = "HTTP/1.1 407 Proxy Authentication Required\r\nProxy-Authenticate: Basic realm=\"proxy\"\r\nContent-Length: 0\r\nConnection: close\r\n\r\n";

/// The answer once a CONNECT tunnel to the target is open.
pub const CONNECT_ESTABLISHED_RESPONSE: &'static str = "HTTP/1.1 200 Connection Established\r\n\r\n";

/// The response that carries the statistics page: its length in bytes in
/// `Content-Length`, then the page.
pub open spec fn spec_stats_response(body: Seq<char>) -> Seq<char> {
    "HTTP/1.1 200 OK\r\nContent-Type: text/html; charset=utf-8\r\nCache-Control: no-store\r\nContent-Length: "@
        + spec_decimal(encode_utf8(body).len()) + "\r\nConnection: close\r\n\r\n"@ + body
}

/// Builds the response that carries the statistics page.
pub fn stats_page_response(body: &str) -> (r: String)
    ensures
        r@ == spec_stats_response(body@),
{
    let mut out = String::new();
    out.push_str(
        "HTTP/1.1 200 OK\r\nContent-Type: text/html; charset=utf-8\r\nCache-Control: no-store\r\nContent-Length: ",
    );
    let n = body.as_bytes().len();
    assert(n == encode_utf8(body@).len());
    let digits = decimal(n as u64);
    assert(digits@ == spec_decimal(encode_utf8(body@).len()));
    out.push_str(digits.as_str());
    out.push_str("\r\nConnection: close\r\n\r\n");
    out.push_str(body);
    assert(out@ =~= spec_stats_response(body@));
    out
}

/// The request's `Proxy-Authorization` value has the `Basic` scheme and
/// its payload decodes to `user:password` for these credentials.
pub open spec fn spec_carries_credentials(hs: Seq<(Seq<char>, Seq<char>)>, u: Seq<char>, p: Seq<char>) -> bool {
    match spec_find_header(hs, "proxy-authorization"@) {
        None => false,
        Some(v) => match spec_basic_payload(encode_utf8(v)) {
            None => false,
            Some(e) => spec_base64_decode(e) == Some(encode_utf8(u) + seq![58u8] + encode_utf8(p)),
        },
    }
}

/// Law: without an allowlist bypass, a proxy request (not one for the
/// statistics page) goes through to a tunnel or upstream only when the
/// proxy has credentials and the request's `Proxy-Authorization` carries
/// exactly them; when it does carry them (and the username has no `:`),
/// it does go through.
pub proof fn lemma_route_needs_configured_credentials(
    method: Seq<char>,
    target: Seq<char>,
    hs: Seq<(Seq<char>, Seq<char>)>,
    username: Option<Seq<char>>,
    password: Option<Seq<char>>,
    listener_port: u16,
)
    requires
        !spec_is_stats_request(method, target, hs, listener_port),
    ensures
        ({
            let r = spec_route(method, target, hs, false, username, password, listener_port);
            (r == HttpRoute::Connect || r == HttpRoute::Forward) ==> (username matches Some(u)
                && password matches Some(p) && spec_carries_credentials(hs, u, p))
        }),
        ({
            let r = spec_route(method, target, hs, false, username, password, listener_port);
            (username matches Some(u) && password matches Some(p) && spec_carries_credentials(hs, u, p)
                && !encode_utf8(u).contains(58u8)) ==> (r == HttpRoute::Connect || r == HttpRoute::Forward)
        }),
{
    let r = spec_route(method, target, hs, false, username, password, listener_port);
    if r == HttpRoute::Connect || r == HttpRoute::Forward {
        let v = spec_find_header(hs, "proxy-authorization"@)->Some_0;
        let e = spec_basic_payload(encode_utf8(v))->Some_0;
        let d = spec_base64_decode(e)->Some_0;
        let u = username->Some_0;
        let p = password->Some_0;
        let i = choose|i: int|
            spec_first_colon(d, i) && d.take(i) == encode_utf8(u) && d.skip(i + 1) == encode_utf8(p);
        assert(d =~= d.take(i) + seq![58u8] + d.skip(i + 1));
    }
    if username is Some && password is Some && !encode_utf8(username->Some_0).contains(58u8) {
        let eu = encode_utf8(username->Some_0);
        let ep = encode_utf8(password->Some_0);
        let d = eu + seq![58u8] + ep;
        let i = eu.len() as int;
        assert forall|j: int| 0 <= j < i implies #[trigger] d[j] != 58 by {
            assert(d[j] == eu[j]);
            if eu[j] == 58 {
                assert(eu.contains(58u8));
            }
        }
        assert(spec_first_colon(d, i));
        assert(d.take(i) =~= eu);
        assert(d.skip(i + 1) =~= ep);
    }
}

/// Law: without an allowlist bypass, a proxy request (not one for the
/// statistics page) that carries no `Proxy-Authorization` header is
/// answered with the 407 challenge.
pub proof fn lemma_missing_credentials_challenged(
    method: Seq<char>,
    target: Seq<char>,
    hs: Seq<(Seq<char>, Seq<char>)>,
    username: Option<Seq<char>>,
    password: Option<Seq<char>>,
    listener_port: u16,
)
    requires
        !spec_is_stats_request(method, target, hs, listener_port),
        spec_find_header(hs, "proxy-authorization"@) is None,
    ensures
        spec_route(method, target, hs, false, username, password, listener_port)
            == HttpRoute::ProxyAuthRequired,
{
}

/// Law: a client on the allowlist is never asked for credentials.
pub proof fn lemma_bypass_never_challenged(
    method: Seq<char>,
    target: Seq<char>,
    hs: Seq<(Seq<char>, Seq<char>)>,
    username: Option<Seq<char>>,
    password: Option<Seq<char>>,
    listener_port: u16,
)
    ensures
        spec_route(method, target, hs, true, username, password, listener_port)
            != HttpRoute::ProxyAuthRequired,
        spec_route(method, target, hs, true, username, password, listener_port)
            != HttpRoute::StatsAuthRequired,
{
}

/// Law: a header that must be dropped (proxy credentials, hop-by-hop
/// headers, the client's `Host`) adds nothing to the header lines sent
/// upstream: they are those of the headers before it and after it.
pub proof fn lemma_forward_keeps_only_end_to_end(
    hs: Seq<(Seq<char>, Seq<char>)>,
    conn: Seq<Seq<char>>,
    i: int,
)
    requires
        0 <= i < hs.len(),
        spec_should_drop(hs[i].0, conn),
    ensures
        spec_forward_lines(hs, conn) == spec_forward_lines(hs.take(i), conn) + spec_forward_lines(
            hs.skip(i + 1),
            conn,
        ),
    decreases i,
{
    if i == 0 {
        assert(hs.take(0) =~= Seq::<(Seq<char>, Seq<char>)>::empty());
        assert(hs.drop_first() =~= hs.skip(1));
    } else {
        let rest = hs.drop_first();
        lemma_forward_keeps_only_end_to_end(rest, conn, i - 1);
        assert(rest.take(i - 1) =~= hs.take(i).drop_first());
        assert(rest.skip(i) =~= hs.skip(i + 1));
        assert(hs.take(i)[0] == hs[0]);
        assert(spec_forward_lines(hs.take(i), conn) == (if spec_should_drop(hs[0].0, conn) {
            Seq::<char>::empty()
        } else {
            hs[0].0 + ": "@ + hs[0].1 + "\r\n"@
        }) + spec_forward_lines(hs.take(i).drop_first(), conn));
    }
}

/// A header name that is none of the hop-by-hop, proxy-only or `Host`
/// names, in any case, and that no `Connection` header lists.
pub open spec fn spec_end_to_end_name(name: Seq<char>, conn: Seq<Seq<char>>) -> bool {
    &&& !spec_eq_ignore_case(name, "proxy-authorization"@)
    &&& !spec_eq_ignore_case(name, "proxy-connection"@)
    &&& !spec_eq_ignore_case(name, "host"@)
    &&& !spec_eq_ignore_case(name, "connection"@)
    &&& !spec_eq_ignore_case(name, "keep-alive"@)
    &&& !spec_eq_ignore_case(name, "te"@)
    &&& !spec_eq_ignore_case(name, "trailer"@)
    &&& !spec_eq_ignore_case(name, "upgrade"@)
    &&& forall|j: int| 0 <= j < conn.len() ==> !spec_eq_ignore_case(#[trigger] conn[j], name)
}

proof fn lemma_forward_lines_keep(hs: Seq<(Seq<char>, Seq<char>)>, conn: Seq<Seq<char>>, i: int)
    requires
        0 <= i < hs.len(),
        spec_end_to_end_name(hs[i].0, conn),
    ensures
        spec_forward_lines(hs, conn) == spec_forward_lines(hs.take(i), conn) + (hs[i].0 + ": "@ + hs[i].1
            + "\r\n"@) + spec_forward_lines(hs.skip(i + 1), conn),
    decreases i,
{
    if i == 0 {
        assert(hs.take(0) =~= Seq::<(Seq<char>, Seq<char>)>::empty());
        assert(hs.drop_first() =~= hs.skip(1));
        assert(!spec_should_drop(hs[0].0, conn));
    } else {
        let rest = hs.drop_first();
        assert(rest[i - 1] == hs[i]);
        lemma_forward_lines_keep(rest, conn, i - 1);
        assert(rest.take(i - 1) =~= hs.take(i).drop_first());
        assert(rest.skip(i) =~= hs.skip(i + 1));
        assert(hs.take(i)[0] == hs[0]);
        assert(spec_forward_lines(hs.take(i), conn) == (if spec_should_drop(hs[0].0, conn) {
            Seq::<char>::empty()
        } else {
            hs[0].0 + ": "@ + hs[0].1 + "\r\n"@
        }) + spec_forward_lines(hs.take(i).drop_first(), conn));
    }
}

/// Law: every end-to-end header (one that is none of the hop-by-hop,
/// proxy-only or `Host` names and that no `Connection` header lists) is
/// forwarded: its `name: value` line stands in the request head sent
/// upstream, between the lines of the headers before it and after it.
pub proof fn lemma_forward_keeps_end_to_end_headers(
    method: Seq<char>,
    version: Seq<char>,
    hs: Seq<(Seq<char>, Seq<char>)>,
    host: Seq<char>,
    port: u16,
    path: Seq<char>,
    i: int,
)
    requires
        0 <= i < hs.len(),
        spec_end_to_end_name(hs[i].0, spec_connection_names(hs)),
    ensures
        exists|before: Seq<char>, after: Seq<char>|
            spec_forward_head(method, version, hs, host, port, path) == before + (hs[i].0 + ": "@ + hs[i].1
                + "\r\n"@) + after,
        spec_forward_lines(hs, spec_connection_names(hs)) == spec_forward_lines(
            hs.take(i),
            spec_connection_names(hs),
        ) + (hs[i].0 + ": "@ + hs[i].1 + "\r\n"@) + spec_forward_lines(hs.skip(i + 1), spec_connection_names(hs)),
{
    let conn = spec_connection_names(hs);
    lemma_forward_lines_keep(hs, conn, i);
    let line = hs[i].0 + ": "@ + hs[i].1 + "\r\n"@;
    let before = method + " "@ + path + " "@ + version + "\r\n"@ + spec_forward_lines(hs.take(i), conn);
    let after = spec_forward_lines(hs.skip(i + 1), conn) + "Host: "@ + spec_host_header(host, port, 80) + "\r\n"@
        + "\r\n"@;
    assert(spec_forward_head(method, version, hs, host, port, path) =~= before + line + after);
}

} // verus!
