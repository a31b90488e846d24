//! Authentication shared by the SOCKS5 and HTTP proxy flows: username and
//! password for both protocols, and an allowlist of networks whose clients
//! skip authentication.

use vstd::prelude::*;
use vstd::string::*;
use vstd::utf8::*;

use base64::Engine;
use subtle::ConstantTimeEq;

use crate::config::AuthConfig;
use crate::net::{spec_net_contains, IpAddress, IpNetwork};
use crate::protocol::SocksError;

verus! {

/// `subtle::ConstantTimeEq::ct_eq` on two byte slices, converted to `bool`:
/// true exactly when both slices have the same length and the same bytes.
#[verifier::external_body]
fn ct_eq_bytes(a: &[u8], b: &[u8]) -> (r: bool)
    ensures
        r == (a@ == b@),
{
    bool::from(a.ct_eq(b))
}

/// The bytes that base64 decoding with the standard alphabet and padding
/// (`base64::engine::general_purpose::STANDARD`) gives for an input, or
/// `None` when the input is not such an encoding.
pub uninterp spec fn spec_base64_decode(input: Seq<u8>) -> Option<Seq<u8>>;

/// `STANDARD.decode`: decodes base64 with the standard alphabet.
#[verifier::external_body]
fn base64_decode(input: &[u8]) -> (r: Option<Vec<u8>>)
    ensures
        match r {
            Some(v) => spec_base64_decode(input@) == Some(v@),
            None => spec_base64_decode(input@) is None,
        },
{
    base64::engine::general_purpose::STANDARD.decode(input).ok()
}

/// The text `String::from_utf8_lossy` makes of bytes.
pub uninterp spec fn spec_utf8_lossy(bytes: Seq<u8>) -> Seq<char>;

/// `String::from_utf8_lossy`: the text of the bytes, each invalid sequence
/// replaced by U+FFFD; valid UTF-8 decodes exactly.
#[verifier::external_body]
fn utf8_lossy(bytes: &[u8]) -> (r: String)
    ensures
        r@ == spec_utf8_lossy(bytes@),
        valid_utf8(bytes@) ==> r@ == decode_utf8(bytes@),
{
    String::from_utf8_lossy(bytes).into_owned()
}

/// Compares expected and provided credentials in constant time.
pub fn credentials_match(user: &[u8], pass: &[u8], provided_user: &[u8], provided_pass: &[u8]) -> (r:
    bool)
    ensures
        r == (user@ == provided_user@ && pass@ == provided_pass@),
{
    let user_ok = ct_eq_bytes(user, provided_user);
    let pass_ok = ct_eq_bytes(pass, provided_pass);
    user_ok && pass_ok
}

/// Whether the address is in one of the allowlisted networks, which lets
/// the client skip authentication.
pub fn ip_authenticate(allowlist: &[IpNetwork], ip: IpAddress) -> (r: bool)
    ensures
        r == exists|i: int|
            0 <= i < allowlist@.len() && spec_net_contains(
                (#[trigger] allowlist@[i])@.0,
                allowlist@[i]@.1,
                ip,
            ),
{
    let mut i: usize = 0;
    while i < allowlist.len()
        invariant
            i <= allowlist@.len(),
            forall|k: int|
                0 <= k < i ==> !spec_net_contains(
                    (#[trigger] allowlist@[k])@.0,
                    allowlist@[k]@.1,
                    ip,
                ),
        decreases allowlist@.len() - i,
    {
        if allowlist[i].contains(&ip) {
            return true;
        }
        i = i + 1;
    }
    false
}

/// The ASCII lower-case form of a byte.
pub open spec fn spec_lower_byte(b: u8) -> u8 {
    if 65 <= b && b <= 90 {
        (b + 32) as u8
    } else {
        b
    }
}

/// Two byte sequences are equal up to ASCII case.
pub open spec fn spec_bytes_eq_ignore_case(a: Seq<u8>, b: Seq<u8>) -> bool {
    &&& a.len() == b.len()
    &&& forall|i: int| 0 <= i < a.len() ==> spec_lower_byte(#[trigger] a[i]) == spec_lower_byte(b[i])
}

/// A byte sequence without its leading spaces and tabs.
pub open spec fn spec_skip_blanks(b: Seq<u8>) -> Seq<u8>
    decreases b.len(),
{
    if b.len() > 0 && (b[0] == 32 || b[0] == 9) {
        spec_skip_blanks(b.drop_first())
    } else {
        b
    }
}

/// The credentials part of a `Basic` authorization value: the bytes after
/// `Basic ` (scheme in any case) and any further spaces or tabs.
pub open spec fn spec_basic_payload(value: Seq<u8>) -> Option<Seq<u8>> {
    if value.len() < 6 {
        None
    } else if !spec_bytes_eq_ignore_case(value.take(5), seq![66u8, 97u8, 115u8, 105u8, 99u8])
        || value[5] != 32 {
        None
    } else {
        Some(spec_skip_blanks(value.skip(6)))
    }
}

/// `i` is the position of the first `:` in `d`.
pub open spec fn spec_first_colon(d: Seq<u8>, i: int) -> bool {
    0 <= i < d.len() && d[i] == 58 && forall|j: int| 0 <= j < i ==> #[trigger] d[j] != 58
}

/// Decoded `user:password` bytes match the configured credentials: the
/// user is the part before the first `:`, the password the rest.
pub open spec fn spec_credentials_ok(
    decoded: Seq<u8>,
    username: Option<Seq<char>>,
    password: Option<Seq<char>>,
) -> bool {
    match (username, password) {
        (Some(u), Some(p)) => exists|i: int|
            spec_first_colon(decoded, i) && decoded.take(i) == encode_utf8(u) && decoded.skip(i + 1)
                == encode_utf8(p),
        _ => false,
    }
}

/// Whether a `Proxy-Authorization` (or `Authorization`) value carries the
/// configured credentials.
pub open spec fn spec_http_basic_authorized(
    value: Option<Seq<u8>>,
    username: Option<Seq<char>>,
    password: Option<Seq<char>>,
) -> bool {
    match value {
        None => false,
        Some(v) => match spec_basic_payload(v) {
            None => false,
            Some(encoded) => match spec_base64_decode(encoded) {
                None => false,
                Some(decoded) => spec_credentials_ok(decoded, username, password),
            },
        },
    }
}

/// The value of an optional string.
pub open spec fn spec_opt_chars(o: Option<String>) -> Option<Seq<char>> {
    match o {
        Some(s) => Some(s@),
        None => None,
    }
}

/// The bytes of an optional header value.
pub open spec fn spec_opt_bytes(o: Option<&str>) -> Option<Seq<u8>> {
    match o {
        Some(s) => Some(s.spec_bytes()),
        None => None,
    }
}

/// The credentials part of a `Basic` authorization value, if it has the
/// `Basic ` scheme.
pub fn basic_payload(value: &[u8]) -> (r: Option<&[u8]>)
    ensures
        match r {
            Some(p) => spec_basic_payload(value@) == Some(p@),
            None => spec_basic_payload(value@) is None,
        },
{
    if value.len() < 6 {
        return None;
    }
    let scheme: [u8; 5] = [66, 97, 115, 105, 99];
    let mut k: usize = 0;
    while k < 5
        invariant
            k <= 5,
            value@.len() >= 6,
            scheme@ == seq![66u8, 97u8, 115u8, 105u8, 99u8],
            forall|q: int| 0 <= q < k ==> spec_lower_byte(value@[q]) == spec_lower_byte(scheme@[q]),
        decreases 5 - k,
    {
        if lower_byte(value[k]) != lower_byte(scheme[k]) {
            assert(value@.take(5)[k as int] == value@[k as int]);
            return None;
        }
        k = k + 1;
    }
    assert(spec_bytes_eq_ignore_case(value@.take(5), seq![66u8, 97u8, 115u8, 105u8, 99u8])) by {
        assert forall|i: int| 0 <= i < 5 implies spec_lower_byte(#[trigger] value@.take(5)[i])
            == spec_lower_byte(seq![66u8, 97u8, 115u8, 105u8, 99u8][i]) by {
            assert(value@.take(5)[i] == value@[i]);
        }
    }
    if value[5] != 32 {
        return None;
    }
    let mut start: usize = 6;
    assert(value@.skip(6) =~= value@.skip(start as int));
    while start < value.len() && (value[start] == 32 || value[start] == 9)
        invariant
            6 <= start <= value@.len(),
            spec_skip_blanks(value@.skip(6)) == spec_skip_blanks(value@.skip(start as int)),
        decreases value@.len() - start,
    {
        assert(value@.skip(start as int).drop_first() =~= value@.skip(start + 1));
        start = start + 1;
    }
    let rest = vstd::slice::slice_subrange(value, start, value.len());
    assert(rest@ =~= value@.skip(start as int));
    Some(rest)
}

fn lower_byte(b: u8) -> (r: u8)
    ensures
        r == spec_lower_byte(b),
{
    if 65 <= b && b <= 90 {
        b + 32
    } else {
        b
    }
}

/// Whether decoded `user:password` bytes carry the configured credentials.
pub fn basic_credentials_authorized(decoded: &[u8], auth: &AuthConfig) -> (r: bool)
    ensures
        r == spec_credentials_ok(
            decoded@,
            spec_opt_chars(auth.username),
            spec_opt_chars(auth.password),
        ),
{
    let mut i: usize = 0;
    while i < decoded.len() && decoded[i] != 58
        invariant
            i <= decoded@.len(),
            forall|j: int| 0 <= j < i ==> #[trigger] decoded@[j] != 58,
        decreases decoded@.len() - i,
    {
        i = i + 1;
    }
    if i == decoded.len() {
        assert forall|k: int| !spec_first_colon(decoded@, k) by {
            if 0 <= k < decoded@.len() {
                assert(decoded@[k] != 58);
            }
        }
        return false;
    }
    let user_part = vstd::slice::slice_subrange(decoded, 0, i);
    let pass_part = vstd::slice::slice_subrange(decoded, i + 1, decoded.len());
    assert(user_part@ =~= decoded@.take(i as int));
    assert(pass_part@ =~= decoded@.skip(i + 1));
    assert(spec_first_colon(decoded@, i as int));
    assert forall|k: int| spec_first_colon(decoded@, k) implies k == i by {
        if k < i {
            assert(decoded@[k] != 58);
        } else if k > i {
            assert(decoded@[i as int] != 58);
        }
    }
    match (&auth.username, &auth.password) {
        (Some(username), Some(password)) => credentials_match(
            username.as_str().as_bytes(),
            password.as_str().as_bytes(),
            user_part,
            pass_part,
        ),
        _ => false,
    }
}

/// Validates an HTTP `Proxy-Authorization` value (with the `Basic` scheme)
/// against the configured user, comparing in constant time. Any parsing
/// error means not authorized.
pub fn http_basic_authorized(auth_header: Option<&str>, auth: &AuthConfig) -> (r: bool)
    ensures
        r == spec_http_basic_authorized(
            spec_opt_bytes(auth_header),
            spec_opt_chars(auth.username),
            spec_opt_chars(auth.password),
        ),
{
    let value = match auth_header {
        Some(v) => v,
        None => return false,
    };
    let encoded = match basic_payload(value.as_bytes()) {
        Some(e) => e,
        None => return false,
    };
    let decoded = match base64_decode(encoded) {
        Some(d) => d,
        None => return false,
    };
    basic_credentials_authorized(decoded.as_slice(), auth)
}

/// What to do with the bytes of a SOCKS5 username/password exchange read
/// so far.
#[derive(Clone, Copy, Debug, PartialEq, Eq, Structural)]
pub enum AuthStep {
    /// Read until this many bytes have arrived, then ask again.
    NeedBytes(usize),
    /// Refuse without a reply.
    Invalid(SocksError),
    /// Send `[0x01, status]`; when `accepted` is false the exchange then
    /// ends in `SocksError::AuthFailed`.
    Reply { status: u8, accepted: bool },
}

/// The decision of a username/password exchange (RFC 1929) over the bytes
/// read so far: version 1, then the length-prefixed user and password.
/// Received names are read as text the lossy way before they are compared.
pub open spec fn spec_auth_step(
    buf: Seq<u8>,
    username: Option<Seq<char>>,
    password: Option<Seq<char>>,
) -> AuthStep {
    if buf.len() < 1 {
        AuthStep::NeedBytes(1)
    } else if buf[0] != 1 {
        AuthStep::Invalid(SocksError::InvalidProtocol)
    } else if buf.len() < 2 {
        AuthStep::NeedBytes(2)
    } else if buf.len() < 3 + buf[1] {
        AuthStep::NeedBytes((3 + buf[1]) as usize)
    } else if buf.len() < 3 + buf[1] + buf[2 + buf[1]] {
        AuthStep::NeedBytes((3 + buf[1] + buf[2 + buf[1]]) as usize)
    } else {
        let ulen = buf[1] as int;
        let plen = buf[2 + ulen] as int;
        match (username, password) {
            (Some(u), Some(p)) => if encode_utf8(spec_utf8_lossy(buf.subrange(2, 2 + ulen)))
                == encode_utf8(u) && encode_utf8(spec_utf8_lossy(buf.subrange(3 + ulen, 3 + ulen + plen)))
                == encode_utf8(p) {
                AuthStep::Reply { status: 0, accepted: true }
            } else {
                AuthStep::Reply { status: 1, accepted: false }
            },
            _ => AuthStep::Invalid(SocksError::AuthUnavailable),
        }
    }
}

/// Law: once a whole username/password message has arrived and the proxy
/// has credentials, the client is accepted (status 0) exactly when the
/// received username reads as the configured username and the received
/// password as the configured password; any other message is refused with
/// status 1.
pub proof fn lemma_auth_accepts_only_configured_credentials(buf: Seq<u8>, u: Seq<char>, p: Seq<char>)
    requires
        buf.len() >= 2,
        buf[0] == 1,
        buf.len() >= 3 + buf[1],
        buf.len() >= 3 + buf[1] + buf[2 + buf[1]],
    ensures
        spec_auth_step(buf, Some(u), Some(p)) == (AuthStep::Reply { status: 0, accepted: true }) <==> (
        spec_utf8_lossy(buf.subrange(2, 2 + buf[1])) == u && spec_utf8_lossy(
            buf.subrange(3 + buf[1], 3 + buf[1] + buf[2 + buf[1]]),
        ) == p),
        spec_auth_step(buf, Some(u), Some(p)) == (AuthStep::Reply { status: 0, accepted: true })
            || spec_auth_step(buf, Some(u), Some(p)) == (AuthStep::Reply { status: 1, accepted: false }),
{
    let ulen = buf[1] as int;
    let plen = buf[2 + ulen] as int;
    let ru = spec_utf8_lossy(buf.subrange(2, 2 + ulen));
    let rp = spec_utf8_lossy(buf.subrange(3 + ulen, 3 + ulen + plen));
    encode_utf8_decode_utf8(ru);
    encode_utf8_decode_utf8(u);
    encode_utf8_decode_utf8(rp);
    encode_utf8_decode_utf8(p);
}

/// Performs SOCKS5 username/password authentication over the bytes read
/// so far.
pub fn auth_step(buf: &[u8], auth: &AuthConfig) -> (r: AuthStep)
    ensures
        r == spec_auth_step(buf@, spec_opt_chars(auth.username), spec_opt_chars(auth.password)),
{
    if buf.len() < 1 {
        return AuthStep::NeedBytes(1);
    }
    if buf[0] != 1 {
        return AuthStep::Invalid(SocksError::InvalidProtocol);
    }
    if buf.len() < 2 {
        return AuthStep::NeedBytes(2);
    }
    let ulen = buf[1] as usize;
    if buf.len() < 3 + ulen {
        return AuthStep::NeedBytes(3 + ulen);
    }
    let plen = buf[2 + ulen] as usize;
    if buf.len() < 3 + ulen + plen {
        return AuthStep::NeedBytes(3 + ulen + plen);
    }
    let provided_user = utf8_lossy(vstd::slice::slice_subrange(buf, 2, 2 + ulen));
    let provided_pass = utf8_lossy(vstd::slice::slice_subrange(buf, 3 + ulen, 3 + ulen + plen));
    match (&auth.username, &auth.password) {
        (Some(username), Some(password)) => {
            if credentials_match(
                username.as_str().as_bytes(),
                password.as_str().as_bytes(),
                provided_user.as_str().as_bytes(),
                provided_pass.as_str().as_bytes(),
            ) {
                AuthStep::Reply { status: 0, accepted: true }
            } else {
                AuthStep::Reply { status: 1, accepted: false }
            }
        },
        _ => AuthStep::Invalid(SocksError::AuthUnavailable),
    }
}

} // verus!
