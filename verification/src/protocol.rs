//! SOCKS5 wire format: method negotiation, requests, replies and UDP
//! datagram headers, parsed and encoded over byte sequences.

use vstd::prelude::*;
use vstd::string::*;
use vstd::utf8::*;

use crate::net::{spec_ipv6_text, spec_is_ipv6_text, ipv6_text, is_ipv6_text, IpAddress, SocketAddress};
use crate::text::{
    decimal, lemma_utf8_chars, owned, spec_decimal, utf8_str,
};

verus! {

pub const SOCKS_VERSION: u8 = 0x05;

pub const SOCKS_AUTH_USER: u8 = 0x02;

pub const SOCKS_NO_AUTH: u8 = 0x00;

pub const SOCKS_CMD_CONNECT: u8 = 0x01;

pub const SOCKS_CMD_UDP_ASSOCIATE: u8 = 0x03;

pub const ATYP_IPV4: u8 = 0x01;

pub const ATYP_DOMAIN: u8 = 0x03;

pub const ATYP_IPV6: u8 = 0x04;

/// The method byte that refuses every offered authentication method.
pub const SOCKS_NO_ACCEPTABLE_METHOD: u8 = 0xFF;

/// Why a SOCKS5 exchange was refused.
#[derive(Clone, Copy, Debug, PartialEq, Eq, Structural)]
pub enum SocksError {
    InvalidProtocol,
    NoAcceptableAuthMethod,
    AuthUnavailable,
    AuthFailed,
    UnsupportedCommand,
    InvalidUdpPacket,
    DomainTooLong,
    NameResolutionFailed,
    ConnectionFailed,
    UnexpectedTcpDataDuringUdpAssociate,
}

/// The authentication method the proxy selects during negotiation.
#[derive(Copy, Clone, Debug, PartialEq, Eq, Structural)]
pub enum AuthMethod {
    NoAuth,
    UsernamePassword,
}

impl AuthMethod {
    /// The wire byte of a method.
    pub open spec fn spec_byte(self) -> u8 {
        match self {
            AuthMethod::NoAuth => SOCKS_NO_AUTH,
            AuthMethod::UsernamePassword => SOCKS_AUTH_USER,
        }
    }

    /// Converts an authentication method to its SOCKS5 wire byte.
    pub fn as_byte(self) -> (r: u8)
        ensures
            r == self.spec_byte(),
    {
        match self {
            AuthMethod::NoAuth => SOCKS_NO_AUTH,
            AuthMethod::UsernamePassword => SOCKS_AUTH_USER,
        }
    }
}

/// A SOCKS5 address: IPv4 or IPv6 octets, or a domain name, with a port.
#[derive(Clone, Debug, PartialEq, Eq)]
pub enum Address {
    V4([u8; 4], u16),
    V6([u8; 16], u16),
    Domain(String, u16),
}

/// The value of an [`Address`].
pub enum AddressView {
    V4(Seq<u8>, u16),
    V6(Seq<u8>, u16),
    Domain(Seq<char>, u16),
}

impl View for Address {
    type V = AddressView;

    open spec fn view(&self) -> AddressView {
        match self {
            Address::V4(ip, port) => AddressView::V4(ip@, *port),
            Address::V6(ip, port) => AddressView::V6(ip@, *port),
            Address::Domain(d, port) => AddressView::Domain(d@, *port),
        }
    }
}

/// The port of an address value.
pub open spec fn spec_port(a: AddressView) -> u16 {
    match a {
        AddressView::V4(_, p) => p,
        AddressView::V6(_, p) => p,
        AddressView::Domain(_, p) => p,
    }
}

/// A port in network byte order.
pub open spec fn spec_port_bytes(port: u16) -> Seq<u8> {
    seq![(port / 256) as u8, (port % 256) as u8]
}

/// The port that two bytes in network order hold.
pub open spec fn spec_port_of(hi: u8, lo: u8) -> u16 {
    (hi as nat * 256 + lo as nat) as u16
}

/// An address the wire format can carry: a domain of at most 255 bytes.
pub open spec fn spec_encodable(a: AddressView) -> bool {
    match a {
        AddressView::Domain(d, _) => encode_utf8(d).len() <= 255,
        _ => true,
    }
}

/// The wire encoding of an address: type byte, body, port.
pub open spec fn spec_address_bytes(a: AddressView) -> Seq<u8> {
    match a {
        AddressView::V4(ip, port) => seq![ATYP_IPV4] + ip + spec_port_bytes(port),
        AddressView::V6(ip, port) => seq![ATYP_IPV6] + ip + spec_port_bytes(port),
        AddressView::Domain(d, port) => seq![ATYP_DOMAIN, encode_utf8(d).len() as u8] + encode_utf8(
            d,
        ) + spec_port_bytes(port),
    }
}

/// The address at the start of `buf` and the number of bytes it takes;
/// `None` when the bytes are short, the type is unknown, the domain is
/// empty or the domain is not UTF-8.
pub open spec fn spec_parse_address(buf: Seq<u8>) -> Option<(AddressView, nat)> {
    if buf.len() == 0 {
        None
    } else if buf[0] == ATYP_IPV4 {
        if buf.len() < 7 {
            None
        } else {
            Some((AddressView::V4(buf.subrange(1, 5), spec_port_of(buf[5], buf[6])), 7))
        }
    } else if buf[0] == ATYP_DOMAIN {
        if buf.len() < 2 {
            None
        } else {
            let len = buf[1] as int;
            if len == 0 || buf.len() < 4 + len {
                None
            } else if !valid_utf8(buf.subrange(2, 2 + len)) {
                None
            } else {
                Some(
                    (
                        AddressView::Domain(
                            decode_utf8(buf.subrange(2, 2 + len)),
                            spec_port_of(buf[2 + len], buf[3 + len]),
                        ),
                        (4 + len) as nat,
                    ),
                )
            }
        }
    } else if buf[0] == ATYP_IPV6 {
        if buf.len() < 19 {
            None
        } else {
            Some((AddressView::V6(buf.subrange(1, 17), spec_port_of(buf[17], buf[18])), 19))
        }
    } else {
        None
    }
}

/// The result of reading a SOCKS5 UDP datagram header: an error, `None` for
/// a fragment (which is dropped), or the destination and the payload.
pub open spec fn spec_parse_udp(packet: Seq<u8>) -> Result<Option<(AddressView, Seq<u8>)>, SocksError> {
    if packet.len() < 4 {
        Err(SocksError::InvalidUdpPacket)
    } else if packet[0] != 0 || packet[1] != 0 {
        Err(SocksError::InvalidUdpPacket)
    } else if packet[2] != 0 {
        Ok(None)
    } else {
        match spec_parse_address(packet.skip(3)) {
            None => Err(SocksError::InvalidUdpPacket),
            Some((a, n)) => Ok(Some((a, packet.skip(3 + n as int)))),
        }
    }
}

/// A payload wrapped in a SOCKS5 UDP header for an address.
pub open spec fn spec_udp_bytes(source: AddressView, payload: Seq<u8>) -> Seq<u8> {
    seq![0u8, 0u8, 0u8] + spec_address_bytes(source) + payload
}

/// The text form of an IPv4 address: four decimal octets joined by dots.
pub open spec fn spec_dotted(ip: Seq<u8>) -> Seq<char> {
    spec_decimal(ip[0] as nat) + seq!['.'] + spec_decimal(ip[1] as nat) + seq!['.'] + spec_decimal(
        ip[2] as nat,
    ) + seq!['.'] + spec_decimal(ip[3] as nat)
}

/// A host in brackets when it is an IPv6 literal, unchanged otherwise.
pub open spec fn spec_bracket_ipv6(host: Seq<char>) -> Seq<char> {
    if spec_is_ipv6_text(host) {
        seq!['['] + host + seq![']']
    } else {
        host
    }
}

/// The `host:port` text of an address for a TCP connect.
pub open spec fn spec_target_string(a: AddressView) -> Seq<char> {
    match a {
        AddressView::V4(ip, port) => spec_dotted(ip) + seq![':'] + spec_decimal(port as nat),
        AddressView::V6(ip, port) => seq!['['] + spec_ipv6_text(ip) + seq![']', ':'] + spec_decimal(
            port as nat,
        ),
        AddressView::Domain(d, port) => spec_bracket_ipv6(d) + seq![':'] + spec_decimal(port as nat),
    }
}

/// Wraps an IPv6 literal in brackets; passes through everything else.
pub fn bracket_ipv6(host: &str) -> (r: String)
    ensures
        r@ == spec_bracket_ipv6(host@),
{
    if is_ipv6_text(host) {
        let mut s = String::new();
        s.push('[');
        s.push_str(host);
        s.push(']');
        assert(s@ =~= seq!['['] + host@ + seq![']']);
        s
    } else {
        owned(host)
    }
}

/// Appends a port in network byte order.
fn push_port(out: &mut Vec<u8>, port: u16)
    ensures
        final(out)@ == old(out)@ + spec_port_bytes(port),
{
    out.push((port / 256) as u8);
    out.push((port % 256) as u8);
    assert(out@ =~= old(out)@ + spec_port_bytes(port));
}

/// Appends bytes to a vector.
fn push_bytes(out: &mut Vec<u8>, bytes: &[u8])
    ensures
        final(out)@ == old(out)@ + bytes@,
{
    let mut i: usize = 0;
    while i < bytes.len()
        invariant
            i <= bytes@.len(),
            out@ == old(out)@ + bytes@.take(i as int),
        decreases bytes@.len() - i,
    {
        out.push(bytes[i]);
        i = i + 1;
        assert(out@ =~= old(out)@ + bytes@.take(i as int));
    }
    assert(bytes@.take(bytes@.len() as int) =~= bytes@);
}

/// Reads a port in network byte order.
fn port_of(hi: u8, lo: u8) -> (r: u16)
    ensures
        r == spec_port_of(hi, lo),
{
    (hi as u16) * 256 + (lo as u16)
}

impl Address {
    /// Returns the port carried by this address.
    pub fn port(&self) -> (r: u16)
        ensures
            r == spec_port(self@),
    {
        match self {
            Address::V4(_, port) => *port,
            Address::V6(_, port) => *port,
            Address::Domain(_, port) => *port,
        }
    }

    /// Builds a SOCKS address from a concrete socket address.
    pub fn from_socket_addr(addr: SocketAddress) -> (r: Address)
        ensures
            r@ == (match addr.ip {
                IpAddress::V4(ip) => AddressView::V4(ip@, addr.port),
                IpAddress::V6(ip) => AddressView::V6(ip@, addr.port),
            }),
    {
        match addr.ip {
            IpAddress::V4(ip) => Address::V4(ip, addr.port),
            IpAddress::V6(ip) => Address::V6(ip, addr.port),
        }
    }

    /// Formats the address as a target endpoint for a TCP connect.
    pub fn to_target_string(&self) -> (r: String)
        ensures
            r@ == spec_target_string(self@),
    {
        let mut s = String::new();
        match self {
            Address::V4(ip, port) => {
                s.push_str(decimal(ip[0] as u64).as_str());
                s.push('.');
                s.push_str(decimal(ip[1] as u64).as_str());
                s.push('.');
                s.push_str(decimal(ip[2] as u64).as_str());
                s.push('.');
                s.push_str(decimal(ip[3] as u64).as_str());
                s.push(':');
                s.push_str(decimal(*port as u64).as_str());
                assert(s@ =~= spec_target_string(self@));
            },
            Address::V6(ip, port) => {
                s.push('[');
                s.push_str(ipv6_text(*ip).as_str());
                s.push(']');
                s.push(':');
                s.push_str(decimal(*port as u64).as_str());
                assert(s@ =~= spec_target_string(self@));
            },
            Address::Domain(domain, port) => {
                s.push_str(bracket_ipv6(domain.as_str()).as_str());
                s.push(':');
                s.push_str(decimal(*port as u64).as_str());
                assert(s@ =~= spec_target_string(self@));
            },
        }
        s
    }
}

/// The command of a SOCKS5 request.
#[derive(Debug)]
pub enum Command {
    Connect(Address),
    UdpAssociate(Address),
}

/// A parsed SOCKS5 request.
pub struct SocksRequest {
    pub cmd: Command,
}

/// A SOCKS5 UDP datagram: its destination and the payload after the header.
pub struct UdpDatagram<'a> {
    pub destination: Address,
    pub payload: &'a [u8],
}

/// The bytes of a domain name.
fn domain_bytes(domain: &String) -> (r: &[u8])
    ensures
        r@ == encode_utf8(domain@),
{
    domain.as_str().as_bytes()
}

/// Returns the encoded length of a SOCKS address.
pub fn address_encoded_len(address: &Address) -> (r: usize)
    requires
        address@ matches AddressView::Domain(d, _) ==> encode_utf8(d).len() + 4 <= usize::MAX,
    ensures
        r == spec_address_bytes(address@).len(),
{
    match address {
        Address::V4(_, _) => 1 + 4 + 2,
        Address::V6(_, _) => 1 + 16 + 2,
        Address::Domain(domain, _) => 1 + 1 + domain_bytes(domain).len() + 2,
    }
}

/// Appends a SOCKS address encoding to an output buffer; a domain longer
/// than 255 bytes is refused and nothing is appended.
pub fn write_address(out: &mut Vec<u8>, address: &Address) -> (r: Result<(), SocksError>)
    ensures
        r is Ok <==> spec_encodable(address@),
        r is Ok ==> final(out)@ == old(out)@ + spec_address_bytes(address@),
        r matches Err(e) ==> e == SocksError::DomainTooLong && final(out)@ == old(out)@,
{
    match address {
        Address::V4(ip, port) => {
            out.push(ATYP_IPV4);
            push_bytes(out, ip.as_slice());
            push_port(out, *port);
            assert(out@ =~= old(out)@ + spec_address_bytes(address@));
        },
        Address::V6(ip, port) => {
            out.push(ATYP_IPV6);
            push_bytes(out, ip.as_slice());
            push_port(out, *port);
            assert(out@ =~= old(out)@ + spec_address_bytes(address@));
        },
        Address::Domain(domain, port) => {
            let bytes = domain_bytes(domain);
            if bytes.len() > 255 {
                return Err(SocksError::DomainTooLong);
            }
            out.push(ATYP_DOMAIN);
            out.push(bytes.len() as u8);
            push_bytes(out, bytes);
            push_port(out, *port);
            assert(out@ =~= old(out)@ + spec_address_bytes(address@));
        },
    }
    Ok(())
}

/// Parses a SOCKS address from raw bytes and returns its encoded length.
pub fn parse_address_bytes(buf: &[u8]) -> (r: Result<(Address, usize), SocksError>)
    ensures
        r matches Ok((a, n)) ==> spec_parse_address(buf@) == Some((a@, n as nat)),
        r matches Err(e) ==> e == SocksError::InvalidUdpPacket && spec_parse_address(buf@) is None,
{
    if buf.len() == 0 {
        return Err(SocksError::InvalidUdpPacket);
    }
    let atyp = buf[0];
    if atyp == ATYP_IPV4 {
        if buf.len() < 1 + 4 + 2 {
            return Err(SocksError::InvalidUdpPacket);
        }
        let ip: [u8; 4] = [buf[1], buf[2], buf[3], buf[4]];
        let port = port_of(buf[5], buf[6]);
        assert(ip@ =~= buf@.subrange(1, 5));
        Ok((Address::V4(ip, port), 1 + 4 + 2))
    } else if atyp == ATYP_DOMAIN {
        if buf.len() < 2 {
            return Err(SocksError::InvalidUdpPacket);
        }
        let len = buf[1] as usize;
        if len == 0 || buf.len() < 1 + 1 + len + 2 {
            return Err(SocksError::InvalidUdpPacket);
        }
        let domain_start: usize = 2;
        let port_start = domain_start + len;
        let raw = vstd::slice::slice_subrange(buf, domain_start, port_start);
        match utf8_str(raw) {
            None => Err(SocksError::InvalidUdpPacket),
            Some(text) => {
                proof {
                    lemma_utf8_chars(text, raw@);
                }
                let domain = owned(text);
                let port = port_of(buf[port_start], buf[port_start + 1]);
                Ok((Address::Domain(domain, port), 1 + 1 + len + 2))
            },
        }
    } else if atyp == ATYP_IPV6 {
        if buf.len() < 1 + 16 + 2 {
            return Err(SocksError::InvalidUdpPacket);
        }
        let mut ip = [0u8; 16];
        let mut k: usize = 0;
        while k < 16
            invariant
                k <= 16,
                buf@.len() >= 19,
                forall|q: int| 0 <= q < k ==> ip@[q] == buf@[1 + q],
            decreases 16 - k,
        {
            ip[k] = buf[1 + k];
            k = k + 1;
        }
        assert(ip@ =~= buf@.subrange(1, 17));
        let port = port_of(buf[17], buf[18]);
        Ok((Address::V6(ip, port), 1 + 16 + 2))
    } else {
        Err(SocksError::InvalidUdpPacket)
    }
}

/// Parses a SOCKS5 UDP datagram header. A fragment is dropped: the result
/// is `Ok(None)`.
pub fn parse_udp_datagram(packet: &[u8]) -> (r: Result<Option<UdpDatagram<'_>>, SocksError>)
    ensures
        r matches Err(e) ==> spec_parse_udp(packet@) == Err::<Option<(AddressView, Seq<u8>)>, SocksError>(e),
        r matches Ok(None) ==> spec_parse_udp(packet@) == Ok::<Option<(AddressView, Seq<u8>)>, SocksError>(None),
        r matches Ok(Some(d)) ==> spec_parse_udp(packet@) == Ok::<Option<(AddressView, Seq<u8>)>, SocksError>(Some((d.destination@, d.payload@))),
{
    if packet.len() < 4 {
        return Err(SocksError::InvalidUdpPacket);
    }
    if packet[0] != 0 || packet[1] != 0 {
        return Err(SocksError::InvalidUdpPacket);
    }
    if packet[2] != 0 {
        return Ok(None);
    }
    let rest = vstd::slice::slice_subrange(packet, 3, packet.len());
    assert(rest@ =~= packet@.skip(3));
    let (destination, address_len) = parse_address_bytes(rest)?;
    let payload = vstd::slice::slice_subrange(packet, 3 + address_len, packet.len());
    assert(payload@ =~= packet@.skip(3 + address_len));
    Ok(Some(UdpDatagram { destination, payload }))
}

/// Encodes a payload into a SOCKS5 UDP datagram for a source address.
pub fn encode_udp_datagram(source: &Address, payload: &[u8]) -> (r: Result<Vec<u8>, SocksError>)
    ensures
        r is Ok <==> spec_encodable(source@),
        r matches Ok(p) ==> p@ == spec_udp_bytes(source@, payload@),
        r matches Err(e) ==> e == SocksError::DomainTooLong,
{
    let mut packet: Vec<u8> = Vec::new();
    packet.push(0);
    packet.push(0);
    packet.push(0);
    write_address(&mut packet, source)?;
    push_bytes(&mut packet, payload);
    assert(packet@ =~= spec_udp_bytes(source@, payload@));
    Ok(packet)
}

/// The bytes of a SOCKS5 command reply: version, reply code, reserved byte
/// and the bound address.
pub open spec fn spec_reply_bytes(rep: u8, bound: AddressView) -> Seq<u8> {
    seq![SOCKS_VERSION, rep, 0u8] + spec_address_bytes(bound)
}

/// Builds a SOCKS5 command reply for a bound address.
pub fn reply_bytes(rep: u8, bound: &Address) -> (r: Result<Vec<u8>, SocksError>)
    ensures
        r is Ok <==> spec_encodable(bound@),
        r matches Ok(v) ==> v@ == spec_reply_bytes(rep, bound@),
        r matches Err(e) ==> e == SocksError::DomainTooLong,
{
    let mut reply: Vec<u8> = Vec::new();
    reply.push(SOCKS_VERSION);
    reply.push(rep);
    reply.push(0);
    write_address(&mut reply, bound)?;
    assert(reply@ =~= spec_reply_bytes(rep, bound@));
    Ok(reply)
}

/// Octet counts that match the address family.
pub open spec fn spec_well_sized(a: AddressView) -> bool {
    match a {
        AddressView::V4(ip, _) => ip.len() == 4,
        AddressView::V6(ip, _) => ip.len() == 16,
        AddressView::Domain(_, _) => true,
    }
}

/// Every address value of the library has as many octets as its family.
pub proof fn lemma_address_well_sized(a: &Address)
    ensures
        spec_well_sized(a@),
{
}

proof fn lemma_port_round_trip(port: u16)
    ensures
        spec_port_of(spec_port_bytes(port)[0], spec_port_bytes(port)[1]) == port,
{
}

proof fn lemma_encode_nonempty(d: Seq<char>)
    requires
        d.len() > 0,
    ensures
        encode_utf8(d).len() > 0,
{
    encode_utf8_decode_utf8(d);
    if encode_utf8(d).len() == 0 {
        assert(encode_utf8(d) =~= Seq::<u8>::empty());
    }
}

/// The address encoding at the start of a buffer parses back to the address
/// and its length, whatever bytes follow.
pub proof fn lemma_address_prefix(a: AddressView, rest: Seq<u8>)
    requires
        spec_encodable(a),
        spec_well_sized(a),
        a matches AddressView::Domain(d, _) ==> d.len() > 0,
    ensures
        spec_parse_address(spec_address_bytes(a) + rest) == Some((a, spec_address_bytes(a).len())),
{
    let buf = spec_address_bytes(a) + rest;
    match a {
        AddressView::V4(ip, port) => {
            assert(buf.subrange(1, 5) =~= ip);
            lemma_port_round_trip(port);
        },
        AddressView::V6(ip, port) => {
            assert(buf.subrange(1, 17) =~= ip);
            lemma_port_round_trip(port);
        },
        AddressView::Domain(d, port) => {
            let e = encode_utf8(d);
            lemma_encode_nonempty(d);
            encode_utf8_valid_utf8(d);
            encode_utf8_decode_utf8(d);
            assert(buf[1] == e.len() as u8);
            assert(buf.subrange(2, 2 + e.len() as int) =~= e);
            assert(buf[2 + e.len() as int] == spec_port_bytes(port)[0]);
            assert(buf[3 + e.len() as int] == spec_port_bytes(port)[1]);
            lemma_port_round_trip(port);
        },
    }
}

/// Law: a payload wrapped in a UDP header for an address reads back as that
/// address and that payload, for every address the wire format can carry
/// whose domain, if any, is not empty.
pub proof fn lemma_udp_round_trip(a: AddressView, payload: Seq<u8>)
    requires
        spec_encodable(a),
        spec_well_sized(a),
        a matches AddressView::Domain(d, _) ==> d.len() > 0,
    ensures
        spec_parse_udp(spec_udp_bytes(a, payload)) == Ok::<
            Option<(AddressView, Seq<u8>)>,
            SocksError,
        >(Some((a, payload))),
{
    let packet = spec_udp_bytes(a, payload);
    let enc = spec_address_bytes(a);
    assert(packet.skip(3) =~= enc + payload);
    lemma_address_prefix(a, payload);
    assert(packet.skip(3 + enc.len() as int) =~= payload);
}

/// Law: a datagram header that reads as an address and a payload is exactly
/// the encoding of that address followed by that payload.
pub proof fn lemma_udp_parse_encode(packet: Seq<u8>)
    requires
        spec_parse_udp(packet) is Ok,
        spec_parse_udp(packet)->Ok_0 is Some,
    ensures
        ({
            let (a, p) = spec_parse_udp(packet)->Ok_0->Some_0;
            spec_encodable(a) && spec_udp_bytes(a, p) == packet
        }),
{
    let buf = packet.skip(3);
    let (a, n) = spec_parse_address(buf)->Some_0;
    let p = packet.skip(3 + n as int);
    if buf[0] == ATYP_DOMAIN {
        let len = buf[1] as int;
        let raw = buf.subrange(2, 2 + len);
        decode_utf8_encode_utf8(raw);
        assert(encode_utf8(decode_utf8(raw)) == raw);
    }
    assert(spec_udp_bytes(a, p) =~= packet);
}

/// What to do with the bytes of a method negotiation read so far.
#[derive(Clone, Copy, Debug, PartialEq, Eq, Structural)]
pub enum HandshakeStep {
    /// Read until this many bytes have arrived, then ask again.
    NeedBytes(usize),
    /// Refuse without a reply.
    Invalid(SocksError),
    /// Send `[SOCKS_VERSION, method]`; when `accepted` is false the method is
    /// `SOCKS_NO_ACCEPTABLE_METHOD` and the exchange then ends in
    /// `SocksError::NoAcceptableAuthMethod`.
    Reply { method: u8, accepted: bool },
}

/// The decision of a method negotiation over the bytes read so far, for
/// the method the proxy requires.
pub open spec fn spec_handshake_step(buf: Seq<u8>, method: AuthMethod) -> HandshakeStep {
    if buf.len() < 2 {
        HandshakeStep::NeedBytes(2)
    } else if buf[0] != SOCKS_VERSION {
        HandshakeStep::Invalid(SocksError::InvalidProtocol)
    } else if buf.len() < 2 + buf[1] {
        HandshakeStep::NeedBytes((2 + buf[1]) as usize)
    } else if buf.subrange(2, 2 + buf[1]).contains(method.spec_byte()) {
        HandshakeStep::Reply { method: method.spec_byte(), accepted: true }
    } else {
        HandshakeStep::Reply { method: SOCKS_NO_ACCEPTABLE_METHOD, accepted: false }
    }
}

/// Performs the SOCKS5 method negotiation over the bytes read so far: the
/// greeting is the version byte, a method count and that many methods.
pub fn handshake_step(buf: &[u8], method: AuthMethod) -> (r: HandshakeStep)
    ensures
        r == spec_handshake_step(buf@, method),
{
    if buf.len() < 2 {
        return HandshakeStep::NeedBytes(2);
    }
    if buf[0] != SOCKS_VERSION {
        return HandshakeStep::Invalid(SocksError::InvalidProtocol);
    }
    let nmethods = buf[1] as usize;
    if buf.len() < 2 + nmethods {
        return HandshakeStep::NeedBytes(2 + nmethods);
    }
    let desired = method.as_byte();
    let mut i: usize = 2;
    while i < 2 + nmethods
        invariant
            2 <= i <= 2 + nmethods <= buf@.len(),
            nmethods == buf@[1],
            buf@[0] == SOCKS_VERSION,
            desired == method.spec_byte(),
            forall|k: int| 2 <= k < i ==> buf@[k] != desired,
        decreases 2 + nmethods - i,
    {
        if buf[i] == desired {
            assert(buf@.subrange(2, 2 + nmethods as int)[i - 2] == desired);
            assert(buf@.subrange(2, 2 + nmethods as int).contains(desired));
            return HandshakeStep::Reply { method: desired, accepted: true };
        }
        i = i + 1;
    }
    assert(!buf@.subrange(2, 2 + nmethods as int).contains(desired)) by {
        if buf@.subrange(2, 2 + nmethods as int).contains(desired) {
            let k = choose|k: int|
                0 <= k < nmethods && #[trigger] buf@.subrange(2, 2 + nmethods as int)[k] == desired;
            assert(buf@[k + 2] == desired);
        }
    }
    HandshakeStep::Reply { method: SOCKS_NO_ACCEPTABLE_METHOD, accepted: false }
}

/// Some method that a greeting `[5, n, m1..mn]` offers is `m`.
pub open spec fn spec_offers_method(buf: Seq<u8>, m: u8) -> bool {
    exists|k: int| 2 <= k < 2 + buf[1] && #[trigger] buf[k] == m
}

/// Law: once a whole greeting `[5, n, m1..mn]` has arrived, the required
/// method is accepted (and echoed) exactly when some offered method equals
/// it, wherever it stands among them; otherwise the reply refuses all
/// methods.
pub proof fn lemma_handshake_accepts_offered_method(buf: Seq<u8>, method: AuthMethod)
    requires
        buf.len() >= 2,
        buf[0] == SOCKS_VERSION,
        buf.len() >= 2 + buf[1],
    ensures
        spec_offers_method(buf, method.spec_byte()) ==> spec_handshake_step(buf, method) == (
        HandshakeStep::Reply { method: method.spec_byte(), accepted: true }),
        !spec_offers_method(buf, method.spec_byte()) ==> spec_handshake_step(buf, method) == (
        HandshakeStep::Reply { method: SOCKS_NO_ACCEPTABLE_METHOD, accepted: false }),
{
    let offered = buf.subrange(2, 2 + buf[1]);
    if spec_offers_method(buf, method.spec_byte()) {
        let k = choose|k: int| 2 <= k < 2 + buf[1] && #[trigger] buf[k] == method.spec_byte();
        assert(offered[k - 2] == buf[k]);
    } else {
        if offered.contains(method.spec_byte()) {
            let j = choose|j: int| 0 <= j < offered.len() && offered[j] == method.spec_byte();
            assert(buf[j + 2] == offered[j]);
        }
    }
}

/// What to do with the bytes of a SOCKS5 request read so far.
pub enum RequestStep {
    /// Read until this many bytes have arrived, then ask again.
    NeedBytes(usize),
    /// Refuse the request.
    Invalid(SocksError),
    /// The request is complete.
    Complete(SocksRequest),
}

/// The value of a [`RequestStep`].
pub enum RequestOutcome {
    NeedBytes(usize),
    Invalid(SocksError),
    Connect(AddressView),
    UdpAssociate(AddressView),
}

impl View for RequestStep {
    type V = RequestOutcome;

    open spec fn view(&self) -> RequestOutcome {
        match self {
            RequestStep::NeedBytes(n) => RequestOutcome::NeedBytes(*n),
            RequestStep::Invalid(e) => RequestOutcome::Invalid(*e),
            RequestStep::Complete(req) => match req.cmd {
                Command::Connect(a) => RequestOutcome::Connect(a@),
                Command::UdpAssociate(a) => RequestOutcome::UdpAssociate(a@),
            },
        }
    }
}

/// The number of bytes a request takes once its header (and, for a domain,
/// the length byte) is known.
pub open spec fn spec_request_len(buf: Seq<u8>) -> int {
    if buf[3] == ATYP_IPV4 {
        10
    } else if buf[3] == ATYP_IPV6 {
        22
    } else {
        7 + buf[4]
    }
}

/// The decision over the bytes of a SOCKS5 request read so far: version,
/// command, reserved byte, address type, address and port. The version and
/// reserved byte are checked first, then the address, then the command.
pub open spec fn spec_request_step(buf: Seq<u8>) -> RequestOutcome {
    if buf.len() < 4 {
        RequestOutcome::NeedBytes(4)
    } else if buf[0] != SOCKS_VERSION || buf[2] != 0 {
        RequestOutcome::Invalid(SocksError::InvalidProtocol)
    } else if !(buf[3] == ATYP_IPV4 || buf[3] == ATYP_DOMAIN || buf[3] == ATYP_IPV6) {
        RequestOutcome::Invalid(SocksError::InvalidProtocol)
    } else if buf[3] == ATYP_DOMAIN && buf.len() < 5 {
        RequestOutcome::NeedBytes(5)
    } else if buf[3] == ATYP_DOMAIN && buf[4] == 0 {
        RequestOutcome::Invalid(SocksError::InvalidProtocol)
    } else if buf.len() < spec_request_len(buf) {
        RequestOutcome::NeedBytes(spec_request_len(buf) as usize)
    } else {
        match spec_parse_address(buf.subrange(3, spec_request_len(buf))) {
            None => RequestOutcome::Invalid(SocksError::InvalidProtocol),
            Some((a, _)) => if buf[1] == SOCKS_CMD_CONNECT {
                RequestOutcome::Connect(a)
            } else if buf[1] == SOCKS_CMD_UDP_ASSOCIATE {
                RequestOutcome::UdpAssociate(a)
            } else {
                RequestOutcome::Invalid(SocksError::UnsupportedCommand)
            },
        }
    }
}

/// Reads one SOCKS5 request from the bytes received so far.
pub fn request_step(buf: &[u8]) -> (r: RequestStep)
    ensures
        r@ == spec_request_step(buf@),
{
    if buf.len() < 4 {
        return RequestStep::NeedBytes(4);
    }
    if buf[0] != SOCKS_VERSION || buf[2] != 0 {
        return RequestStep::Invalid(SocksError::InvalidProtocol);
    }
    let atyp = buf[3];
    if !(atyp == ATYP_IPV4 || atyp == ATYP_DOMAIN || atyp == ATYP_IPV6) {
        return RequestStep::Invalid(SocksError::InvalidProtocol);
    }
    let need: usize = if atyp == ATYP_IPV4 {
        10
    } else if atyp == ATYP_IPV6 {
        22
    } else {
        if buf.len() < 5 {
            return RequestStep::NeedBytes(5);
        }
        if buf[4] == 0 {
            return RequestStep::Invalid(SocksError::InvalidProtocol);
        }
        7 + buf[4] as usize
    };
    if buf.len() < need {
        return RequestStep::NeedBytes(need);
    }
    let body = vstd::slice::slice_subrange(buf, 3, need);
    match parse_address_bytes(body) {
        Err(_) => RequestStep::Invalid(SocksError::InvalidProtocol),
        Ok((address, _)) => {
            let cmd = buf[1];
            if cmd == SOCKS_CMD_CONNECT {
                RequestStep::Complete(SocksRequest { cmd: Command::Connect(address) })
            } else if cmd == SOCKS_CMD_UDP_ASSOCIATE {
                RequestStep::Complete(SocksRequest { cmd: Command::UdpAssociate(address) })
            } else {
                RequestStep::Invalid(SocksError::UnsupportedCommand)
            }
        },
    }
}

/// The bytes of a request for a command and an address.
pub open spec fn spec_request_bytes(cmd: u8, a: AddressView) -> Seq<u8> {
    seq![SOCKS_VERSION, cmd, 0u8] + spec_address_bytes(a)
}

/// Law: a CONNECT or UDP ASSOCIATE request for any address the wire format
/// can carry (a non-empty domain of at most 255 bytes) reads back as that
/// command and that address once all its bytes have arrived.
pub proof fn lemma_request_round_trip(cmd: u8, a: AddressView)
    requires
        cmd == SOCKS_CMD_CONNECT || cmd == SOCKS_CMD_UDP_ASSOCIATE,
        spec_encodable(a),
        spec_well_sized(a),
        a matches AddressView::Domain(d, _) ==> d.len() > 0,
    ensures
        spec_request_step(spec_request_bytes(cmd, a)) == (if cmd == SOCKS_CMD_CONNECT {
            RequestOutcome::Connect(a)
        } else {
            RequestOutcome::UdpAssociate(a)
        }),
{
    let buf = spec_request_bytes(cmd, a);
    let enc = spec_address_bytes(a);
    if let AddressView::Domain(d, _) = a {
        lemma_encode_nonempty(d);
    }
    assert(buf.subrange(3, buf.len() as int) =~= enc + Seq::<u8>::empty());
    lemma_address_prefix(a, Seq::<u8>::empty());
    assert(spec_request_len(buf) == buf.len());
}

} // verus!
