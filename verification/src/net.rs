//! IP addresses, socket addresses and CIDR networks as plain values, with
//! the prefix-match rule used by the allowlist.

use vstd::prelude::*;

verus! {

/// An IPv4 or IPv6 address, by its octets in network order.
#[derive(Clone, Copy, Debug, PartialEq, Eq)]
pub enum IpAddress {
    V4([u8; 4]),
    V6([u8; 16]),
}

/// An IP address together with a port; for IPv6 also the flow
/// information and scope id, which tell socket addresses apart as
/// `std::net::SocketAddrV6` does (both zero for IPv4).
#[derive(Clone, Copy, Debug, PartialEq, Eq)]
pub struct SocketAddress {
    pub ip: IpAddress,
    pub port: u16,
    pub flowinfo: u32,
    pub scope_id: u32,
}

/// The text `core::net::Ipv6Addr` displays for an address (RFC 5952 form).
pub uninterp spec fn spec_ipv6_text(octets: Seq<u8>) -> Seq<char>;

/// Whether `core::net::Ipv6Addr` parses a text as an IPv6 address.
pub uninterp spec fn spec_is_ipv6_text(text: Seq<char>) -> bool;

/// `core::net::Ipv6Addr` displayed as text.
#[verifier::external_body]
pub(crate) fn ipv6_text(octets: [u8; 16]) -> (r: String)
    ensures
        r@ == spec_ipv6_text(octets@),
{
    core::net::Ipv6Addr::from(octets).to_string()
}

/// Whether `str::parse::<core::net::Ipv6Addr>` accepts a text.
#[verifier::external_body]
pub(crate) fn is_ipv6_text(text: &str) -> (r: bool)
    ensures
        r == spec_is_ipv6_text(text@),
{
    text.parse::<core::net::Ipv6Addr>().is_ok()
}

/// The address and prefix length that `ipnet::IpNet` parses from a text in
/// CIDR notation.
pub uninterp spec fn spec_parse_ip_net(text: Seq<char>) -> Option<(IpAddress, u8)>;

/// The address that `core::net::IpAddr` parses from a text.
pub uninterp spec fn spec_parse_ip_addr(text: Seq<char>) -> Option<IpAddress>;

/// `str::parse::<ipnet::IpNet>`: the address and prefix length of a CIDR
/// text. The parser only accepts prefix lengths up to the width of the
/// address (32 or 128).
#[verifier::external_body]
pub(crate) fn parse_ip_net(text: &str) -> (r: Option<(IpAddress, u8)>)
    ensures
        r == spec_parse_ip_net(text@),
        r matches Some((a, p)) ==> spec_valid_prefix(a, p),
{
    match text.parse::<ipnet::IpNet>() {
        Ok(ipnet::IpNet::V4(n)) => Some((IpAddress::V4(n.addr().octets()), n.prefix_len())),
        Ok(ipnet::IpNet::V6(n)) => Some((IpAddress::V6(n.addr().octets()), n.prefix_len())),
        Err(_) => None,
    }
}

/// `str::parse::<core::net::IpAddr>`: the octets of an IPv4 or IPv6 address
/// text.
#[verifier::external_body]
pub(crate) fn parse_ip_addr(text: &str) -> (r: Option<IpAddress>)
    ensures
        r == spec_parse_ip_addr(text@),
{
    match text.parse::<core::net::IpAddr>() {
        Ok(core::net::IpAddr::V4(a)) => Some(IpAddress::V4(a.octets())),
        Ok(core::net::IpAddr::V6(a)) => Some(IpAddress::V6(a.octets())),
        Err(_) => None,
    }
}

/// Whether two byte sequences are equal.
pub fn bytes_equal(a: &[u8], b: &[u8]) -> (r: bool)
    ensures
        r == (a@ == b@),
{
    if a.len() != b.len() {
        return false;
    }
    let mut i: usize = 0;
    while i < a.len()
        invariant
            i <= a@.len() == b@.len(),
            forall|k: int| 0 <= k < i ==> a@[k] == b@[k],
        decreases a@.len() - i,
    {
        if a[i] != b[i] {
            return false;
        }
        i = i + 1;
    }
    assert(a@ =~= b@);
    true
}

impl IpAddress {
    /// Whether two addresses are the same.
    pub fn same_as(&self, other: &IpAddress) -> (r: bool)
        ensures
            r == (*self == *other),
    {
        broadcast use vstd::array::group_array_axioms;

        match (self, other) {
            (IpAddress::V4(a), IpAddress::V4(b)) => {
                let r = bytes_equal(a.as_slice(), b.as_slice());
                assert(r ==> *a =~= *b);
                r
            },
            (IpAddress::V6(a), IpAddress::V6(b)) => {
                let r = bytes_equal(a.as_slice(), b.as_slice());
                assert(r ==> *a =~= *b);
                r
            },
            _ => false,
        }
    }
}

impl SocketAddress {
    /// Whether two socket addresses are the same.
    pub fn same_as(&self, other: &SocketAddress) -> (r: bool)
        ensures
            r == (*self == *other),
    {
        self.port == other.port && self.flowinfo == other.flowinfo && self.scope_id == other.scope_id
            && self.ip.same_as(&other.ip)
    }
}

/// The value of octets read as a big-endian number.
pub open spec fn spec_be_value(s: Seq<u8>) -> nat
    decreases s.len(),
{
    if s.len() == 0 {
        0
    } else {
        spec_be_value(s.drop_last()) * 256 + s.last() as nat
    }
}

/// The network mask of an IPv4 prefix length, as `ipnet` computes it.
pub open spec fn spec_mask_v4(prefix: u8) -> u32 {
    if prefix == 0 {
        0u32
    } else {
        (u32::MAX << ((32 - prefix) as u32)) as u32
    }
}

/// The network mask of an IPv6 prefix length, as `ipnet` computes it.
pub open spec fn spec_mask_v6(prefix: u8) -> u128 {
    if prefix == 0 {
        0u128
    } else {
        (u128::MAX << ((128 - prefix) as u128)) as u128
    }
}

/// The 32-bit value of an IPv4 address.
pub open spec fn spec_v4_value(ip: [u8; 4]) -> u32 {
    spec_be_value(ip@) as u32
}

/// The 128-bit value of an IPv6 address.
pub open spec fn spec_v6_value(ip: [u8; 16]) -> u128 {
    spec_be_value(ip@) as u128
}

/// A prefix length that the address family admits.
pub open spec fn spec_valid_prefix(addr: IpAddress, prefix: u8) -> bool {
    match addr {
        IpAddress::V4(_) => prefix <= 32,
        IpAddress::V6(_) => prefix <= 128,
    }
}

/// Whether the network `addr/prefix` contains `ip`: same family, and `ip`
/// lies between the network address and the broadcast address.
pub open spec fn spec_net_contains(addr: IpAddress, prefix: u8, ip: IpAddress) -> bool {
    match (addr, ip) {
        (IpAddress::V4(a), IpAddress::V4(b)) => {
            let mask = spec_mask_v4(prefix);
            let network = spec_v4_value(a) & mask;
            let broadcast = spec_v4_value(a) | !mask;
            network <= spec_v4_value(b) && spec_v4_value(b) <= broadcast
        },
        (IpAddress::V6(a), IpAddress::V6(b)) => {
            let mask = spec_mask_v6(prefix);
            let network = spec_v6_value(a) & mask;
            let broadcast = spec_v6_value(a) | !mask;
            network <= spec_v6_value(b) && spec_v6_value(b) <= broadcast
        },
        _ => false,
    }
}

/// An IP network in CIDR notation: an address and a prefix length. The
/// address keeps its host bits, as `ipnet::IpNet` does.
#[derive(Clone, Copy, Debug)]
pub struct IpNetwork {
    addr: IpAddress,
    prefix_len: u8,
}

impl View for IpNetwork {
    type V = (IpAddress, u8);

    closed spec fn view(&self) -> (IpAddress, u8) {
        (self.addr, self.prefix_len)
    }
}

impl IpNetwork {
    #[verifier::type_invariant]
    spec fn valid(self) -> bool {
        spec_valid_prefix(self.addr, self.prefix_len)
    }

    /// A network from an address and a prefix length; `None` when the
    /// prefix is longer than the address (`IpNet::new`).
    pub fn new(addr: IpAddress, prefix_len: u8) -> (r: Option<IpNetwork>)
        ensures
            r is Some <==> spec_valid_prefix(addr, prefix_len),
            r matches Some(n) ==> n@ == (addr, prefix_len),
    {
        let ok = match addr {
            IpAddress::V4(_) => prefix_len <= 32,
            IpAddress::V6(_) => prefix_len <= 128,
        };
        if ok {
            Some(IpNetwork { addr, prefix_len })
        } else {
            None
        }
    }

    /// The address the network was written with.
    pub fn addr(&self) -> (r: IpAddress)
        ensures
            r == self@.0,
    {
        self.addr
    }

    /// The prefix length.
    pub fn prefix_len(&self) -> (r: u8)
        ensures
            r == self@.1,
            spec_valid_prefix(self@.0, r),
    {
        proof {
            use_type_invariant(self);
        }
        self.prefix_len
    }

    /// Whether the network contains an address (`IpNet::contains`).
    pub fn contains(&self, ip: &IpAddress) -> (r: bool)
        ensures
            r == spec_net_contains(self@.0, self@.1, *ip),
    {
        proof {
            use_type_invariant(self);
        }
        match (&self.addr, ip) {
            (IpAddress::V4(a), IpAddress::V4(b)) => {
                let mask: u32 = if self.prefix_len == 0 {
                    0
                } else {
                    u32::MAX << ((32 - self.prefix_len) as u32)
                };
                let av = v4_value(a);
                let bv = v4_value(b);
                let network = av & mask;
                let broadcast = av | !mask;
                network <= bv && bv <= broadcast
            },
            (IpAddress::V6(a), IpAddress::V6(b)) => {
                let mask: u128 = if self.prefix_len == 0 {
                    0
                } else {
                    u128::MAX << ((128 - self.prefix_len) as u128)
                };
                let av = v6_value(a);
                let bv = v6_value(b);
                let network = av & mask;
                let broadcast = av | !mask;
                network <= bv && bv <= broadcast
            },
            _ => false,
        }
    }
}

/// The big-endian value of the first `i` octets, as a number.
fn be_value_prefix(s: &[u8], i: usize) -> (r: u128)
    requires
        i <= s@.len(),
        i <= 16,
    ensures
        r as nat == spec_be_value(s@.take(i as int)),
    decreases i,
{
    if i == 0 {
        assert(s@.take(0) =~= Seq::<u8>::empty());
        0
    } else {
        let v = be_value_prefix(s, i - 1);
        assert(s@.take(i as int).drop_last() =~= s@.take(i - 1));
        proof {
            lemma_be_value_bound(s@.take(i - 1));
            vstd::arithmetic::power2::lemma_pow2_adds(8 * (i - 1) as nat, 8);
            lemma_pow2_128_bound(8 * (i - 1) as nat);
            assert(v * 256 + s@[i - 1] < vstd::arithmetic::power2::pow2(8 * (i - 1) as nat) * 256)
                by (nonlinear_arith)
                requires
                    v < vstd::arithmetic::power2::pow2(8 * (i - 1) as nat),
                    s@[i - 1] < 256,
            ;
            vstd::arithmetic::power2::lemma2_to64();
        }
        v * 256 + s[i - 1] as u128
    }
}

proof fn lemma_pow2_128_bound(e: nat)
    requires
        e <= 120,
    ensures
        vstd::arithmetic::power2::pow2(e) * 256 <= 0x1_0000_0000_0000_0000_0000_0000_0000_0000,
{
    vstd::arithmetic::power2::lemma_pow2_adds(e, 8);
    vstd::arithmetic::power2::lemma_pow2_adds(64, 64);
    vstd::arithmetic::power2::lemma2_to64();
    if e + 8 < 128 {
        vstd::arithmetic::power2::lemma_pow2_strictly_increases(e + 8, 128);
    }
}

proof fn lemma_be_value_bound(s: Seq<u8>)
    ensures
        spec_be_value(s) < vstd::arithmetic::power2::pow2(8 * s.len()),
    decreases s.len(),
{
    vstd::arithmetic::power2::lemma2_to64();
    if s.len() > 0 {
        lemma_be_value_bound(s.drop_last());
        vstd::arithmetic::power2::lemma_pow2_adds(8 * (s.len() - 1) as nat, 8);
        let p = vstd::arithmetic::power2::pow2(8 * (s.len() - 1) as nat);
        let v = spec_be_value(s.drop_last());
        assert(v * 256 + s.last() < p * 256) by (nonlinear_arith)
            requires
                v < p,
                s.last() < 256,
        ;
    }
}

/// The 32-bit value of an IPv4 address.
pub fn v4_value(ip: &[u8; 4]) -> (r: u32)
    ensures
        r == spec_v4_value(*ip),
{
    let v = be_value_prefix(ip.as_slice(), 4);
    proof {
        assert(ip@.take(4) =~= ip@);
        lemma_be_value_bound(ip@);
        vstd::arithmetic::power2::lemma2_to64();
    }
    v as u32
}

/// The 128-bit value of an IPv6 address.
pub fn v6_value(ip: &[u8; 16]) -> (r: u128)
    ensures
        r == spec_v6_value(*ip),
{
    let v = be_value_prefix(ip.as_slice(), 16);
    assert(ip@.take(16) =~= ip@);
    v
}

} // verus!
