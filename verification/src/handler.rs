//! The decisions of the SOCKS5 UDP relay: which datagrams come from the
//! client, which are replies from targets the client contacted, which are
//! dropped, and which targets the relay may send to.

use vstd::prelude::*;

use crate::net::{IpAddress, SocketAddress};
use crate::protocol::{parse_udp_datagram, spec_parse_udp, AddressView, SocksError, UdpDatagram};

verus! {

/// The buffer size for each direction of a relayed TCP stream.
pub const TCP_COPY_BUFFER: usize = 64 * 1024;

/// The largest UDP datagram the relay receives.
pub const UDP_BUFFER_SIZE: usize = 65_535;

/// The most distinct targets one UDP association may send to.
pub const MAX_UDP_REMOTE_ENDPOINTS: usize = 1024;

/// The state of one UDP association: the IP address of the TCP control
/// connection's peer, the client's UDP address once the first valid
/// datagram has locked it, and the targets the client has sent to.
pub struct UdpRelay {
    peer_ip: IpAddress,
    client: Option<SocketAddress>,
    targets: Vec<SocketAddress>,
}

/// A UDP association as plain values.
pub struct UdpRelayView {
    pub peer_ip: IpAddress,
    pub client: Option<SocketAddress>,
    pub targets: Set<SocketAddress>,
}

impl View for UdpRelay {
    type V = UdpRelayView;

    closed spec fn view(&self) -> UdpRelayView {
        UdpRelayView { peer_ip: self.peer_ip, client: self.client, targets: self.targets@.to_set() }
    }
}

/// Where a datagram that arrived at the relay goes.
#[derive(Clone, Copy, Debug, PartialEq, Eq)]
pub enum UdpSource {
    /// From the client: unwrap it and send it on to its target.
    Client,
    /// A reply from a target the client contacted: wrap it and send it to
    /// this client address.
    Reply(SocketAddress),
    /// Anything else is dropped.
    Drop,
}

/// Where a datagram from `source` goes: from the locked client address, or
/// before any lock from the control connection's IP, it is the client's;
/// after the lock, from a target the client has sent to, it is a reply;
/// else it is dropped.
pub open spec fn spec_classify(v: UdpRelayView, source: SocketAddress) -> UdpSource {
    if v.client == Some(source) {
        UdpSource::Client
    } else if v.client is None && source.ip == v.peer_ip {
        UdpSource::Client
    } else if v.client is Some && v.targets.contains(source) {
        UdpSource::Reply(v.client->0)
    } else {
        UdpSource::Drop
    }
}

/// The association after a datagram from the client was read: the first
/// one that is a whole, valid SOCKS5 UDP datagram locks the client address.
pub open spec fn spec_after_client_packet(v: UdpRelayView, packet: Seq<u8>, source: SocketAddress) -> UdpRelayView {
    if v.client is None && spec_parse_udp(packet) matches Ok(Some(_)) {
        UdpRelayView { client: Some(source), ..v }
    } else {
        v
    }
}

/// Whether the client may send to `target`: it has before, or fewer than
/// the limit of targets are known.
pub open spec fn spec_admits(v: UdpRelayView, target: SocketAddress) -> bool {
    v.targets.contains(target) || v.targets.len() < MAX_UDP_REMOTE_ENDPOINTS
}

/// The association after the client asked to send to `target`.
pub open spec fn spec_after_admit(v: UdpRelayView, target: SocketAddress) -> UdpRelayView {
    if spec_admits(v, target) {
        UdpRelayView { targets: v.targets.insert(target), ..v }
    } else {
        v
    }
}

/// An association's target set is finite and within the limit.
pub open spec fn spec_relay_bounded(v: UdpRelayView) -> bool {
    v.targets.finite() && v.targets.len() <= MAX_UDP_REMOTE_ENDPOINTS
}

impl UdpRelay {
    #[verifier::type_invariant]
    spec fn inv(self) -> bool {
        &&& self.targets@.no_duplicates()
        &&& self.targets@.len() <= MAX_UDP_REMOTE_ENDPOINTS
    }

    /// A new association for a control connection from `peer_ip`: no client
    /// address locked, no targets.
    pub fn new(peer_ip: IpAddress) -> (r: UdpRelay)
        ensures
            r@.peer_ip == peer_ip,
            r@.client is None,
            r@.targets == Set::<SocketAddress>::empty(),
    {
        let r = UdpRelay { peer_ip, client: None, targets: Vec::new() };
        assert(r.targets@.to_set() =~= Set::<SocketAddress>::empty());
        r
    }

    /// The client address, once locked.
    pub fn client(&self) -> (r: Option<SocketAddress>)
        ensures
            r == self@.client,
    {
        self.client
    }

    /// The number of targets the client has sent to.
    pub fn target_count(&self) -> (r: usize)
        ensures
            r == self@.targets.len(),
            spec_relay_bounded(self@),
    {
        proof {
            use_type_invariant(self);
            self.targets@.unique_seq_to_set();
        }
        self.targets.len()
    }

    /// Whether the client has sent to `target`.
    pub fn has_target(&self, target: &SocketAddress) -> (r: bool)
        ensures
            r == self@.targets.contains(*target),
    {
        let mut i: usize = 0;
        while i < self.targets.len()
            invariant
                i <= self.targets@.len(),
                forall|k: int| 0 <= k < i ==> self.targets@[k] != *target,
            decreases self.targets@.len() - i,
        {
            if self.targets[i].same_as(target) {
                assert(self.targets@.to_set().contains(self.targets@[i as int]));
                return true;
            }
            i = i + 1;
        }
        assert(!self.targets@.contains(*target));
        false
    }

    /// Where a datagram that arrived from `source` goes.
    pub fn classify(&self, source: &SocketAddress) -> (r: UdpSource)
        ensures
            r == spec_classify(self@, *source),
    {
        match self.client {
            Some(c) => {
                if c.same_as(source) {
                    UdpSource::Client
                } else if self.has_target(source) {
                    UdpSource::Reply(c)
                } else {
                    UdpSource::Drop
                }
            },
            None => {
                if source.ip.same_as(&self.peer_ip) {
                    UdpSource::Client
                } else {
                    UdpSource::Drop
                }
            },
        }
    }

    /// Reads a datagram from the client at `source`: a whole, valid SOCKS5
    /// UDP datagram gives its destination and payload (and the first one
    /// locks the client address); a fragment or a malformed datagram is
    /// dropped.
    pub fn accept_client_packet<'a>(&mut self, packet: &'a [u8], source: &SocketAddress) -> (r:
        Option<UdpDatagram<'a>>)
        ensures
            final(self)@ == spec_after_client_packet(old(self)@, packet@, *source),
            r matches Some(d) ==> spec_parse_udp(packet@) == Ok::<
                Option<(AddressView, Seq<u8>)>,
                crate::protocol::SocksError,
            >(Some((d.destination@, d.payload@))),
            r is None <==> !(spec_parse_udp(packet@) matches Ok(Some(_))),
    {
        proof {
            use_type_invariant(&*self);
        }
        match parse_udp_datagram(packet) {
            Ok(Some(d)) => {
                if self.client.is_none() {
                    self.client = Some(*source);
                }
                Some(d)
            },
            _ => None,
        }
    }

    /// Asks to send to `target`: allowed when the client has sent there
    /// before or fewer than the limit of targets are known, and the target is
    /// then remembered.
    pub fn admit_target(&mut self, target: &SocketAddress) -> (r: bool)
        ensures
            r == spec_admits(old(self)@, *target),
            final(self)@ == spec_after_admit(old(self)@, *target),
    {
        proof {
            use_type_invariant(&*self);
            self.targets@.unique_seq_to_set();
        }
        if self.has_target(target) {
            assert(self@.targets.insert(*target) =~= self@.targets);
            return true;
        }
        if self.targets.len() >= MAX_UDP_REMOTE_ENDPOINTS {
            return false;
        }
        let ghost before = self.targets@;
        let mut targets = Vec::new();
        std::mem::swap(&mut targets, &mut self.targets);
        targets.push(*target);
        assert(targets@ == before.push(*target));
        proof {
            before.lemma_push_to_set_commute(*target);
        }
        self.targets = targets;
        true
    }
}

/// What a read of the control connection means while the association
/// lasts: the client closing it (nothing read) ends the relay normally;
/// any byte it sends ends it with an error.
pub fn control_read_outcome(read: usize) -> (r: Result<(), SocksError>)
    ensures
        read == 0 ==> r == Ok::<(), SocksError>(()),
        read > 0 ==> r == Err::<(), SocksError>(SocksError::UnexpectedTcpDataDuringUdpAssociate),
{
    if read == 0 {
        Ok(())
    } else {
        Err(SocksError::UnexpectedTcpDataDuringUdpAssociate)
    }
}

/// Law: once the client address is locked it never changes, whatever
/// datagrams arrive and whatever targets are asked for.
pub proof fn lemma_client_lock_is_permanent(
    v: UdpRelayView,
    packet: Seq<u8>,
    source: SocketAddress,
    target: SocketAddress,
)
    requires
        v.client is Some,
    ensures
        spec_after_client_packet(v, packet, source).client == v.client,
        spec_after_admit(v, target).client == v.client,
{
}

/// Law: the first valid datagram from the control connection's IP locks
/// that exact address; afterwards a datagram from another port of the same
/// IP is not taken as the client's.
pub proof fn lemma_first_datagram_locks_client(
    v: UdpRelayView,
    packet: Seq<u8>,
    source: SocketAddress,
    other: SocketAddress,
)
    requires
        v.client is None,
        spec_classify(v, source) == UdpSource::Client,
        spec_parse_udp(packet) matches Ok(Some(_)),
        other != source,
        !v.targets.contains(other),
    ensures
        spec_after_client_packet(v, packet, source).client == Some(source),
        spec_classify(spec_after_client_packet(v, packet, source), source) == UdpSource::Client,
        spec_classify(spec_after_client_packet(v, packet, source), other) == UdpSource::Drop,
{
}

/// Law: a datagram is relayed back to the client only when it comes from a
/// target the client has sent to, and only after the client is locked.
pub proof fn lemma_replies_only_from_contacted_targets(v: UdpRelayView, source: SocketAddress)
    requires
        spec_classify(v, source) is Reply,
    ensures
        v.targets.contains(source),
        v.client is Some,
        spec_classify(v, source) == UdpSource::Reply(v.client->0),
{
}

/// Law: the set of targets only grows, and never beyond the limit.
pub proof fn lemma_targets_grow_within_limit(v: UdpRelayView, target: SocketAddress)
    requires
        spec_relay_bounded(v),
    ensures
        spec_relay_bounded(spec_after_admit(v, target)),
        v.targets.subset_of(spec_after_admit(v, target).targets),
        spec_admits(v, target) ==> spec_after_admit(v, target).targets.contains(target),
{
}

} // verus!
