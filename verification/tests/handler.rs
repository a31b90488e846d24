use tinysocks::handler::{control_read_outcome, UdpRelay, UdpSource, MAX_UDP_REMOTE_ENDPOINTS};
use tinysocks::protocol::SocksError;
use tinysocks::net::{IpAddress, SocketAddress};
use tinysocks::protocol::{encode_udp_datagram, Address};

fn v4(a: [u8; 4], port: u16) -> SocketAddress {
    SocketAddress { ip: IpAddress::V4(a), port, flowinfo: 0, scope_id: 0 }
}

fn udp_datagram(target_port: u16, payload: &[u8]) -> Vec<u8> {
    encode_udp_datagram(&Address::V4([127, 0, 0, 1], target_port), payload).unwrap()
}

#[test]
fn client_udp_packet_sets_client_addr_on_first_call() {
    let mut relay = UdpRelay::new(IpAddress::V4([127, 0, 0, 1]));
    let source = v4([127, 0, 0, 1], 40002);
    assert_eq!(relay.classify(&source), UdpSource::Client);
    let packet = udp_datagram(12347, b"x");
    let d = relay.accept_client_packet(&packet, &source).expect("valid datagram");
    assert_eq!(d.destination, Address::V4([127, 0, 0, 1], 12347));
    assert_eq!(d.payload, b"x");
    assert_eq!(relay.client(), Some(source));
}

#[test]
fn client_udp_packet_ignores_fragment() {
    let mut relay = UdpRelay::new(IpAddress::V4([127, 0, 0, 1]));
    let mut fragment = udp_datagram(12346, b"data");
    fragment[2] = 0x80;
    assert!(relay.accept_client_packet(&fragment, &v4([127, 0, 0, 1], 40001)).is_none());
    assert_eq!(relay.client(), None);
    assert!(relay.accept_client_packet(&[1, 2], &v4([127, 0, 0, 1], 40001)).is_none());
    assert_eq!(relay.client(), None);
}

#[test]
fn client_udp_packet_adds_target_to_relayed() {
    let mut relay = UdpRelay::new(IpAddress::V4([127, 0, 0, 1]));
    let target = v4([127, 0, 0, 1], 12348);
    assert!(relay.admit_target(&target));
    assert!(relay.has_target(&target));
    assert_eq!(relay.target_count(), 1);
    assert!(relay.admit_target(&target));
    assert_eq!(relay.target_count(), 1);
}

#[test]
fn client_udp_packet_respects_max_remote_endpoints() {
    let mut relay = UdpRelay::new(IpAddress::V4([127, 0, 0, 1]));
    let base_port = 20000u16;
    for i in 0..MAX_UDP_REMOTE_ENDPOINTS {
        assert!(relay.admit_target(&v4([127, 0, 0, 1], base_port + i as u16)));
    }
    assert_eq!(relay.target_count(), MAX_UDP_REMOTE_ENDPOINTS);
    let extra = v4([127, 0, 0, 1], base_port + MAX_UDP_REMOTE_ENDPOINTS as u16);
    assert!(!relay.admit_target(&extra));
    assert_eq!(relay.target_count(), MAX_UDP_REMOTE_ENDPOINTS, "no new endpoint added");
    assert!(relay.admit_target(&v4([127, 0, 0, 1], base_port)), "known targets stay allowed");
}

#[test]
fn relay_locks_the_client_and_forwards_only_replies_from_targets() {
    let mut relay = UdpRelay::new(IpAddress::V4([127, 0, 0, 1]));
    let client = v4([127, 0, 0, 1], 5000);
    let same_ip_other_port = v4([127, 0, 0, 1], 5001);
    let stranger = v4([10, 0, 0, 9], 53);
    let target = v4([8, 8, 8, 8], 53);
    assert_eq!(relay.classify(&stranger), UdpSource::Drop);
    assert_eq!(relay.classify(&target), UdpSource::Drop);
    let packet = udp_datagram(53, b"q");
    relay.accept_client_packet(&packet, &client).unwrap();
    assert!(relay.admit_target(&target));
    assert_eq!(relay.classify(&client), UdpSource::Client);
    assert_eq!(relay.classify(&same_ip_other_port), UdpSource::Drop);
    assert_eq!(relay.classify(&target), UdpSource::Reply(client));
    assert_eq!(relay.classify(&stranger), UdpSource::Drop);
    relay.accept_client_packet(&packet, &same_ip_other_port);
    assert_eq!(relay.client(), Some(client), "the lock never moves");
}

#[test]
fn relay_tells_ipv6_scopes_apart() {
    let ip = [0xfe, 0x80, 0, 0, 0, 0, 0, 0, 0, 0, 0, 0, 0, 0, 0, 1];
    let mut relay = UdpRelay::new(IpAddress::V6(ip));
    let client = SocketAddress { ip: IpAddress::V6(ip), port: 7000, flowinfo: 0, scope_id: 1 };
    let other_scope = SocketAddress { scope_id: 2, ..client };
    let packet = udp_datagram(53, b"q");
    relay.accept_client_packet(&packet, &client).unwrap();
    assert_eq!(relay.classify(&client), UdpSource::Client);
    assert_eq!(relay.classify(&other_scope), UdpSource::Drop);
    let target = SocketAddress { port: 53, ..client };
    assert!(relay.admit_target(&target));
    assert!(!relay.has_target(&SocketAddress { flowinfo: 9, ..target }));
}

#[test]
fn control_reads_end_the_association() {
    assert_eq!(control_read_outcome(0), Ok(()));
    assert_eq!(control_read_outcome(1), Err(SocksError::UnexpectedTcpDataDuringUdpAssociate));
}
