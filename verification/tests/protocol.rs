use tinysocks::net::{IpAddress, SocketAddress};
use tinysocks::protocol::{
    address_encoded_len, encode_udp_datagram, handshake_step, parse_address_bytes, parse_udp_datagram,
    reply_bytes, request_step, write_address, Address, AuthMethod, Command, HandshakeStep, RequestStep,
    SocksError, SOCKS_NO_ACCEPTABLE_METHOD,
};

#[test]
fn udp_datagram_round_trips_ipv6_destination() {
    let destination = Address::V6([0x20, 0x01, 0x0d, 0xb8, 0, 0, 0, 0, 0, 0, 0, 0, 0, 0, 0, 1], 5353);
    let packet = encode_udp_datagram(&destination, b"hello").unwrap();
    let decoded = parse_udp_datagram(&packet).unwrap().unwrap();

    assert_eq!(decoded.destination, destination);
    assert_eq!(decoded.payload, b"hello");
}

#[test]
fn udp_datagram_drops_fragments() {
    let packet = [0, 0, 1, 1, 127, 0, 0, 1, 0, 53, b'x'];

    assert!(parse_udp_datagram(&packet).unwrap().is_none());
}

#[test]
fn address_port_ipv4() {
    let addr = Address::V4([127, 0, 0, 1], 8080);
    assert_eq!(addr.port(), 8080);
}

#[test]
fn address_port_ipv6() {
    let addr = Address::V6([0x20; 16], 443);
    assert_eq!(addr.port(), 443);
}

#[test]
fn address_port_domain() {
    let addr = Address::Domain("example.com".to_string(), 8080);
    assert_eq!(addr.port(), 8080);
}

#[test]
fn address_to_target_string_ipv4() {
    let addr = Address::V4([192, 168, 1, 1], 8080);
    assert_eq!(addr.to_target_string(), "192.168.1.1:8080");
}

#[test]
fn address_to_target_string_ipv6() {
    let addr = Address::V6([0x20, 0x01, 0x0d, 0xb8, 0, 0, 0, 0, 0, 0, 0, 0, 0, 0, 0, 1], 443);
    assert_eq!(addr.to_target_string(), "[2001:db8::1]:443");
}

#[test]
fn address_to_target_string_domain() {
    let addr = Address::Domain("example.com".to_string(), 443);
    assert_eq!(addr.to_target_string(), "example.com:443");
}

#[test]
fn udp_datagram_rejects_too_short() {
    assert!(parse_udp_datagram(&[0, 0]).is_err());
    assert!(parse_udp_datagram(&[]).is_err());
}

#[test]
fn udp_datagram_rejects_nonzero_rsv() {
    let packet = [1, 0, 0, 1, 127, 0, 0, 1, 0, 53, b'x'];
    assert!(parse_udp_datagram(&packet).is_err());
    let packet = [0, 1, 0, 1, 127, 0, 0, 1, 0, 53, b'x'];
    assert!(parse_udp_datagram(&packet).is_err());
}

#[test]
fn udp_datagram_parses_ipv4_destination() {
    let packet = [0, 0, 0, 1, 10, 0, 0, 1, 0, 80, b'h', b'e', b'l', b'l', b'o'];
    let decoded = parse_udp_datagram(&packet).unwrap().unwrap();
    assert_eq!(decoded.destination, Address::V4([10, 0, 0, 1], 80));
    assert_eq!(decoded.payload, b"hello");
}

#[test]
fn udp_datagram_parses_domain_destination() {
    let packet = [
        0, 0, 0, 3, 11, b'e', b'x', b'a', b'm', b'p', b'l', b'e', b'.', b'c', b'o', b'm', 0, 80, b'd',
        b'a', b't', b'a',
    ];
    let decoded = parse_udp_datagram(&packet).unwrap().unwrap();
    assert_eq!(decoded.destination, Address::Domain("example.com".to_string(), 80));
    assert_eq!(decoded.payload, b"data");
}

#[test]
fn udp_datagram_rejects_invalid_address_type() {
    let packet = [0, 0, 0, 0xFF, 0, 0];
    assert!(parse_udp_datagram(&packet).is_err());
}

#[test]
fn udp_datagram_rejects_zero_length_domain() {
    let packet = [0, 0, 0, 3, 0, 0, 80, b'd'];
    assert!(parse_udp_datagram(&packet).is_err());
}

#[test]
fn encode_udp_datagram_domain_address() {
    let addr = Address::Domain("example.com".to_string(), 80);
    let packet = encode_udp_datagram(&addr, b"hello").unwrap();
    assert_eq!(packet[0], 0);
    assert_eq!(packet[1], 0);
    assert_eq!(packet[2], 0);
    assert_eq!(packet[3], 3); // ATYP domain
    assert_eq!(packet[4], 11); // length
    assert_eq!(&packet[5..16], b"example.com");
    assert_eq!(u16::from_be_bytes([packet[16], packet[17]]), 80);
    assert_eq!(&packet[18..], b"hello");
}

#[test]
fn udp_datagram_parses_ipv6_destination() {
    let mut packet = vec![0, 0, 0, 4]; // RSV+FRAG = 0,0,0, ATYP=IPv6
    packet.extend_from_slice(&[0x20, 0x01, 0x0d, 0xb8, 0, 0, 0, 0, 0, 0, 0, 0, 0, 0, 0, 1]);
    packet.extend_from_slice(&443u16.to_be_bytes());
    packet.extend_from_slice(b"tls");

    let decoded = parse_udp_datagram(&packet).unwrap().unwrap();
    assert_eq!(
        decoded.destination,
        Address::V6([0x20, 0x01, 0x0d, 0xb8, 0, 0, 0, 0, 0, 0, 0, 0, 0, 0, 0, 1], 443)
    );
    assert_eq!(decoded.payload, b"tls");
}

// The request and handshake decisions over the bytes read so far.

fn complete(buf: &[u8]) -> Command {
    match request_step(buf) {
        RequestStep::Complete(req) => req.cmd,
        _ => panic!("expected a complete request"),
    }
}

#[test]
fn request_step_reads_ipv6_connect() {
    let mut request = vec![0x05, 0x01, 0x00, 0x04];
    request.extend_from_slice(&[0x20, 0x01, 0x0d, 0xb8, 0, 0, 0, 0, 0, 0, 0, 0, 0, 0, 0, 1]);
    request.extend_from_slice(&443u16.to_be_bytes());
    match complete(&request) {
        Command::Connect(Address::V6(ip, port)) => {
            assert_eq!(ip, [0x20, 0x01, 0x0d, 0xb8, 0, 0, 0, 0, 0, 0, 0, 0, 0, 0, 0, 1]);
            assert_eq!(port, 443);
        }
        other => panic!("unexpected command: {other:?}"),
    }
}

#[test]
fn request_step_reads_udp_associate_and_domain_connect() {
    match complete(&[0x05, 0x03, 0x00, 0x01, 0, 0, 0, 0, 0, 0]) {
        Command::UdpAssociate(Address::V4(ip, port)) => {
            assert_eq!(ip, [0, 0, 0, 0]);
            assert_eq!(port, 0);
        }
        other => panic!("unexpected command: {other:?}"),
    }
    let mut request = vec![0x05, 0x01, 0x00, 0x03, 11];
    request.extend_from_slice(b"example.com");
    request.extend_from_slice(&80u16.to_be_bytes());
    match complete(&request) {
        Command::Connect(Address::Domain(domain, port)) => {
            assert_eq!(domain, "example.com");
            assert_eq!(port, 80);
        }
        other => panic!("unexpected command: {other:?}"),
    }
}

#[test]
fn request_step_refuses_bad_requests() {
    let invalid = |buf: &[u8]| match request_step(buf) {
        RequestStep::Invalid(e) => e,
        _ => panic!("expected a refusal"),
    };
    assert_eq!(invalid(&[0x04, 0x01, 0x00, 0x01, 127, 0, 0, 1, 0, 80]), SocksError::InvalidProtocol);
    assert_eq!(invalid(&[0x05, 0x01, 0xFF, 0x01, 127, 0, 0, 1, 0, 80]), SocksError::InvalidProtocol);
    assert_eq!(invalid(&[0x05, 0x02, 0x00, 0x01, 127, 0, 0, 1, 0, 80]), SocksError::UnsupportedCommand);
    assert_eq!(invalid(&[0x05, 0x01, 0x00, 0xFF, 127, 0, 0, 1, 0, 80]), SocksError::InvalidProtocol);
    assert_eq!(invalid(&[0x05, 0x01, 0x00, 0x03, 0x00, 0x00, 0x50]), SocksError::InvalidProtocol);
}

#[test]
fn request_step_asks_for_missing_bytes() {
    assert!(matches!(request_step(&[0x05]), RequestStep::NeedBytes(4)));
    assert!(matches!(request_step(&[0x05, 0x01, 0x00, 0x01, 1]), RequestStep::NeedBytes(10)));
    assert!(matches!(request_step(&[0x05, 0x01, 0x00, 0x03]), RequestStep::NeedBytes(5)));
    assert!(matches!(request_step(&[0x05, 0x01, 0x00, 0x03, 3, b'a']), RequestStep::NeedBytes(10)));
    assert!(matches!(request_step(&[0x05, 0x01, 0x00, 0x04]), RequestStep::NeedBytes(22)));
}

#[test]
fn handshake_step_decides_the_method() {
    assert_eq!(handshake_step(&[0x04, 0x01, 0x00], AuthMethod::NoAuth), HandshakeStep::Invalid(SocksError::InvalidProtocol));
    assert_eq!(
        handshake_step(&[0x05, 0x01, 0x00], AuthMethod::UsernamePassword),
        HandshakeStep::Reply { method: SOCKS_NO_ACCEPTABLE_METHOD, accepted: false }
    );
    assert_eq!(
        handshake_step(&[0x05, 0x02, 0x00, 0x02], AuthMethod::UsernamePassword),
        HandshakeStep::Reply { method: 0x02, accepted: true }
    );
    assert_eq!(handshake_step(&[0x05, 0x01, 0x00], AuthMethod::NoAuth), HandshakeStep::Reply { method: 0x00, accepted: true });
    assert_eq!(handshake_step(&[0x05], AuthMethod::NoAuth), HandshakeStep::NeedBytes(2));
    assert_eq!(handshake_step(&[0x05, 0x03, 0x00], AuthMethod::NoAuth), HandshakeStep::NeedBytes(5));
}

#[test]
fn auth_method_bytes() {
    assert_eq!(AuthMethod::NoAuth.as_byte(), 0x00);
    assert_eq!(AuthMethod::UsernamePassword.as_byte(), 0x02);
}

#[test]
fn reply_and_address_encoding() {
    let bound = Address::V4([127, 0, 0, 1], 1080);
    assert_eq!(reply_bytes(0x00, &bound).unwrap(), vec![5, 0, 0, 1, 127, 0, 0, 1, 0x04, 0x38]);
    assert_eq!(address_encoded_len(&bound), 7);
    assert_eq!(address_encoded_len(&Address::V6([0; 16], 1)), 19);
    assert_eq!(address_encoded_len(&Address::Domain("ab".to_string(), 1)), 6);
    let mut out = vec![9];
    write_address(&mut out, &Address::Domain("ab".to_string(), 258)).unwrap();
    assert_eq!(out, vec![9, 3, 2, b'a', b'b', 1, 2]);
    let long = Address::Domain("x".repeat(256), 1);
    assert_eq!(encode_udp_datagram(&long, b"p"), Err(SocksError::DomainTooLong));
    assert_eq!(reply_bytes(0, &long), Err(SocksError::DomainTooLong));
    let (a, n) = parse_address_bytes(&[3, 2, b'a', b'b', 0, 80, 0xAA]).unwrap();
    assert_eq!(a, Address::Domain("ab".to_string(), 80));
    assert_eq!(n, 6);
    assert!(parse_address_bytes(&[1, 1, 2]).is_err());
}

#[test]
fn address_from_socket_addr() {
    let v4 = SocketAddress { ip: IpAddress::V4([10, 1, 2, 3]), port: 9, flowinfo: 0, scope_id: 0 };
    assert_eq!(Address::from_socket_addr(v4), Address::V4([10, 1, 2, 3], 9));
    let v6 = SocketAddress { ip: IpAddress::V6([0; 16]), port: 8080, flowinfo: 0, scope_id: 0 };
    assert_eq!(Address::from_socket_addr(v6).to_target_string(), "[::]:8080");
}
