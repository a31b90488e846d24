use tinysocks::config::parse_allowlist_entry;
use tinysocks::net::{IpAddress, IpNetwork, SocketAddress};
use tinysocks::protocol::{bracket_ipv6, Address};

#[test]
fn outside_parsers_and_formatting() {
    let v6 = Address::V6([0x20, 0x01, 0x0d, 0xb8, 0, 0, 0, 0, 0, 0, 0, 0, 0, 0, 0, 1], 1);
    assert_eq!(v6.to_target_string(), "[2001:db8::1]:1");
    assert_eq!(bracket_ipv6("fe80::1"), "[fe80::1]");
    assert_eq!(bracket_ipv6("example.com"), "example.com");
    let n = parse_allowlist_entry("10.1.0.0/16").unwrap();
    assert_eq!((n.addr(), n.prefix_len()), (IpAddress::V4([10, 1, 0, 0]), 16));
    let h = parse_allowlist_entry("::2").unwrap();
    assert_eq!((h.addr(), h.prefix_len()), (IpAddress::V6([0, 0, 0, 0, 0, 0, 0, 0, 0, 0, 0, 0, 0, 0, 0, 2]), 128));
    assert!(parse_allowlist_entry("nope").is_none());
}

#[test]
fn networks_contain_their_addresses() {
    let n = IpNetwork::new(IpAddress::V4([192, 168, 7, 9]), 16).unwrap();
    assert!(n.contains(&IpAddress::V4([192, 168, 0, 0])));
    assert!(n.contains(&IpAddress::V4([192, 168, 255, 255])));
    assert!(!n.contains(&IpAddress::V4([192, 169, 0, 0])));
    assert!(!n.contains(&IpAddress::V6([0; 16])));
    let all = IpNetwork::new(IpAddress::V6([0xff; 16]), 0).unwrap();
    assert!(all.contains(&IpAddress::V6([0; 16])));
    let host = IpNetwork::new(IpAddress::V6([1; 16]), 128).unwrap();
    assert!(host.contains(&IpAddress::V6([1; 16])));
    assert!(!host.contains(&IpAddress::V6([2; 16])));
    assert!(IpNetwork::new(IpAddress::V4([0; 4]), 33).is_none());
    let a = SocketAddress { ip: IpAddress::V4([1, 2, 3, 4]), port: 5, flowinfo: 0, scope_id: 0 };
    assert!(a.same_as(&SocketAddress { ip: IpAddress::V4([1, 2, 3, 4]), port: 5, flowinfo: 0, scope_id: 0 }));
    assert!(!a.same_as(&SocketAddress { ip: IpAddress::V4([1, 2, 3, 4]), port: 6, flowinfo: 0, scope_id: 0 }));
}
