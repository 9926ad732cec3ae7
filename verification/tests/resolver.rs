//! Tests for the identity resolver: parsing, canonicalization, stability.

use edge_geo::ip::{parse_ip, resolve_client_ip, IpAddress, Ipv4, Ipv6};

fn canonical(s: &str) -> Option<String> {
    resolve_client_ip(Some(s))
}

#[test]
fn resolves_dotted_quad() {
    assert_eq!(canonical("203.0.113.7"), Some(String::from("203.0.113.7")));
    assert_eq!(canonical("0.0.0.0"), Some(String::from("0.0.0.0")));
    assert_eq!(canonical("255.255.255.255"), Some(String::from("255.255.255.255")));
    assert_eq!(canonical("192.168.0.1"), Some(String::from("192.168.0.1")));
}

#[test]
fn parses_dotted_quad_octets() {
    match parse_ip("203.0.113.7") {
        Some(IpAddress::V4(Ipv4 { o0, o1, o2, o3 })) => {
            assert_eq!((o0, o1, o2, o3), (203, 0, 113, 7));
        }
        other => panic!("expected a v4 address, got {:?}", other),
    }
}

#[test]
fn rejects_malformed_dotted_quads() {
    assert_eq!(canonical("999.999.999.999"), None);
    assert_eq!(canonical("256.0.0.1"), None);
    assert_eq!(canonical("1.2.3"), None);
    assert_eq!(canonical("1.2.3.4.5"), None);
    assert_eq!(canonical("01.2.3.4"), None);
    assert_eq!(canonical("1.2.3.04"), None);
    assert_eq!(canonical("1..2.3"), None);
    assert_eq!(canonical("1.2.3.4 "), None);
    assert_eq!(canonical(" 1.2.3.4"), None);
    assert_eq!(canonical("1.2.3.-4"), None);
}

#[test]
fn rejects_non_addresses() {
    assert_eq!(canonical("not-an-ip"), None);
    assert_eq!(canonical(""), None);
    assert_eq!(canonical("localhost"), None);
    assert_eq!(canonical("203.0.113.7,203.0.113.8"), None);
}

#[test]
fn absent_header_resolves_nothing() {
    assert_eq!(resolve_client_ip(None), None);
}

#[test]
fn resolves_ipv6_loopback() {
    assert_eq!(canonical("::1"), Some(String::from("0:0:0:0:0:0:0:1")));
    assert_eq!(canonical("::"), Some(String::from("0:0:0:0:0:0:0:0")));
}

#[test]
fn resolves_ipv6_forms() {
    assert_eq!(
        canonical("2001:db8::8a2e:370:7334"),
        Some(String::from("2001:db8:0:0:0:8a2e:370:7334"))
    );
    assert_eq!(canonical("2001:DB8::1"), Some(String::from("2001:db8:0:0:0:0:0:1")));
    assert_eq!(canonical("1:2:3:4:5:6:7:8"), Some(String::from("1:2:3:4:5:6:7:8")));
    assert_eq!(canonical("0001:0:0:0:0:0:0:1"), Some(String::from("1:0:0:0:0:0:0:1")));
    assert_eq!(canonical("fe80::"), Some(String::from("fe80:0:0:0:0:0:0:0")));
    assert_eq!(canonical("::ffff:192.0.2.128"), Some(String::from("0:0:0:0:0:ffff:c000:280")));
    assert_eq!(canonical("1:2:3:4:5:6:1.2.3.4"), Some(String::from("1:2:3:4:5:6:102:304")));
}

#[test]
fn parses_ipv6_groups() {
    match parse_ip("2001:db8::1") {
        Some(IpAddress::V6(Ipv6 { g0, g1, g2, g3, g4, g5, g6, g7 })) => {
            assert_eq!(
                (g0, g1, g2, g3, g4, g5, g6, g7),
                (0x2001, 0xdb8, 0, 0, 0, 0, 0, 1)
            );
        }
        other => panic!("expected a v6 address, got {:?}", other),
    }
}

#[test]
fn rejects_malformed_ipv6() {
    assert_eq!(canonical(":::"), None);
    assert_eq!(canonical("1::2::3"), None);
    assert_eq!(canonical("12345::"), None);
    assert_eq!(canonical("g::1"), None);
    assert_eq!(canonical("1:2:3:4:5:6:7"), None);
    assert_eq!(canonical("1:2:3:4:5:6:7:8:9"), None);
    assert_eq!(canonical("1:2:3:4:5:6:7:8::"), None);
    assert_eq!(canonical("::1:2:3:4:5:6:7:8"), None);
    assert_eq!(canonical("1.2.3.4::"), None);
    assert_eq!(canonical(":1:2:3:4:5:6:7"), None);
    assert_eq!(canonical("1::2:"), None);
    assert_eq!(canonical("fe80::1%eth0"), None);
    assert_eq!(canonical("1:2"), None);
}

#[test]
fn canonicalization_is_stable() {
    let inputs = [
        "203.0.113.7",
        "0.0.0.0",
        "2001:DB8::8A2E:370:7334",
        "::1",
        "::ffff:192.0.2.128",
        "0001:0002:0003:0004:0005:0006:0007:0008",
    ];
    for input in inputs.iter() {
        let once = canonical(input).expect("input is a valid address");
        let twice = canonical(&once).expect("canonical form is a valid address");
        assert_eq!(once, twice);
        let thrice = canonical(&twice).expect("canonical form stays valid");
        assert_eq!(twice, thrice);
    }
}
