use vpnapi_cli::address::{check_if_global_ip, check_if_valid_ip, classify, is_global, parse_ip, Classification, IpAddress};

fn octets(s: &str) -> Option<[u8; 4]> {
    match parse_ip(s) {
        Some(IpAddress::V4(o)) => Some(o),
        _ => None,
    }
}

fn segments(s: &str) -> Option<[u16; 8]> {
    match parse_ip(s) {
        Some(IpAddress::V6(g)) => Some(g),
        _ => None,
    }
}

#[test]
fn test_check_if_valid_ip() {
    let localhost_v4 = [127u8, 0, 0, 1];
    let localhost_v6 = [0u16, 0, 0, 0, 0, 0, 0, 1];

    assert_eq!(octets("127.0.0.1"), Some(localhost_v4));
    assert_eq!(segments("::1"), Some(localhost_v6));

    assert!(!matches!(parse_ip("127.0.0.1"), Some(IpAddress::V6(_))));
    assert!(matches!(parse_ip("127.0.0.1"), Some(IpAddress::V4(_))));
}

#[test]
fn invalid_strings_classify_invalid() {
    for s in [
        "abc", "", "1.2.3", "1.2.3.4.5", "256.1.1.1", "01.2.3.4", "1.2.3.4 ", " 1.2.3.4", "1..2.3",
        "1234.1.1.1", ":::", "1::2::3", "12345::", "::g", "1.2.3.4::", "1:2:3:4:5:6:7:8:9",
        "1:2:3:4:5:6:7::8", "::1.2.3", "config", "8.8.8.8/32", "١.2.3.4",
    ] {
        assert!(matches!(classify(s), Classification::Invalid), "{s}");
        assert!(!check_if_valid_ip(&s.to_string()), "{s}");
    }
}

#[test]
fn local_literals_classify_local() {
    for s in [
        "127.0.0.1", "::1", "10.0.0.5", "192.168.1.1", "172.16.0.1", "172.31.255.255",
        "169.254.1.1", "fe80::1", "fc00::1", "fd12:3456::1", "0.0.0.0", "::", "100.64.0.1",
        "192.0.2.1", "198.51.100.7", "203.0.113.9", "198.18.0.1", "240.0.0.1", "255.255.255.255",
        "2001:db8::1", "::ffff:8.8.8.8", "2002::1", "192.0.0.1", "ff02::1", "ff05::2", "ff01::1",
    ] {
        assert!(matches!(classify(s), Classification::Local), "{s}");
        assert!(check_if_valid_ip(&s.to_string()), "{s}");
        assert!(!check_if_global_ip(&s.to_string()), "{s}");
    }
}

#[test]
fn public_literals_classify_global() {
    assert!(matches!(classify("8.8.8.8"), Classification::Global(IpAddress::V4([8, 8, 8, 8]))));
    for s in ["8.8.8.8", "1.1.1.1", "172.32.0.1", "192.0.0.9", "2001:4860:4860::8888", "2606:4700::1111", "ff0e::1"] {
        assert!(matches!(classify(s), Classification::Global(_)), "{s}");
        assert!(check_if_global_ip(&s.to_string()), "{s}");
    }
}

#[test]
fn ipv6_forms() {
    assert_eq!(segments("::"), Some([0; 8]));
    assert_eq!(segments("1::"), Some([1, 0, 0, 0, 0, 0, 0, 0]));
    assert_eq!(segments("1:2:3:4:5:6:7::"), Some([1, 2, 3, 4, 5, 6, 7, 0]));
    assert_eq!(segments("::2:3:4:5:6:7:8"), Some([0, 2, 3, 4, 5, 6, 7, 8]));
    assert_eq!(segments("1:2:3:4:5:6:7:8"), Some([1, 2, 3, 4, 5, 6, 7, 8]));
    assert_eq!(segments("ABCD:ef01::0"), Some([0xabcd, 0xef01, 0, 0, 0, 0, 0, 0]));
    assert_eq!(segments("::ffff:1.2.3.4"), Some([0, 0, 0, 0, 0, 0xffff, 0x0102, 0x0304]));
    assert_eq!(segments("1:2:3:4:5:6:1.2.3.4"), Some([1, 2, 3, 4, 5, 6, 0x0102, 0x0304]));
    assert_eq!(segments("0001:0:0:0:0:0:0:0001"), Some([1, 0, 0, 0, 0, 0, 0, 1]));
}

#[test]
fn ipv4_edges() {
    assert_eq!(octets("0.0.0.0"), Some([0, 0, 0, 0]));
    assert_eq!(octets("255.255.255.255"), Some([255, 255, 255, 255]));
    assert_eq!(octets("1.20.255.0"), Some([1, 20, 255, 0]));
    assert_eq!(octets("1.2.3.04"), None);
}

#[test]
fn global_on_parsed_address() {
    assert!(is_global(&IpAddress::V4([8, 8, 4, 4])));
    assert!(!is_global(&IpAddress::V6([0xfe80, 0, 0, 0, 0, 0, 0, 1])));
}
