use vpnapi_cli::address::{address_text, parse_ip, IpAddress};
use vpnapi_cli::cli::{
    check_key, first_step, get_api_key, key_to_store, request_url, trimmed, KeyError, Step,
};

#[test]
fn invalid_address_stops_before_lookup() {
    match first_step(&"abc".to_string()) {
        Step::Stop(m) => assert_eq!(m, "Invalid IP"),
        other => panic!("{other:?}"),
    }
}

#[test]
fn local_address_stops_before_lookup() {
    match first_step(&"127.0.0.1".to_string()) {
        Step::Stop(m) => assert_eq!(m, "Not global IP"),
        other => panic!("{other:?}"),
    }
}

#[test]
fn global_address_goes_on() {
    assert!(matches!(first_step(&"8.8.8.8".to_string()), Step::Lookup(IpAddress::V4([8, 8, 8, 8]))));
    assert!(matches!(first_step(&"config".to_string()), Step::StoreKey));
}

#[test]
fn missing_key_file_is_reported() {
    let r = get_api_key(&String::new(), None);
    assert_eq!(r, Err(KeyError::Unreadable));
    assert_eq!(
        KeyError::Unreadable.message(),
        "Unable to read key file, try running `vpnapi-cli config` or entering `-k <your key>`"
    );
}

#[test]
fn explicit_key_wins_over_stored() {
    assert_eq!(get_api_key(&"abc".to_string(), Some("stored".to_string())), Ok("abc".to_string()));
    assert_eq!(get_api_key(&"abc".to_string(), None), Ok("abc".to_string()));
}

#[test]
fn stored_key_is_trimmed() {
    assert_eq!(get_api_key(&String::new(), Some("  k3y \n".to_string())), Ok("k3y".to_string()));
    assert_eq!(get_api_key(&String::new(), Some(" \n".to_string())), Ok(String::new()));
    assert_eq!(check_key(&String::new()), Err(KeyError::Missing));
    assert_eq!(check_key(&"k3y".to_string()), Ok(()));
    assert_eq!(KeyError::Missing.message(), "You need to enter or set a key");
    assert_eq!(key_to_store("\tnew-key \r\n"), "new-key");
}

#[test]
fn url_is_concatenated() {
    let v4 = parse_ip("8.8.8.8").unwrap();
    assert_eq!(request_url(&v4, "k&y"), "https://vpnapi.io/api/8.8.8.8?key=k&y");
    let v6 = parse_ip("2001:4860:4860:0:0:0:0:8888").unwrap();
    assert_eq!(request_url(&v6, "abc"), "https://vpnapi.io/api/2001:4860:4860::8888?key=abc");
    assert_eq!(request_url(&parse_ip("::1").unwrap(), ""), "https://vpnapi.io/api/::1?key=");
}

fn canonical(s: &str) -> String {
    address_text(&parse_ip(s).unwrap())
}

#[test]
fn canonical_address_text() {
    assert_eq!(canonical("8.8.8.8"), "8.8.8.8");
    assert_eq!(canonical("255.0.10.100"), "255.0.10.100");
    assert_eq!(canonical("0:0:0:0:0:0:0:0"), "::");
    assert_eq!(canonical("0:0:0:0:0:0:0:1"), "::1");
    assert_eq!(canonical("1:0:0:0:0:0:0:0"), "1::");
    assert_eq!(canonical("1:0:0:2:0:0:0:3"), "1:0:0:2::3");
    assert_eq!(canonical("1:0:0:2:0:0:3:4"), "1::2:0:0:3:4");
    assert_eq!(canonical("1:2:3:4:5:6:7:0"), "1:2:3:4:5:6:7:0");
    assert_eq!(canonical("ABCD:00EF::0001"), "abcd:ef::1");
    assert_eq!(canonical("::ffff:1.2.3.4"), "::ffff:1.2.3.4");
    assert_eq!(canonical("2606:4700:0:0:0:0:0:1111"), "2606:4700::1111");
}

#[test]
fn trim_matches_std() {
    for x in [
        "", " ", "abc", "  abc  ", "\t\n\r\u{b}\u{c}key\n", "\u{85}\u{a0}k e y\u{1680}",
        "\u{2000}\u{200a}\u{2028}\u{2029}\u{202f}\u{205f}\u{3000}x\u{3000}", "\u{200b}x\u{200b}",
    ] {
        assert_eq!(trimmed(x), x.trim(), "{x:?}");
        assert_eq!(trimmed(&trimmed(x)), trimmed(x));
    }
}

#[test]
fn stored_key_reads_back_trimmed() {
    let stored = key_to_store("  my-key \n");
    assert_eq!(get_api_key(&String::new(), Some(stored)), Ok("my-key".to_string()));
}

#[test]
fn blank_stored_key_is_empty_then_missing() {
    let stored = key_to_store("   \n");
    let key = get_api_key(&String::new(), Some(stored)).unwrap();
    assert_eq!(key, "");
    assert_eq!(check_key(&key), Err(KeyError::Missing));
}
