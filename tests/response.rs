use vpnapi_cli::cli::{render, report, Report};
use vpnapi_cli::lookup::{decode_body, json_text, DecodeError};

#[test]
fn round_trip_keeps_unknown_and_drops_absent() {
    let body = r#"{"ip":"8.8.8.8","security":{"vpn":false,"proxy":true,"tor":null},"network":null,"extra":[1,{"a":2}],"zeta":"z"}"#;
    let out = render(body, false).unwrap();
    assert_eq!(
        out,
        r#"{"ip":"8.8.8.8","security":{"vpn":false,"proxy":true},"extra":[1,{"a":2}],"zeta":"z"}"#
    );
    assert!(!out.contains("null"));
}

#[test]
fn unknown_entries_keep_their_order() {
    let body = r#"{"zz":1,"ip":"1.1.1.1","aa":2,"mm":{"x":null}}"#;
    assert_eq!(render(body, false).unwrap(), r#"{"ip":"1.1.1.1","zz":1,"aa":2,"mm":{"x":null}}"#);
}

#[test]
fn full_record_round_trip() {
    let body = r#"{"ip":"8.8.8.8","security":{"vpn":false,"proxy":false,"tor":false,"relay":false},"location":{"city":"Mountain View","region":"California","country":"United States","continent":"North America","region_code":"CA","continent_code":"NA","latitude":"37.4","longitude":"-122.0","time_zone":"America/Los_Angeles","locale_code":"en","metro_code":"807","is_in_european_union":false},"network":{"network":"8.8.8.0/24","autonomous_system_number":"AS15169","autonomous_system_organization":"GOOGLE"}}"#;
    assert_eq!(render(body, false).unwrap(), body);
}

#[test]
fn pretty_and_compact_differ_only_in_whitespace() {
    let body = r#"{"ip":"8.8.8.8","security":{"vpn":true},"location":{"city":"Paris","is_in_european_union":true},"other":[1,2]}"#;
    let compact = render(body, false).unwrap();
    let pretty = render(body, true).unwrap();
    assert_ne!(compact, pretty);
    assert!(pretty.contains('\n'));
    let squeezed: String = pretty.chars().filter(|c| !c.is_whitespace()).collect();
    assert_eq!(squeezed, compact);
}

#[test]
fn message_is_shown_alone() {
    let body = r#"{"message":"Invalid API key","ip":"8.8.8.8","extra":1}"#;
    assert_eq!(render(body, false).unwrap(), "Invalid API key");
    assert_eq!(render(body, true).unwrap(), "Invalid API key");
    match report(decode_body(body).unwrap()) {
        Report::Message(m) => assert_eq!(m, "Invalid API key"),
        Report::Document(_) => panic!("document printed"),
    }
}

#[test]
fn decode_errors() {
    assert_eq!(render("not json", false), Err(DecodeError::Syntax));
    assert_eq!(render("", false), Err(DecodeError::Syntax));
    assert_eq!(render("[1,2]", false), Err(DecodeError::Shape));
    assert_eq!(render(r#"{"ip":5}"#, false), Err(DecodeError::Shape));
    assert_eq!(render(r#"{"security":{"vpn":"yes"}}"#, false), Err(DecodeError::Shape));
    assert_eq!(render(r#"{"location":"x"}"#, false), Err(DecodeError::Shape));
}

#[test]
fn empty_object_encodes_empty() {
    assert_eq!(render("{}", false).unwrap(), "{}");
    let v = decode_body(r#"{"ip":null,"message":null}"#).unwrap();
    assert!(v.ip.is_none() && v.message.is_none() && v.other.is_empty());
    match report(v) {
        Report::Document(j) => assert_eq!(json_text(j, false), "{}"),
        Report::Message(_) => panic!("no message was sent"),
    }
}
