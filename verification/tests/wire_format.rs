use vpnkitrc::{VpnKitPort, VpnKitProtocol};

fn empty_rule() -> VpnKitPort {
    VpnKitPort {
        in_port: None,
        out_port: None,
        proto: None,
        in_ip: None,
        out_ip: None,
        in_path: None,
        out_path: None,
    }
}

#[test]
fn tcp_rule_serializes_with_ports_only() {
    let port = VpnKitPort {
        in_port: Some(8081),
        out_port: Some(8081),
        proto: Some(VpnKitProtocol::TCP),
        in_ip: Some("127.0.0.1".into()),
        out_ip: Some("0.0.0.0".into()),
        in_path: None,
        out_path: None,
    };
    let json = port.to_json();
    assert_eq!(
        json,
        "{\"in_port\":8081,\"out_port\":8081,\"proto\":\"tcp\",\"in_ip\":\"127.0.0.1\",\"out_ip\":\"0.0.0.0\"}"
    );
    assert!(!json.contains("in_path"));
    assert!(!json.contains("out_path"));
    assert!(!json.contains("null"));
}

#[test]
fn unix_rule_serializes_with_paths_only() {
    let port = VpnKitPort {
        in_port: None,
        out_port: None,
        proto: Some(VpnKitProtocol::UNIX),
        in_ip: None,
        out_ip: None,
        in_path: Some("/run/guest-services/nanocl/nanocl.sock".into()),
        out_path: Some("/home/leone/test.sock".into()),
    };
    let json = port.to_json();
    assert_eq!(
        json,
        "{\"proto\":\"unix\",\"in_path\":\"/run/guest-services/nanocl/nanocl.sock\",\"out_path\":\"/home/leone/test.sock\"}"
    );
    assert!(!json.contains("in_port"));
    assert!(!json.contains("in_ip"));
}

#[test]
fn empty_rule_serializes_to_empty_object() {
    assert_eq!(empty_rule().to_json(), "{}");
}

#[test]
fn round_trip_port_rule() {
    let port = VpnKitPort {
        in_port: Some(8081),
        out_port: Some(8081),
        proto: Some(VpnKitProtocol::UDP),
        in_ip: Some("127.0.0.1".into()),
        out_ip: Some("0.0.0.0".into()),
        in_path: None,
        out_path: None,
    };
    let back = VpnKitPort::from_json(&port.to_json()).expect("round trip parses");
    assert_eq!(back, port);
}

#[test]
fn round_trip_path_rule() {
    let port = VpnKitPort {
        in_port: None,
        out_port: None,
        proto: Some(VpnKitProtocol::UNIX),
        in_ip: None,
        out_ip: None,
        in_path: Some("/tmp/unix.sock".into()),
        out_path: Some("/tmp/out.sock".into()),
    };
    let back = VpnKitPort::from_json(&port.to_json()).expect("round trip parses");
    assert_eq!(back, port);
}

#[test]
fn round_trip_empty_rule() {
    let back = VpnKitPort::from_json("{}").expect("empty object parses");
    assert_eq!(back, empty_rule());
}

#[test]
fn round_trip_escaped_path() {
    let mut rule = empty_rule();
    rule.in_path = Some("/odd \"quoted\"\\path\n".into());
    let back = VpnKitPort::from_json(&rule.to_json()).expect("escaped path parses");
    assert_eq!(back, rule);
}

#[test]
fn protocol_names_are_lowercase_and_case_sensitive() {
    let mut rule = empty_rule();
    rule.proto = Some(VpnKitProtocol::TCP);
    assert_eq!(rule.to_json(), "{\"proto\":\"tcp\"}");
    rule.proto = Some(VpnKitProtocol::UDP);
    assert_eq!(rule.to_json(), "{\"proto\":\"udp\"}");
    rule.proto = Some(VpnKitProtocol::UNIX);
    assert_eq!(rule.to_json(), "{\"proto\":\"unix\"}");

    let back = VpnKitPort::from_json("{\"proto\":\"udp\"}").expect("lowercase parses");
    assert_eq!(back.proto, Some(VpnKitProtocol::UDP));
    assert!(VpnKitPort::from_json("{\"proto\":\"TCP\"}").is_none());
    assert!(VpnKitPort::from_json("{\"proto\":\"Tcp\"}").is_none());
    assert!(VpnKitPort::from_json("{\"proto\":\"sctp\"}").is_none());
}

#[test]
fn parse_accepts_whitespace_and_null() {
    let back = VpnKitPort::from_json(" { \"in_port\" : 80 , \"proto\" : \"tcp\" } ")
        .expect("whitespace parses");
    assert_eq!(back.in_port, Some(80));
    assert_eq!(back.proto, Some(VpnKitProtocol::TCP));

    let back = VpnKitPort::from_json("{\"in_port\":null,\"out_ip\":null}").expect("null parses");
    assert_eq!(back, empty_rule());
}

#[test]
fn parse_accepts_any_member_order() {
    let back = VpnKitPort::from_json("{\"proto\":\"tcp\",\"in_port\":80,\"out_ip\":\"0.0.0.0\"}")
        .expect("reordered members parse");
    assert_eq!(back.in_port, Some(80));
    assert_eq!(back.proto, Some(VpnKitProtocol::TCP));
    assert_eq!(back.out_ip, Some("0.0.0.0".to_string()));
}

#[test]
fn parse_skips_unknown_members() {
    let back = VpnKitPort::from_json(
        "{\"flags\":[1,{\"x\":true}],\"in_port\":80,\"note\":null,\"extra\":{\"a\":\"b\"},\"ratio\":-1.5e3}",
    )
    .expect("unknown members are skipped");
    assert_eq!(back.in_port, Some(80));
    assert_eq!(back.out_port, None);
}

#[test]
fn parse_takes_the_last_value_of_a_repeated_key() {
    let back = VpnKitPort::from_json("{\"in_port\":80,\"in_port\":81}").expect("repeat parses");
    assert_eq!(back.in_port, Some(81));
}

#[test]
fn parse_accepts_hex_escapes() {
    let back = VpnKitPort::from_json("{\"in_path\":\"\\u0041\\u002Fb\\u0009\"}")
        .expect("hex escapes parse");
    assert_eq!(back.in_path, Some("A/b\t".to_string()));
    // a lone surrogate code denotes no character
    assert!(VpnKitPort::from_json("{\"in_path\":\"\\uD800\"}").is_none());
    assert!(VpnKitPort::from_json("{\"in_path\":\"\\u00G1\"}").is_none());
}

#[test]
fn control_characters_are_escaped() {
    let mut rule = empty_rule();
    rule.in_path = Some("a\u{0001}b\u{0008}c\u{000C}d\u{001f}e".into());
    let json = rule.to_json();
    assert_eq!(json, "{\"in_path\":\"a\\u0001b\\bc\\fd\\u001fe\"}");
    let back = VpnKitPort::from_json(&json).expect("escaped controls parse");
    assert_eq!(back, rule);
}

#[test]
fn parse_rejects_malformed_rules() {
    assert!(VpnKitPort::from_json("").is_none());
    assert!(VpnKitPort::from_json("[]").is_none());
    assert!(VpnKitPort::from_json("{\"in_port\":}").is_none());
    assert!(VpnKitPort::from_json("{\"in_port\":80").is_none());
    assert!(VpnKitPort::from_json("{\"in_port\":80}}").is_none());
    // numbers with a leading zero are not JSON
    assert!(VpnKitPort::from_json("{\"in_port\":080}").is_none());
    // a port beyond the machine word is refused rather than wrapped
    assert!(VpnKitPort::from_json("{\"in_port\":99999999999999999999999}").is_none());
}
