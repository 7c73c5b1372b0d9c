use vpnkitrc::{
    decide_dump_response, decide_list_response, is_api_error, is_error_status, parse::parse_rule_list,
    Endpoint, HttpMethod, VpnKitError, VpnKitProtocol,
};

#[test]
fn error_statuses_are_the_4xx_and_5xx_ranges() {
    assert!(!is_error_status(200));
    assert!(!is_error_status(204));
    assert!(!is_error_status(399));
    assert!(is_error_status(400));
    assert!(is_error_status(404));
    assert!(is_error_status(500));
    assert!(is_error_status(599));
    assert!(!is_error_status(600));
}

#[test]
fn not_found_fails_every_operation_with_the_daemon_message() {
    let body = "{\"message\":\"not found\"}";
    assert_eq!(is_api_error(404, body), Err("not found".to_string()));
    assert_eq!(
        decide_list_response(404, body),
        Err("not found".to_string())
    );
    assert_eq!(
        decide_dump_response(404, body),
        Err("not found".to_string())
    );
}

#[test]
fn success_statuses_pass_the_error_check() {
    assert_eq!(is_api_error(200, ""), Ok(()));
    assert_eq!(is_api_error(204, "ignored"), Ok(()));
}

#[test]
fn error_with_unreadable_body_still_fails() {
    assert_eq!(
        is_api_error(500, "gateway exploded"),
        Err("invalid error body".to_string())
    );
}

#[test]
fn list_response_parses_rules() {
    let body = "[{\"in_port\":8081,\"proto\":\"tcp\"},{\"proto\":\"unix\",\"in_path\":\"/tmp/a.sock\"}]";
    let rules = decide_list_response(200, body).expect("listing parses");
    assert_eq!(rules.len(), 2);
    assert_eq!(rules[0].in_port, Some(8081));
    assert_eq!(rules[0].proto, Some(VpnKitProtocol::TCP));
    assert_eq!(rules[1].proto, Some(VpnKitProtocol::UNIX));
    assert_eq!(rules[1].in_path, Some("/tmp/a.sock".to_string()));
}

#[test]
fn list_response_accepts_empty_array() {
    let rules = decide_list_response(200, " [ ] ").expect("empty listing parses");
    assert!(rules.is_empty());
}

#[test]
fn list_response_rejects_malformed_body() {
    assert_eq!(
        decide_list_response(200, "{\"in_port\":1}"),
        Err("invalid rule list body".to_string())
    );
    assert!(parse_rule_list("[{\"in_port\":1},]").is_none());
    assert!(parse_rule_list("[").is_none());
}

#[test]
fn dump_response_passes_the_body_through() {
    assert_eq!(
        decide_dump_response(200, "forwarding table\n"),
        Ok("forwarding table\n".to_string())
    );
}

#[test]
fn api_error_payload_parses() {
    let e = VpnKitError::from_json("{ \"message\" : \"port already allocated\" }")
        .expect("error payload parses");
    assert_eq!(e.message, "port already allocated");
    let e = VpnKitError::from_json("{\"code\":404,\"message\":\"not found\",\"hint\":null}")
        .expect("extra members are ignored");
    assert_eq!(e.message, "not found");
    assert!(VpnKitError::from_json("{\"detail\":\"x\"}").is_none());
    assert!(VpnKitError::from_json("{\"message\":5}").is_none());
    assert!(VpnKitError::from_json("message").is_none());
}

#[test]
fn error_with_extra_members_still_surfaces_the_message() {
    assert_eq!(
        is_api_error(500, "{\"status\":\"error\",\"message\":\"backend down\"}"),
        Err("backend down".to_string())
    );
}

#[test]
fn endpoints_match_the_daemon_surface() {
    assert_eq!(Endpoint::List.path(), "/forwards/list");
    assert_eq!(Endpoint::Dump.path(), "/forwards/dump");
    assert_eq!(Endpoint::ExposePort.path(), "/forwards/expose/port");
    assert_eq!(Endpoint::UnexposePort.path(), "/forwards/unexpose/port");
    assert_eq!(Endpoint::ExposePipe.path(), "/forwards/expose/pipe");
    assert_eq!(Endpoint::UnexposePipe.path(), "/forwards/unexpose/pipe");

    assert_eq!(Endpoint::List.method(), HttpMethod::Get);
    assert_eq!(Endpoint::Dump.method(), HttpMethod::Get);
    assert_eq!(Endpoint::ExposePort.method(), HttpMethod::Put);
    assert_eq!(Endpoint::UnexposePort.method(), HttpMethod::Delete);
    assert_eq!(Endpoint::ExposePipe.method(), HttpMethod::Put);
    assert_eq!(Endpoint::UnexposePipe.method(), HttpMethod::Delete);

    assert_eq!(
        Endpoint::List.url("http://localhost"),
        "http://localhost/forwards/list"
    );
}

#[test]
fn unix_scheme_prefix_is_stripped() {
    assert_eq!(
        vpnkitrc::strip_unix_scheme("unix:///tmp/vpnkit.sock"),
        "/tmp/vpnkit.sock"
    );
    assert_eq!(
        vpnkitrc::strip_unix_scheme("/tmp/vpnkit.sock"),
        "/tmp/vpnkit.sock"
    );
    assert_eq!(vpnkitrc::strip_unix_scheme("unix://unix://x"), "x");
    assert_eq!(vpnkitrc::strip_unix_scheme(""), "");
    assert_eq!(vpnkitrc::strip_unix_scheme("unix:/"), "unix:/");
}
