use retsend::net::protocol::{fingerprint_hex, hex_lower, public_info, random_token, DeviceInfo, FileMeta};
use retsend::net::server::{
    body_over_cap, cancel_step, decided, endpoint, fixed_status, prepare_step, registers_peer, sort_files,
    upload_target, Decision, Endpoint, PendingRequest, PrepareStep, MAX_JSON_BODY,
};
use retsend::net::httpd::parse_request;

fn meta(id: &str, name: &str, size: u64) -> FileMeta {
    FileMeta {
        id: id.into(),
        file_name: name.into(),
        size,
        file_type: "application/octet-stream".into(),
        sha256: None,
        preview: None,
    }
}

fn device() -> DeviceInfo {
    DeviceInfo {
        alias: "A".into(),
        version: "2.1".into(),
        device_model: None,
        device_type: Some("desktop".into()),
        fingerprint: "f".into(),
        port: Some(53317),
        protocol: Some("https".into()),
        download: Some(false),
        announce: Some(true),
    }
}

#[test]
fn random_tokens_are_unique_hex() {
    let a = random_token(16).unwrap();
    let b = random_token(16).unwrap();
    assert_eq!(a.len(), 32);
    assert_ne!(a, b);
    assert!(a.chars().all(|c| c.is_ascii_hexdigit() && !c.is_ascii_uppercase()));
}

#[test]
fn hex_is_lowercase_two_digits_per_byte() {
    assert_eq!(hex_lower(&[0x00, 0x0f, 0xa0, 0xff]), "000fa0ff");
    assert_eq!(hex_lower(&[]), "");
}

#[test]
fn fingerprints_are_the_sha256_of_the_certificate() {
    assert_eq!(
        fingerprint_hex(b"abc"),
        "ba7816bf8f01cfea414140de5dae2223b00361a396177a9cb410ff61f20015ad"
    );
    assert_eq!(fingerprint_hex(b"").len(), 64);
}

#[test]
fn the_public_info_drops_the_announce_flag() {
    let me = public_info(device());
    assert_eq!(me.announce, None);
    assert_eq!(me.alias, "A");
    assert_eq!(me.port, Some(53317));
}

#[test]
fn endpoints_route_under_the_api_prefix() {
    assert_eq!(endpoint("GET", "/api/localsend/v2/info"), Endpoint::Info);
    assert_eq!(endpoint("POST", "/api/localsend/v2/register"), Endpoint::Register);
    assert_eq!(endpoint("POST", "/api/localsend/v2/prepare-upload"), Endpoint::PrepareUpload);
    assert_eq!(endpoint("POST", "/api/localsend/v2/upload"), Endpoint::Upload);
    assert_eq!(endpoint("POST", "/api/localsend/v2/cancel"), Endpoint::Cancel);
    assert_eq!(endpoint("GET", "/api/localsend/v2/download"), Endpoint::Unsupported);
    assert_eq!(endpoint("POST", "/api/localsend/v2/prepare-download"), Endpoint::Unsupported);
    assert_eq!(endpoint("POST", "/api/localsend/v2/info"), Endpoint::NotFound);
    assert_eq!(endpoint("GET", "/info"), Endpoint::NotFound);
    assert_eq!(fixed_status(Endpoint::Unsupported), Some(501));
    assert_eq!(fixed_status(Endpoint::NotFound), Some(404));
    assert_eq!(fixed_status(Endpoint::Info), None);
}

#[test]
fn the_prepare_handshake_steps() {
    assert_eq!(prepare_step(0, false, None, false, false), PrepareStep::Respond(400));
    assert_eq!(prepare_step(2, true, None, false, false), PrepareStep::Respond(409));
    assert_eq!(prepare_step(2, false, Some((false, false)), false, false), PrepareStep::Respond(409));
    assert_eq!(prepare_step(2, false, Some((true, false)), true, false), PrepareStep::StartSession);
    assert_eq!(prepare_step(2, false, Some((false, true)), false, false), PrepareStep::Park);
    assert_eq!(prepare_step(2, false, None, false, true), PrepareStep::Respond(409));
    assert_eq!(decided(Some(Decision::Accept { save_dir: "/roms".into() })), Ok("/roms".to_string()));
    assert_eq!(decided(Some(Decision::Decline)), Err(403));
    assert_eq!(decided(None), Err(403));
}

#[test]
fn files_are_sorted_by_name_with_their_total() {
    let (sorted, total) = sort_files(vec![meta("1", "b.gb", 10), meta("2", "a.gb", 5), meta("3", "B.gb", 1)]).unwrap();
    let names: Vec<&str> = sorted.iter().map(|f| f.file_name.as_str()).collect();
    assert_eq!(names, ["B.gb", "a.gb", "b.gb"]);
    assert_eq!(total, 16);
    assert!(sort_files(vec![meta("1", "x", u64::MAX), meta("2", "y", 1)]).is_none());
}

#[test]
fn uploads_name_session_file_and_token() {
    let (req, _) = parse_request(b"POST /api/localsend/v2/upload?sessionId=s&fileId=f&token=t HTTP/1.1\r\n\r\n").unwrap();
    assert_eq!(upload_target(&req), Some(("s".into(), "f".into(), "t".into())));
    let (req, _) = parse_request(b"POST /api/localsend/v2/upload?sessionId=s&token=t HTTP/1.1\r\n\r\n").unwrap();
    assert_eq!(upload_target(&req), None);
    assert_eq!(cancel_step(None, Some("s")), (400, false));
    assert_eq!(cancel_step(Some("s"), Some("s")), (200, true));
    assert_eq!(cancel_step(Some("s"), Some("t")), (200, false));
    assert_eq!(cancel_step(Some("s"), None), (200, false));
}

#[test]
fn bodies_over_the_cap_and_our_own_register_are_refused() {
    assert!(body_over_cap(MAX_JSON_BODY + 1, MAX_JSON_BODY));
    assert!(!body_over_cap(MAX_JSON_BODY, MAX_JSON_BODY));
    assert!(!registers_peer("me", "me"));
    assert!(registers_peer("them", "me"));
}

#[test]
fn files_with_one_name_keep_their_order() {
    let (sorted, total) =
        sort_files(vec![meta("2", "b.gb", 1), meta("1", "a.gb", 2), meta("3", "b.gb", 3), meta("4", "a.gb", 4)])
            .unwrap();
    let ids: Vec<&str> = sorted.iter().map(|f| f.id.as_str()).collect();
    assert_eq!(ids, ["1", "4", "2", "3"]);
    assert_eq!(total, 10);
}

#[test]
fn zero_random_bytes_are_the_empty_token() {
    assert_eq!(random_token(0), Ok(String::new()));
}

#[test]
fn answering_a_parked_request_hands_the_decision_over() {
    let (tx, rx) = std::sync::mpsc::sync_channel(1);
    let req = PendingRequest::new(device(), vec![meta("1", "a.gb", 3)], 3, std::time::Instant::now(), tx);
    let sent = req.accept("/roms/gb".to_string());
    assert!(matches!(sent, Decision::Accept { ref save_dir } if save_dir == "/roms/gb"));
    assert!(matches!(rx.recv().unwrap(), Decision::Accept { save_dir } if save_dir == "/roms/gb"));

    let (tx, rx) = std::sync::mpsc::sync_channel(1);
    let req = PendingRequest::new(device(), vec![], 0, std::time::Instant::now(), tx);
    assert!(matches!(req.decline(), Decision::Decline));
    assert!(matches!(rx.recv().unwrap(), Decision::Decline));
}

#[test]
fn only_served_routes_reach_a_handler() {
    assert_eq!(endpoint("GET", "/api/localsend/v2/info"), Endpoint::Info);
    assert_eq!(fixed_status(endpoint("GET", "/api/localsend/v2/info")), None);
    assert_eq!(fixed_status(endpoint("POST", "/api/localsend/v2/download")), Some(501));
    assert_eq!(fixed_status(endpoint("GET", "/api/localsend/v2/prepare-download")), Some(501));
    assert_eq!(fixed_status(endpoint("POST", "/api/localsend/v2/info")), Some(404));
    assert_eq!(fixed_status(endpoint("GET", "/elsewhere")), Some(404));
}
