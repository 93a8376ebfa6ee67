use retsend::net::httpd::{body_reader, parse_request, read_line};
use retsend::net::client::{
    cancel_url, prepare_request, prepare_status, prepare_url, status_message, upload_url, PrepareError,
};
use retsend::net::discovery::{
    announcement, heard, is_shutdown, register_url, AnnouncerMsg, Heard, Peer, PeerIp, PeerRegistry,
    PEER_TTL_MS,
};
use retsend::net::httpd::{on_chunk_data, on_chunk_line, BodyError, ChunkPhase, MAX_HEADERS};
use retsend::net::manual::{split_address, DEFAULT_PORT};
use retsend::net::protocol::{DeviceInfo, FileMeta};

fn info(fp: &str, alias: &str, port: Option<u16>) -> DeviceInfo {
    DeviceInfo {
        alias: alias.into(),
        version: "2.1".into(),
        device_model: Some("Pixel".into()),
        device_type: Some("mobile".into()),
        fingerprint: fp.into(),
        port,
        protocol: Some("https".into()),
        download: Some(false),
        announce: Some(true),
    }
}

fn v4(a: u8, b: u8, c: u8, d: u8) -> PeerIp {
    PeerIp {
        v6: false,
        bits: u32::from_be_bytes([a, b, c, d]) as u128,
        text: format!("{a}.{b}.{c}.{d}"),
    }
}

fn chars(s: &str) -> Vec<char> {
    s.chars().collect()
}

#[test]
fn upsert_reports_new_and_changed_peers_only() {
    let mut reg = PeerRegistry::new();
    assert!(reg.upsert(info("f1", "Deck", Some(53317)), v4(192, 168, 1, 5), 0));
    // A pure keep-alive changes nothing visible.
    assert!(!reg.upsert(info("f1", "Deck", Some(53317)), v4(192, 168, 1, 5), 1000));
    // A new alias, address or port does.
    assert!(reg.upsert(info("f1", "Steam Deck", Some(53317)), v4(192, 168, 1, 5), 2000));
    assert!(reg.upsert(info("f1", "Steam Deck", Some(53317)), v4(192, 168, 1, 6), 3000));
    assert!(reg.upsert(info("f1", "Steam Deck", Some(53318)), v4(192, 168, 1, 6), 4000));
    let list = reg.snapshot(4000);
    assert_eq!(list.len(), 1);
    assert_eq!(list[0].info.alias, "Steam Deck");
    assert_eq!(list[0].port, 53318);
    assert_eq!(list[0].last_seen, 4000);
}

#[test]
fn a_peer_without_a_port_is_not_registered() {
    let mut reg = PeerRegistry::new();
    assert!(!reg.upsert(info("f1", "Deck", None), v4(10, 0, 0, 1), 0));
    assert!(reg.snapshot(0).is_empty());
}

#[test]
fn snapshot_sorts_by_alias_then_address_and_drops_the_silent() {
    let mut reg = PeerRegistry::new();
    reg.upsert(info("f1", "zed", Some(1)), v4(10, 0, 0, 9), 0);
    reg.upsert(info("f2", "amy", Some(1)), v4(10, 0, 0, 7), 0);
    reg.upsert(info("f3", "amy", Some(1)), v4(10, 0, 0, 3), 0);
    reg.upsert(info("f4", "old", Some(1)), v4(10, 0, 0, 1), 0);
    reg.upsert(info("f1", "zed", Some(1)), v4(10, 0, 0, 9), PEER_TTL_MS);
    reg.upsert(info("f2", "amy", Some(1)), v4(10, 0, 0, 7), PEER_TTL_MS);
    reg.upsert(info("f3", "amy", Some(1)), v4(10, 0, 0, 3), PEER_TTL_MS);
    let list = reg.snapshot(PEER_TTL_MS + 1);
    let names: Vec<(String, String)> = list.iter().map(|p| (p.info.alias.clone(), p.ip.text.clone())).collect();
    assert_eq!(
        names,
        vec![
            ("amy".to_string(), "10.0.0.3".to_string()),
            ("amy".to_string(), "10.0.0.7".to_string()),
            ("zed".to_string(), "10.0.0.9".to_string()),
        ]
    );
    // The expired peer is gone for good.
    assert_eq!(reg.snapshot(PEER_TTL_MS + 1).len(), 3);
}

#[test]
fn ipv4_peers_list_before_ipv6_under_one_alias() {
    let mut reg = PeerRegistry::new();
    let v6 = PeerIp { v6: true, bits: 1, text: "::1".into() };
    reg.upsert(info("f1", "same", Some(1)), v6, 0);
    reg.upsert(info("f2", "same", Some(1)), v4(255, 255, 255, 255), 0);
    let list = reg.snapshot(0);
    assert_eq!(list[0].ip.text, "255.255.255.255");
    assert_eq!(list[1].ip.text, "::1");
}

#[test]
fn base_url_uses_the_announced_scheme() {
    let p = Peer { info: info("f", "a", Some(53317)), ip: v4(192, 168, 1, 2), port: 53317, last_seen: 0 };
    assert_eq!(p.scheme(), "https");
    assert_eq!(p.base_url(), "https://192.168.1.2:53317");
    let mut plain = info("f", "a", Some(8080));
    plain.protocol = None;
    let p = Peer { info: plain, ip: v4(10, 0, 0, 1), port: 8080, last_seen: 0 };
    assert_eq!(p.base_url(), "http://10.0.0.1:8080");
}

#[test]
fn own_datagrams_are_ignored_and_announces_answered() {
    let mut d = info("me", "x", Some(1));
    assert_eq!(heard(&d, "me"), Heard::Own);
    d.fingerprint = "them".into();
    assert_eq!(heard(&d, "me"), Heard::Other { reply: true });
    d.announce = Some(false);
    assert_eq!(heard(&d, "me"), Heard::Other { reply: false });
    d.announce = None;
    assert_eq!(heard(&d, "me"), Heard::Other { reply: false });
}

#[test]
fn register_url_needs_a_port() {
    let d = info("f", "a", Some(53317));
    assert_eq!(
        register_url(&d, "192.168.1.9").unwrap(),
        "https://192.168.1.9:53317/api/localsend/v2/register"
    );
    assert!(register_url(&info("f", "a", None), "192.168.1.9").is_none());
}

#[test]
fn announcement_sets_the_flag() {
    assert_eq!(announcement(info("f", "a", Some(1)), false).announce, Some(false));
    assert_eq!(announcement(info("f", "a", Some(1)), true).announce, Some(true));
    assert!(is_shutdown(AnnouncerMsg::Shutdown));
    assert!(!is_shutdown(AnnouncerMsg::ReAnnounce));
}

#[test]
fn typed_addresses_split_into_host_and_port() {
    assert_eq!(split_address(" 192.168.1.23 ").unwrap(), ("192.168.1.23".to_string(), DEFAULT_PORT));
    assert_eq!(split_address("192.168.1.23:8080").unwrap(), ("192.168.1.23".to_string(), 8080));
    assert_eq!(split_address("[fe80::1]:5000").unwrap(), ("fe80::1".to_string(), 5000));
    assert_eq!(split_address("[fe80::1]").unwrap(), ("fe80::1".to_string(), DEFAULT_PORT));
    assert_eq!(split_address("fe80::1").unwrap(), ("fe80::1".to_string(), DEFAULT_PORT));
}

#[test]
fn bad_ports_and_brackets_are_refused_with_a_reason() {
    assert_eq!(split_address("   ").unwrap_err(), "Enter an IP address");
    assert_eq!(split_address("1.2.3.4:").unwrap_err(), "Not a port: ");
    assert_eq!(split_address("1.2.3.4:0").unwrap_err(), "Not a port: 0");
    assert!(split_address("1.2.3.4:99999").unwrap_err().contains("port"));
    assert_eq!(split_address("[fe80::1:5000").unwrap_err(), "Missing ] in [fe80::1:5000");
    assert_eq!(split_address("[fe80::1]x").unwrap_err(), "Junk after ]: x");
    assert_eq!(split_address("1.2.3.4:+80").unwrap(), ("1.2.3.4".to_string(), 80));
}

#[test]
fn prepare_statuses_map_to_errors() {
    assert!(matches!(prepare_status(401), Some(PrepareError::PinRequired)));
    assert!(matches!(prepare_status(403), Some(PrepareError::Declined)));
    assert!(matches!(prepare_status(409), Some(PrepareError::Busy)));
    assert!(matches!(prepare_status(204), Some(PrepareError::Finished)));
    match prepare_status(500) {
        Some(PrepareError::Other(m)) => assert_eq!(m, "peer answered 500"),
        _ => panic!("500 is an error"),
    }
    assert!(prepare_status(200).is_none());
    assert_eq!(status_message(404), "peer answered 404");
}

#[test]
fn client_urls() {
    assert_eq!(prepare_url("http://h:1"), "http://h:1/api/localsend/v2/prepare-upload");
    assert_eq!(
        upload_url("http://h:1", "s", "f", "t"),
        "http://h:1/api/localsend/v2/upload?sessionId=s&fileId=f&token=t"
    );
    assert_eq!(cancel_url("http://h:1", "s"), "http://h:1/api/localsend/v2/cancel?sessionId=s");
}

fn meta(id: &str, name: &str) -> FileMeta {
    FileMeta {
        id: id.into(),
        file_name: name.into(),
        size: 1,
        file_type: "x".into(),
        sha256: None,
        preview: None,
    }
}

#[test]
fn prepare_request_keys_files_by_id_last_wins() {
    let req = prepare_request(
        info("f", "me", Some(1)),
        vec![meta("b", "one"), meta("a", "two"), meta("b", "three")],
    );
    assert_eq!(req.info.announce, None);
    assert_eq!(req.info.alias, "me");
    let ids: Vec<(String, String)> = req.files.iter().map(|(k, f)| (k.clone(), f.file_name.clone())).collect();
    assert_eq!(ids, vec![("a".to_string(), "two".to_string()), ("b".to_string(), "three".to_string())]);
}

#[test]
fn chunk_phases_follow_the_framing() {
    let p = on_chunk_line(ChunkPhase::SizeLine, &chars("a;ext=1")).unwrap();
    assert_eq!(p, ChunkPhase::Data(10));
    let p = on_chunk_data(p, 4);
    assert_eq!(p, ChunkPhase::Data(6));
    let p = on_chunk_data(p, 6);
    assert_eq!(p, ChunkPhase::DataEnd);
    assert_eq!(on_chunk_line(p, &chars("x")), Err(BodyError::Unterminated));
    let p = on_chunk_line(p, &chars("")).unwrap();
    assert_eq!(p, ChunkPhase::SizeLine);
    assert_eq!(on_chunk_line(p, &chars("zz")), Err(BodyError::BadChunkSize));
    let p = on_chunk_line(p, &chars(" 0 ")).unwrap();
    assert_eq!(p, ChunkPhase::Trailers(MAX_HEADERS as u64));
    let p = on_chunk_line(p, &chars("X-Trailer: 1")).unwrap();
    assert_eq!(p, ChunkPhase::Trailers(MAX_HEADERS as u64 - 1));
    assert_eq!(on_chunk_line(p, &chars("")).unwrap(), ChunkPhase::Done);
    assert_eq!(on_chunk_line(ChunkPhase::Trailers(1), &chars("t: 1")), Err(BodyError::TooManyTrailers));
}

#[test]
fn prepare_response_keys_tokens_by_file_id() {
    let r = retsend::net::protocol::prepare_response(
        "sess".into(),
        vec![("z".into(), "t1".into()), ("a".into(), "t2".into()), ("z".into(), "t3".into())],
    );
    assert_eq!(r.session_id, "sess");
    assert_eq!(r.files, vec![("a".to_string(), "t2".to_string()), ("z".to_string(), "t3".to_string())]);
}

#[test]
fn streaming_a_chunked_body_decodes_what_reading_it_whole_does() {
    let raw = b"POST /x HTTP/1.1\r\nTransfer-Encoding: chunked\r\n\r\n5;a=b\r\nhello\r\n6\r\n world\r\n0\r\nX-T: 1\r\n\r\n";
    let (req, pos) = parse_request(raw).unwrap();
    let (whole, end) = body_reader(raw, pos, &req).unwrap();
    assert_eq!(whole, b"hello world");
    // The same bytes, a framing line or a few data bytes at a time.
    let mut at = pos;
    let mut phase = ChunkPhase::SizeLine;
    let mut streamed = Vec::new();
    loop {
        match phase {
            ChunkPhase::Done => break,
            ChunkPhase::Data(left) => {
                let n = left.min(3) as usize;
                streamed.extend_from_slice(&raw[at..at + n]);
                at += n;
                phase = on_chunk_data(phase, n as u64);
            }
            _ => {
                let (line, _, next) = read_line(raw, at, 1024).unwrap();
                at = next;
                phase = on_chunk_line(phase, &line).unwrap();
            }
        }
    }
    assert_eq!(streamed, whole);
    assert_eq!(at, end);
}

#[test]
fn a_peer_heard_stays_listed_until_its_ttl() {
    let mut reg = PeerRegistry::new();
    reg.upsert(info("f1", "Deck", Some(1)), v4(10, 0, 0, 1), 1000);
    assert_eq!(reg.snapshot(1000 + PEER_TTL_MS - 1).len(), 1);
    assert_eq!(reg.snapshot(1000 + PEER_TTL_MS).len(), 0);
}
