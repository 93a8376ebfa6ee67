use retsend::net::httpd::{body_reader, parse_request, respond_empty, respond_json, write_continue, ParseError, Request};

fn parse(raw: &str) -> Result<Request, ParseError> {
    parse_request(raw.as_bytes()).map(|(request, _)| request)
}

fn body_of(raw: &str) -> Result<String, ()> {
    let bytes = raw.as_bytes();
    let (request, pos) = parse_request(bytes).map_err(|_| ())?;
    let (body, _) = body_reader(bytes, pos, &request).map_err(|_| ())?;
    Ok(String::from_utf8(body).unwrap())
}

#[test]
fn parses_post_with_body() {
    let raw = "POST /api/localsend/v2/register HTTP/1.1\r\n\
               Host: x\r\nContent-Type: application/json\r\nContent-Length: 2\r\n\r\n{}";
    let req = parse(raw).unwrap();
    assert_eq!(req.method, "POST");
    assert_eq!(req.path, "/api/localsend/v2/register");
    assert_eq!(req.content_length, 2);
    assert_eq!(body_of(raw).unwrap(), "{}");
}

#[test]
fn parses_query_params() {
    let req = parse("POST /upload?sessionId=abc&fileId=f%201&token=t+x HTTP/1.1\r\n\r\n").unwrap();
    assert_eq!(req.query_param("sessionId"), Some("abc"));
    assert_eq!(req.query_param("fileId"), Some("f 1"));
    assert_eq!(req.query_param("token"), Some("t x"));
}

#[test]
fn decodes_a_chunked_body() {
    let raw = "POST /x HTTP/1.1\r\nTransfer-Encoding: chunked\r\n\r\n\
               4\r\nWiki\r\n5;ext=1\r\npedia\r\n0\r\n\r\n";
    let req = parse(raw).unwrap();
    assert!(req.chunked);
    assert_eq!(body_of(raw).unwrap(), "Wikipedia");
}

#[test]
fn chunked_trailers_are_consumed() {
    let raw = "POST /x HTTP/1.1\r\nTransfer-Encoding: chunked\r\n\r\n\
               2\r\nhi\r\n0\r\nX-Checksum: abc\r\n\r\n";
    assert_eq!(body_of(raw).unwrap(), "hi");
    let bytes = raw.as_bytes();
    let (request, pos) = parse_request(bytes).unwrap();
    let (_, end) = body_reader(bytes, pos, &request).unwrap();
    assert_eq!(end, bytes.len());
}

#[test]
fn chunked_ignores_content_length() {
    let raw = "POST /x HTTP/1.1\r\nTransfer-Encoding: chunked\r\nContent-Length: 2\r\n\r\n\
               9\r\nWikipedia\r\n0\r\n\r\n";
    let req = parse(raw).unwrap();
    assert_eq!(req.content_length, 0);
    assert_eq!(body_of(raw).unwrap(), "Wikipedia");
}

#[test]
fn a_truncated_chunked_body_errors() {
    let raw = "POST /x HTTP/1.1\r\nTransfer-Encoding: chunked\r\n\r\n9\r\nWiki";
    assert!(parse(raw).is_ok());
    assert!(body_of(raw).is_err());
}

#[test]
fn unknown_transfer_coding_gets_501() {
    let err = parse("POST /x HTTP/1.1\r\nTransfer-Encoding: gzip\r\n\r\n").unwrap_err();
    assert_eq!(err.status, 501);
}

#[test]
fn missing_content_length_means_empty_body() {
    let req = parse("GET /api/localsend/v2/info HTTP/1.1\r\n\r\n").unwrap();
    assert_eq!(req.content_length, 0);
}

#[test]
fn detects_expect_continue() {
    let req = parse("POST /x HTTP/1.1\r\nExpect: 100-continue\r\nContent-Length: 5\r\n\r\n").unwrap();
    assert!(req.expects_continue);
}

#[test]
fn oversized_headers_get_431() {
    let mut raw = String::from("GET / HTTP/1.1\r\n");
    for i in 0..100 {
        raw.push_str(&format!("X-Filler-{i}: {}\r\n", "y".repeat(300)));
    }
    raw.push_str("\r\n");
    let err = parse(&raw).unwrap_err();
    assert_eq!(err.status, 431);
}

#[test]
fn bad_request_line_gets_400() {
    assert_eq!(parse("NONSENSE\r\n\r\n").unwrap_err().status, 400);
    assert_eq!(parse("GET / SPDY/3\r\n\r\n").unwrap_err().status, 505);
}

#[test]
fn responses_are_well_formed() {
    let text = String::from_utf8(respond_json(200, "{\"ok\":true}")).unwrap();
    assert!(text.starts_with("HTTP/1.1 200 OK\r\n"));
    assert!(text.contains("Content-Length: 11\r\n"));
    assert!(text.contains("Connection: close\r\n"));
    assert!(text.ends_with("{\"ok\":true}"));

    assert!(String::from_utf8(respond_empty(403))
        .unwrap()
        .starts_with("HTTP/1.1 403 Forbidden\r\n"));
}

#[test]
fn headers_are_case_insensitive_and_the_body_starts_after_the_blank_line() {
    let raw = "GET /a%20b?x=1 HTTP/1.1\r\nX-Thing: Yes\r\n\r\nrest";
    let (req, pos) = parse_request(raw.as_bytes()).unwrap();
    assert_eq!(req.header("x-thing"), Some("Yes"));
    assert_eq!(req.header("X-THING"), Some("Yes"));
    assert_eq!(req.path, "/a b");
    assert_eq!(req.query_param("x"), Some("1"));
    assert_eq!(&raw.as_bytes()[pos..], b"rest");
}

#[test]
fn a_sized_body_stops_at_its_length() {
    let raw = "POST /x HTTP/1.1\r\nContent-Length: 3\r\n\r\nabcdef";
    assert_eq!(body_of(raw).unwrap(), "abc");
}

#[test]
fn a_bad_content_length_gets_400() {
    assert_eq!(parse("POST /x HTTP/1.1\r\nContent-Length: x\r\n\r\n").unwrap_err().status, 400);
}

#[test]
fn continue_is_the_interim_response() {
    assert_eq!(write_continue(), b"HTTP/1.1 100 Continue\r\n\r\n".to_vec());
}
