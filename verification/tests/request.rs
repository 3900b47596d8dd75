use mavri::http::request::HttpRequest;

#[test]
fn parse_reads_method_and_path() {
    let req = HttpRequest::parse("GET /index.html HTTP/1.1\r\nHost: example\r\n\r\n").unwrap();
    assert_eq!(req.method, "GET");
    assert_eq!(req.uri, "/index.html");
}

#[test]
fn parse_drops_query_and_decodes_escapes() {
    let req = HttpRequest::parse("GET /a%20b?x=1 HTTP/1.1\r\n\r\n").unwrap();
    assert_eq!(req.uri, "/a b");
}

#[test]
fn parse_needs_three_parts() {
    assert!(HttpRequest::parse("GET /\r\n\r\n").is_err());
    assert!(HttpRequest::parse("").is_err());
}

#[test]
fn parse_rejects_short_escape() {
    assert!(HttpRequest::parse("GET /%4 HTTP/1.1\r\n\r\n").is_err());
}

#[test]
fn parse_without_crlf_uses_whole_text() {
    let req = HttpRequest::parse("GET / HTTP/1.0\n\n").unwrap();
    assert_eq!(req.method, "GET");
    assert_eq!(req.uri, "/");
}

#[test]
fn parse_double_space_gives_empty_path() {
    let req = HttpRequest::parse("GET  / HTTP/1.1\r\n\r\n").unwrap();
    assert_eq!(req.uri, "");
}

#[test]
fn parse_keeps_any_method() {
    let req = HttpRequest::parse("POST /form HTTP/1.1\r\n\r\n").unwrap();
    assert_eq!(req.method, "POST");
    assert_eq!(req.uri, "/form");
}

#[test]
fn parse_decodes_utf8_path() {
    let req = HttpRequest::parse("GET /caf%C3%A9 HTTP/1.1\r\n\r\n").unwrap();
    assert_eq!(req.uri, "/café");
}

#[test]
fn parse_rejects_path_that_is_not_utf8() {
    assert!(HttpRequest::parse("GET /%C3 HTTP/1.1\r\n\r\n").is_err());
}

#[test]
fn decode_url_hex_pairs() {
    assert_eq!(HttpRequest::decode_url(b"%41%42").unwrap(), "AB");
    assert_eq!(HttpRequest::decode_url(b"%6a%6B").unwrap(), "jk");
    assert_eq!(HttpRequest::decode_url(b"plain/path").unwrap(), "plain/path");
    assert_eq!(HttpRequest::decode_url(b"").unwrap(), "");
}

#[test]
fn decode_url_f_is_not_a_hex_digit() {
    // 'f' counts as 0x36, so "%ff" spells 0x60 | 0x36 = 'v'.
    assert_eq!(HttpRequest::decode_url(b"%ff").unwrap(), "v");
    assert_eq!(HttpRequest::decode_url(b"%FF").unwrap(), "v");
    assert_eq!(HttpRequest::decode_url(b"%2f").unwrap(), "6");
}

#[test]
fn decode_url_wraps_below_zero() {
    // '!' is 0x21; 0x21 - 0x30 wraps to 0xF1, whose low nibble shifted up is 0x10.
    assert_eq!(HttpRequest::decode_url(b"%!0").unwrap(), "\u{10}");
}

#[test]
fn decode_url_errors() {
    assert!(HttpRequest::decode_url(b"%").is_err());
    assert!(HttpRequest::decode_url(b"abc%4").is_err());
    assert!(HttpRequest::decode_url(b"%C3").is_err());
}

#[test]
fn new_request_is_empty() {
    let req = HttpRequest::new();
    assert_eq!(req.uri, "");
    assert_eq!(req.method, "");
}

#[test]
fn escapes_decode_back() {
    assert_eq!(HttpRequest::decode_url(b"%2A%7e").unwrap(), "*~");
    assert_eq!(HttpRequest::decode_url(b"%2a%7E").unwrap(), "*~");
    assert_eq!(HttpRequest::decode_url(b"100%25").unwrap(), "100%");
}

#[test]
fn only_request_line_is_read() {
    let a = HttpRequest::parse("GET /a%20b HTTP/1.1\r\nX: anything at all\r\n\r\n").unwrap();
    let b = HttpRequest::parse("GET /a%20b HTTP/1.1\r\n%% ??").unwrap();
    assert_eq!((a.method, a.uri), (b.method, b.uri));
    assert!(HttpRequest::parse("GET /\r\nGET / HTTP/1.1").is_err());
}
