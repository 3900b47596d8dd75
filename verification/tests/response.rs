use mavri::http::response::{HeaderMap, HttpResponse};

fn text(bytes: Vec<u8>) -> String {
    String::from_utf8(bytes).unwrap()
}

#[test]
fn constructors_set_status() {
    let cases = [
        (HttpResponse::new_empty(), 200),
        (HttpResponse::bad_request(), 400),
        (HttpResponse::forbidden(), 403),
        (HttpResponse::not_found(), 404),
        (HttpResponse::not_allowed(), 405),
        (HttpResponse::new(302, None), 302),
    ];
    for (resp, status) in cases.iter() {
        assert_eq!(resp.status, *status);
        assert!(resp.headers.is_none());
        assert!(!resp.body_exist);
        assert_eq!(resp.connection, "Close");
    }
}

#[test]
fn ok_keeps_headers_and_body_flag() {
    let mut headers = HeaderMap::new();
    headers.insert("A".to_string(), "1".to_string());
    let resp = HttpResponse::ok(headers, true);
    assert_eq!(resp.status, 200);
    assert!(resp.body_exist);
    assert_eq!(resp.headers.as_ref().unwrap().len(), 1);
}

#[test]
fn setters_change_one_field() {
    let mut resp = HttpResponse::new_empty();
    resp.set_status(404);
    resp.set_body_exist(true);
    resp.set_connection("keep-alive".to_string());
    resp.set_headers(HeaderMap::new());
    assert_eq!(resp.status, 404);
    assert!(resp.body_exist);
    assert_eq!(resp.connection, "keep-alive");
    assert!(resp.headers.is_some());
}

#[test]
fn render_not_found() {
    let mut resp = HttpResponse::not_found();
    let out = text(resp.render("Mon, 1 Jan 2024 00:00:00 +0000"));
    assert_eq!(
        out,
        "HTTP/1.1 404 Not Found\r\nServer: Mavri \r\nDate: Mon, 1 Jan 2024 00:00:00 +0000\r\nConnection: Closed\r\n\r\n"
    );
}

#[test]
fn render_headers_in_order_and_consumes_them() {
    let mut headers = HeaderMap::new();
    headers.insert("Content-type".to_string(), "text/html".to_string());
    headers.insert("Content-Length".to_string(), "5".to_string());
    let mut resp = HttpResponse::ok(headers, true);
    let out = text(resp.render("D"));
    assert_eq!(
        out,
        "HTTP/1.1 200 Ok\r\nServer: Mavri \r\nDate: D\r\nConnection: Closed\r\nContent-type: text/html\r\nContent-Length: 5\r\n\r\n"
    );
    assert!(resp.headers.is_none());
    let again = text(resp.render("D"));
    assert_eq!(again, "HTTP/1.1 200 Ok\r\nServer: Mavri \r\nDate: D\r\nConnection: Closed\r\n\r\n");
}

#[test]
fn render_unknown_and_negative_status() {
    let mut resp = HttpResponse::new(-1, None);
    assert!(text(resp.render("D")).starts_with("HTTP/1.1 -1 ERR\r\n"));
    let mut resp = HttpResponse::new(500, None);
    assert!(text(resp.render("D")).starts_with("HTTP/1.1 500 ERR\r\n"));
    let mut resp = HttpResponse::bad_request();
    assert!(text(resp.render("D")).starts_with("HTTP/1.1 400 Bad request\r\n"));
    let mut resp = HttpResponse::forbidden();
    assert!(text(resp.render("D")).starts_with("HTTP/1.1 403 Forbidden\r\n"));
}

#[test]
fn to_vec_response_uses_current_date() {
    let mut resp = HttpResponse::not_allowed();
    let out = text(resp.to_vec_response());
    let prefix = "HTTP/1.1 405 Method not allowed\r\nServer: Mavri \r\nDate: ";
    assert!(out.starts_with(prefix));
    assert!(out.ends_with("\r\nConnection: Closed\r\n\r\n"));
    let date = &out[prefix.len()..out.len() - "\r\nConnection: Closed\r\n\r\n".len()];
    assert!(date.len() == 30 || date.len() == 31);
    assert!(date.bytes().all(|b| (0x20..=0x7e).contains(&b)));
    assert!(date.contains(':'));
}

#[test]
fn head_is_framed() {
    let mut headers = HeaderMap::new();
    headers.insert("X".to_string(), "y".to_string());
    let mut resp = HttpResponse::ok(headers, false);
    let out = resp.render("today");
    assert!(out.starts_with(b"HTTP/1.1 "));
    assert!(out.ends_with(b"\r\n\r\n"));
}

#[test]
fn header_insert_replaces_in_place() {
    let mut headers = HeaderMap::new();
    assert_eq!(headers.insert("A".to_string(), "1".to_string()), None);
    assert_eq!(headers.insert("B".to_string(), "2".to_string()), None);
    assert_eq!(headers.insert("A".to_string(), "3".to_string()), Some("1".to_string()));
    assert_eq!(headers.len(), 2);
    let (k, v) = headers.entry(0);
    assert_eq!(k, "A");
    assert_eq!(v, "3");
    let (k, v) = headers.entry(1);
    assert_eq!(k, "B");
    assert_eq!(v, "2");
}
