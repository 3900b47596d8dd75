use mavri::client::client::{
    ClientState, HttpClient, ReadAction, ReadEvent, ResponsePlan, WriteAction, WriteEvent,
    FILE_BUF,
};
use mavri::http::request::HttpRequest;

fn text(bytes: &[u8]) -> String {
    String::from_utf8(bytes.to_vec()).unwrap()
}

fn client_with_request(request: &str) -> HttpClient {
    let mut client = HttpClient::new(5, 1);
    assert_eq!(
        client.read_step(ReadEvent::Received(request.as_bytes().to_vec())),
        ReadAction::ReadAgain
    );
    assert_eq!(client.read_step(ReadEvent::Failed { would_block: true }), ReadAction::Finish);
    assert!(client.read_buffer_is_text());
    assert_eq!(client.finish_read(), ClientState::REQUEST_READED);
    assert_eq!(client.state, ClientState::REQUEST_READED);
    client
}

#[test]
fn new_client_reads() {
    let client = HttpClient::new(7, 1);
    assert_eq!(client.socket, 7);
    assert_eq!(client.state, ClientState::READING);
    assert!(client.write_buffer().is_empty());
}

#[test]
fn peer_closing_at_once_is_an_error() {
    let mut client = HttpClient::new(7, 1);
    assert_eq!(client.read_step(ReadEvent::Received(Vec::new())), ReadAction::Return(ClientState::ERROR));
}

#[test]
fn peer_closing_after_data_finishes() {
    let mut client = HttpClient::new(7, 1);
    assert_eq!(client.read_step(ReadEvent::Received(b"GET".to_vec())), ReadAction::ReadAgain);
    assert_eq!(client.read_step(ReadEvent::Received(Vec::new())), ReadAction::Finish);
    assert_eq!(client.read_step(ReadEvent::Failed { would_block: false }), ReadAction::ReadAgain);
}

#[test]
fn incomplete_request_keeps_reading() {
    let mut client = HttpClient::new(7, 1);
    client.read_step(ReadEvent::Received(b"GET / HTTP/1.1\r\nHost: x\r\n".to_vec()));
    assert_eq!(client.finish_read(), ClientState::READING);
    assert_eq!(client.state, ClientState::READING);
    client.read_step(ReadEvent::Received(b"\r\n".to_vec()));
    assert_eq!(client.finish_read(), ClientState::REQUEST_READED);
}

#[test]
fn bare_line_feeds_end_a_request() {
    let mut client = HttpClient::new(7, 1);
    client.read_step(ReadEvent::Received(b"GET / HTTP/1.0\n\n".to_vec()));
    assert_eq!(client.finish_read(), ClientState::REQUEST_READED);
}

#[test]
fn unparsable_request_is_an_error() {
    let mut client = HttpClient::new(7, 1);
    client.read_step(ReadEvent::Received(b"garbage\r\n\r\n".to_vec()));
    assert_eq!(client.finish_read(), ClientState::ERROR);
    assert_eq!(client.state, ClientState::READING);
}

#[test]
fn non_utf8_buffer_is_reported() {
    let mut client = HttpClient::new(7, 1);
    client.read_step(ReadEvent::Received(vec![0xff, 0xfe]));
    assert!(!client.read_buffer_is_text());
}

#[test]
fn get_sends_head_then_file() {
    let mut client = client_with_request("GET /a.txt HTTP/1.1\r\n\r\n");
    let path = match client.write_step("/www", WriteEvent::Start) {
        WriteAction::CheckFile(path) => path,
        other => panic!("{:?}", other),
    };
    assert_eq!(path, "/www/a.txt");
    assert_eq!(client.state, ClientState::WRITING);
    match client.write_step("/www", WriteEvent::FileChecked(Some(5))) {
        WriteAction::OpenFile(p) => assert_eq!(p, "/www/a.txt"),
        other => panic!("{:?}", other),
    }
    match client.write_step("/www", WriteEvent::FileOpened(Some((9, 5)))) {
        WriteAction::WriteSocket { from } => assert_eq!(from, 0),
        other => panic!("{:?}", other),
    }
    let head = text(client.write_buffer());
    assert!(head.starts_with("HTTP/1.1 200 Ok\r\nServer: Mavri \r\nDate: "));
    assert!(head.ends_with("\r\nConnection: Closed\r\nContent-type: text/plain\r\nContent-Length: 5\r\n\r\n"));
    let len = client.write_buffer().len();
    match client.write_step("/www", WriteEvent::Written(Some(len))) {
        WriteAction::SendFile { fd, offset, count } => {
            assert_eq!((fd, offset, count), (9, 0, 5));
        }
        other => panic!("{:?}", other),
    }
    assert_eq!(client.state, ClientState::FILE_WRITING);
    match client.write_step("/www", WriteEvent::Sent(Some(5))) {
        WriteAction::Return { state, close_file } => {
            assert_eq!(state, ClientState::RESPONSE_WRITED);
            assert_eq!(close_file, Some(9));
        }
        other => panic!("{:?}", other),
    }
    assert_eq!(client.state, ClientState::RESPONSE_WRITED);
}

#[test]
fn head_sends_no_file() {
    let mut client = client_with_request("HEAD /index.html HTTP/1.1\r\n\r\n");
    assert!(matches!(client.write_step("/www", WriteEvent::Start), WriteAction::CheckFile(_)));
    match client.write_step("/www", WriteEvent::FileChecked(Some(12))) {
        WriteAction::WriteSocket { from } => assert_eq!(from, 0),
        other => panic!("{:?}", other),
    }
    let head = text(client.write_buffer());
    assert!(head.starts_with("HTTP/1.1 200 Ok\r\n"));
    assert!(head.contains("Content-type: text/html\r\nContent-Length: 12\r\n"));
    let len = client.write_buffer().len();
    match client.write_step("/www", WriteEvent::Written(Some(len))) {
        WriteAction::Return { state, close_file } => {
            assert_eq!(state, ClientState::RESPONSE_WRITED);
            assert_eq!(close_file, None);
        }
        other => panic!("{:?}", other),
    }
}

#[test]
fn other_methods_get_405() {
    let mut client = client_with_request("POST /a.txt HTTP/1.1\r\n\r\n");
    assert!(matches!(client.write_step("/www", WriteEvent::Start), WriteAction::WriteSocket { from: 0 }));
    assert!(text(client.write_buffer()).starts_with("HTTP/1.1 405 Method not allowed\r\n"));
}

#[test]
fn parent_steps_get_403() {
    let mut client = client_with_request("GET /../secret.txt HTTP/1.1\r\n\r\n");
    assert!(matches!(client.write_step("/www", WriteEvent::Start), WriteAction::WriteSocket { from: 0 }));
    assert!(text(client.write_buffer()).starts_with("HTTP/1.1 403 Forbidden\r\n"));
}

#[test]
fn missing_file_gets_404_and_missing_dir_403() {
    let mut client = client_with_request("GET /nope.txt HTTP/1.1\r\n\r\n");
    client.write_step("/www", WriteEvent::Start);
    assert!(matches!(client.write_step("/www", WriteEvent::FileChecked(None)), WriteAction::WriteSocket { from: 0 }));
    assert!(text(client.write_buffer()).starts_with("HTTP/1.1 404 Not Found\r\n"));

    let mut client = client_with_request("GET /dir/ HTTP/1.1\r\n\r\n");
    match client.write_step("/www", WriteEvent::Start) {
        WriteAction::CheckFile(p) => assert_eq!(p, "/www/dir/index.html"),
        other => panic!("{:?}", other),
    }
    client.write_step("/www", WriteEvent::FileChecked(None));
    assert!(text(client.write_buffer()).starts_with("HTTP/1.1 403 Forbidden\r\n"));
}

#[test]
fn partial_writes_resume() {
    let mut client = client_with_request("POST / HTTP/1.1\r\n\r\n");
    client.write_step("/", WriteEvent::Start);
    match client.write_step("/", WriteEvent::Written(Some(3))) {
        WriteAction::Return { state, close_file } => {
            assert_eq!(state, ClientState::WRITING);
            assert_eq!(close_file, None);
        }
        other => panic!("{:?}", other),
    }
    assert!(matches!(client.write_step("/", WriteEvent::Start), WriteAction::WriteSocket { from: 3 }));
}

#[test]
fn failed_write_closes_file() {
    let mut client = client_with_request("GET /a.css HTTP/1.1\r\n\r\n");
    client.write_step("/w", WriteEvent::Start);
    client.write_step("/w", WriteEvent::FileChecked(Some(1)));
    client.write_step("/w", WriteEvent::FileOpened(Some((4, 1))));
    assert!(text(client.write_buffer()).contains("Content-type: text/css\r\n"));
    match client.write_step("/w", WriteEvent::Written(None)) {
        WriteAction::Return { state, close_file } => {
            assert_eq!(state, ClientState::WRITING);
            assert_eq!(close_file, Some(4));
        }
        other => panic!("{:?}", other),
    }
}

#[test]
fn failed_open_fails() {
    let mut client = client_with_request("GET /a.gif HTTP/1.1\r\n\r\n");
    client.write_step("/w", WriteEvent::Start);
    client.write_step("/w", WriteEvent::FileChecked(Some(1)));
    assert!(matches!(client.write_step("/w", WriteEvent::FileOpened(None)), WriteAction::Fail));
    assert_eq!(client.state, ClientState::WRITING);
}

#[test]
fn big_file_goes_in_chunks() {
    let mut client = client_with_request("GET /big.jpg HTTP/1.1\r\n\r\n");
    client.write_step("/w", WriteEvent::Start);
    client.write_step("/w", WriteEvent::FileChecked(Some(600000)));
    client.write_step("/w", WriteEvent::FileOpened(Some((3, 600000))));
    let len = client.write_buffer().len();
    match client.write_step("/w", WriteEvent::Written(Some(len))) {
        WriteAction::SendFile { fd, offset, count } => assert_eq!((fd, offset, count), (3, 0, FILE_BUF)),
        other => panic!("{:?}", other),
    }
    match client.write_step("/w", WriteEvent::Sent(Some(FILE_BUF))) {
        WriteAction::Return { state, close_file } => {
            assert_eq!(state, ClientState::FILE_WRITING);
            assert_eq!(close_file, None);
        }
        other => panic!("{:?}", other),
    }
    match client.write_step("/w", WriteEvent::Start) {
        WriteAction::SendFile { fd, offset, count } => {
            assert_eq!((fd, offset, count), (3, FILE_BUF, 600000 - FILE_BUF))
        }
        other => panic!("{:?}", other),
    }
    assert!(matches!(
        client.write_step("/w", WriteEvent::Sent(None)),
        WriteAction::Return { state: ClientState::FILE_WRITING, close_file: None }
    ));
}

#[test]
fn found_file_without_extension_is_refused() {
    let mut client = client_with_request("GET /README HTTP/1.1\r\n\r\n");
    assert!(client.try_write_step("/w", WriteEvent::Start).is_some());
    assert!(client.try_write_step("/w", WriteEvent::FileChecked(Some(1))).is_none());
    assert!(matches!(
        client.try_write_step("/w", WriteEvent::FileChecked(None)),
        Some(WriteAction::WriteSocket { from: 0 })
    ));
}

#[test]
fn idle_client_reports_state() {
    let mut client = HttpClient::new(1, 1);
    assert!(matches!(
        client.write_step("/", WriteEvent::Start),
        WriteAction::Return { state: ClientState::READING, close_file: None }
    ));
}

#[test]
fn http_ext_table() {
    assert_eq!(HttpClient::get_http_ext("png"), "image/png");
    assert_eq!(HttpClient::get_http_ext("swf"), "application/x-shockwave-flash");
    assert_eq!(HttpClient::get_http_ext("gif"), "image/gif");
    assert_eq!(HttpClient::get_http_ext("css"), "text/css");
    assert_eq!(HttpClient::get_http_ext("js"), "text/javascript");
    assert_eq!(HttpClient::get_http_ext("jpg"), "image/jpeg");
    assert_eq!(HttpClient::get_http_ext("txt"), "text/plain");
    assert_eq!(HttpClient::get_http_ext("jpeg"), "image/jpeg");
    assert_eq!(HttpClient::get_http_ext("html"), "text/html");
    assert_eq!(HttpClient::get_http_ext("HTML"), "");
    assert_eq!(HttpClient::get_http_ext(""), "");
}

#[test]
fn create_response_part_cases() {
    let (resp, file) = HttpClient::create_response_part(Ok((7, "/w/a.js".to_string(), "js".to_string())), true);
    assert_eq!(resp.status, 200);
    assert!(resp.body_exist);
    assert_eq!(file, Some("/w/a.js".to_string()));
    let headers = resp.headers.as_ref().unwrap();
    assert_eq!(headers.len(), 2);
    assert_eq!(headers.entry(0), (&"Content-type".to_string(), &"text/javascript".to_string()));
    assert_eq!(headers.entry(1), (&"Content-Length".to_string(), &"7".to_string()));

    let (resp, file) = HttpClient::create_response_part(Ok((0, "/w/a".to_string(), "".to_string())), false);
    assert_eq!(resp.status, 200);
    assert!(!resp.body_exist);
    assert_eq!(file, None);

    let (resp, file) = HttpClient::create_response_part(Err(true), true);
    assert_eq!(resp.status, 403);
    assert_eq!(file, None);
    let (resp, _) = HttpClient::create_response_part(Err(false), true);
    assert_eq!(resp.status, 404);
}

#[test]
fn create_response_plans() {
    let get = HttpRequest::parse("GET /x/ HTTP/1.1\r\n\r\n").unwrap();
    match HttpClient::create_response(&get, "/root") {
        ResponsePlan::Lookup { full_path, is_dir, is_get } => {
            assert_eq!(full_path, "/root/x/index.html");
            assert!(is_dir);
            assert!(is_get);
        }
        ResponsePlan::Ready(_) => panic!("expected a lookup"),
    }
    let head = HttpRequest::parse("HEAD /x HTTP/1.1\r\n\r\n").unwrap();
    match HttpClient::create_response(&head, "/root") {
        ResponsePlan::Lookup { full_path, is_dir, is_get } => {
            assert_eq!(full_path, "/root/x");
            assert!(!is_dir);
            assert!(!is_get);
        }
        ResponsePlan::Ready(_) => panic!("expected a lookup"),
    }
    let put = HttpRequest::parse("PUT /x HTTP/1.1\r\n\r\n").unwrap();
    match HttpClient::create_response(&put, "/root") {
        ResponsePlan::Ready(resp) => assert_eq!(resp.status, 405),
        ResponsePlan::Lookup { .. } => panic!("expected a refusal"),
    }
}

#[test]
fn process_request_plans_or_refuses() {
    let client = HttpClient::new(1, 1);
    match client.process_request("/w") {
        ResponsePlan::Ready(resp) => assert_eq!(resp.status, 400),
        ResponsePlan::Lookup { .. } => panic!("expected a refusal"),
    }
    let client = client_with_request("GET /p.png HTTP/1.1\r\n\r\n");
    match client.process_request("/w") {
        ResponsePlan::Lookup { full_path, is_dir, is_get } => {
            assert_eq!(full_path, "/w/p.png");
            assert!(!is_dir);
            assert!(is_get);
        }
        ResponsePlan::Ready(_) => panic!("expected a lookup"),
    }
}
