//! One client connection: reading its request, choosing the response, and
//! sending the response head and the file.

use vstd::prelude::*;
use vstd::utf8::*;
use vstd::string::StringSliceAdditionalSpecFns;
use crate::text::{
    bytes_eq,
    decimal_digits,
    decimal_string,
    lemma_encode_utf8_injective,
    lemma_decimal_digits_ascii,
    lemma_ascii_is_utf8,
};
use crate::config_reader::reader::{all_digits, digits_value};
use crate::http::request::{HttpRequest, parse_request};
use crate::http::response::{
    HttpResponse,
    HeaderMap,
    ResponseView,
    status_only,
    response_bytes,
    rfc2822_shaped,
};
use crate::file_handler::handler::{
    FileHandler,
    has_parent_ref,
    names_dir,
    target_path,
    path_extension,
    lookup_result,
};

verus! {

broadcast use vstd::utf8::group_utf8_lib;

#[derive(PartialEq, Eq, Structural, Clone, Copy, Debug)]
#[allow(non_camel_case_types)]
pub enum ClientState {
    START,
    READING,
    REQUEST_READED,
    WRITING,
    RESPONSE_WRITED,
    OPENING_FILE,
    FILE_WRITING,
    FILE_WRITED,
    ERROR,
}

/// The most file bytes handed to one `sendfile` call.
pub const FILE_BUF: usize = 524288;

/// The size of the buffer that one socket read fills.
pub const READ_LEN: usize = 8192;

/// The content type that goes with a file extension.
pub open spec fn mime_type(ext: Seq<char>) -> Seq<char> {
    if ext == "png"@ {
        "image/png"@
    } else if ext == "swf"@ {
        "application/x-shockwave-flash"@
    } else if ext == "gif"@ {
        "image/gif"@
    } else if ext == "css"@ {
        "text/css"@
    } else if ext == "js"@ {
        "text/javascript"@
    } else if ext == "jpg"@ {
        "image/jpeg"@
    } else if ext == "txt"@ {
        "text/plain"@
    } else if ext == "jpeg"@ {
        "image/jpeg"@
    } else if ext == "html"@ {
        "text/html"@
    } else {
        Seq::empty()
    }
}

/// `Some(true)` for `GET`, `Some(false)` for `HEAD`, `None` for any other method.
pub open spec fn method_kind(method: Seq<char>) -> Option<bool> {
    if method == "GET"@ {
        Some(true)
    } else if method == "HEAD"@ {
        Some(false)
    } else {
        None
    }
}

/// A lookup result with its strings taken as characters.
pub open spec fn lookup_view(l: Result<(u64, String, String), bool>) -> Result<
    (u64, Seq<char>, Seq<char>),
    bool,
> {
    match l {
        Ok((n, p, e)) => Ok((n, p@, e@)),
        Err(d) => Err(d),
    }
}

/// The response to a lookup, and the file to send after it. A file found is
/// answered 200 with its content type and length, and sent only for `GET`; a
/// refused path is answered 403, a missing file 404.
pub open spec fn lookup_response(
    lookup: Result<(u64, Seq<char>, Seq<char>), bool>,
    is_get: bool,
) -> (ResponseView, Option<Seq<char>>) {
    match lookup {
        Ok((n, path, ext)) => (
            ResponseView {
                status: 200,
                headers: Some(
                    seq![
                        ("Content-type"@, mime_type(ext)),
                        ("Content-Length"@, decode_utf8(decimal_digits(n as nat))),
                    ],
                ),
                body_exist: is_get,
                connection: "Close"@,
            },
            if is_get {
                Some(path)
            } else {
                None
            },
        ),
        Err(true) => (status_only(403), None),
        Err(false) => (status_only(404), None),
    }
}

/// How a request is answered before the disk is asked anything.
pub enum PlanView {
    /// Answered at once.
    Ready(ResponseView),
    /// Answered once `path` is looked up.
    Check { path: Seq<char>, is_dir: bool, is_get: bool },
}

/// Only `GET` and `HEAD` are served (405 otherwise); a path holding `/..` is
/// refused (403); any other path is looked up under `root`.
pub open spec fn plan_response(method: Seq<char>, uri: Seq<char>, root: Seq<char>) -> PlanView {
    match method_kind(method) {
        None => PlanView::Ready(status_only(405)),
        Some(is_get) => if has_parent_ref(encode_utf8(uri)) {
            PlanView::Ready(status_only(403))
        } else {
            PlanView::Check { path: target_path(root, uri), is_dir: names_dir(uri), is_get: is_get }
        },
    }
}

/// How a request is answered before the disk is asked anything.
pub enum ResponsePlan {
    Ready(HttpResponse),
    Lookup { full_path: String, is_dir: bool, is_get: bool },
}

impl View for ResponsePlan {
    type V = PlanView;

    open spec fn view(&self) -> PlanView {
        match self {
            ResponsePlan::Ready(r) => PlanView::Ready(r@),
            ResponsePlan::Lookup { full_path, is_dir, is_get } => PlanView::Check {
                path: full_path@,
                is_dir: *is_dir,
                is_get: *is_get,
            },
        }
    }
}

/// Whether `s` spells the literal `lit`.
fn str_is(s: &str, lit: &str) -> (r: bool)
    ensures
        r == (s@ == lit@),
{
    let r = bytes_eq(s.as_bytes(), lit.as_bytes());
    proof {
        if r {
            lemma_encode_utf8_injective(s@, lit@);
        }
    }
    r
}

impl HttpClient {
    /// The content type that goes with a file extension.
    pub fn get_http_ext(file_ext: &str) -> (r: String)
        ensures
            r@ == mime_type(file_ext@),
    {
        if str_is(file_ext, "png") {
            "image/png".to_owned()
        } else if str_is(file_ext, "swf") {
            "application/x-shockwave-flash".to_owned()
        } else if str_is(file_ext, "gif") {
            "image/gif".to_owned()
        } else if str_is(file_ext, "css") {
            "text/css".to_owned()
        } else if str_is(file_ext, "js") {
            "text/javascript".to_owned()
        } else if str_is(file_ext, "jpg") {
            "image/jpeg".to_owned()
        } else if str_is(file_ext, "txt") {
            "text/plain".to_owned()
        } else if str_is(file_ext, "jpeg") {
            "image/jpeg".to_owned()
        } else if str_is(file_ext, "html") {
            "text/html".to_owned()
        } else {
            String::new()
        }
    }

    /// The response to a finished lookup, and the file to send after it.
    pub fn create_response_part(lookup: Result<(u64, String, String), bool>, is_get: bool) -> (r: (
        HttpResponse,
        Option<String>,
    ))
        ensures
            r.0@ == lookup_response(lookup_view(lookup), is_get).0,
            match (r.1, lookup_response(lookup_view(lookup), is_get).1) {
                (Some(p), Some(q)) => p@ == q,
                (None, None) => true,
                _ => false,
            },
    {
        match lookup {
            Ok(value) => {
                let (size, path, ext) = value;
                let mut headers = HeaderMap::new();
                let content_type_name = "Content-type".to_owned();
                let length_name = "Content-Length".to_owned();
                let type_value = HttpClient::get_http_ext(ext.as_str());
                let length_value = decimal_string(size);
                let ghost first = (content_type_name@, type_value@);
                let ghost second = (length_name@, length_value@);
                headers.insert(content_type_name, type_value);
                proof {
                    reveal_strlit("Content-type");
                    reveal_strlit("Content-Length");
                    assert(first.0 != second.0) by {
                        assert(first.0.len() != second.0.len());
                    }
                    assert(headers@ == seq![first]);
                    assert(crate::http::response::header_position(headers@, second.0) is None) by {
                        if exists|i: int| 0 <= i < headers@.len() && headers@[i].0 == second.0 {
                            let i = choose|i: int| 0 <= i < headers@.len() && headers@[i].0 == second.0;
                            assert(i == 0);
                        }
                    }
                }
                headers.insert(length_name, length_value);
                assert(headers@ == seq![first, second]);
                let file = if is_get {
                    Some(path)
                } else {
                    None
                };
                (HttpResponse::ok(headers, is_get), file)
            },
            Err(is_forbidden) => {
                if is_forbidden {
                    (HttpResponse::forbidden(), None)
                } else {
                    (HttpResponse::not_found(), None)
                }
            },
        }
    }

    /// How to answer a request with files under `root`: at once, or after a
    /// lookup. `GET` and `HEAD` look up the path, other methods are refused.
    pub fn create_response(req: &HttpRequest, root: &str) -> (r: ResponsePlan)
        ensures
            r@ == plan_response(req.method@, req.uri@, root@),
    {
        let is_get = if str_is(req.method.as_str(), "GET") {
            true
        } else if str_is(req.method.as_str(), "HEAD") {
            false
        } else {
            return ResponsePlan::Ready(HttpResponse::not_allowed());
        };
        let mut path_to_file = req.uri.clone();
        match FileHandler::locate(root, &mut path_to_file) {
            Some((full_path, is_dir)) => ResponsePlan::Lookup { full_path, is_dir, is_get },
            None => ResponsePlan::Ready(HttpResponse::forbidden()),
        }
    }
}

/// What a socket read gave.
pub enum ReadEvent {
    /// These bytes arrived; none means the peer closed its side.
    Received(Vec<u8>),
    /// The read failed; `would_block` when nothing more is available now.
    Failed { would_block: bool },
}

/// What to do after a socket read.
#[derive(PartialEq, Eq, Structural, Clone, Copy, Debug)]
pub enum ReadAction {
    /// Read again.
    ReadAgain,
    /// Stop reading and look at what arrived (`finish_read`).
    Finish,
    /// Stop and report this state.
    Return(ClientState),
}

/// What the outside world answered to the last `WriteAction`.
pub enum WriteEvent {
    /// A write of the response was requested.
    Start,
    /// The size of the file asked for by `CheckFile`, or `None` when it does not exist.
    FileChecked(Option<u64>),
    /// The descriptor and length of the file asked for by `OpenFile`, or `None`
    /// when it could not be opened.
    FileOpened(Option<(i32, u64)>),
    /// How many response bytes the socket took, or `None` on a write error.
    Written(Option<usize>),
    /// How many file bytes `sendfile` sent, or `None` on an error.
    Sent(Option<usize>),
}

/// What the outside world is asked to do next while writing a response.
#[derive(Debug)]
pub enum WriteAction {
    /// Report whether this file exists and its size.
    CheckFile(String),
    /// Open this file for reading and report its descriptor and size.
    OpenFile(String),
    /// Write the response bytes from this position on to the socket.
    WriteSocket { from: usize },
    /// Send `count` bytes of file `fd`, from `offset`, to the socket.
    SendFile { fd: i32, offset: usize, count: usize },
    /// Stop, closing `close_file` first when there is one, and report `state`.
    Return { state: ClientState, close_file: Option<i32> },
    /// Stop with the error of the failed open.
    Fail,
}

/// Where a response stands while the disk is consulted.
enum Stage {
    Idle,
    Checking { full_path: String, is_dir: bool, is_get: bool },
    Opening { file: String, response: HttpResponse },
}

pub enum StageView {
    Idle,
    Checking { full_path: Seq<char>, is_dir: bool, is_get: bool },
    Opening { file: Seq<char>, status: i32, headers: Seq<(Seq<char>, Seq<char>)> },
}

pub struct HttpClient {
    pub socket: i32,
    pub state: ClientState,
    interest: i32,
    req: Option<HttpRequest>,
    buffer_read: Vec<u8>,
    buffer_write: Vec<u8>,
    writed: usize,
    file_sended: usize,
    file_fd: i32,
    file_len: usize,
    need_send_file: bool,
    stage: Stage,
}

/// Everything a client holds.
pub struct ClientView {
    pub socket: i32,
    pub state: ClientState,
    pub interest: i32,
    /// The parsed request, as (method, path).
    pub req: Option<(Seq<char>, Seq<char>)>,
    pub buffer_read: Seq<u8>,
    pub buffer_write: Seq<u8>,
    pub writed: usize,
    pub file_sended: usize,
    pub file_fd: i32,
    pub file_len: usize,
    pub need_send_file: bool,
    pub stage: StageView,
}

impl View for HttpClient {
    type V = ClientView;

    closed spec fn view(&self) -> ClientView {
        ClientView {
            socket: self.socket,
            state: self.state,
            interest: self.interest,
            req: match self.req {
                Some(r) => Some((r.method@, r.uri@)),
                None => None,
            },
            buffer_read: self.buffer_read@,
            buffer_write: self.buffer_write@,
            writed: self.writed,
            file_sended: self.file_sended,
            file_fd: self.file_fd,
            file_len: self.file_len,
            need_send_file: self.need_send_file,
            stage: match self.stage {
                Stage::Idle => StageView::Idle,
                Stage::Checking { full_path, is_dir, is_get } => StageView::Checking {
                    full_path: full_path@,
                    is_dir,
                    is_get,
                },
                Stage::Opening { file, response } => StageView::Opening {
                    file: file@,
                    status: response.status,
                    headers: crate::http::response::headers_view(response.headers),
                },
            },
        }
    }
}

/// A client for a freshly accepted socket: reading, with nothing read, nothing
/// to write and no file.
pub open spec fn fresh_client(socket: i32, interest: i32) -> ClientView {
    ClientView {
        socket: socket,
        state: ClientState::READING,
        interest: interest,
        req: None,
        buffer_read: Seq::empty(),
        buffer_write: Seq::empty(),
        writed: 0,
        file_sended: 0,
        file_fd: 0,
        file_len: 0,
        need_send_file: false,
        stage: StageView::Idle,
    }
}

/// What every client keeps true: positions never pass the ends of what they
/// index; a request that was read is held until the response is begun; the
/// disk is consulted only while writing; the file is being sent only once the
/// response head is out; and a response counts as written only once the head
/// and the whole file are out.
pub open spec fn client_inv(c: ClientView) -> bool {
    &&& c.buffer_write.len() <= usize::MAX
    &&& c.writed <= c.buffer_write.len()
    &&& c.file_sended <= c.file_len
    &&& (c.state == ClientState::READING || c.state == ClientState::REQUEST_READED || c.state
        == ClientState::WRITING || c.state == ClientState::FILE_WRITING || c.state
        == ClientState::RESPONSE_WRITED)
    &&& c.state == ClientState::REQUEST_READED ==> c.req is Some
    &&& (c.state == ClientState::READING || c.state == ClientState::REQUEST_READED) ==> {
        &&& c.buffer_write.len() == 0
        &&& c.writed == 0
        &&& !c.need_send_file
        &&& c.file_sended == 0
        &&& c.file_len == 0
    }
    &&& !(c.stage is Idle) ==> c.state == ClientState::WRITING && !c.need_send_file
        && c.buffer_write.len() == 0 && c.writed == 0 && c.file_sended == 0 && c.file_len == 0
    &&& c.state == ClientState::FILE_WRITING ==> c.need_send_file && c.writed
        == c.buffer_write.len() && c.stage is Idle
    &&& c.state == ClientState::RESPONSE_WRITED ==> c.stage is Idle && c.writed
        == c.buffer_write.len() && (c.need_send_file ==> c.file_sended == c.file_len)
}

/// How a socket read changes a client and what follows it.
pub open spec fn read_transition(pre: ClientView, event: ReadEvent, post: ClientView, act: ReadAction) -> bool {
    match event {
        ReadEvent::Received(bytes) => {
            let buf = pre.buffer_read + bytes@;
            &&& post == ClientView { buffer_read: buf, ..pre }
            &&& act == if bytes@.len() == 0 && buf.len() == 0 {
                ReadAction::Return(ClientState::ERROR)
            } else if bytes@.len() == 0 {
                ReadAction::Finish
            } else {
                ReadAction::ReadAgain
            }
        },
        ReadEvent::Failed { would_block } => {
            &&& post == pre
            &&& act == if would_block {
                ReadAction::Finish
            } else {
                ReadAction::ReadAgain
            }
        },
    }
}

/// A request arriving in two pieces is kept as the two pieces joined: what a
/// client has read is everything received, in order.
pub proof fn law_reads_accumulate(
    pre: ClientView,
    first: ReadEvent,
    mid: ClientView,
    act1: ReadAction,
    second: ReadEvent,
    post: ClientView,
    act2: ReadAction,
)
    requires
        (first is Received),
        (second is Received),
        read_transition(pre, first, mid, act1),
        read_transition(mid, second, post, act2),
    ensures
        post.buffer_read == pre.buffer_read + (first->Received_0@ + second->Received_0@),
        post == (ClientView { buffer_read: post.buffer_read, ..pre }),
{
    let a = first->Received_0@;
    let b = second->Received_0@;
    assert(pre.buffer_read + a + b == pre.buffer_read + (a + b));
}

/// Whether an empty line (`\n\n` or `\r\n\r\n`) starts at position `i`.
pub open spec fn blank_line_at(b: Seq<u8>, i: int) -> bool {
    ||| 0 <= i && i + 1 < b.len() && b[i] == 10 && b[i + 1] == 10
    ||| 0 <= i && i + 3 < b.len() && b[i] == 13 && b[i + 1] == 10 && b[i + 2] == 13 && b[i + 3] == 10
}

/// Whether a request has come in whole: it holds an empty line.
pub open spec fn has_blank_line(b: Seq<u8>) -> bool {
    exists|i: int| #[trigger] blank_line_at(b, i)
}

/// How looking at what was read changes a client, and the state reported.
pub open spec fn finish_read_transition(pre: ClientView, post: ClientView, r: ClientState) -> bool {
    if !has_blank_line(pre.buffer_read) {
        r == ClientState::READING && post == pre
    } else {
        match parse_request(pre.buffer_read) {
            None => r == ClientState::ERROR && post == pre,
            Some((m, u)) => {
                &&& r == ClientState::REQUEST_READED
                &&& post.req matches Some((pm, pu)) && encode_utf8(pm) == m && encode_utf8(pu) == u
                &&& post == ClientView { state: ClientState::REQUEST_READED, req: post.req, ..pre }
            },
        }
    }
}

/// How many file bytes the next `sendfile` may send.
pub open spec fn send_count(c: ClientView) -> usize {
    if FILE_BUF < c.file_len - c.file_sended {
        FILE_BUF
    } else {
        (c.file_len - c.file_sended) as usize
    }
}

/// The headers of a response, none when it has none.
pub open spec fn headers_of(r: ResponseView) -> Seq<(Seq<char>, Seq<char>)> {
    match r.headers {
        Some(h) => h,
        None => Seq::empty(),
    }
}

/// Whether an event answers what the client last asked for: a lookup answers
/// `CheckFile`, an open `OpenFile`; a socket write reports at most the bytes it
/// was given, and `sendfile` at most the count it was given.
pub open spec fn write_event_fits(c: ClientView, event: WriteEvent) -> bool {
    match event {
        WriteEvent::Start => c.stage is Idle,
        WriteEvent::FileChecked(_) => c.stage is Checking,
        WriteEvent::FileOpened(_) => c.stage is Opening,
        WriteEvent::Written(res) => {
            &&& c.state == ClientState::WRITING
            &&& c.stage is Idle
            &&& res matches Some(n) ==> n <= c.buffer_write.len() - c.writed
        },
        WriteEvent::Sent(res) => {
            &&& c.state == ClientState::FILE_WRITING
            &&& res matches Some(n) ==> n <= send_count(c)
        },
    }
}

/// Whether an existing file that a lookup found has an extension.
pub open spec fn found_file_has_extension(c: ClientView, event: WriteEvent) -> bool {
    match (event, c.stage) {
        (WriteEvent::FileChecked(Some(_)), StageView::Checking { full_path, .. }) => path_extension(
            full_path,
        ) is Some,
        _ => true,
    }
}

/// One step of writing a response, with `date` the time the response head is
/// rendered at (when it is rendered in this step).
///
/// On `Start`: a client with a request begins the response; when it can be
/// answered at once its head is rendered and written, else the file is looked
/// up. A client already writing writes on, one sending the file sends on, and
/// any other reports its state.
/// On `FileChecked`: the lookup result decides the response; a file to send
/// is opened first, any other response is rendered and written.
/// On `FileOpened`: a failed open fails the write; else the head is rendered
/// and written, and the file follows.
/// On `Written`: once the head is all out, the file is sent, or the response
/// is complete; a failed write closes the file and reports `WRITING`.
/// On `Sent`: once the whole file is out the response is complete and the file
/// is closed; otherwise the client keeps sending.
pub open spec fn write_transition(
    pre: ClientView,
    root: Seq<char>,
    event: WriteEvent,
    post: ClientView,
    act: WriteAction,
    date: Seq<char>,
) -> bool {
    match event {
        WriteEvent::Start => if pre.state == ClientState::REQUEST_READED {
            let (m, u) = pre.req.unwrap();
            let base = ClientView { state: ClientState::WRITING, req: None, ..pre };
            match plan_response(m, u, root) {
                PlanView::Ready(rv) => {
                    &&& post == ClientView {
                        buffer_write: response_bytes(rv.status, headers_of(rv), date),
                        ..base
                    }
                    &&& act == WriteAction::WriteSocket { from: pre.writed }
                },
                PlanView::Check { path, is_dir, is_get } => {
                    &&& post == ClientView {
                        stage: StageView::Checking { full_path: path, is_dir: is_dir, is_get: is_get },
                        ..base
                    }
                    &&& act matches WriteAction::CheckFile(p) && p@ == path
                },
            }
        } else if pre.state == ClientState::WRITING {
            post == pre && act == WriteAction::WriteSocket { from: pre.writed }
        } else if pre.state == ClientState::FILE_WRITING {
            post == pre && act == WriteAction::SendFile {
                fd: pre.file_fd,
                offset: pre.file_sended,
                count: send_count(pre),
            }
        } else {
            post == pre && act == WriteAction::Return { state: pre.state, close_file: None }
        },
        WriteEvent::FileChecked(size) => match pre.stage {
            StageView::Checking { full_path, is_dir, is_get } => {
                let (rv, file) = lookup_response(lookup_result(full_path, is_dir, size), is_get);
                match file {
                    Some(f) => {
                        &&& post == ClientView {
                            stage: StageView::Opening {
                                file: f,
                                status: rv.status,
                                headers: headers_of(rv),
                            },
                            ..pre
                        }
                        &&& act matches WriteAction::OpenFile(p) && p@ == f
                    },
                    None => {
                        &&& post == ClientView {
                            stage: StageView::Idle,
                            buffer_write: response_bytes(rv.status, headers_of(rv), date),
                            ..pre
                        }
                        &&& act == WriteAction::WriteSocket { from: pre.writed }
                    },
                }
            },
            _ => false,
        },
        WriteEvent::FileOpened(res) => match pre.stage {
            StageView::Opening { file, status, headers } => match res {
                None => post == ClientView { stage: StageView::Idle, ..pre } && act
                    == WriteAction::Fail,
                Some((fd, len)) => {
                    &&& post == ClientView {
                        stage: StageView::Idle,
                        file_fd: fd,
                        file_len: len as usize,
                        buffer_write: response_bytes(status, headers, date),
                        need_send_file: true,
                        ..pre
                    }
                    &&& act == WriteAction::WriteSocket { from: pre.writed }
                },
            },
            _ => false,
        },
        WriteEvent::Written(res) => match res {
            Some(n) => {
                let w = (pre.writed + n) as usize;
                if w >= pre.buffer_write.len() {
                    if pre.need_send_file {
                        let mid = ClientView { writed: w, state: ClientState::FILE_WRITING, ..pre };
                        &&& post == mid
                        &&& act == WriteAction::SendFile {
                            fd: mid.file_fd,
                            offset: mid.file_sended,
                            count: send_count(mid),
                        }
                    } else {
                        &&& post == ClientView {
                            writed: w,
                            state: ClientState::RESPONSE_WRITED,
                            ..pre
                        }
                        &&& act == WriteAction::Return {
                            state: ClientState::RESPONSE_WRITED,
                            close_file: None,
                        }
                    }
                } else {
                    &&& post == ClientView { writed: w, ..pre }
                    &&& act == WriteAction::Return { state: ClientState::WRITING, close_file: None }
                }
            },
            None => {
                &&& post == pre
                &&& act == WriteAction::Return {
                    state: ClientState::WRITING,
                    close_file: if pre.need_send_file {
                        Some(pre.file_fd)
                    } else {
                        None
                    },
                }
            },
        },
        WriteEvent::Sent(res) => match res {
            Some(n) => {
                let sent = (pre.file_sended + n) as usize;
                if sent >= pre.file_len {
                    &&& post == ClientView {
                        file_sended: sent,
                        state: ClientState::RESPONSE_WRITED,
                        ..pre
                    }
                    &&& act == WriteAction::Return {
                        state: ClientState::RESPONSE_WRITED,
                        close_file: Some(pre.file_fd),
                    }
                } else {
                    &&& post == ClientView { file_sended: sent, ..pre }
                    &&& act == WriteAction::Return {
                        state: ClientState::FILE_WRITING,
                        close_file: None,
                    }
                }
            },
            None => {
                &&& post == pre
                &&& act == WriteAction::Return { state: ClientState::FILE_WRITING, close_file: None }
            },
        },
    }
}

/// A client reports its response written only once the whole head and, when
/// there is one, the whole file have gone out.
pub proof fn law_written_means_complete(c: ClientView)
    requires
        client_inv(c),
        c.state == ClientState::RESPONSE_WRITED,
    ensures
        c.writed == c.buffer_write.len(),
        c.need_send_file ==> c.file_sended == c.file_len,
{
}

/// While a response is written, the bytes sent of the head and of the file only
/// grow.
pub proof fn law_write_progress_never_goes_back(
    pre: ClientView,
    root: Seq<char>,
    event: WriteEvent,
    post: ClientView,
    act: WriteAction,
    date: Seq<char>,
)
    requires
        client_inv(pre),
        write_event_fits(pre, event),
        write_transition(pre, root, event, post, act, date),
    ensures
        post.writed >= pre.writed,
        post.file_sended >= pre.file_sended,
{
}

/// Every `sendfile` asks for the bytes right after those already sent, at most
/// `FILE_BUF` of them, and never past the end of the file.
pub proof fn law_send_stays_in_file(
    pre: ClientView,
    root: Seq<char>,
    event: WriteEvent,
    post: ClientView,
    act: WriteAction,
    date: Seq<char>,
)
    requires
        client_inv(pre),
        write_event_fits(pre, event),
        write_transition(pre, root, event, post, act, date),
        act is SendFile,
    ensures
        act matches WriteAction::SendFile { fd, offset, count } && fd == post.file_fd && offset
            == post.file_sended && count <= FILE_BUF && offset + count <= post.file_len,
{
}

/// Over a step of writing, the state only moves forward: a request read
/// begins writing, writing the head moves on to sending the file or to done,
/// sending the file moves on to done; otherwise it stays.
pub proof fn law_write_states_move_forward(
    pre: ClientView,
    root: Seq<char>,
    event: WriteEvent,
    post: ClientView,
    act: WriteAction,
    date: Seq<char>,
)
    requires
        client_inv(pre),
        write_event_fits(pre, event),
        write_transition(pre, root, event, post, act, date),
    ensures
        post.state == pre.state || (pre.state == ClientState::REQUEST_READED && post.state
            == ClientState::WRITING) || (pre.state == ClientState::WRITING && (post.state
            == ClientState::FILE_WRITING || post.state == ClientState::RESPONSE_WRITED)) || (
        pre.state == ClientState::FILE_WRITING && post.state == ClientState::RESPONSE_WRITED),
        act matches WriteAction::Return { state, .. } ==> state == post.state,
{
}

/// The step that completes a response reports it written and closes the file
/// that was sent, if there was one.
pub proof fn law_completion_closes_file(
    pre: ClientView,
    root: Seq<char>,
    event: WriteEvent,
    post: ClientView,
    act: WriteAction,
    date: Seq<char>,
)
    requires
        client_inv(pre),
        write_event_fits(pre, event),
        write_transition(pre, root, event, post, act, date),
        pre.state != ClientState::RESPONSE_WRITED,
        post.state == ClientState::RESPONSE_WRITED,
    ensures
        act == (WriteAction::Return {
            state: ClientState::RESPONSE_WRITED,
            close_file: if post.need_send_file {
                Some(post.file_fd)
            } else {
                None
            },
        }),
        post.writed == post.buffer_write.len(),
        post.need_send_file ==> post.file_sended == post.file_len,
{
}

/// One step of writing as it happened: the event that came in, the client after
/// it, the action it asked for, and the time a head rendered in it carries.
pub struct WriteStepView {
    pub event: WriteEvent,
    pub post: ClientView,
    pub act: WriteAction,
    pub date: Seq<char>,
}

/// Whether `steps` is a run of writing from `pre`: each event answers the
/// action before it, each step moves the client as `write_transition` says,
/// and every client on the way is well formed.
pub open spec fn write_run(pre: ClientView, root: Seq<char>, steps: Seq<WriteStepView>) -> bool
    decreases steps.len(),
{
    steps.len() == 0 || {
        &&& write_event_fits(pre, steps[0].event)
        &&& write_transition(pre, root, steps[0].event, steps[0].post, steps[0].act, steps[0].date)
        &&& client_inv(steps[0].post)
        &&& write_run(steps[0].post, root, steps.drop_first())
    }
}

/// The client at the end of a run.
pub open spec fn run_end(pre: ClientView, steps: Seq<WriteStepView>) -> ClientView {
    if steps.len() == 0 {
        pre
    } else {
        steps.last().post
    }
}

/// Where a state stands in answering a request: request read, writing the
/// head, sending the file, done; -1 for any state before that.
pub open spec fn answer_rank(s: ClientState) -> int {
    if s == ClientState::REQUEST_READED {
        0
    } else if s == ClientState::WRITING {
        1
    } else if s == ClientState::FILE_WRITING {
        2
    } else if s == ClientState::RESPONSE_WRITED {
        3
    } else {
        -1
    }
}

/// Whether a client may get from state `a` to state `b` while answering.
pub open spec fn moves_forward(a: ClientState, b: ClientState) -> bool {
    a == b || 0 <= answer_rank(a) < answer_rank(b)
}

/// Over any run of writing, from a request read to writing the head, sending
/// the file and done, the state only moves forward, and the bytes sent of the
/// head and of the file only grow.
pub proof fn law_write_runs_move_forward(pre: ClientView, root: Seq<char>, steps: Seq<WriteStepView>)
    requires
        client_inv(pre),
        write_run(pre, root, steps),
    ensures
        client_inv(run_end(pre, steps)),
        moves_forward(pre.state, run_end(pre, steps).state),
        run_end(pre, steps).writed >= pre.writed,
        run_end(pre, steps).file_sended >= pre.file_sended,
    decreases steps.len(),
{
    if steps.len() > 0 {
        let s0 = steps[0];
        let rest = steps.drop_first();
        law_write_states_move_forward(pre, root, s0.event, s0.post, s0.act, s0.date);
        law_write_progress_never_goes_back(pre, root, s0.event, s0.post, s0.act, s0.date);
        law_write_runs_move_forward(s0.post, root, rest);
        if rest.len() > 0 {
            assert(rest.last() == steps.last());
        }
    }
}

/// A run of writing from a client that is done changes nothing.
proof fn lemma_done_run_stays(c: ClientView, root: Seq<char>, steps: Seq<WriteStepView>)
    requires
        client_inv(c),
        c.state == ClientState::RESPONSE_WRITED,
        write_run(c, root, steps),
    ensures
        run_end(c, steps) == c,
    decreases steps.len(),
{
    if steps.len() > 0 {
        let rest = steps.drop_first();
        lemma_done_run_stays(steps[0].post, root, rest);
        if rest.len() > 0 {
            assert(rest.last() == steps.last());
        }
    }
}

/// Over any run of writing, a client reports its response written only once
/// the whole head has gone to the socket and, when a file is served, the whole
/// file too; one step of the run reports it written and closes that file.
pub proof fn law_write_runs_complete(pre: ClientView, root: Seq<char>, steps: Seq<WriteStepView>)
    requires
        client_inv(pre),
        write_run(pre, root, steps),
        pre.state != ClientState::RESPONSE_WRITED,
        run_end(pre, steps).state == ClientState::RESPONSE_WRITED,
    ensures
        ({
            let end = run_end(pre, steps);
            &&& end.writed == end.buffer_write.len()
            &&& end.need_send_file ==> end.file_sended == end.file_len
            &&& exists|i: int|
                0 <= i < steps.len() && #[trigger] steps[i].act == (WriteAction::Return {
                    state: ClientState::RESPONSE_WRITED,
                    close_file: if end.need_send_file {
                        Some(end.file_fd)
                    } else {
                        None
                    },
                })
        }),
    decreases steps.len(),
{
    let s0 = steps[0];
    let rest = steps.drop_first();
    let end = run_end(pre, steps);
    if rest.len() > 0 {
        assert(rest.last() == steps.last());
    }
    if s0.post.state == ClientState::RESPONSE_WRITED {
        law_completion_closes_file(pre, root, s0.event, s0.post, s0.act, s0.date);
        lemma_done_run_stays(s0.post, root, rest);
        assert(end == s0.post);
        assert(steps[0].act == s0.act);
    } else {
        law_write_runs_complete(s0.post, root, rest);
        let j = choose|j: int|
            0 <= j < rest.len() && #[trigger] rest[j].act == (WriteAction::Return {
                state: ClientState::RESPONSE_WRITED,
                close_file: if end.need_send_file {
                    Some(end.file_fd)
                } else {
                    None
                },
            });
        assert(steps[j + 1] == rest[j]);
    }
    law_write_runs_move_forward(pre, root, steps);
    law_written_means_complete(end);
}

/// While file bytes remain, each `sendfile` asks for the bytes right after
/// those already sent: a full `FILE_BUF` of them, or exactly all that remain
/// when fewer do; never nothing, and never past the end of the file.
pub proof fn law_send_asks_for_next_chunk(
    pre: ClientView,
    root: Seq<char>,
    event: WriteEvent,
    post: ClientView,
    act: WriteAction,
    date: Seq<char>,
)
    requires
        client_inv(pre),
        write_event_fits(pre, event),
        write_transition(pre, root, event, post, act, date),
        act is SendFile,
    ensures
        act matches WriteAction::SendFile { fd, offset, count } && {
            &&& offset == post.file_sended
            &&& count <= FILE_BUF
            &&& offset + count <= post.file_len
            &&& (count == FILE_BUF || offset + count == post.file_len)
            &&& offset < post.file_len ==> count > 0
        },
{
}

/// A `sendfile` that sends all it was asked moves the file on by that much: by
/// a full `FILE_BUF` while more than that remained, and otherwise to its end,
/// which completes the response; so full sends go through the whole file.
pub proof fn law_full_sends_advance(
    pre: ClientView,
    root: Seq<char>,
    e1: WriteEvent,
    mid: ClientView,
    fd: i32,
    offset: usize,
    count: usize,
    d1: Seq<char>,
    post: ClientView,
    act: WriteAction,
    d2: Seq<char>,
)
    requires
        client_inv(pre),
        write_event_fits(pre, e1),
        write_transition(pre, root, e1, mid, WriteAction::SendFile { fd, offset, count }, d1),
        write_transition(mid, root, WriteEvent::Sent(Some(count)), post, act, d2),
    ensures
        post.file_sended == offset + count,
        post.file_len == mid.file_len,
        mid.file_len - mid.file_sended > FILE_BUF ==> post.file_sended == mid.file_sended + FILE_BUF
            && post.state == ClientState::FILE_WRITING,
        mid.file_len - mid.file_sended <= FILE_BUF ==> post.file_sended == post.file_len
            && post.state == ClientState::RESPONSE_WRITED && act == (WriteAction::Return {
            state: ClientState::RESPONSE_WRITED,
            close_file: Some(fd),
        }),
{
}

/// A found file is answered 200, and its `Content-Length` header holds the
/// file's size in decimal digits that read back to exactly that size.
pub proof fn law_content_length_is_size(n: u64, path: Seq<char>, ext: Seq<char>, is_get: bool)
    ensures
        ({
            let r = lookup_response(Ok((n, path, ext)), is_get).0;
            &&& r.status == 200
            &&& r.headers is Some
            &&& exists|i: int|
                0 <= i < r.headers.unwrap().len() && (#[trigger] r.headers.unwrap()[i]).0
                    == "Content-Length"@
            &&& forall|i: int|
                0 <= i < r.headers.unwrap().len() && (#[trigger] r.headers.unwrap()[i]).0
                    == "Content-Length"@ ==> {
                    let v = encode_utf8(r.headers.unwrap()[i].1);
                    &&& v.len() > 0
                    &&& all_digits(v)
                    &&& digits_value(v) == n
                }
        }),
{
    let r = lookup_response(Ok((n, path, ext)), is_get).0;
    let h = r.headers.unwrap();
    let digits = decimal_digits(n as nat);
    lemma_decimal_digits_ascii(n as nat);
    lemma_ascii_is_utf8(digits);
    lemma_digits_read_back(n as nat);
    reveal_strlit("Content-type");
    reveal_strlit("Content-Length");
    assert(h[0].0 != h[1].0) by {
        assert(h[0].0.len() != h[1].0.len());
    }
    assert(encode_utf8(h[1].1) == digits);
    assert(h[1].0 == "Content-Length"@);
}

/// Decimal digits read back to the number they were written from.
proof fn lemma_digits_read_back(n: nat)
    ensures
        digits_value(decimal_digits(n)) == n,
        all_digits(decimal_digits(n)),
    decreases n,
{
    lemma_decimal_digits_ascii(n);
    if n >= 10 {
        lemma_digits_read_back(n / 10);
        let d = decimal_digits(n);
        assert(d.drop_last() == decimal_digits(n / 10));
        assert(d.last() == (48 + n % 10) as u8);
        assert((d.last() - 48) as nat == n % 10);
        assert(digits_value(d) == digits_value(d.drop_last()) * 10 + (d.last() - 48) as nat);
        assert((n / 10) * 10 + n % 10 == n) by (nonlinear_arith);
    } else {
        let d = decimal_digits(n);
        assert(d.drop_last() == Seq::<u8>::empty());
        assert(digits_value(d) == digits_value(d.drop_last()) * 10 + (d.last() - 48) as nat);
    }
}

/// A `HEAD` request is answered without a file.
pub proof fn law_head_sends_no_file(lookup: Result<(u64, Seq<char>, Seq<char>), bool>)
    ensures
        lookup_response(lookup, false).1 is None,
        !lookup_response(lookup, false).0.body_exist,
{
}

/// Only `GET` and `HEAD` are served: any other method is answered 405 without
/// a lookup.
pub proof fn law_other_methods_refused(method: Seq<char>, uri: Seq<char>, root: Seq<char>)
    requires
        method != "GET"@,
        method != "HEAD"@,
    ensures
        plan_response(method, uri, root) == PlanView::Ready(status_only(405)),
{
}

/// A path that steps up with `/..` is refused (403) without a lookup; any path
/// that is looked up lies under the document root.
pub proof fn law_lookups_stay_under_root(method: Seq<char>, uri: Seq<char>, root: Seq<char>)
    requires
        method_kind(method) is Some,
    ensures
        has_parent_ref(encode_utf8(uri)) ==> plan_response(method, uri, root) == PlanView::Ready(
            status_only(403),
        ),
        plan_response(method, uri, root) matches PlanView::Check { path, .. } ==> path.subrange(
            0,
            root.len() as int,
        ) == root && !has_parent_ref(encode_utf8(uri)),
{
    if !has_parent_ref(encode_utf8(uri)) {
        let path = target_path(root, uri);
        if uri.len() > 0 && uri.last() == '/' {
            assert(path.subrange(0, root.len() as int) == root);
        } else {
            assert(path.subrange(0, root.len() as int) == root);
        }
    }
}

/// A date of the shape a rendered head carries, for steps that render none.
spec fn unused_date() -> Seq<char> {
    Seq::new(30, |i: int| ' ')
}

proof fn lemma_unused_date_shaped()
    ensures
        rfc2822_shaped(unused_date()),
{
}

impl HttpClient {
    pub open spec fn wf(&self) -> bool {
        client_inv(self@)
    }

    /// A client for a freshly accepted socket, waiting for its request.
    pub fn new(client: i32, interest: i32) -> (r: HttpClient)
        ensures
            r.wf(),
            r@ == fresh_client(client, interest),
    {
        HttpClient {
            socket: client,
            state: ClientState::READING,
            interest: interest,
            req: None,
            buffer_read: Vec::new(),
            buffer_write: Vec::new(),
            writed: 0,
            file_sended: 0,
            file_fd: 0,
            file_len: 0,
            need_send_file: false,
            stage: Stage::Idle,
        }
    }

    /// Takes in the outcome of one socket read. Arrived bytes are kept; reading
    /// goes on until the socket has nothing more or the peer closed its side,
    /// and a peer that closes before sending anything is an error.
    pub fn read_step(&mut self, event: ReadEvent) -> (r: ReadAction)
        requires
            old(self).wf(),
            old(self)@.state == ClientState::READING || old(self)@.state
                == ClientState::REQUEST_READED,
        ensures
            final(self).wf(),
            read_transition(old(self)@, event, final(self)@, r),
    {
        match event {
            ReadEvent::Received(bytes) => {
                let size = bytes.len();
                let mut i: usize = 0;
                let ghost start = self.buffer_read@;
                while i < size
                    invariant
                        size == bytes@.len(),
                        i <= size,
                        self.buffer_read@ == start + bytes@.subrange(0, i as int),
                        self@ == (ClientView { buffer_read: self.buffer_read@, ..old(self)@ }),
                    decreases size - i,
                {
                    self.buffer_read.push(bytes[i]);
                    assert(bytes@.subrange(0, i + 1) == bytes@.subrange(0, i as int).push(bytes@[i as int]));
                    i = i + 1;
                }
                assert(bytes@.subrange(0, size as int) == bytes@);
                if size == 0 && self.buffer_read.len() == 0 {
                    ReadAction::Return(ClientState::ERROR)
                } else if size == 0 {
                    ReadAction::Finish
                } else {
                    ReadAction::ReadAgain
                }
            },
            ReadEvent::Failed { would_block } => {
                if would_block {
                    ReadAction::Finish
                } else {
                    ReadAction::ReadAgain
                }
            },
        }
    }

    /// Whether what has been read so far is UTF-8 text.
    pub fn read_buffer_is_text(&self) -> (r: bool)
        ensures
            r == valid_utf8(self@.buffer_read),
    {
        core::str::from_utf8(self.buffer_read.as_slice()).is_ok()
    }

    /// Looks at what has been read: an incomplete request (no blank line yet)
    /// keeps the client reading; a complete one is parsed, and kept when it
    /// parses.
    pub fn finish_read(&mut self) -> (r: ClientState)
        requires
            old(self).wf(),
            old(self)@.state == ClientState::READING || old(self)@.state
                == ClientState::REQUEST_READED,
            valid_utf8(old(self)@.buffer_read),
        ensures
            final(self).wf(),
            finish_read_transition(old(self)@, final(self)@, r),
    {
        let b = self.buffer_read.as_slice();
        let n = b.len();
        let mut i: usize = 0;
        let mut found = false;
        while i < n && !found
            invariant
                n == b@.len(),
                b@ == self@.buffer_read,
                self@ == old(self)@,
                i <= n,
                !found ==> forall|k: int| 0 <= k < i ==> !#[trigger] blank_line_at(b@, k),
                found ==> has_blank_line(b@),
            decreases n - i + (if found { 0int } else { 1int }),
        {
            if (n - i >= 2 && b[i] == 10 && b[i + 1] == 10) || (n - i >= 4 && b[i] == 13 && b[i + 1]
                == 10 && b[i + 2] == 13 && b[i + 3] == 10) {
                assert(blank_line_at(b@, i as int));
                found = true;
            } else {
                i = i + 1;
            }
        }
        if !found {
            assert(!has_blank_line(b@)) by {
                if exists|k: int| #[trigger] blank_line_at(b@, k) {
                    let k = choose|k: int| #[trigger] blank_line_at(b@, k);
                    assert(0 <= k < n);
                }
            }
            return ClientState::READING;
        }
        let text = match core::str::from_utf8(b) {
            Ok(t) => t,
            Err(_) => return ClientState::ERROR,
        };
        match HttpRequest::parse(text) {
            Ok(request) => self.req = Some(request),
            Err(_) => return ClientState::ERROR,
        }
        self.state = ClientState::REQUEST_READED;
        ClientState::REQUEST_READED
    }

    fn send_file_action(&self) -> (r: WriteAction)
        requires
            self.wf(),
        ensures
            r == (WriteAction::SendFile {
                fd: self@.file_fd,
                offset: self@.file_sended,
                count: send_count(self@),
            }),
    {
        let need_to_send = self.file_len - self.file_sended;
        let to_send = if FILE_BUF < need_to_send {
            FILE_BUF
        } else {
            need_to_send
        };
        WriteAction::SendFile { fd: self.file_fd, offset: self.file_sended, count: to_send }
    }

    /// Takes one step of writing the response, serving files under `root`;
    /// the event answers the action of the previous step (`Start` begins).
    pub fn write_step(&mut self, root: &str, event: WriteEvent) -> (r: WriteAction)
        requires
            old(self).wf(),
            write_event_fits(old(self)@, event),
            found_file_has_extension(old(self)@, event),
        ensures
            final(self).wf(),
            exists|date: Seq<char>|
                rfc2822_shaped(date) && write_transition(old(self)@, root@, event, final(self)@, r, date),
    {
        match event {
            WriteEvent::Start => self.start_writing(root),
            WriteEvent::FileChecked(size) => self.file_checked(root, size),
            WriteEvent::FileOpened(res) => self.file_opened(root, res),
            WriteEvent::Written(res) => self.written(root, res),
            WriteEvent::Sent(res) => self.sent(root, res),
        }
    }

    fn start_writing(&mut self, root: &str) -> (r: WriteAction)
        requires
            old(self).wf(),
            write_event_fits(old(self)@, WriteEvent::Start),
        ensures
            final(self).wf(),
            exists|date: Seq<char>|
                rfc2822_shaped(date) && write_transition(old(self)@, root@, WriteEvent::Start, final(self)@, r, date),
    {
        proof {
            lemma_unused_date_shaped();
        }
        let ghost pre = self@;
        let ghost event = WriteEvent::Start;
        if self.state == ClientState::REQUEST_READED {
            self.state = ClientState::WRITING;
            let req = match self.req.take() {
                Some(req) => req,
                None => {
                    assert(false);
                    return WriteAction::Fail;
                },
            };
            match HttpClient::create_response(&req, root) {
                ResponsePlan::Ready(resp) => {
                    let mut resp = resp;
                    let ghost rv = resp@;
                    let bytes = resp.to_vec_response();
                    let ghost date = choose|d: Seq<char>|
                        rfc2822_shaped(d) && bytes@ == response_bytes(rv.status, headers_of(rv), d);
                    // the head's length is a usize
                    let _ = bytes.len();
                    self.buffer_write = bytes;
                    let act = WriteAction::WriteSocket { from: self.writed };
                    assert(write_transition(pre, root@, event, self@, act, date));
                    act
                },
                ResponsePlan::Lookup { full_path, is_dir, is_get } => {
                    let asked = full_path.clone();
                    self.stage = Stage::Checking { full_path, is_dir, is_get };
                    let act = WriteAction::CheckFile(asked);
                    assert(write_transition(pre, root@, event, self@, act, unused_date()));
                    act
                },
            }
        } else if self.state == ClientState::WRITING {
            let act = WriteAction::WriteSocket { from: self.writed };
            assert(write_transition(pre, root@, event, self@, act, unused_date()));
            act
        } else if self.state == ClientState::FILE_WRITING {
            let act = self.send_file_action();
            assert(write_transition(pre, root@, event, self@, act, unused_date()));
            act
        } else {
            let act = WriteAction::Return { state: self.state, close_file: None };
            assert(write_transition(pre, root@, event, self@, act, unused_date()));
            act
        }
    }

    fn file_checked(&mut self, root: &str, size: Option<u64>) -> (r: WriteAction)
        requires
            old(self).wf(),
            write_event_fits(old(self)@, WriteEvent::FileChecked(size)),
            found_file_has_extension(old(self)@, WriteEvent::FileChecked(size)),
        ensures
            final(self).wf(),
            exists|date: Seq<char>|
                rfc2822_shaped(date) && write_transition(
                    old(self)@,
                    root@,
                    WriteEvent::FileChecked(size),
                    final(self)@,
                    r,
                    date,
                ),
    {
        proof {
            lemma_unused_date_shaped();
        }
        let ghost pre = self@;
        let ghost event = WriteEvent::FileChecked(size);
        let mut stage = Stage::Idle;
        std::mem::swap(&mut stage, &mut self.stage);
        match stage {
            Stage::Checking { full_path, is_dir, is_get } => {
                let lookup = FileHandler::finish_lookup(full_path, is_dir, size);
                let (resp, file) = HttpClient::create_response_part(lookup, is_get);
                match file {
                    Some(f) => {
                        let asked = f.clone();
                        self.stage = Stage::Opening { file: f, response: resp };
                        let act = WriteAction::OpenFile(asked);
                        assert(write_transition(pre, root@, event, self@, act, unused_date()));
                        act
                    },
                    None => {
                        let mut resp = resp;
                        let ghost rv = resp@;
                        let bytes = resp.to_vec_response();
                        let ghost date = choose|d: Seq<char>|
                            rfc2822_shaped(d) && bytes@ == response_bytes(rv.status, headers_of(rv), d);
                        // the head's length is a usize
                        let _ = bytes.len();
                        self.buffer_write = bytes;
                        let act = WriteAction::WriteSocket { from: self.writed };
                        assert(write_transition(pre, root@, event, self@, act, date));
                        act
                    },
                }
            },
            _ => {
                assert(false);
                WriteAction::Fail
            },
        }
    }

    fn file_opened(&mut self, root: &str, res: Option<(i32, u64)>) -> (r: WriteAction)
        requires
            old(self).wf(),
            write_event_fits(old(self)@, WriteEvent::FileOpened(res)),
        ensures
            final(self).wf(),
            exists|date: Seq<char>|
                rfc2822_shaped(date) && write_transition(old(self)@, root@, WriteEvent::FileOpened(res), final(self)@, r, date),
    {
        proof {
            lemma_unused_date_shaped();
        }
        let ghost pre = self@;
        let ghost event = WriteEvent::FileOpened(res);
        let mut stage = Stage::Idle;
        std::mem::swap(&mut stage, &mut self.stage);
        match stage {
            Stage::Opening { file: _, response } => match res {
                None => {
                    let act = WriteAction::Fail;
                    assert(write_transition(pre, root@, event, self@, act, unused_date()));
                    act
                },
                Some((fd, len)) => {
                    let mut response = response;
                    let ghost status = response.status;
                    let ghost headers = crate::http::response::headers_view(response.headers);
                    self.file_fd = fd;
                    self.file_len = len as usize;
                    let bytes = response.to_vec_response();
                    let ghost date = choose|d: Seq<char>|
                        rfc2822_shaped(d) && bytes@ == response_bytes(status, headers, d);
                    // the head's length is a usize
                    let _ = bytes.len();
                    self.buffer_write = bytes;
                    self.need_send_file = true;
                    let act = WriteAction::WriteSocket { from: self.writed };
                    assert(write_transition(pre, root@, event, self@, act, date));
                    act
                },
            },
            _ => {
                assert(false);
                WriteAction::Fail
            },
        }
    }

    fn written(&mut self, root: &str, res: Option<usize>) -> (r: WriteAction)
        requires
            old(self).wf(),
            write_event_fits(old(self)@, WriteEvent::Written(res)),
        ensures
            final(self).wf(),
            exists|date: Seq<char>|
                rfc2822_shaped(date) && write_transition(old(self)@, root@, WriteEvent::Written(res), final(self)@, r, date),
    {
        proof {
            lemma_unused_date_shaped();
        }
        let ghost pre = self@;
        let ghost event = WriteEvent::Written(res);
        match res {
            Some(n) => {
                let blen = self.buffer_write.len();
                assert(n <= blen - self.writed);
                self.writed = self.writed + n;
                if self.writed >= blen {
                    if self.need_send_file {
                        self.state = ClientState::FILE_WRITING;
                        let act = self.send_file_action();
                        assert(write_transition(pre, root@, event, self@, act, unused_date()));
                        act
                    } else {
                        self.state = ClientState::RESPONSE_WRITED;
                        let act = WriteAction::Return {
                            state: ClientState::RESPONSE_WRITED,
                            close_file: None,
                        };
                        assert(write_transition(pre, root@, event, self@, act, unused_date()));
                        act
                    }
                } else {
                    let act = WriteAction::Return { state: ClientState::WRITING, close_file: None };
                    assert(write_transition(pre, root@, event, self@, act, unused_date()));
                    act
                }
            },
            None => {
                let close_file = if self.need_send_file {
                    Some(self.file_fd)
                } else {
                    None
                };
                let act = WriteAction::Return { state: ClientState::WRITING, close_file };
                assert(write_transition(pre, root@, event, self@, act, unused_date()));
                act
            },
        }
    }

    fn sent(&mut self, root: &str, res: Option<usize>) -> (r: WriteAction)
        requires
            old(self).wf(),
            write_event_fits(old(self)@, WriteEvent::Sent(res)),
        ensures
            final(self).wf(),
            exists|date: Seq<char>|
                rfc2822_shaped(date) && write_transition(old(self)@, root@, WriteEvent::Sent(res), final(self)@, r, date),
    {
        proof {
            lemma_unused_date_shaped();
        }
        let ghost pre = self@;
        let ghost event = WriteEvent::Sent(res);
        match res {
            Some(n) => {
                self.file_sended = self.file_sended + n;
                if self.file_sended >= self.file_len {
                    self.state = ClientState::RESPONSE_WRITED;
                    let act = WriteAction::Return {
                        state: ClientState::RESPONSE_WRITED,
                        close_file: Some(self.file_fd),
                    };
                    assert(write_transition(pre, root@, event, self@, act, unused_date()));
                    act
                } else {
                    let act = WriteAction::Return { state: ClientState::FILE_WRITING, close_file: None };
                    assert(write_transition(pre, root@, event, self@, act, unused_date()));
                    act
                }
            },
            None => {
                let act = WriteAction::Return { state: ClientState::FILE_WRITING, close_file: None };
                assert(write_transition(pre, root@, event, self@, act, unused_date()));
                act
            },
        }
    }

    /// Like `write_step`, but answers `None` when a lookup found a file that
    /// has no extension, and leaves the client unchanged then.
    pub fn try_write_step(&mut self, root: &str, event: WriteEvent) -> (r: Option<WriteAction>)
        requires
            old(self).wf(),
            write_event_fits(old(self)@, event),
        ensures
            final(self).wf(),
            r is None <==> !found_file_has_extension(old(self)@, event),
            r is None ==> final(self)@ == old(self)@,
            r matches Some(act) ==> exists|date: Seq<char>|
                rfc2822_shaped(date) && write_transition(old(self)@, root@, event, final(self)@, act, date),
    {
        let checks_found_file = match (&event, &self.stage) {
            (WriteEvent::FileChecked(Some(_)), Stage::Checking { .. }) => true,
            _ => false,
        };
        if checks_found_file {
            let has_extension = match &self.stage {
                Stage::Checking { full_path, .. } => FileHandler::has_extension(full_path.as_str()),
                _ => true,
            };
            if !has_extension {
                return None;
            }
        }
        Some(self.write_step(root, event))
    }

    /// How the request that was read is to be answered; a client without one
    /// is answered 400.
    pub fn process_request(&self, root: &str) -> (r: ResponsePlan)
        ensures
            match self@.req {
                Some((m, u)) => r@ == plan_response(m, u, root@),
                None => r@ == PlanView::Ready(status_only(400)),
            },
    {
        match self.req {
            Some(ref http_request) => HttpClient::create_response(http_request, root),
            None => ResponsePlan::Ready(HttpResponse::bad_request()),
        }
    }

    /// The response bytes prepared for the socket.
    pub fn write_buffer(&self) -> (r: &Vec<u8>)
        ensures
            r@ == self@.buffer_write,
    {
        &self.buffer_write
    }
}

} // verus!
