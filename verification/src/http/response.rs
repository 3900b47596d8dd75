//! HTTP responses and their rendering to bytes.

use vstd::prelude::*;
use vstd::utf8::*;
use vstd::string::StringSliceAdditionalSpecFns;
use crate::text::{decimal_signed, push_decimal_signed, append_bytes, lemma_encode_utf8_concat};

verus! {

broadcast use vstd::utf8::group_utf8_lib;

/// Header names and values of a response, kept in insertion order; no name
/// occurs twice.
#[derive(Debug)]
pub struct HeaderMap {
    entries: Vec<(String, String)>,
}

/// The headers as (name, value) pairs of characters.
pub open spec fn entries_view(entries: Seq<(String, String)>) -> Seq<(Seq<char>, Seq<char>)> {
    entries.map_values(|e: (String, String)| (e.0@, e.1@))
}

/// No header name occurs twice.
pub open spec fn distinct_names(h: Seq<(Seq<char>, Seq<char>)>) -> bool {
    forall|i: int, j: int| 0 <= i < j < h.len() ==> #[trigger] h[i].0 != #[trigger] h[j].0
}

/// The position of header `name`, if present.
pub open spec fn header_position(h: Seq<(Seq<char>, Seq<char>)>, name: Seq<char>) -> Option<int> {
    if exists|i: int| 0 <= i < h.len() && h[i].0 == name {
        Some(choose|i: int| 0 <= i < h.len() && h[i].0 == name)
    } else {
        None
    }
}

/// The value of header `name`, if present.
pub open spec fn header_value(h: Seq<(Seq<char>, Seq<char>)>, name: Seq<char>) -> Option<Seq<char>> {
    match header_position(h, name) {
        Some(i) => Some(h[i].1),
        None => None,
    }
}

/// The headers after setting `name` to `value`: a header already present keeps
/// its place, a new one goes last.
pub open spec fn header_set(h: Seq<(Seq<char>, Seq<char>)>, name: Seq<char>, value: Seq<char>) -> Seq<
    (Seq<char>, Seq<char>),
> {
    match header_position(h, name) {
        Some(i) => h.update(i, (name, value)),
        None => h.push((name, value)),
    }
}

/// With distinct names, a header is found exactly where it stands.
pub proof fn lemma_header_position(h: Seq<(Seq<char>, Seq<char>)>, i: int)
    requires
        distinct_names(h),
        0 <= i < h.len(),
    ensures
        header_position(h, h[i].0) == Some(i),
{
    let name = h[i].0;
    let j = choose|j: int| 0 <= j < h.len() && h[j].0 == name;
    if j != i {
        if j < i {
            assert(h[j].0 != h[i].0);
        } else {
            assert(h[i].0 != h[j].0);
        }
    }
}

/// Reading a header after setting it gives the value set; every other header
/// reads as before, and no name comes to occur twice.
pub proof fn law_header_set_then_read(
    h: Seq<(Seq<char>, Seq<char>)>,
    name: Seq<char>,
    value: Seq<char>,
    other: Seq<char>,
)
    requires
        distinct_names(h),
    ensures
        distinct_names(header_set(h, name, value)),
        header_value(header_set(h, name, value), name) == Some(value),
        other != name ==> header_value(header_set(h, name, value), other) == header_value(h, other),
{
    let h2 = header_set(h, name, value);
    match header_position(h, name) {
        Some(i) => {
            assert(0 <= i < h.len() && h[i].0 == name);
            assert(h2[i] == (name, value));
            assert(distinct_names(h2)) by {
                assert forall|a: int, b: int| 0 <= a < b < h2.len() implies #[trigger] h2[a].0
                    != #[trigger] h2[b].0 by {
                    assert(h2[a].0 == h[a].0);
                    assert(h2[b].0 == h[b].0);
                }
            }
            lemma_header_position(h2, i);
        },
        None => {
            assert(forall|j: int| 0 <= j < h.len() ==> h[j].0 != name);
            assert(distinct_names(h2)) by {
                assert forall|a: int, b: int| 0 <= a < b < h2.len() implies #[trigger] h2[a].0
                    != #[trigger] h2[b].0 by {
                    if b == h.len() {
                        assert(h2[a] == h[a]);
                    } else {
                        assert(h2[a] == h[a]);
                        assert(h2[b] == h[b]);
                    }
                }
            }
            lemma_header_position(h2, h.len() as int);
        },
    }
    if other != name {
        let found = exists|j: int| 0 <= j < h.len() && h[j].0 == other;
        if found {
            let j = choose|j: int| 0 <= j < h.len() && h[j].0 == other;
            lemma_header_position(h, j);
            assert(h2[j] == h[j]);
            lemma_header_position(h2, j);
        } else {
            assert(!exists|j: int| 0 <= j < h2.len() && h2[j].0 == other) by {
                if exists|j: int| 0 <= j < h2.len() && h2[j].0 == other {
                    let j = choose|j: int| 0 <= j < h2.len() && h2[j].0 == other;
                    if j < h.len() {
                        assert(h2[j].0 == h[j].0);
                    }
                }
            }
        }
    }
}

impl View for HeaderMap {
    type V = Seq<(Seq<char>, Seq<char>)>;

    closed spec fn view(&self) -> Seq<(Seq<char>, Seq<char>)> {
        entries_view(self.entries@)
    }
}

impl HeaderMap {
    #[verifier::type_invariant]
    closed spec fn names_are_distinct(self) -> bool {
        distinct_names(entries_view(self.entries@))
    }

    pub fn new() -> (r: HeaderMap)
        ensures
            r@ == Seq::<(Seq<char>, Seq<char>)>::empty(),
    {
        let r = HeaderMap { entries: Vec::new() };
        assert(r@ =~= Seq::<(Seq<char>, Seq<char>)>::empty());
        r
    }

    /// Sets header `key` to `value`. A header already present keeps its place and
    /// its old value is returned; a new one goes last.
    pub fn insert(&mut self, key: String, value: String) -> (r: Option<String>)
        ensures
            distinct_names(final(self)@),
            final(self)@ == header_set(old(self)@, key@, value@),
            match header_position(old(self)@, key@) {
                Some(i) => r matches Some(v) && v@ == old(self)@[i].1,
                None => r is None,
            },
    {
        proof {
            use_type_invariant(&*self);
        }
        let ghost h = old(self)@;
        let mut entries: Vec<(String, String)> = Vec::new();
        std::mem::swap(&mut entries, &mut self.entries);
        assert(entries_view(entries@) == h);
        let mut i: usize = 0;
        let n = entries.len();
        while i < n
            invariant
                n == entries@.len(),
                h == old(self)@,
                h == entries_view(entries@),
                h.len() == n,
                distinct_names(h),
                i <= n,
                forall|k: int| 0 <= k < i ==> h[k].0 != key@,
            decreases n - i,
        {
            if entries[i].0 == key {
                let old_value = entries[i].1.clone();
                let ghost pre = entries@;
                proof {
                    assert(h[i as int].0 == key@);
                    assert(header_position(h, key@) == Some(i as int)) by {
                        let j = choose|j: int| 0 <= j < h.len() && h[j].0 == key@;
                        if j != i as int {
                            if j < i {
                                assert(h[j].0 != key@);
                            } else {
                                assert(h[i as int].0 != h[j].0);
                            }
                        }
                    }
                    let post = pre.update(i as int, (key, value));
                    assert(entries_view(post) =~= h.update(i as int, (key@, value@)));
                    assert(distinct_names(entries_view(post)));
                }
                entries.set(i, (key, value));
                self.entries = entries;
                return Some(old_value);
            }
            i = i + 1;
        }
        proof {
            assert(header_position(h, key@) is None);
            let post = entries@.push((key, value));
            assert(entries_view(post) =~= h.push((key@, value@)));
            assert(distinct_names(entries_view(post)));
        }
        entries.push((key, value));
        self.entries = entries;
        None
    }

    /// The header at position `i`.
    pub fn entry(&self, i: usize) -> (r: (&String, &String))
        requires
            i < self@.len(),
        ensures
            r.0@ == self@[i as int].0,
            r.1@ == self@[i as int].1,
    {
        (&self.entries[i].0, &self.entries[i].1)
    }

    pub fn len(&self) -> (r: usize)
        ensures
            r == self@.len(),
    {
        self.entries.len()
    }
}

/// The header values that a response carries, as pairs of characters.
pub open spec fn headers_view(h: Option<HeaderMap>) -> Seq<(Seq<char>, Seq<char>)> {
    match h {
        Some(m) => m@,
        None => Seq::empty(),
    }
}

#[derive(Debug)]
pub struct HttpResponse {
    pub status: i32,
    pub headers: Option<HeaderMap>,
    pub body_exist: bool,
    pub connection: String,
}

/// The contents of a response.
pub struct ResponseView {
    pub status: i32,
    pub headers: Option<Seq<(Seq<char>, Seq<char>)>>,
    pub body_exist: bool,
    pub connection: Seq<char>,
}

impl View for HttpResponse {
    type V = ResponseView;

    open spec fn view(&self) -> ResponseView {
        ResponseView {
            status: self.status,
            headers: match self.headers {
                Some(h) => Some(h@),
                None => None,
            },
            body_exist: self.body_exist,
            connection: self.connection@,
        }
    }
}

/// A response made of a status alone, with no headers and no body.
pub open spec fn status_only(status: i32) -> ResponseView {
    ResponseView { status: status, headers: None, body_exist: false, connection: "Close"@ }
}

/// The reason phrase that follows a status code.
pub open spec fn reason_phrase(status: i32) -> Seq<char> {
    if status == 200 {
        "Ok"@
    } else if status == 400 {
        "Bad request"@
    } else if status == 403 {
        "Forbidden"@
    } else if status == 404 {
        "Not Found"@
    } else if status == 405 {
        "Method not allowed"@
    } else {
        "ERR"@
    }
}

/// `HTTP/1.1 <status> <reason>` and a line end.
pub open spec fn status_line(status: i32) -> Seq<u8> {
    "HTTP/1.1 ".spec_bytes() + decimal_signed(status as int) + " ".spec_bytes() + encode_utf8(
        reason_phrase(status),
    ) + "\r\n".spec_bytes()
}

/// One `name: value` line per header, in order.
pub open spec fn header_lines(h: Seq<(Seq<char>, Seq<char>)>) -> Seq<u8>
    decreases h.len(),
{
    if h.len() == 0 {
        Seq::empty()
    } else {
        header_lines(h.drop_last()) + encode_utf8(h.last().0) + ": ".spec_bytes() + encode_utf8(
            h.last().1,
        ) + "\r\n".spec_bytes()
    }
}

/// The full head of a response sent at `date`: status line, the server, date and
/// connection lines, the given headers, and the blank line that ends the head.
pub open spec fn response_bytes(
    status: i32,
    headers: Seq<(Seq<char>, Seq<char>)>,
    date: Seq<char>,
) -> Seq<u8> {
    status_line(status) + "Server: Mavri \r\nDate: ".spec_bytes() + encode_utf8(date)
        + "\r\nConnection: Closed\r\n".spec_bytes() + header_lines(headers) + "\r\n".spec_bytes()
}

/// An ASCII character is encoded as its own code.
proof fn lemma_encode_ascii_char(c: char)
    requires
        (c as u32) < 0x80,
    ensures
        encode_utf8(seq![c]) == seq![(c as u32) as u8],
{
    let v = c as u32;
    assert((v & 0x7F) as u8 == v as u8) by (bit_vector)
        requires
            v < 0x80,
    ;
    assert(seq![c].drop_first() == Seq::<char>::empty());
    assert(encode_scalar(v) == seq![v as u8]);
    assert(encode_utf8(Seq::<char>::empty()) == Seq::<u8>::empty());
    assert(encode_utf8(seq![c]) == encode_scalar(v) + encode_utf8(seq![c].drop_first()));
    assert(seq![v as u8] + Seq::<u8>::empty() == seq![v as u8]);
}

proof fn lemma_crlf_bytes()
    ensures
        "\r\n".spec_bytes() == seq![13u8, 10u8],
{
    reveal_strlit("\r\n");
    assert("\r\n"@ == seq!['\r'] + seq!['\n']);
    lemma_encode_utf8_concat(seq!['\r'], seq!['\n']);
    lemma_encode_ascii_char('\r');
    lemma_encode_ascii_char('\n');
}

proof fn lemma_connection_line_ends_with_crlf()
    ensures
        ({
            let f = "\r\nConnection: Closed\r\n".spec_bytes();
            f.len() >= 2 && f.subrange(f.len() - 2, f.len() as int) == seq![13u8, 10u8]
        }),
{
    reveal_strlit("\r\nConnection: Closed\r\n");
    reveal_strlit("\r\n");
    let front = "\r\nConnection: Closed\r\n"@.subrange(0, 20);
    assert("\r\nConnection: Closed\r\n"@ == front + "\r\n"@);
    lemma_encode_utf8_concat(front, "\r\n"@);
    lemma_crlf_bytes();
    let f = "\r\nConnection: Closed\r\n".spec_bytes();
    assert(f == encode_utf8(front) + seq![13u8, 10u8]);
    assert(f.subrange(f.len() - 2, f.len() as int) == seq![13u8, 10u8]);
}

/// The head of every response starts with `HTTP/1.1 ` and ends with an empty
/// line, so the peer can tell where it stops.
pub proof fn law_head_is_framed(status: i32, headers: Seq<(Seq<char>, Seq<char>)>, date: Seq<char>)
    ensures
        response_bytes(status, headers, date).subrange(0, "HTTP/1.1 ".spec_bytes().len() as int)
            == "HTTP/1.1 ".spec_bytes(),
        ({
            let b = response_bytes(status, headers, date);
            b.len() >= 4 && b.subrange(b.len() - 4, b.len() as int) == seq![13u8, 10u8, 13u8, 10u8]
        }),
{
    lemma_crlf_bytes();
    lemma_connection_line_ends_with_crlf();
    let crlf = "\r\n".spec_bytes();
    let fixed = "\r\nConnection: Closed\r\n".spec_bytes();
    let lines = header_lines(headers);
    let before = status_line(status) + "Server: Mavri \r\nDate: ".spec_bytes() + encode_utf8(date)
        + fixed;
    let b = response_bytes(status, headers, date);
    assert(b == before + lines + crlf);
    if headers.len() == 0 {
        assert(lines == Seq::<u8>::empty());
        assert(b.subrange(b.len() - 4, b.len() as int) == fixed.subrange(
            fixed.len() - 2,
            fixed.len() as int,
        ) + crlf);
    } else {
        let last = headers.last();
        let front = header_lines(headers.drop_last()) + encode_utf8(last.0) + ": ".spec_bytes()
            + encode_utf8(last.1);
        assert(lines == front + crlf);
        assert(b.subrange(b.len() - 4, b.len() as int) == crlf + crlf);
    }
    let head = "HTTP/1.1 ".spec_bytes();
    assert(b.subrange(0, head.len() as int) == head);
}

/// The shape of the text that chrono's `DateTime::to_rfc2822` writes, as in
/// `Tue, 1 Jul 2003 10:52:37 +0200`: 30 or 31 printable ASCII characters (the
/// day of the month takes one digit or two).
pub open spec fn rfc2822_shaped(d: Seq<char>) -> bool {
    &&& (d.len() == 30 || d.len() == 31)
    &&& forall|i: int| 0 <= i < d.len() ==> 0x20 <= (#[trigger] d[i]) as u32 <= 0x7e
}

/// The current local time from `chrono::Local::now()`, rendered by chrono's
/// `DateTime::to_rfc2822`. Its source writes a three-letter weekday, `, `, the
/// day in one or two digits, a space, a three-letter month, a space, four year
/// digits, a space, `hh:mm:ss`, a space, and the offset as a sign and four
/// digits; that shape is all that is claimed. Which time it gives depends on
/// the clock and the time zone of the machine and is left unsaid.
#[verifier::external_body]
fn local_date_rfc2822() -> (r: String)
    ensures
        rfc2822_shaped(r@),
{
    chrono::Local::now().to_rfc2822()
}

fn reason_text(status: i32) -> (r: &'static str)
    ensures
        r@ == reason_phrase(status),
{
    if status == 200 {
        "Ok"
    } else if status == 400 {
        "Bad request"
    } else if status == 403 {
        "Forbidden"
    } else if status == 404 {
        "Not Found"
    } else if status == 405 {
        "Method not allowed"
    } else {
        "ERR"
    }
}

impl HttpResponse {
    pub fn new_empty() -> (r: HttpResponse)
        ensures
            r.status == 200,
            r.headers is None,
            !r.body_exist,
            r.connection@ == "Close"@,
    {
        HttpResponse { status: 200, headers: None, body_exist: false, connection: "Close".to_owned() }
    }

    pub fn new(status: i32, headers: Option<HeaderMap>) -> (r: HttpResponse)
        ensures
            r.status == status,
            r.headers == headers,
            !r.body_exist,
            r.connection@ == "Close"@,
    {
        HttpResponse { status: status, headers: headers, body_exist: false, connection: "Close".to_owned() }
    }

    pub fn ok(headers: HeaderMap, body_exist: bool) -> (r: HttpResponse)
        ensures
            r.status == 200,
            r.headers == Some(headers),
            r.body_exist == body_exist,
            r.connection@ == "Close"@,
    {
        HttpResponse {
            status: 200,
            headers: Some(headers),
            body_exist: body_exist,
            connection: "Close".to_owned(),
        }
    }

    pub fn bad_request() -> (r: HttpResponse)
        ensures
            r.status == 400,
            r.headers is None,
            !r.body_exist,
            r.connection@ == "Close"@,
    {
        HttpResponse { status: 400, headers: None, body_exist: false, connection: "Close".to_owned() }
    }

    pub fn forbidden() -> (r: HttpResponse)
        ensures
            r.status == 403,
            r.headers is None,
            !r.body_exist,
            r.connection@ == "Close"@,
    {
        HttpResponse { status: 403, headers: None, body_exist: false, connection: "Close".to_owned() }
    }

    pub fn not_found() -> (r: HttpResponse)
        ensures
            r.status == 404,
            r.headers is None,
            !r.body_exist,
            r.connection@ == "Close"@,
    {
        HttpResponse { status: 404, headers: None, body_exist: false, connection: "Close".to_owned() }
    }

    pub fn not_allowed() -> (r: HttpResponse)
        ensures
            r.status == 405,
            r.headers is None,
            !r.body_exist,
            r.connection@ == "Close"@,
    {
        HttpResponse { status: 405, headers: None, body_exist: false, connection: "Close".to_owned() }
    }

    pub fn set_status(&mut self, status: i32)
        ensures
            final(self).status == status,
            final(self).headers == old(self).headers,
            final(self).body_exist == old(self).body_exist,
            final(self).connection == old(self).connection,
    {
        self.status = status;
    }

    pub fn set_body_exist(&mut self, body_exist: bool)
        ensures
            final(self).status == old(self).status,
            final(self).headers == old(self).headers,
            final(self).body_exist == body_exist,
            final(self).connection == old(self).connection,
    {
        self.body_exist = body_exist;
    }

    pub fn set_headers(&mut self, headers: HeaderMap)
        ensures
            final(self).status == old(self).status,
            final(self).headers == Some(headers),
            final(self).body_exist == old(self).body_exist,
            final(self).connection == old(self).connection,
    {
        self.headers = Some(headers);
    }

    pub fn set_connection(&mut self, connection: String)
        ensures
            final(self).status == old(self).status,
            final(self).headers == old(self).headers,
            final(self).body_exist == old(self).body_exist,
            final(self).connection == connection,
    {
        self.connection = connection;
    }

    /// Renders the head of the response as sent at `date`. The headers are
    /// consumed: the response holds none afterwards.
    pub fn render(&mut self, date: &str) -> (r: Vec<u8>)
        ensures
            r@ == response_bytes(old(self).status, headers_view(old(self).headers), date@),
            final(self).status == old(self).status,
            final(self).headers is None,
            final(self).body_exist == old(self).body_exist,
            final(self).connection == old(self).connection,
    {
        let mut out: Vec<u8> = Vec::new();
        append_bytes(&mut out, "HTTP/1.1 ".as_bytes());
        push_decimal_signed(&mut out, self.status as i64);
        append_bytes(&mut out, " ".as_bytes());
        append_bytes(&mut out, reason_text(self.status).as_bytes());
        append_bytes(&mut out, "\r\n".as_bytes());
        assert(out@ == status_line(self.status));
        append_bytes(&mut out, "Server: Mavri \r\nDate: ".as_bytes());
        append_bytes(&mut out, date.as_bytes());
        append_bytes(&mut out, "\r\nConnection: Closed\r\n".as_bytes());
        let ghost head = out@;
        let headers = self.headers.take();
        let ghost hv = headers_view(headers);
        match headers {
            Some(map) => {
                let n = map.len();
                let mut i: usize = 0;
                while i < n
                    invariant
                        n == map@.len(),
                        hv == map@,
                        i <= n,
                        out@ == head + header_lines(map@.subrange(0, i as int)),
                    decreases n - i,
                {
                    let (key, val) = map.entry(i);
                    append_bytes(&mut out, key.as_str().as_bytes());
                    append_bytes(&mut out, ": ".as_bytes());
                    append_bytes(&mut out, val.as_str().as_bytes());
                    append_bytes(&mut out, "\r\n".as_bytes());
                    proof {
                        let s = map@.subrange(0, i + 1);
                        assert(s.drop_last() == map@.subrange(0, i as int));
                        assert(s.last() == map@[i as int]);
                    }
                    i = i + 1;
                }
                assert(map@.subrange(0, n as int) == map@);
            },
            None => {
                assert(header_lines(hv) == Seq::<u8>::empty());
            },
        }
        append_bytes(&mut out, "\r\n".as_bytes());
        out
    }

    /// Renders the head of the response with the current local date. The headers
    /// are consumed: the response holds none afterwards.
    pub fn to_vec_response(&mut self) -> (r: Vec<u8>)
        ensures
            exists|date: Seq<char>|
                rfc2822_shaped(date) && r@ == response_bytes(
                    old(self).status,
                    headers_view(old(self).headers),
                    date,
                ),
            final(self).status == old(self).status,
            final(self).headers is None,
            final(self).body_exist == old(self).body_exist,
            final(self).connection == old(self).connection,
    {
        let date = local_date_rfc2822();
        self.render(date.as_str())
    }
}

} // verus!
