//! Parsing of the request line of an HTTP request.

use vstd::prelude::*;
use vstd::utf8::*;
use vstd::string::StringSliceAdditionalSpecFns;
use crate::text::{index_of, lemma_index_of, find_byte, string_from_utf8, lemma_cut_before_ascii};

verus! {

broadcast use vstd::utf8::group_utf8_lib;

pub struct HttpRequest {
    pub uri: String,
    pub method: String,
}

pub const SPACE: u8 = 32;

pub const QUESTION: u8 = 63;

pub const PERCENT: u8 = 37;

pub const CR: u8 = 13;

pub const LF: u8 = 10;

/// The value given to one character of a `%XY` escape. Letters `a`-`e` (either
/// case) count as 10-14; every other byte counts as its distance from `'0'`,
/// wrapping below zero.
pub open spec fn hex_value(b: u8) -> u8 {
    if b == 0x61 || b == 0x41 {
        10
    } else if b == 0x62 || b == 0x42 {
        11
    } else if b == 0x63 || b == 0x43 {
        12
    } else if b == 0x64 || b == 0x44 {
        13
    } else if b == 0x65 || b == 0x45 {
        14
    } else {
        b.wrapping_sub(0x30)
    }
}

/// The byte that the escape `%` `hi` `lo` stands for.
pub open spec fn escaped_byte(hi: u8, lo: u8) -> u8 {
    hex_value(lo) | (hex_value(hi) << 4u8)
}

/// Percent-decoding of a URL path: `None` when a `%` is followed by fewer than
/// two bytes.
pub open spec fn percent_decode(s: Seq<u8>) -> Option<Seq<u8>>
    decreases s.len(),
{
    if s.len() == 0 {
        Some(Seq::empty())
    } else if s[0] == PERCENT {
        if s.len() < 3 {
            None
        } else {
            match percent_decode(s.subrange(3, s.len() as int)) {
                Some(rest) => Some(seq![escaped_byte(s[1], s[2])] + rest),
                None => None,
            }
        }
    } else {
        match percent_decode(s.subrange(1, s.len() as int)) {
            Some(rest) => Some(seq![s[0]] + rest),
            None => None,
        }
    }
}

/// The decoded URL as text: the percent-decoded bytes, when they are UTF-8.
pub open spec fn decoded_url(s: Seq<u8>) -> Option<Seq<u8>> {
    match percent_decode(s) {
        Some(d) => if valid_utf8(d) {
            Some(d)
        } else {
            None
        },
        None => None,
    }
}

/// The position of the first CR LF pair at or after `from`; the length when none.
pub open spec fn find_crlf(b: Seq<u8>, from: int) -> int
    decreases b.len() - from,
{
    if from + 1 >= b.len() {
        b.len() as int
    } else if b[from] == CR && b[from + 1] == LF {
        from
    } else {
        find_crlf(b, from + 1)
    }
}

/// The first line of a request: everything before the first CR LF.
pub open spec fn request_line(b: Seq<u8>) -> Seq<u8> {
    b.subrange(0, find_crlf(b, 0))
}

/// Where the path of a request target ends: at its first space or `?`.
pub open spec fn path_end(t: Seq<u8>, from: int) -> int
    decreases t.len() - from,
{
    if from >= t.len() {
        t.len() as int
    } else if t[from] == SPACE || t[from] == QUESTION {
        from
    } else {
        path_end(t, from + 1)
    }
}

/// What a request parses to, as (method bytes, decoded path bytes). The request
/// line must hold at least two spaces; the method is what precedes the first,
/// the target what lies between the first and the second, and its path (the
/// target up to a `?`) must percent-decode to UTF-8.
pub open spec fn parse_request(b: Seq<u8>) -> Option<(Seq<u8>, Seq<u8>)> {
    let line = request_line(b);
    let sp1 = index_of(line, SPACE, 0);
    let sp2 = index_of(line, SPACE, sp1 + 1);
    if sp1 >= line.len() || sp2 >= line.len() {
        None
    } else {
        let target = line.subrange(sp1 + 1, sp2);
        match decoded_url(target.subrange(0, path_end(target, 0))) {
            Some(d) => Some((line.subrange(0, sp1), d)),
            None => None,
        }
    }
}

/// A path without `%` decodes to itself.
pub proof fn law_plain_path_decodes_to_itself(s: Seq<u8>)
    requires
        forall|i: int| 0 <= i < s.len() ==> s[i] != PERCENT,
    ensures
        percent_decode(s) == Some(s),
    decreases s.len(),
{
    if s.len() > 0 {
        let rest = s.subrange(1, s.len() as int);
        law_plain_path_decodes_to_itself(rest);
        assert(seq![s[0]] + rest == s);
    }
}

/// An escape whose two characters are hexadecimal digits (`0`-`9`, `a`-`e`,
/// `A`-`E`) decodes to the byte they spell.
pub proof fn law_escape_spells_byte(hi: u8, lo: u8)
    requires
        hex_value(hi) < 16,
        hex_value(lo) < 16,
    ensures
        escaped_byte(hi, lo) == hex_value(hi) * 16 + hex_value(lo),
{
    let h = hex_value(hi);
    let l = hex_value(lo);
    assert(l | (h << 4u8) == h * 16 + l) by (bit_vector)
        requires
            h < 16,
            l < 16,
    ;
}

/// The character that spells a digit value in an escape: `0`-`9`, then
/// `a`-`e` (or `A`-`E` when `upper`).
pub open spec fn hex_char(v: u8, upper: bool) -> u8 {
    if v < 10 {
        (48 + v) as u8
    } else if upper {
        (65 + v - 10) as u8
    } else {
        (97 + v - 10) as u8
    }
}

/// `s` with each byte that `escape` marks written as `%` and its two hex
/// digits, in capitals where `upper` marks it.
pub open spec fn escape_bytes(s: Seq<u8>, escape: Seq<bool>, upper: Seq<bool>) -> Seq<u8>
    decreases s.len(),
{
    if s.len() == 0 {
        Seq::empty()
    } else {
        (if escape[0] {
            seq![PERCENT, hex_char(s[0] >> 4u8, upper[0]), hex_char(s[0] & 15u8, upper[0])]
        } else {
            seq![s[0]]
        }) + escape_bytes(s.drop_first(), escape.drop_first(), upper.drop_first())
    }
}

proof fn lemma_hex_char(v: u8, upper: bool)
    requires
        v < 15,
    ensures
        hex_value(hex_char(v, upper)) == v,
{
}

/// Escaping any chosen bytes as `%XY` (each in small letters or capitals) and
/// decoding gives them back, as long as every `%` is escaped and no escaped
/// byte needs the digit `f` (which decoding does not read as 15).
pub proof fn law_escapes_decode_back(s: Seq<u8>, escape: Seq<bool>, upper: Seq<bool>)
    requires
        escape.len() == s.len(),
        upper.len() == s.len(),
        forall|i: int| 0 <= i < s.len() && s[i] == PERCENT ==> escape[i],
        forall|i: int| 0 <= i < s.len() && escape[i] ==> (s[i] >> 4u8) < 15 && (s[i] & 15u8) < 15,
    ensures
        percent_decode(escape_bytes(s, escape, upper)) == Some(s),
        valid_utf8(s) ==> decoded_url(escape_bytes(s, escape, upper)) == Some(s),
    decreases s.len(),
{
    if s.len() > 0 {
        let rest = s.drop_first();
        let rest_flags = escape.drop_first();
        assert forall|i: int| 0 <= i < rest.len() && rest[i] == PERCENT implies rest_flags[i] by {
            assert(rest[i] == s[i + 1]);
        }
        assert forall|i: int| 0 <= i < rest.len() && rest_flags[i] implies (rest[i] >> 4u8) < 15
            && (rest[i] & 15u8) < 15 by {
            assert(rest[i] == s[i + 1]);
        }
        law_escapes_decode_back(rest, rest_flags, upper.drop_first());
        let tail = escape_bytes(rest, rest_flags, upper.drop_first());
        let e = escape_bytes(s, escape, upper);
        let b = s[0];
        if escape[0] {
            let hi = b >> 4u8;
            let lo = b & 15u8;
            lemma_hex_char(hi, upper[0]);
            lemma_hex_char(lo, upper[0]);
            assert(lo | (hi << 4u8) == b) by (bit_vector)
                requires
                    hi == b >> 4u8,
                    lo == b & 15u8,
            ;
            assert(e.subrange(3, e.len() as int) == tail);
            assert(seq![b] + rest == s);
        } else {
            assert(e.subrange(1, e.len() as int) == tail);
            assert(seq![b] + rest == s);
        }
    }
}

/// Only the request line is read: what follows its first CR LF never changes
/// how a request parses.
pub proof fn law_parse_reads_request_line(line: Seq<u8>, a: Seq<u8>, b: Seq<u8>)
    requires
        forall|i: int| 0 <= i && i + 1 < line.len() ==> !(#[trigger] line[i] == CR && line[i + 1] == LF),
    ensures
        parse_request(line + seq![CR, LF] + a) == parse_request(line + seq![CR, LF] + b),
        request_line(line + seq![CR, LF] + a) == line,
{
    lemma_crlf_after_line(line, a, 0);
    lemma_crlf_after_line(line, b, 0);
    assert((line + seq![CR, LF] + a).subrange(0, line.len() as int) == line);
    assert((line + seq![CR, LF] + b).subrange(0, line.len() as int) == line);
}

proof fn lemma_crlf_after_line(line: Seq<u8>, x: Seq<u8>, from: int)
    requires
        0 <= from <= line.len(),
        forall|i: int| 0 <= i && i + 1 < line.len() ==> !(#[trigger] line[i] == CR && line[i + 1] == LF),
    ensures
        find_crlf(line + seq![CR, LF] + x, from) == line.len(),
    decreases line.len() - from,
{
    let t = line + seq![CR, LF] + x;
    if from < line.len() {
        assert(t[from] == line[from]);
        if from + 1 < line.len() {
            assert(t[from + 1] == line[from + 1]);
        } else {
            assert(t[from + 1] == CR);
        }
        lemma_crlf_after_line(line, x, from + 1);
    } else {
        assert(t[from] == CR && t[from + 1] == LF);
    }
}

/// The method of a parsed request is the first word of the request line: it
/// holds no space and no line break.
pub proof fn law_method_is_one_word(b: Seq<u8>)
    requires
        parse_request(b) is Some,
    ensures
        forall|i: int| 0 <= i < parse_request(b).unwrap().0.len() ==> {
            let c = #[trigger] parse_request(b).unwrap().0[i];
            c != SPACE && !(c == CR && i + 1 < parse_request(b).unwrap().0.len()
                && parse_request(b).unwrap().0[i + 1] == LF)
        },
{
    let line = request_line(b);
    lemma_find_crlf(b, 0);
    lemma_index_of(line, SPACE, 0);
    let sp1 = index_of(line, SPACE, 0);
    let m = line.subrange(0, sp1);
    assert(parse_request(b).unwrap().0 == m);
    assert forall|i: int| 0 <= i < m.len() implies {
        let c = #[trigger] m[i];
        c != SPACE && !(c == CR && i + 1 < m.len() && m[i + 1] == LF)
    } by {
        assert(m[i] == b[i]);
        if m[i] == CR && i + 1 < m.len() && m[i + 1] == LF {
            lemma_no_crlf_before(b, 0, i);
        }
    }
}

/// No CR LF pair starts before the first one found.
proof fn lemma_no_crlf_before(b: Seq<u8>, from: int, i: int)
    requires
        0 <= from <= i,
        i + 1 < find_crlf(b, from),
        find_crlf(b, from) <= b.len(),
    ensures
        !(b[i] == CR && b[i + 1] == LF),
    decreases i - from,
{
    if from < i {
        lemma_find_crlf(b, from);
        if !(b[from] == CR && b[from + 1] == LF) {
            lemma_no_crlf_before(b, from + 1, i);
        }
    }
}

proof fn lemma_find_crlf(b: Seq<u8>, from: int)
    requires
        0 <= from <= b.len(),
    ensures
        from <= find_crlf(b, from) <= b.len(),
    decreases b.len() - from,
{
    if from + 1 < b.len() && !(b[from] == CR && b[from + 1] == LF) {
        lemma_find_crlf(b, from + 1);
    }
}

proof fn lemma_path_end(t: Seq<u8>, from: int)
    requires
        0 <= from <= t.len(),
    ensures
        from <= path_end(t, from) <= t.len(),
    decreases t.len() - from,
{
    if from < t.len() && !(t[from] == SPACE || t[from] == QUESTION) {
        lemma_path_end(t, from + 1);
    }
}

fn hex_digit(byte: u8) -> (r: u8)
    ensures
        r == hex_value(byte),
{
    if byte == 0x61 || byte == 0x41 {
        10
    } else if byte == 0x62 || byte == 0x42 {
        11
    } else if byte == 0x63 || byte == 0x43 {
        12
    } else if byte == 0x64 || byte == 0x44 {
        13
    } else if byte == 0x65 || byte == 0x45 {
        14
    } else {
        byte.wrapping_sub(0x30)
    }
}

impl HttpRequest {
    pub fn new() -> (r: HttpRequest)
        ensures
            r.uri@ == Seq::<char>::empty(),
            r.method@ == Seq::<char>::empty(),
    {
        HttpRequest { uri: String::new(), method: String::new() }
    }

    /// Percent-decodes a URL path and reads the result as UTF-8.
    pub fn decode_url(encoded_url: &[u8]) -> (r: Result<String, ()>)
        ensures
            match r {
                Ok(s) => decoded_url(encoded_url@) == Some(encode_utf8(s@)),
                Err(_) => decoded_url(encoded_url@) is None,
            },
    {
        let size = encoded_url.len();
        let mut idx: usize = 0;
        let mut decoded_vec: Vec<u8> = Vec::new();
        let ghost s = encoded_url@;
        proof {
            assert(s.subrange(0, size as int) == s);
            match percent_decode(s) {
                Some(rest) => {
                    assert(decoded_vec@ + rest == rest);
                },
                None => {},
            }
        }
        while idx < size
            invariant
                size == s.len(),
                s == encoded_url@,
                idx <= size,
                percent_decode(s) == match percent_decode(s.subrange(idx as int, size as int)) {
                    Some(rest) => Some(decoded_vec@ + rest),
                    None => None::<Seq<u8>>,
                },
            decreases size - idx,
        {
            let ghost tail = s.subrange(idx as int, size as int);
            let b = encoded_url[idx];
            if b == PERCENT {
                if size - idx < 3 {
                    return Err(());
                }
                let hi = hex_digit(encoded_url[idx + 1]);
                let lo = hex_digit(encoded_url[idx + 2]);
                let byte = lo | (hi << 4u8);
                proof {
                    assert(tail.subrange(3, tail.len() as int) == s.subrange(idx + 3, size as int));
                    match percent_decode(s.subrange(idx + 3, size as int)) {
                        Some(rest) => {
                            assert(decoded_vec@.push(byte) + rest == decoded_vec@ + (seq![byte]
                                + rest));
                        },
                        None => {},
                    }
                }
                decoded_vec.push(byte);
                idx = idx + 3;
            } else {
                proof {
                    assert(tail.subrange(1, tail.len() as int) == s.subrange(idx + 1, size as int));
                    match percent_decode(s.subrange(idx + 1, size as int)) {
                        Some(rest) => {
                            assert(decoded_vec@.push(b) + rest == decoded_vec@ + (seq![b] + rest));
                        },
                        None => {},
                    }
                }
                decoded_vec.push(b);
                idx = idx + 1;
            }
        }
        proof {
            assert(s.subrange(size as int, size as int) == Seq::<u8>::empty());
            assert(decoded_vec@ + Seq::<u8>::empty() == decoded_vec@);
        }
        match string_from_utf8(decoded_vec.as_slice()) {
            Some(decoded_url) => Ok(decoded_url),
            None => Err(()),
        }
    }

    /// Reads the method and the decoded path out of the request line.
    pub fn parse(raw_request: &str) -> (r: Result<HttpRequest, ()>)
        ensures
            match r {
                Ok(req) => parse_request(raw_request.spec_bytes()) == Some(
                    (encode_utf8(req.method@), encode_utf8(req.uri@)),
                ),
                Err(_) => parse_request(raw_request.spec_bytes()) is None,
            },
    {
        let b = raw_request.as_bytes();
        let ghost bs = b@;
        let len = b.len();
        let mut line_end: usize = 0;
        proof {
            lemma_find_crlf(bs, 0);
        }
        // locate the end of the request line
        while line_end < len && line_end + 1 < len && !(b[line_end] == CR && b[line_end + 1] == LF)
            invariant
                bs == b@,
                len == bs.len(),
                line_end <= len,
                find_crlf(bs, 0) == find_crlf(bs, line_end as int),
            decreases len - line_end,
        {
            line_end = line_end + 1;
        }
        if line_end >= len || line_end + 1 >= len {
            line_end = len;
        }
        let ghost line = bs.subrange(0, line_end as int);
        assert(line == request_line(bs));

        let sp1 = find_byte(b, SPACE, 0, line_end);
        proof {
            lemma_index_of(line, SPACE, 0);
        }
        if sp1 >= line_end {
            return Err(());
        }
        let sp2 = find_byte(b, SPACE, sp1 + 1, line_end);
        proof {
            lemma_index_of(line, SPACE, sp1 + 1);
        }
        if sp2 >= line_end {
            return Err(());
        }
        let target = vstd::slice::slice_subrange(b, sp1 + 1, sp2);
        assert(target@ == line.subrange(sp1 + 1, sp2 as int));
        let mut stop: usize = 0;
        let tlen = target.len();
        proof {
            lemma_path_end(target@, 0);
        }
        while stop < tlen && !(target[stop] == SPACE || target[stop] == QUESTION)
            invariant
                tlen == target@.len(),
                stop <= tlen,
                path_end(target@, 0) == path_end(target@, stop as int),
            decreases tlen - stop,
        {
            stop = stop + 1;
        }
        let path = vstd::slice::slice_subrange(target, 0, stop);
        let uri = match HttpRequest::decode_url(path) {
            Ok(uri) => uri,
            Err(_) => return Err(()),
        };
        let method_bytes = vstd::slice::slice_subrange(b, 0, sp1);
        proof {
            lemma_cut_before_ascii(bs, sp1 as int);
            assert(method_bytes@ == line.subrange(0, sp1 as int));
        }
        let method = match string_from_utf8(method_bytes) {
            Some(m) => m,
            None => return Err(()),
        };
        Ok(HttpRequest { method, uri })
    }
}

} // verus!
