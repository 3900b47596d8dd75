//! Server configuration: defaults and the `key value` lines of a config file.

use vstd::prelude::*;
use vstd::utf8::*;
use vstd::string::StringSliceAdditionalSpecFns;
use crate::text::{
    index_of,
    lemma_index_of,
    find_byte,
    bytes_eq,
    string_from_utf8,
    lemma_cut_before_ascii,
    lemma_drop_ascii_head,
};

verus! {

broadcast use vstd::utf8::group_utf8_lib;

pub const SPACE: u8 = 32;

pub const LF: u8 = 10;

pub const PLUS: u8 = 43;

pub struct Config {
    path_to_static: String,
    thread_limit: usize,
    cpu_limit: usize,
    port: usize,
}

/// The settings of a configuration.
pub struct ConfigView {
    pub path_to_static: Seq<char>,
    pub thread_limit: usize,
    pub cpu_limit: usize,
    pub port: usize,
}

impl View for Config {
    type V = ConfigView;

    closed spec fn view(&self) -> ConfigView {
        ConfigView {
            path_to_static: self.path_to_static@,
            thread_limit: self.thread_limit,
            cpu_limit: self.cpu_limit,
            port: self.port,
        }
    }
}

impl Config {
    pub fn get_path_to_static(&self) -> (r: String)
        ensures
            r@ == self@.path_to_static,
    {
        self.path_to_static.clone()
    }

    pub fn get_port(&self) -> (r: usize)
        ensures
            r == self@.port,
    {
        self.port
    }

    pub fn get_cpu_count(&self) -> (r: usize)
        ensures
            r == self@.cpu_limit,
    {
        self.cpu_limit
    }
}

/// A configuration file was rejected.
#[derive(Debug, PartialEq, Eq, Structural)]
pub enum ConfigError {
    /// A line names a key that the server does not know.
    InvalidData,
}

pub struct ConfigReader;

/// The settings used where the config file says nothing.
pub open spec fn default_view(cpus: usize) -> ConfigView {
    ConfigView { path_to_static: "."@, thread_limit: 50, cpu_limit: cpus, port: 80 }
}

/// The key of a line: what precedes its first space.
pub open spec fn line_key(l: Seq<u8>) -> Seq<u8> {
    l.subrange(0, index_of(l, SPACE, 0))
}

/// Removes every trailing line feed.
pub open spec fn trim_lf_end(s: Seq<u8>) -> Seq<u8>
    decreases s.len(),
{
    if s.len() > 0 && s.last() == LF {
        trim_lf_end(s.drop_last())
    } else {
        s
    }
}

/// The value of a line: what lies between its first and second space (or its
/// end), without trailing line feeds.
pub open spec fn line_value(l: Seq<u8>) -> Seq<u8> {
    let sp = index_of(l, SPACE, 0);
    trim_lf_end(l.subrange(sp + 1, index_of(l, SPACE, sp + 1)))
}

pub open spec fn is_digit(b: u8) -> bool {
    48 <= b <= 57
}

pub open spec fn all_digits(d: Seq<u8>) -> bool {
    forall|i: int| 0 <= i < d.len() ==> is_digit(#[trigger] d[i])
}

/// The number that decimal digits spell.
pub open spec fn digits_value(d: Seq<u8>) -> nat
    decreases d.len(),
{
    if d.len() == 0 {
        0
    } else {
        digits_value(d.drop_last()) * 10 + (d.last() - 48) as nat
    }
}

/// How text reads as a `usize`: an optional `+`, then one or more decimal digits
/// whose value fits.
pub open spec fn parse_usize(s: Seq<u8>) -> Option<usize> {
    let d = if s.len() > 1 && s[0] == PLUS {
        s.subrange(1, s.len() as int)
    } else {
        s
    };
    if d.len() > 0 && all_digits(d) && digits_value(d) <= usize::MAX {
        Some(digits_value(d) as usize)
    } else {
        None
    }
}

pub open spec fn is_listen(k: Seq<u8>) -> bool {
    k == "listen".spec_bytes()
}

pub open spec fn is_thread_limit(k: Seq<u8>) -> bool {
    k == "thread_limit".spec_bytes()
}

pub open spec fn is_cpu_limit(k: Seq<u8>) -> bool {
    k == "cpu_limit".spec_bytes()
}

pub open spec fn is_document_root(k: Seq<u8>) -> bool {
    k == "document_root".spec_bytes()
}

pub open spec fn numeric_key(k: Seq<u8>) -> bool {
    is_listen(k) || is_thread_limit(k) || is_cpu_limit(k)
}

pub open spec fn known_key(k: Seq<u8>) -> bool {
    numeric_key(k) || is_document_root(k)
}

/// A line the reader cannot take apart: it has no space, or a numeric key's
/// value is not a `usize`.
pub open spec fn line_malformed(l: Seq<u8>) -> bool {
    index_of(l, SPACE, 0) >= l.len() || (numeric_key(line_key(l)) && parse_usize(line_value(l))
        is None)
}

/// Lines are read in order until the first one with an unknown key; the file
/// is malformed when a malformed line comes before any such line.
pub open spec fn lines_malformed(ls: Seq<Seq<u8>>) -> bool
    decreases ls.len(),
{
    if ls.len() == 0 {
        false
    } else if line_malformed(ls[0]) {
        true
    } else if !known_key(line_key(ls[0])) {
        false
    } else {
        lines_malformed(ls.drop_first())
    }
}

/// The setting that a well-formed line with a known key makes.
pub open spec fn apply_line(c: ConfigView, l: Seq<u8>) -> ConfigView {
    let k = line_key(l);
    let v = line_value(l);
    if is_listen(k) {
        ConfigView { port: parse_usize(v).unwrap(), ..c }
    } else if is_thread_limit(k) {
        ConfigView { thread_limit: parse_usize(v).unwrap(), ..c }
    } else if is_cpu_limit(k) {
        ConfigView { cpu_limit: parse_usize(v).unwrap(), ..c }
    } else {
        ConfigView { path_to_static: decode_utf8(v), ..c }
    }
}

/// The configuration that lines make from `c`, a later line overriding an
/// earlier one; `None` when a line names an unknown key.
pub open spec fn apply_lines(c: ConfigView, ls: Seq<Seq<u8>>) -> Option<ConfigView>
    decreases ls.len(),
{
    if ls.len() == 0 {
        Some(c)
    } else if line_malformed(ls[0]) || !known_key(line_key(ls[0])) {
        None
    } else {
        apply_lines(apply_line(c, ls[0]), ls.drop_first())
    }
}

/// Reading two runs of lines one after the other is reading them together:
/// later lines override earlier ones, and a rejected line rejects the whole.
pub proof fn law_lines_compose(c: ConfigView, a: Seq<Seq<u8>>, b: Seq<Seq<u8>>)
    ensures
        apply_lines(c, a + b) == match apply_lines(c, a) {
            Some(c2) => apply_lines(c2, b),
            None => None,
        },
    decreases a.len(),
{
    if a.len() == 0 {
        assert(a + b == b);
    } else {
        assert((a + b)[0] == a[0]);
        assert((a + b).drop_first() == a.drop_first() + b);
        if !(line_malformed(a[0]) || !known_key(line_key(a[0]))) {
            law_lines_compose(apply_line(c, a[0]), a.drop_first(), b);
        }
    }
}

/// The number that the last line with key `key` sets, or `dflt` when no line
/// has that key.
pub open spec fn last_number(ls: Seq<Seq<u8>>, key: Seq<u8>, dflt: usize) -> usize
    decreases ls.len(),
{
    if ls.len() == 0 {
        dflt
    } else if line_key(ls.last()) == key {
        parse_usize(line_value(ls.last())).unwrap()
    } else {
        last_number(ls.drop_last(), key, dflt)
    }
}

/// The document root that the last `document_root` line sets, or `dflt`.
pub open spec fn last_root(ls: Seq<Seq<u8>>, dflt: Seq<char>) -> Seq<char>
    decreases ls.len(),
{
    if ls.len() == 0 {
        dflt
    } else if is_document_root(line_key(ls.last())) {
        decode_utf8(line_value(ls.last()))
    } else {
        last_root(ls.drop_last(), dflt)
    }
}

/// The last line for a key wins: the port, thread limit, CPU limit and
/// document root of a configuration read from lines are those of the last
/// line that sets each, or what they were before when no line does.
pub proof fn law_last_line_wins(c: ConfigView, ls: Seq<Seq<u8>>)
    requires
        apply_lines(c, ls) is Some,
    ensures
        ({
            let r = apply_lines(c, ls).unwrap();
            &&& r.port == last_number(ls, "listen".spec_bytes(), c.port)
            &&& r.thread_limit == last_number(ls, "thread_limit".spec_bytes(), c.thread_limit)
            &&& r.cpu_limit == last_number(ls, "cpu_limit".spec_bytes(), c.cpu_limit)
            &&& r.path_to_static == last_root(ls, c.path_to_static)
        }),
    decreases ls.len(),
{
    if ls.len() > 0 {
        let init = ls.drop_last();
        let last = ls.last();
        assert(ls == init + seq![last]);
        law_lines_compose(c, init, seq![last]);
        let c1 = apply_lines(c, init).unwrap();
        law_last_line_wins(c, init);
        assert(seq![last][0] == last);
        assert(seq![last].drop_first() == Seq::<Seq<u8>>::empty());
        assert(apply_lines(apply_line(c1, last), Seq::<Seq<u8>>::empty()) == Some(
            apply_line(c1, last),
        ));
        assert(apply_lines(c1, seq![last]) == Some(apply_line(c1, last)));
        lemma_keys_differ();
    }
}

/// What a config file does not set keeps its default: read from the built-in
/// configuration, the document root is that of the last `document_root` line,
/// else `.`; the port that of the last `listen` line, else 80; the thread
/// limit that of the last `thread_limit` line, else 50; and the CPU limit that
/// of the last `cpu_limit` line, else the number of CPUs.
pub proof fn law_defaults_unless_set(cpus: usize, ls: Seq<Seq<u8>>)
    requires
        apply_lines(default_view(cpus), ls) is Some,
    ensures
        ({
            let r = apply_lines(default_view(cpus), ls).unwrap();
            &&& r.path_to_static == last_root(ls, "."@)
            &&& r.port == last_number(ls, "listen".spec_bytes(), 80)
            &&& r.thread_limit == last_number(ls, "thread_limit".spec_bytes(), 50)
            &&& r.cpu_limit == last_number(ls, "cpu_limit".spec_bytes(), cpus)
        }),
{
    law_last_line_wins(default_view(cpus), ls);
}

/// The four keys are spelled differently.
proof fn lemma_keys_differ()
    ensures
        "listen".spec_bytes() != "thread_limit".spec_bytes(),
        "listen".spec_bytes() != "cpu_limit".spec_bytes(),
        "listen".spec_bytes() != "document_root".spec_bytes(),
        "thread_limit".spec_bytes() != "cpu_limit".spec_bytes(),
        "thread_limit".spec_bytes() != "document_root".spec_bytes(),
        "cpu_limit".spec_bytes() != "document_root".spec_bytes(),
{
    reveal_strlit("listen");
    reveal_strlit("thread_limit");
    reveal_strlit("cpu_limit");
    reveal_strlit("document_root");
    let keys = seq!["listen"@, "thread_limit"@, "cpu_limit"@, "document_root"@];
    assert forall|i: int, j: int| 0 <= i < j < 4 implies encode_utf8(keys[i]) != encode_utf8(
        keys[j],
    ) by {
        if encode_utf8(keys[i]) == encode_utf8(keys[j]) {
            crate::text::lemma_encode_utf8_injective(keys[i], keys[j]);
            assert(keys[i].len() != keys[j].len());
        }
    }
    assert(keys[0] == "listen"@);
    assert(keys[1] == "thread_limit"@);
    assert(keys[2] == "cpu_limit"@);
    assert(keys[3] == "document_root"@);
}

/// No lines leave the configuration as it was.
pub proof fn law_no_lines_keep_config(c: ConfigView)
    ensures
        apply_lines(c, Seq::empty()) == Some(c),
{
}

/// The bytes of each line.
pub open spec fn lines_bytes(lines: Seq<String>) -> Seq<Seq<u8>> {
    lines.map_values(|l: String| encode_utf8(l@))
}

/// `num_cpus::get`: the number of CPUs this process may run on. Its
/// documentation promises at least one; the count itself depends on the machine.
#[verifier::external_body]
fn available_cpus() -> (r: usize)
    ensures
        r >= 1,
{
    num_cpus::get()
}

fn read_usize(s: &[u8]) -> (r: Option<usize>)
    ensures
        r == parse_usize(s@),
{
    let d = if s.len() > 1 && s[0] == PLUS {
        vstd::slice::slice_subrange(s, 1, s.len())
    } else {
        s
    };
    let ghost digits = if s@.len() > 1 && s@[0] == PLUS {
        s@.subrange(1, s@.len() as int)
    } else {
        s@
    };
    assert(d@ == digits);
    if d.len() == 0 {
        return None;
    }
    let mut acc: usize = 0;
    let mut i: usize = 0;
    while i < d.len()
        invariant
            d@ == digits,
            digits == (if s@.len() > 1 && s@[0] == PLUS {
                s@.subrange(1, s@.len() as int)
            } else {
                s@
            }),
            i <= d@.len(),
            all_digits(d@.subrange(0, i as int)),
            acc as nat == digits_value(d@.subrange(0, i as int)),
        decreases d@.len() - i,
    {
        let b = d[i];
        proof {
            assert(d@.subrange(0, i + 1).drop_last() == d@.subrange(0, i as int));
        }
        if b < 48 || b > 57 {
            assert(!is_digit(d@[i as int]));
            assert(!all_digits(d@));
            return None;
        }
        let ghost next = d@.subrange(0, i + 1);
        if acc > (usize::MAX - (b - 48) as usize) / 10 {
            proof {
                assert(digits_value(next) > usize::MAX) by (nonlinear_arith)
                    requires
                        digits_value(next) == acc * 10 + (b - 48) as nat,
                        acc > (usize::MAX - (b - 48) as usize) / 10,
                        0 <= b - 48 <= 9,
                ;
                lemma_digits_value_grows(d@, i + 1);
            }
            return None;
        }
        proof {
            assert(acc * 10 + (b - 48) <= usize::MAX) by (nonlinear_arith)
                requires
                    acc <= (usize::MAX - (b - 48) as usize) / 10,
                    0 <= b - 48 <= 9,
            ;
        }
        acc = acc * 10 + (b - 48) as usize;
        i = i + 1;
    }
    assert(d@.subrange(0, d@.len() as int) == d@);
    Some(acc)
}

/// The value of a digit string is at least that of any of its prefixes.
proof fn lemma_digits_value_grows(d: Seq<u8>, i: int)
    requires
        0 <= i <= d.len(),
    ensures
        digits_value(d.subrange(0, i)) <= digits_value(d),
    decreases d.len() - i,
{
    if i < d.len() {
        lemma_digits_value_grows(d, i + 1);
        assert(d.subrange(0, i + 1).drop_last() == d.subrange(0, i));
    } else {
        assert(d.subrange(0, i) == d);
    }
}

impl ConfigReader {
    /// The built-in configuration: files served from `.`, port 80, 50 threads,
    /// one worker per available CPU.
    pub fn default() -> (r: Config)
        ensures
            r@ == default_view(r@.cpu_limit),
            r@.cpu_limit >= 1,
    {
        ConfigReader::with_cpus(available_cpus())
    }

    /// The built-in configuration for a machine with `cpus` CPUs: files served
    /// from `.`, port 80, 50 threads, one worker per CPU.
    pub fn with_cpus(cpus: usize) -> (r: Config)
        ensures
            r@ == default_view(cpus),
    {
        Config { path_to_static: ".".to_owned(), thread_limit: 50, cpu_limit: cpus, port: 80 }
    }

    /// Whether a config file can be read without a malformed line.
    pub fn lines_are_well_formed(lines: &Vec<String>) -> (r: bool)
        ensures
            r == !lines_malformed(lines_bytes(lines@)),
    {
        let ghost ls = lines_bytes(lines@);
        let mut i: usize = 0;
        assert(ls.subrange(0, ls.len() as int) == ls);
        while i < lines.len()
            invariant
                i <= lines@.len(),
                ls == lines_bytes(lines@),
                ls.len() == lines@.len(),
                lines_malformed(ls) == lines_malformed(ls.subrange(i as int, ls.len() as int)),
            decreases lines@.len() - i,
        {
            let b = lines[i].as_str().as_bytes();
            let ghost rest = ls.subrange(i as int, ls.len() as int);
            assert(rest[0] == b@);
            assert(rest.drop_first() == ls.subrange(i + 1, ls.len() as int));
            let (key_end, value) = split_line(b);
            if key_end >= b.len() {
                return false;
            }
            let key = vstd::slice::slice_subrange(b, 0, key_end);
            let numeric = bytes_eq(key, "listen".as_bytes()) || bytes_eq(key, "thread_limit".as_bytes())
                || bytes_eq(key, "cpu_limit".as_bytes());
            if numeric && read_usize(value).is_none() {
                return false;
            }
            if !numeric && !bytes_eq(key, "document_root".as_bytes()) {
                return true;
            }
            i = i + 1;
        }
        true
    }

    /// Applies config lines to `config` in order.
    pub fn apply_lines(base: Config, lines: &Vec<String>) -> (r: Result<Config, ConfigError>)
        requires
            !lines_malformed(lines_bytes(lines@)),
        ensures
            match r {
                Ok(c) => apply_lines(base@, lines_bytes(lines@)) == Some(c@),
                Err(_) => apply_lines(base@, lines_bytes(lines@)) is None,
            },
    {
        let ghost ls = lines_bytes(lines@);
        let ghost initial = base@;
        let mut config = base;
        let mut i: usize = 0;
        assert(ls.subrange(0, ls.len() as int) == ls);
        while i < lines.len()
            invariant
                i <= lines@.len(),
                ls == lines_bytes(lines@),
                ls.len() == lines@.len(),
                !lines_malformed(ls.subrange(i as int, ls.len() as int)),
                initial == base@,
                apply_lines(initial, ls) == apply_lines(config@, ls.subrange(i as int, ls.len() as int)),
            decreases lines@.len() - i,
        {
            let line = lines[i].as_str();
            let b = line.as_bytes();
            let ghost rest = ls.subrange(i as int, ls.len() as int);
            assert(rest[0] == b@);
            assert(rest.drop_first() == ls.subrange(i + 1, ls.len() as int));
            let (key_end, value) = split_line(b);
            let key = vstd::slice::slice_subrange(b, 0, key_end);
            let ghost before = config@;
            if bytes_eq(key, "listen".as_bytes()) {
                match read_usize(value) {
                    Some(n) => config.port = n,
                    None => {},
                }
            } else if bytes_eq(key, "thread_limit".as_bytes()) {
                match read_usize(value) {
                    Some(n) => config.thread_limit = n,
                    None => {},
                }
            } else if bytes_eq(key, "cpu_limit".as_bytes()) {
                match read_usize(value) {
                    Some(n) => config.cpu_limit = n,
                    None => {},
                }
            } else if bytes_eq(key, "document_root".as_bytes()) {
                proof {
                    lemma_value_is_utf8(b@);
                }
                match string_from_utf8(value) {
                    Some(root) => config.path_to_static = root,
                    None => {},
                }
            } else {
                return Err(ConfigError::InvalidData);
            }
            assert(config@ == apply_line(before, b@));
            i = i + 1;
        }
        assert(ls.subrange(lines@.len() as int, ls.len() as int) == Seq::<Seq<u8>>::empty());
        Ok(config)
    }

    /// The configuration that config lines make from the defaults.
    pub fn read_lines(lines: &Vec<String>) -> (r: Result<Config, ConfigError>)
        requires
            !lines_malformed(lines_bytes(lines@)),
        ensures
            exists|cpus: usize|
                cpus >= 1 && match r {
                    Ok(c) => apply_lines(default_view(cpus), lines_bytes(lines@)) == Some(c@),
                    Err(_) => apply_lines(default_view(cpus), lines_bytes(lines@)) is None,
                },
    {
        let config = ConfigReader::default();
        let ghost cpus = config@.cpu_limit;
        let r = ConfigReader::apply_lines(config, lines);
        assert(cpus >= 1 && match r {
            Ok(c) => apply_lines(default_view(cpus), lines_bytes(lines@)) == Some(c@),
            Err(_) => apply_lines(default_view(cpus), lines_bytes(lines@)) is None,
        });
        r
    }
}

/// Splits a line at its first space: where the key ends, and the value (up to a
/// second space, without trailing line feeds). The value is empty when there
/// is no space.
fn split_line(b: &[u8]) -> (r: (usize, &[u8]))
    ensures
        r.0 == index_of(b@, SPACE, 0),
        r.0 < b@.len() ==> r.1@ == line_value(b@),
{
    let len = b.len();
    let sp = find_byte(b, SPACE, 0, len);
    proof {
        assert(b@.subrange(0, len as int) == b@);
        lemma_index_of(b@, SPACE, 0);
    }
    if sp >= len {
        return (sp, vstd::slice::slice_subrange(b, 0, 0));
    }
    let sp2 = find_byte(b, SPACE, sp + 1, len);
    proof {
        lemma_index_of(b@, SPACE, sp + 1);
    }
    let ghost raw = b@.subrange(sp + 1, sp2 as int);
    let mut end = sp2;
    while end > sp + 1 && b[end - 1] == LF
        invariant
            sp + 1 <= end <= sp2 <= len == b@.len(),
            raw == b@.subrange(sp + 1, sp2 as int),
            trim_lf_end(raw) == trim_lf_end(b@.subrange(sp + 1, end as int)),
        decreases end,
    {
        assert(b@.subrange(sp + 1, end as int).drop_last() == b@.subrange(sp + 1, end - 1));
        end = end - 1;
    }
    (sp, vstd::slice::slice_subrange(b, sp + 1, end))
}

/// The value of a well-formed line is well-formed UTF-8.
proof fn lemma_value_is_utf8(b: Seq<u8>)
    requires
        valid_utf8(b),
        index_of(b, SPACE, 0) < b.len(),
    ensures
        valid_utf8(line_value(b)),
{
    let sp = index_of(b, SPACE, 0);
    lemma_index_of(b, SPACE, 0);
    lemma_index_of(b, SPACE, sp + 1);
    let sp2 = index_of(b, SPACE, sp + 1);
    lemma_cut_before_ascii(b, sp);
    let s = b.subrange(sp, b.len() as int);
    lemma_drop_ascii_head(s);
    let t = s.subrange(1, s.len() as int);
    assert(t == b.subrange(sp + 1, b.len() as int));
    lemma_trimmed_is_utf8(b, sp + 1, sp2);
}

/// Cutting a line's value at a space or line feed keeps it well-formed, and so
/// does trimming line feeds.
proof fn lemma_trimmed_is_utf8(b: Seq<u8>, start: int, end: int)
    requires
        0 <= start <= end <= b.len(),
        valid_utf8(b.subrange(start, b.len() as int)),
        end < b.len() ==> b[end] < 0x80,
    ensures
        valid_utf8(trim_lf_end(b.subrange(start, end))),
    decreases end - start,
{
    let t = b.subrange(start, b.len() as int);
    lemma_cut_before_ascii(t, end - start);
    assert(t.subrange(0, end - start) == b.subrange(start, end));
    let v = b.subrange(start, end);
    if v.len() > 0 && v.last() == LF {
        assert(v.drop_last() == b.subrange(start, end - 1));
        lemma_trimmed_is_utf8(b, start, end - 1);
    }
}

} // verus!
