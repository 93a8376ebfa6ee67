//! Minimal HTTP/1.1 server primitives, just enough for the LocalSend surface
//! (four POSTs and one GET), over byte buffers so the framing is independent
//! of the transport.
//!
//! Simplifications, deliberate on a LAN protocol:
//! - every response is `Connection: close`; clients reconnect per request
//! - of the transfer codings only `chunked` is decoded; the rest get 501

use crate::text::{
    pair_view, pairs_view,
    dec, decimal,
    digit_val, digit_value, eq_ic, eq_ignore_case, find, find_char, join2, join3, lower,
    parse_u64, parse_uint, rfind, rfind_char, slice_to_vec, split_chars, split_on, str_chars,
    string_of, to_lower, tokens, tokens_from, next_token, trim, trim_chars, utf8_string, views,
};
use vstd::prelude::*;
use vstd::utf8::{decode_utf8, encode_utf8, valid_utf8};

verus! {

broadcast use vstd::string::to_string_from_display_ensures_for_str;

pub const MAX_REQUEST_LINE: usize = 8192;

pub const MAX_HEADER_BYTES: usize = 16384;

pub const MAX_HEADERS: usize = 64;

/// A chunk's size line, and the trailers that share its framing.
pub const MAX_CHUNK_LINE: usize = 1024;

/// Why a line could not be read.
#[derive(Copy, Clone, Debug, PartialEq, Eq, Structural)]
pub enum LineError {
    /// The input ended before the line's newline.
    Eof,
    /// More than the allowed bytes before the newline.
    TooLong,
    /// The line is not UTF-8.
    NotUtf8,
}

/// Index of the first `\n` at or after `i`, or the length when there is none.
pub open spec fn first_nl(s: Seq<u8>, i: int) -> int
    decreases s.len() - i,
{
    if 0 <= i < s.len() && s[i] != 10 {
        first_nl(s, i + 1)
    } else {
        i
    }
}

proof fn lemma_first_nl(s: Seq<u8>, i: int)
    requires
        0 <= i <= s.len(),
    ensures
        i <= first_nl(s, i) <= s.len(),
        forall|k: int| i <= k < first_nl(s, i) ==> s[k] != 10,
        first_nl(s, i) < s.len() ==> s[first_nl(s, i)] == 10,
    decreases s.len() - i,
{
    if i < s.len() && s[i] != 10 {
        lemma_first_nl(s, i + 1);
    }
}

/// Drops one trailing `\r`.
pub open spec fn strip_cr(b: Seq<u8>) -> Seq<u8> {
    if b.len() > 0 && b.last() == 13 {
        b.drop_last()
    } else {
        b
    }
}

/// One CRLF- (or bare-LF-) terminated line starting at `pos`, without its
/// terminator, capped at `max` bytes: the line's bytes and the position just
/// past the newline.
pub open spec fn spec_read_line(s: Seq<u8>, pos: int, max: int) -> Result<(Seq<u8>, int), LineError> {
    let j = first_nl(s, pos);
    if j - pos > max {
        Err(LineError::TooLong)
    } else if j >= s.len() {
        Err(LineError::Eof)
    } else {
        let b = strip_cr(s.subrange(pos, j));
        if valid_utf8(b) {
            Ok((b, j + 1))
        } else {
            Err(LineError::NotUtf8)
        }
    }
}

pub proof fn lemma_read_line_advances(s: Seq<u8>, pos: int, max: int)
    requires
        0 <= pos <= s.len(),
    ensures
        spec_read_line(s, pos, max) matches Ok((b, p)) ==> pos < p <= s.len() && b.len() <= max,
{
    lemma_first_nl(s, pos);
}

/// The text an I/O error for this line failure displays.
pub open spec fn line_err_text(e: LineError) -> Seq<char> {
    match e {
        LineError::Eof => "connection closed mid-line"@,
        LineError::TooLong => "line too long"@,
        LineError::NotUtf8 => "non-UTF8 line"@,
    }
}

pub fn line_err_message(e: LineError) -> (m: String)
    ensures
        m@ == line_err_text(e),
{
    match e {
        LineError::Eof => "connection closed mid-line".to_string(),
        LineError::TooLong => "line too long".to_string(),
        LineError::NotUtf8 => "non-UTF8 line".to_string(),
    }
}

/// Read the line at `pos` of `s`: its text, its length in bytes and the
/// position after it.
pub fn read_line(s: &[u8], pos: usize, max: usize) -> (r: Result<(Vec<char>, usize, usize), LineError>)
    requires
        pos <= s@.len(),
        max < usize::MAX,
    ensures
        match spec_read_line(s@, pos as int, max as int) {
            Ok((b, p)) => r matches Ok((line, n, q)) && line@ == decode_utf8(b) && n == b.len()
                && q == p,
            Err(e) => r == Err::<(Vec<char>, usize, usize), LineError>(e),
        },
{
    proof {
        lemma_first_nl(s@, pos as int);
    }
    let mut j = pos;
    while j < s.len() && s[j] != 10 && j - pos <= max
        invariant
            pos <= j <= s@.len(),
            j - pos <= max + 1,
            first_nl(s@, j as int) == first_nl(s@, pos as int),
        decreases s@.len() - j,
    {
        j = j + 1;
    }
    proof {
        lemma_first_nl(s@, j as int);
    }
    if j - pos > max {
        return Err(LineError::TooLong);
    }
    if j >= s.len() {
        return Err(LineError::Eof);
    }
    let mut end = j;
    if end > pos && s[end - 1] == 13 {
        end = end - 1;
    }
    let mut bytes: Vec<u8> = Vec::new();
    let mut k = pos;
    while k < end
        invariant
            pos <= k <= end <= j < s@.len(),
            bytes@ == s@.subrange(pos as int, k as int),
        decreases end - k,
    {
        bytes.push(s[k]);
        assert(s@.subrange(pos as int, k + 1) =~= s@.subrange(pos as int, k as int).push(
            s@[k as int],
        ));
        k = k + 1;
    }
    assert(bytes@ =~= strip_cr(s@.subrange(pos as int, j as int)));
    let n = bytes.len();
    match utf8_string(bytes) {
        Some(text) => Ok((str_chars(text.as_str()), n, j + 1)),
        None => Err(LineError::NotUtf8),
    }
}

/// Value of a byte as a hex digit, as `char::from(b).to_digit(16)`.
pub open spec fn hex_val(b: u8) -> Option<nat> {
    digit_val(b as char, 16)
}

/// `%XX` decoding, plus `+` as space, over bytes; `None` on a truncated or
/// invalid escape.
pub open spec fn spec_pct(b: Seq<u8>) -> Option<Seq<u8>>
    decreases b.len(),
{
    if b.len() == 0 {
        Some(Seq::empty())
    } else if b[0] == 37 {
        if b.len() >= 3 && hex_val(b[1]) is Some && hex_val(b[2]) is Some {
            match spec_pct(b.subrange(3, b.len() as int)) {
                Some(rest) => Some(
                    seq![(hex_val(b[1])->0 * 16 + hex_val(b[2])->0) as u8] + rest,
                ),
                None => None,
            }
        } else {
            None
        }
    } else if b[0] == 43 {
        match spec_pct(b.drop_first()) {
            Some(rest) => Some(seq![32u8] + rest),
            None => None,
        }
    } else {
        match spec_pct(b.drop_first()) {
            Some(rest) => Some(seq![b[0]] + rest),
            None => None,
        }
    }
}

/// The percent-decoded text of `s`, or `None` when an escape is bad or the
/// decoded bytes are not UTF-8.
pub open spec fn percent_decoded(s: Seq<char>) -> Option<Seq<char>> {
    match spec_pct(encode_utf8(s)) {
        Some(o) => if valid_utf8(o) {
            Some(decode_utf8(o))
        } else {
            None
        },
        None => None,
    }
}

fn hex_byte(b: u8) -> (r: Option<u32>)
    ensures
        match r {
            Some(d) => hex_val(b) == Some(d as nat) && d < 16,
            None => hex_val(b) is None,
        },
{
    digit_value(b as char, 16)
}

/// `%XX` decoding (plus `+` as space, the form-encoding convention query
/// strings use). `None` on truncated/invalid escapes or non-UTF-8 output.
pub fn percent_decode(s: &str) -> (r: Option<String>)
    ensures
        match r {
            Some(t) => percent_decoded(s@) == Some(t@),
            None => percent_decoded(s@) is None,
        },
{
    let bytes = s.as_bytes();
    let ghost b = bytes@;
    let mut out: Vec<u8> = Vec::new();
    let mut i: usize = 0;
    assert(b.subrange(0, b.len() as int) =~= b);
    assert(spec_pct(b) matches Some(rest) ==> out@ + rest =~= rest);
    while i < bytes.len()
        invariant
            b == bytes@,
            b == encode_utf8(s@),
            i <= b.len(),
            spec_pct(b) == match spec_pct(b.subrange(i as int, b.len() as int)) {
                Some(rest) => Some(out@ + rest),
                None => None::<Seq<u8>>,
            },
        decreases b.len() - i,
    {
        let ghost suffix = b.subrange(i as int, b.len() as int);
        if bytes[i] == 37 {
            if bytes.len() - i < 3 {
                assert(spec_pct(suffix) is None);
                return None;
            }
            let hi = match hex_byte(bytes[i + 1]) {
                Some(h) => h,
                None => {
                    assert(spec_pct(suffix) is None);
                    return None;
                },
            };
            let lo = match hex_byte(bytes[i + 2]) {
                Some(l) => l,
                None => {
                    assert(spec_pct(suffix) is None);
                    return None;
                },
            };
            assert(suffix.subrange(3, suffix.len() as int) =~= b.subrange(i + 3, b.len() as int));
            out.push((hi * 16 + lo) as u8);
            i = i + 3;
        } else if bytes[i] == 43 {
            assert(suffix.drop_first() =~= b.subrange(i + 1, b.len() as int));
            out.push(32);
            i = i + 1;
        } else {
            assert(suffix.drop_first() =~= b.subrange(i + 1, b.len() as int));
            out.push(bytes[i]);
            i = i + 1;
        }
        proof {
            match spec_pct(b.subrange(i as int, b.len() as int)) {
                Some(rest) => {
                    assert(spec_pct(b) == Some(out@ + rest)) by {
                        assert(out@ + rest =~= out@.drop_last() + (seq![out@.last()] + rest));
                    }
                },
                None => {},
            }
        }
    }
    assert(b.subrange(i as int, b.len() as int) =~= Seq::<u8>::empty());
    assert(out@ + Seq::<u8>::empty() =~= out@);
    utf8_string(out)
}


/// The parsed request head, as plain text.
pub struct Head {
    pub method: Seq<char>,
    pub path: Seq<char>,
    pub query: Seq<(Seq<char>, Seq<char>)>,
    pub headers: Seq<(Seq<char>, Seq<char>)>,
    pub content_length: nat,
    pub chunked: bool,
    pub expects_continue: bool,
}

#[derive(Debug)]
pub struct Request {
    pub method: String,
    /// Percent-decoded path, no query string.
    pub path: String,
    /// Percent-decoded query pairs in order of appearance.
    pub query: Vec<(String, String)>,
    /// Lowercased names.
    pub headers: Vec<(String, String)>,
    pub content_length: u64,
    /// Chunked body: the length is in the framing, `content_length` is unset.
    pub chunked: bool,
    /// The client sent `Expect: 100-continue` and is waiting for the
    /// go-ahead before transmitting the body.
    pub expects_continue: bool,
}

impl View for Request {
    type V = Head;

    open spec fn view(&self) -> Head {
        Head {
            method: self.method@,
            path: self.path@,
            query: pairs_view(self.query@),
            headers: pairs_view(self.headers@),
            content_length: self.content_length as nat,
            chunked: self.chunked,
            expects_continue: self.expects_continue,
        }
    }
}

/// The value of the first pair named `name`.
pub open spec fn lookup(v: Seq<(Seq<char>, Seq<char>)>, name: Seq<char>) -> Option<Seq<char>>
    decreases v.len(),
{
    if v.len() == 0 {
        None
    } else if v[0].0 == name {
        Some(v[0].1)
    } else {
        lookup(v.drop_first(), name)
    }
}

fn find_pair<'a>(v: &'a Vec<(String, String)>, name: &String) -> (r: Option<&'a str>)
    ensures
        match r {
            Some(s) => lookup(pairs_view(v@), name@) == Some(s@),
            None => lookup(pairs_view(v@), name@) is None,
        },
{
    let ghost all = pairs_view(v@);
    let mut i: usize = 0;
    assert(all.subrange(0, all.len() as int) =~= all);
    while i < v.len()
        invariant
            all == pairs_view(v@),
            i <= v@.len(),
            lookup(all, name@) == lookup(all.subrange(i as int, all.len() as int), name@),
        decreases v@.len() - i,
    {
        let ghost rest = all.subrange(i as int, all.len() as int);
        assert(rest[0] == pair_view(v@[i as int]));
        if v[i].0 == *name {
            return Some(v[i].1.as_str());
        }
        assert(rest.drop_first() =~= all.subrange(i + 1, all.len() as int));
        i = i + 1;
    }
    None
}

impl Request {
    /// The first header named `name`, case-insensitively.
    pub fn header(&self, name: &str) -> (r: Option<&str>)
        ensures
            match r {
                Some(s) => lookup(self@.headers, lower(name@)) == Some(s@),
                None => lookup(self@.headers, lower(name@)) is None,
            },
    {
        let lowered = string_of(&to_lower(&str_chars(name)));
        find_pair(&self.headers, &lowered)
    }

    /// The first query parameter named `name`.
    pub fn query_param(&self, name: &str) -> (r: Option<&str>)
        ensures
            match r {
                Some(s) => lookup(self@.query, name@) == Some(s@),
                None => lookup(self@.query, name@) is None,
            },
    {
        let wanted = string_of(&str_chars(name));
        find_pair(&self.query, &wanted)
    }
}

/// Parse errors carry the status code the connection should die with.
#[derive(Debug)]
pub struct ParseError {
    pub status: u16,
    pub message: String,
}

impl ParseError {
    fn new(status: u16, message: String) -> (e: Self)
        ensures
            e.status == status,
            e.message@ == message@,
    {
        ParseError { status, message }
    }
}

/// A failed parse: the status to answer and the message.
pub type Failure = (u16, Seq<char>);

pub open spec fn http1_prefix() -> Seq<char> {
    "HTTP/1."@
}

pub open spec fn starts_with(s: Seq<char>, p: Seq<char>) -> bool {
    p.len() <= s.len() && s.subrange(0, p.len() as int) == p
}

/// The decoded `key=value` pairs of a query string's `&`-separated pieces;
/// empty pieces are skipped, a piece without `=` has an empty value.
pub open spec fn query_pairs(pieces: Seq<Seq<char>>) -> Option<Seq<(Seq<char>, Seq<char>)>>
    decreases pieces.len(),
{
    if pieces.len() == 0 {
        Some(Seq::empty())
    } else {
        let p = pieces[0];
        if p.len() == 0 {
            query_pairs(pieces.drop_first())
        } else {
            let k = find(p, '=');
            let key = p.subrange(0, k);
            let value = if k < p.len() {
                p.subrange(k + 1, p.len() as int)
            } else {
                Seq::empty()
            };
            match (percent_decoded(key), percent_decoded(value), query_pairs(pieces.drop_first())) {
                (Some(a), Some(b), Some(rest)) => Some(seq![(a, b)] + rest),
                _ => None,
            }
        }
    }
}

/// The header lines from `pos` up to the blank line that ends the head, with
/// `acc` the headers before them and `nbytes` their byte count.
pub open spec fn spec_headers(
    s: Seq<u8>,
    pos: int,
    acc: Seq<(Seq<char>, Seq<char>)>,
    nbytes: int,
) -> Result<(Seq<(Seq<char>, Seq<char>)>, int), Failure>
    decreases s.len() - pos,
{
    if 0 <= pos <= s.len() {
        match spec_read_line(s, pos, MAX_HEADER_BYTES as int) {
            Err(e) => Err((400u16, "headers: "@ + line_err_text(e))),
            Ok((b, p)) => if b.len() == 0 {
                Ok((acc, p))
            } else if nbytes + b.len() > MAX_HEADER_BYTES || acc.len() >= MAX_HEADERS {
                Err((431u16, "headers too large"@))
            } else {
                let line = decode_utf8(b);
                let k = find(line, ':');
                if k >= line.len() {
                    Err((400u16, "malformed header `"@ + line + "`"@))
                } else {
                    proof {
                        lemma_read_line_advances(s, pos, MAX_HEADER_BYTES as int);
                    }
                    spec_headers(
                        s,
                        p,
                        acc.push(
                            (
                                lower(trim(line.subrange(0, k))),
                                trim(line.subrange(k + 1, line.len() as int)),
                            ),
                        ),
                        nbytes + b.len(),
                    )
                }
            },
        }
    } else {
        Err((400u16, Seq::empty()))
    }
}

/// The last transfer coding a `Transfer-Encoding` value names.
pub open spec fn last_coding(v: Seq<char>) -> Seq<char> {
    let k = rfind(v, ',');
    trim(
        if k >= 0 {
            v.subrange(k + 1, v.len() as int)
        } else {
            v
        },
    )
}

/// Framing from the headers: chunked (only the last coding counts), or a
/// `Content-Length` (ignored beside chunked), and `Expect: 100-continue`.
pub open spec fn finish_head(
    method: Seq<char>,
    path: Seq<char>,
    query: Seq<(Seq<char>, Seq<char>)>,
    headers: Seq<(Seq<char>, Seq<char>)>,
    pos: int,
) -> Result<(Head, int), Failure> {
    let coding: Result<bool, Failure> = match lookup(headers, lower("transfer-encoding"@)) {
        None => Ok(false),
        Some(v) => {
            let last = last_coding(v);
            if eq_ic(last, "chunked"@) {
                Ok(true)
            } else if eq_ic(last, "identity"@) {
                Ok(false)
            } else {
                Err((501u16, "transfer-encoding `"@ + last + "` unsupported"@))
            }
        },
    };
    match coding {
        Err(f) => Err(f),
        Ok(chunked) => {
            let length: Result<nat, Failure> = if chunked {
                Ok(0)
            } else {
                match lookup(headers, lower("content-length"@)) {
                    None => Ok(0),
                    Some(v) => match parse_uint(v, 10, u64::MAX as nat) {
                        Some(n) => Ok(n),
                        None => Err((400u16, "bad content-length `"@ + v + "`"@)),
                    },
                }
            };
            match length {
                Err(f) => Err(f),
                Ok(n) => Ok(
                    (
                        Head {
                            method,
                            path,
                            query,
                            headers,
                            content_length: n,
                            chunked,
                            expects_continue: match lookup(headers, lower("expect"@)) {
                                Some(v) => eq_ic(v, "100-continue"@),
                                None => false,
                            },
                        },
                        pos,
                    ),
                ),
            }
        },
    }
}

/// The request head at the start of `s` (request line and headers), and the
/// position where its body starts.
pub open spec fn spec_parse_request(s: Seq<u8>) -> Result<(Head, int), Failure> {
    match spec_read_line(s, 0, MAX_REQUEST_LINE as int) {
        Err(e) => Err((400u16, "request line: "@ + line_err_text(e))),
        Ok((b, p)) => {
            let line = decode_utf8(b);
            let t = tokens(line);
            if t.len() < 3 {
                Err((400u16, "malformed request line `"@ + line + "`"@))
            } else if !starts_with(t[2], http1_prefix()) {
                Err((505u16, "unsupported version `"@ + t[2] + "`"@))
            } else {
                let target = t[1];
                let q = find(target, '?');
                match percent_decoded(target.subrange(0, q)) {
                    None => Err((400u16, "bad percent-encoding in path"@)),
                    Some(path) => {
                        let qp: Option<Seq<(Seq<char>, Seq<char>)>> = if q < target.len() {
                            query_pairs(split_on(target.subrange(q + 1, target.len() as int), '&'))
                        } else {
                            Some(Seq::empty())
                        };
                        match qp {
                            None => Err((400u16, "bad percent-encoding in query"@)),
                            Some(query) => match spec_headers(s, p, Seq::empty(), 0) {
                                Err(f) => Err(f),
                                Ok((headers, p2)) => finish_head(t[0], path, query, headers, p2),
                            },
                        }
                    },
                }
            }
        },
    }
}

/// The outcome of a parse as seen by a caller: the head and the body's
/// position, or the status and message.
pub open spec fn parse_matches(r: Result<(Request, usize), ParseError>, s: Seq<u8>) -> bool {
    match spec_parse_request(s) {
        Ok((h, p)) => r matches Ok((req, q)) && req@ == h && q == p,
        Err((status, message)) => r matches Err(e) && e.status == status && e.message@ == message,
    }
}


/// How a head frames what follows it, as its headers say.
pub open spec fn framed_by_headers(h: Head) -> bool {
    &&& h.chunked <==> (lookup(h.headers, lower("transfer-encoding"@)) matches Some(v) && eq_ic(
        last_coding(v),
        "chunked"@,
    ))
    &&& h.content_length == if h.chunked {
        0
    } else {
        match lookup(h.headers, lower("content-length"@)) {
            None => 0,
            Some(v) => parse_uint(v, 10, u64::MAX as nat)->0,
        }
    }
    &&& h.expects_continue <==> (lookup(h.headers, lower("expect"@)) matches Some(v) && eq_ic(
        v,
        "100-continue"@,
    ))
}

proof fn lemma_finish_head_framing(
    method: Seq<char>,
    path: Seq<char>,
    query: Seq<(Seq<char>, Seq<char>)>,
    headers: Seq<(Seq<char>, Seq<char>)>,
    pos: int,
)
    ensures
        finish_head(method, path, query, headers, pos) matches Ok((h, p)) ==> framed_by_headers(h)
            && h.headers == headers && p == pos,
{
}

/// A parsed head's framing: the body is chunked exactly when the last
/// coding of `Transfer-Encoding` is `chunked` (in any case); otherwise its
/// length is the `Content-Length`, zero when there is none (and zero beside
/// chunked); and the sender waits for `100 Continue` exactly when `Expect`
/// is `100-continue` (in any case). Header names are looked up lowercased,
/// as the head holds them.
pub proof fn lemma_head_framing(s: Seq<u8>)
    ensures
        spec_parse_request(s) matches Ok((h, _)) ==> framed_by_headers(h),
{
    match spec_read_line(s, 0, MAX_REQUEST_LINE as int) {
        Err(_) => {},
        Ok((b, p)) => {
            let line = decode_utf8(b);
            let t = tokens(line);
            if t.len() >= 3 && starts_with(t[2], http1_prefix()) {
                let target = t[1];
                let q = find(target, '?');
                match percent_decoded(target.subrange(0, q)) {
                    None => {},
                    Some(path) => {
                        let qp: Option<Seq<(Seq<char>, Seq<char>)>> = if q < target.len() {
                            query_pairs(split_on(target.subrange(q + 1, target.len() as int), '&'))
                        } else {
                            Some(Seq::empty())
                        };
                        match qp {
                            None => {},
                            Some(query) => match spec_headers(s, p, Seq::empty(), 0) {
                                Err(_) => {},
                                Ok((headers, p2)) => {
                                    lemma_finish_head_framing(t[0], path, query, headers, p2);
                                },
                            },
                        }
                    },
                }
            }
        },
    }
}

fn fail(status: u16, message: String) -> (r: Result<(Request, usize), ParseError>)
    ensures
        r matches Err(e) && e.status == status && e.message@ == message@,
{
    Err(ParseError::new(status, message))
}

/// The query pairs of `raw` (the text after `?`).
fn parse_query(raw: &[char]) -> (r: Option<Vec<(String, String)>>)
    ensures
        match query_pairs(split_on(raw@, '&')) {
            Some(q) => r matches Some(v) && pairs_view(v@) == q,
            None => r is None,
        },
{
    let pieces = split_chars(raw, '&');
    let ghost all = views(pieces@);
    let mut out: Vec<(String, String)> = Vec::new();
    let mut j: usize = 0;
    assert(all.subrange(0, all.len() as int) =~= all);
    assert(query_pairs(all) matches Some(q) ==> pairs_view(out@) + q =~= q);
    while j < pieces.len()
        invariant
            all == views(pieces@),
            all == split_on(raw@, '&'),
            j <= pieces@.len(),
            query_pairs(all) == match query_pairs(all.subrange(j as int, all.len() as int)) {
                Some(rest) => Some(pairs_view(out@) + rest),
                None => None::<Seq<(Seq<char>, Seq<char>)>>,
            },
        decreases pieces@.len() - j,
    {
        let ghost rest = all.subrange(j as int, all.len() as int);
        assert(rest[0] == pieces@[j as int]@);
        assert(rest.drop_first() =~= all.subrange(j + 1, all.len() as int));
        let piece = &pieces[j];
        if piece.len() > 0 {
            let k = find_char(piece, '=');
            let key = slice_to_vec(piece, 0, k);
            let value = if k < piece.len() {
                slice_to_vec(piece, k + 1, piece.len())
            } else {
                Vec::new()
            };
            assert(rest[0] == piece@);
            assert(key@ == rest[0].subrange(0, find(rest[0], '=')));
            assert(value@ == (if k < piece@.len() {
                piece@.subrange(k + 1, piece@.len() as int)
            } else {
                Seq::empty()
            }));
            let key_s = string_of(&key);
            let value_s = string_of(&value);
            let a = match percent_decode(key_s.as_str()) {
                Some(a) => a,
                None => {
                    assert(percent_decoded(rest[0].subrange(0, find(rest[0], '='))) is None);
                    assert(query_pairs(rest) is None);
                    return None;
                },
            };
            let b = match percent_decode(value_s.as_str()) {
                Some(b) => b,
                None => return None,
            };
            out.push((a, b));
            proof {
                match query_pairs(all.subrange(j + 1, all.len() as int)) {
                    Some(tail) => {
                        assert(pairs_view(out@) + tail =~= pairs_view(out@).drop_last() + (seq![
                            pairs_view(out@).last(),
                        ] + tail));
                    },
                    None => {},
                }
            }
        }
        j = j + 1;
    }
    assert(all.subrange(j as int, all.len() as int) =~= Seq::<Seq<char>>::empty());
    assert(pairs_view(out@) + Seq::<(Seq<char>, Seq<char>)>::empty() =~= pairs_view(out@));
    Some(out)
}

/// The header lines from `pos` to the blank line.
fn parse_headers(s: &[u8], pos: usize) -> (r: Result<(Vec<(String, String)>, usize), ParseError>)
    requires
        pos <= s@.len(),
    ensures
        match spec_headers(s@, pos as int, Seq::empty(), 0) {
            Ok((h, p)) => r matches Ok((v, q)) && pairs_view(v@) == h && q == p,
            Err((status, message)) => r matches Err(e) && e.status == status && e.message@
                == message,
        },
{
    let mut headers: Vec<(String, String)> = Vec::new();
    let mut nbytes: usize = 0;
    let mut cur = pos;
    assert(pairs_view(headers@) =~= Seq::<(Seq<char>, Seq<char>)>::empty());
    loop
        invariant
            cur <= s@.len(),
            nbytes <= MAX_HEADER_BYTES,
            headers@.len() <= MAX_HEADERS,
            spec_headers(s@, cur as int, pairs_view(headers@), nbytes as int) == spec_headers(
                s@,
                pos as int,
                Seq::empty(),
                0,
            ),
        decreases s@.len() - cur,
    {
        proof {
            lemma_read_line_advances(s@, cur as int, MAX_HEADER_BYTES as int);
        }
        match read_line(s, cur, MAX_HEADER_BYTES) {
            Err(e) => {
                let m = join2("headers: ", line_err_message(e).as_str());
                return Err(ParseError::new(400, m));
            },
            Ok((line, n, next)) => {
                if n == 0 {
                    assert(spec_headers(s@, cur as int, pairs_view(headers@), nbytes as int) == Ok::<
                        (Seq<(Seq<char>, Seq<char>)>, int),
                        Failure,
                    >((pairs_view(headers@), next as int)));
                    return Ok((headers, next));
                }
                if nbytes + n > MAX_HEADER_BYTES || headers.len() >= MAX_HEADERS {
                    return Err(ParseError::new(431, "headers too large".to_string()));
                }
                let k = find_char(&line, ':');
                if k >= line.len() {
                    return Err(ParseError::new(400, join3("malformed header `", &line, "`")));
                }
                let name = to_lower(&trim_chars(&slice_to_vec(&line, 0, k)));
                let value = trim_chars(&slice_to_vec(&line, k + 1, line.len()));
                let ghost before = pairs_view(headers@);
                headers.push((string_of(&name), string_of(&value)));
                proof {
                    assert(pairs_view(headers@) =~= before.push((name@, value@)));
                }
                nbytes = nbytes + n;
                cur = next;
            },
        }
    }
}

/// The framing decisions that follow the headers.
fn finish(
    method: String,
    path: String,
    query: Vec<(String, String)>,
    headers: Vec<(String, String)>,
    pos: usize,
) -> (r: Result<(Request, usize), ParseError>)
    ensures
        match finish_head(method@, path@, pairs_view(query@), pairs_view(headers@), pos as int) {
            Ok((h, p)) => r matches Ok((req, q)) && req@ == h && q == p,
            Err((status, message)) => r matches Err(e) && e.status == status && e.message@
                == message,
        },
{
    let mut request = Request {
        method,
        path,
        query,
        headers,
        content_length: 0,
        chunked: false,
        expects_continue: false,
    };
    let te = request.header("transfer-encoding");
    match te {
        Some(value) => {
            let v = str_chars(value);
            let last = match rfind_char(&v, ',') {
                Some(k) => {
                    assert(k < v.len());
                    slice_to_vec(&v, k + 1, v.len())
                },
                None => slice_to_vec(&v, 0, v.len()),
            };
            assert(rfind(v@, ',') < 0 ==> v@.subrange(0, v@.len() as int) =~= v@);
            let last = trim_chars(&last);
            if eq_ignore_case(&last, &str_chars("chunked")) {
                request.chunked = true;
            } else if !eq_ignore_case(&last, &str_chars("identity")) {
                return fail(501, join3("transfer-encoding `", &last, "` unsupported"));
            }
        },
        None => {},
    }
    if !request.chunked {
        let cl = request.header("content-length");
        match cl {
            Some(value) => {
                let v = str_chars(value);
                match parse_u64(&v, 10) {
                    Some(n) => {
                        request.content_length = n;
                    },
                    None => {
                        return fail(400, join3("bad content-length `", &v, "`"));
                    },
                }
            },
            None => {},
        }
    }
    let ex = request.header("expect");
    request.expects_continue = match ex {
        Some(value) => eq_ignore_case(&str_chars(value), &str_chars("100-continue")),
        None => false,
    };
    Ok((request, pos))
}

/// Read the request head (request line and headers) from the start of
/// `input`. The body, if any, starts at the returned position; decode it
/// with [`body_reader`].
pub fn parse_request(input: &[u8]) -> (r: Result<(Request, usize), ParseError>)
    ensures
        parse_matches(r, input@),
{
    let (line, _n, p) = match read_line(input, 0, MAX_REQUEST_LINE) {
        Ok(x) => x,
        Err(e) => {
            return fail(400, join2("request line: ", line_err_message(e).as_str()));
        },
    };
    let ghost t = tokens(line@);
    let (m0, m1) = match next_token(&line, 0) {
        Some(x) => x,
        None => {
            return fail(400, join3("malformed request line `", &line, "`"));
        },
    };
    let (t0, t1) = match next_token(&line, m1) {
        Some(x) => x,
        None => {
            return fail(400, join3("malformed request line `", &line, "`"));
        },
    };
    let (v0, v1) = match next_token(&line, t1) {
        Some(x) => x,
        None => {
            return fail(400, join3("malformed request line `", &line, "`"));
        },
    };
    let method = slice_to_vec(&line, m0, m1);
    let target = slice_to_vec(&line, t0, t1);
    let version = slice_to_vec(&line, v0, v1);
    assert(t[0] == method@ && t[1] == target@ && t[2] == version@);
    let prefix = str_chars("HTTP/1.");
    let versioned = version.len() >= prefix.len() && {
        let head = slice_to_vec(&version, 0, prefix.len());
        seq_eq_chars(&head, &prefix)
    };
    if !versioned {
        return fail(505, join3("unsupported version `", &version, "`"));
    }
    let q = find_char(&target, '?');
    let raw_path = string_of(&slice_to_vec(&target, 0, q));
    let path = match percent_decode(raw_path.as_str()) {
        Some(path) => path,
        None => {
            return fail(400, "bad percent-encoding in path".to_string());
        },
    };
    let query: Vec<(String, String)> = if q < target.len() {
        match parse_query(&slice_to_vec(&target, q + 1, target.len())) {
            Some(query) => query,
            None => {
                return fail(400, "bad percent-encoding in query".to_string());
            },
        }
    } else {
        Vec::new()
    };
    assert(q >= target@.len() ==> pairs_view(query@) =~= Seq::<(Seq<char>, Seq<char>)>::empty());
    let (headers, body_at) = match parse_headers(input, p) {
        Ok(x) => x,
        Err(e) => {
            return Err(e);
        },
    };
    finish(string_of(&method), path, query, headers, body_at)
}

fn seq_eq_chars(a: &Vec<char>, b: &Vec<char>) -> (r: bool)
    ensures
        r == (a@ == b@),
{
    crate::text::seq_eq(a, b)
}


/// Why a body could not be decoded.
#[derive(Copy, Clone, Debug, PartialEq, Eq, Structural)]
pub enum BodyError {
    /// A framing line (chunk size, chunk end, trailer) could not be read.
    Line(LineError),
    /// A chunk size that is not a hex number.
    BadChunkSize,
    /// Chunk data not followed by its CRLF.
    Unterminated,
    /// More trailers than headers are allowed.
    TooManyTrailers,
    /// The input ended inside a chunk.
    Truncated,
}

/// Trailer lines from `pos` up to the blank line, at most `n` of them.
pub open spec fn spec_trailers(s: Seq<u8>, pos: int, n: nat) -> Result<int, BodyError>
    decreases n,
{
    if n == 0 {
        Err(BodyError::TooManyTrailers)
    } else if 0 <= pos <= s.len() {
        match spec_read_line(s, pos, MAX_CHUNK_LINE as int) {
            Err(e) => Err(BodyError::Line(e)),
            Ok((b, p)) => if b.len() == 0 {
                Ok(p)
            } else {
                spec_trailers(s, p, (n - 1) as nat)
            },
        }
    } else {
        Err(BodyError::Truncated)
    }
}

/// The size a chunk-size line announces: the hex number before any `;`
/// extension, whitespace trimmed.
pub open spec fn chunk_size(line: Seq<char>) -> Option<nat> {
    parse_uint(trim(line.subrange(0, find(line, ';'))), 16, u64::MAX as nat)
}

/// `Transfer-Encoding: chunked` decoding from `pos`, with `acc` the data of
/// the chunks before it: the body and the position after its trailers.
pub open spec fn spec_chunks(s: Seq<u8>, pos: int, acc: Seq<u8>) -> Result<(Seq<u8>, int), BodyError>
    decreases s.len() - pos,
{
    if 0 <= pos <= s.len() {
        match spec_read_line(s, pos, MAX_CHUNK_LINE as int) {
            Err(e) => Err(BodyError::Line(e)),
            Ok((b, p)) => match chunk_size(decode_utf8(b)) {
                None => Err(BodyError::BadChunkSize),
                Some(n) => if n == 0 {
                    match spec_trailers(s, p, MAX_HEADERS as nat) {
                        Err(e) => Err(e),
                        Ok(q) => Ok((acc, q)),
                    }
                } else if p + n > s.len() {
                    Err(BodyError::Truncated)
                } else {
                    match spec_read_line(s, p + n, MAX_CHUNK_LINE as int) {
                        Err(e) => Err(BodyError::Line(e)),
                        Ok((b2, q)) => if b2.len() != 0 {
                            Err(BodyError::Unterminated)
                        } else {
                            proof {
                                lemma_read_line_advances(s, pos, MAX_CHUNK_LINE as int);
                                lemma_read_line_advances(s, p + n, MAX_CHUNK_LINE as int);
                            }
                            spec_chunks(s, q, acc + s.subrange(p, p + n))
                        },
                    }
                },
            },
        }
    } else {
        Err(BodyError::Truncated)
    }
}

/// The body of a request whose head ended at `pos`: `Content-Length` bytes
/// (fewer when the input ends first), or the dechunked stream.
pub open spec fn spec_body(s: Seq<u8>, pos: int, h: Head) -> Result<(Seq<u8>, int), BodyError> {
    if h.chunked {
        spec_chunks(s, pos, Seq::empty())
    } else {
        let end = if pos + h.content_length <= s.len() {
            pos + h.content_length
        } else {
            s.len() as int
        };
        Ok((s.subrange(pos, end), end))
    }
}

fn trailers(s: &[u8], pos: usize) -> (r: Result<usize, BodyError>)
    requires
        pos <= s@.len(),
    ensures
        match spec_trailers(s@, pos as int, MAX_HEADERS as nat) {
            Ok(q) => r matches Ok(q2) && q2 == q,
            Err(e) => r == Err::<usize, BodyError>(e),
        },
{
    let mut cur = pos;
    let mut left: usize = MAX_HEADERS;
    while left > 0
        invariant
            cur <= s@.len(),
            spec_trailers(s@, cur as int, left as nat) == spec_trailers(
                s@,
                pos as int,
                MAX_HEADERS as nat,
            ),
        decreases left,
    {
        proof {
            lemma_read_line_advances(s@, cur as int, MAX_CHUNK_LINE as int);
        }
        match read_line(s, cur, MAX_CHUNK_LINE) {
            Err(e) => return Err(BodyError::Line(e)),
            Ok((_line, n, next)) => {
                if n == 0 {
                    return Ok(next);
                }
                cur = next;
                left = left - 1;
            },
        }
    }
    Err(BodyError::TooManyTrailers)
}

fn copy_range(s: &[u8], a: usize, b: usize, out: &mut Vec<u8>)
    requires
        a <= b <= s@.len(),
    ensures
        final(out)@ == old(out)@ + s@.subrange(a as int, b as int),
{
    let mut i = a;
    while i < b
        invariant
            a <= i <= b <= s@.len(),
            out@ == old(out)@ + s@.subrange(a as int, i as int),
        decreases b - i,
    {
        out.push(s[i]);
        assert(old(out)@ + s@.subrange(a as int, i + 1) =~= (old(out)@ + s@.subrange(
            a as int,
            i as int,
        )).push(s@[i as int]));
        i = i + 1;
    }
}

fn chunks(s: &[u8], pos: usize) -> (r: Result<(Vec<u8>, usize), BodyError>)
    requires
        pos <= s@.len(),
    ensures
        match spec_chunks(s@, pos as int, Seq::empty()) {
            Ok((b, q)) => r matches Ok((v, p)) && v@ == b && p == q,
            Err(e) => r matches Err(f) && f == e,
        },
{
    let mut out: Vec<u8> = Vec::new();
    let mut cur = pos;
    loop
        invariant
            cur <= s@.len(),
            spec_chunks(s@, cur as int, out@) == spec_chunks(s@, pos as int, Seq::empty()),
        decreases s@.len() - cur,
    {
        proof {
            lemma_read_line_advances(s@, cur as int, MAX_CHUNK_LINE as int);
        }
        let (line, _n, p) = match read_line(s, cur, MAX_CHUNK_LINE) {
            Err(e) => return Err(BodyError::Line(e)),
            Ok(x) => x,
        };
        let k = find_char(&line, ';');
        let size_text = trim_chars(&slice_to_vec(&line, 0, k));
        let size = match parse_u64(&size_text, 16) {
            None => return Err(BodyError::BadChunkSize),
            Some(n) => n,
        };
        if size == 0 {
            return match trailers(s, p) {
                Err(e) => Err(e),
                Ok(q) => Ok((out, q)),
            };
        }
        if size as u128 > (s.len() - p) as u128 {
            return Err(BodyError::Truncated);
        }
        let end = p + size as usize;
        proof {
            lemma_read_line_advances(s@, end as int, MAX_CHUNK_LINE as int);
        }
        let (_rest, n2, q) = match read_line(s, end, MAX_CHUNK_LINE) {
            Err(e) => return Err(BodyError::Line(e)),
            Ok(x) => x,
        };
        if n2 != 0 {
            return Err(BodyError::Unterminated);
        }
        copy_range(s, p, end, &mut out);
        cur = q;
    }
}

/// The request body that starts at `pos` of `input`: `Content-Length`
/// bytes, or the dechunked stream, and the position after it. A chunked body
/// is bounded only by its own framing.
pub fn body_reader(input: &[u8], pos: usize, request: &Request) -> (r: Result<(Vec<u8>, usize), BodyError>)
    requires
        pos <= input@.len(),
    ensures
        match spec_body(input@, pos as int, request@) {
            Ok((b, q)) => r matches Ok((v, p)) && v@ == b && p == q,
            Err(e) => r matches Err(f) && f == e,
        },
{
    if request.chunked {
        chunks(input, pos)
    } else {
        let avail = input.len() - pos;
        let end = if request.content_length as u128 <= avail as u128 {
            pos + request.content_length as usize
        } else {
            input.len()
        };
        let mut out: Vec<u8> = Vec::new();
        copy_range(input, pos, end, &mut out);
        assert(out@ =~= input@.subrange(pos as int, end as int));
        Ok((out, end))
    }
}

/// Where a chunked body streamed off a connection stands between reads:
/// the app reads framing lines and chunk data from the socket and hands
/// each to [`on_chunk_line`] or [`on_chunk_data`].
#[derive(Copy, Clone, Debug, PartialEq, Eq, Structural)]
pub enum ChunkPhase {
    /// A chunk-size line comes next.
    SizeLine,
    /// This many bytes (more than zero) of chunk data come next.
    Data(u64),
    /// The empty line that closes a chunk's data comes next.
    DataEnd,
    /// Trailer lines up to a blank one; this many more are allowed.
    Trailers(u64),
    /// The terminating chunk and its trailers arrived: the body is over.
    Done,
}

/// The phase after the framing line `line` (its text, without the line
/// ending) in `phase`.
pub open spec fn after_line(phase: ChunkPhase, line: Seq<char>) -> Result<ChunkPhase, BodyError> {
    match phase {
        ChunkPhase::SizeLine => match chunk_size(line) {
            None => Err(BodyError::BadChunkSize),
            Some(n) => if n == 0 {
                Ok(ChunkPhase::Trailers(MAX_HEADERS as u64))
            } else {
                Ok(ChunkPhase::Data(n as u64))
            },
        },
        ChunkPhase::DataEnd => if line.len() == 0 {
            Ok(ChunkPhase::SizeLine)
        } else {
            Err(BodyError::Unterminated)
        },
        ChunkPhase::Trailers(k) => if line.len() == 0 {
            Ok(ChunkPhase::Done)
        } else if k > 1 {
            Ok(ChunkPhase::Trailers((k - 1) as u64))
        } else {
            Err(BodyError::TooManyTrailers)
        },
        _ => Ok(phase),
    }
}

/// Whether a framing line is what `phase` waits for.
pub open spec fn wants_line(phase: ChunkPhase) -> bool {
    phase is SizeLine || phase is DataEnd || (phase matches ChunkPhase::Trailers(k) && k > 0)
}

pub fn on_chunk_line(phase: ChunkPhase, line: &[char]) -> (r: Result<ChunkPhase, BodyError>)
    requires
        wants_line(phase),
    ensures
        r == after_line(phase, line@),
{
    match phase {
        ChunkPhase::SizeLine => {
            let k = find_char(line, ';');
            let size_text = trim_chars(&slice_to_vec(line, 0, k));
            match parse_u64(&size_text, 16) {
                None => Err(BodyError::BadChunkSize),
                Some(n) => if n == 0 {
                    Ok(ChunkPhase::Trailers(MAX_HEADERS as u64))
                } else {
                    Ok(ChunkPhase::Data(n))
                },
            }
        },
        ChunkPhase::DataEnd => if line.len() == 0 {
            Ok(ChunkPhase::SizeLine)
        } else {
            Err(BodyError::Unterminated)
        },
        ChunkPhase::Trailers(k) => if line.len() == 0 {
            Ok(ChunkPhase::Done)
        } else if k > 1 {
            Ok(ChunkPhase::Trailers(k - 1))
        } else {
            Err(BodyError::TooManyTrailers)
        },
        _ => Ok(phase),
    }
}

/// `n` bytes of chunk data arrived in `Data(left)`: at most `left`, and at
/// least one (a read of none mid-chunk is the connection closing, which
/// the app reports as [`BodyError::Truncated`]).
pub fn on_chunk_data(phase: ChunkPhase, n: u64) -> (r: ChunkPhase)
    requires
        phase matches ChunkPhase::Data(left) && 0 < n <= left,
    ensures
        phase matches ChunkPhase::Data(left) && r == (if n == left {
            ChunkPhase::DataEnd
        } else {
            ChunkPhase::Data((left - n) as u64)
        }),
{
    match phase {
        ChunkPhase::Data(left) => if n == left {
            ChunkPhase::DataEnd
        } else {
            ChunkPhase::Data(left - n)
        },
        _ => phase,
    }
}

/// A phase's place in the decoding measure: data comes before its end.
pub open spec fn phase_rank(p: ChunkPhase) -> int {
    if p is Data {
        1
    } else {
        0
    }
}

/// Decoding a chunked body held whole in `s` from `pos` by the streaming
/// phases, starting in `phase` with `acc` the data so far: framing lines
/// read as [`read_line`] reads them, chunk data taken at once.
pub open spec fn stream_chunks(s: Seq<u8>, pos: int, phase: ChunkPhase, acc: Seq<u8>) -> Result<
    (Seq<u8>, int),
    BodyError,
>
    decreases s.len() - pos, phase_rank(phase),
{
    if !(0 <= pos <= s.len()) {
        Err(BodyError::Truncated)
    } else {
        match phase {
            ChunkPhase::Done => Ok((acc, pos)),
            ChunkPhase::Data(n) => if pos + n > s.len() {
                Err(BodyError::Truncated)
            } else {
                stream_chunks(s, pos + n, ChunkPhase::DataEnd, acc + s.subrange(pos, pos + n))
            },
            _ => match spec_read_line(s, pos, MAX_CHUNK_LINE as int) {
                Err(e) => Err(BodyError::Line(e)),
                Ok((b, p)) => match after_line(phase, decode_utf8(b)) {
                    Err(e) => Err(e),
                    Ok(next) => {
                        proof {
                            lemma_read_line_advances(s, pos, MAX_CHUNK_LINE as int);
                        }
                        stream_chunks(s, p, next, acc)
                    },
                },
            },
        }
    }
}

/// Valid UTF-8 decodes to nothing exactly when it is empty.
proof fn lemma_decode_empty(b: Seq<u8>)
    requires
        valid_utf8(b),
    ensures
        (decode_utf8(b).len() == 0) == (b.len() == 0),
{
    if b.len() > 0 {
        assert(decode_utf8(b) == seq![vstd::utf8::decode_first_scalar(b) as char] + decode_utf8(
            vstd::utf8::pop_first_scalar(b),
        ));
    }
}

proof fn lemma_stream_trailers(s: Seq<u8>, pos: int, k: u64, acc: Seq<u8>)
    requires
        0 <= pos <= s.len(),
        k >= 1,
    ensures
        stream_chunks(s, pos, ChunkPhase::Trailers(k), acc) == match spec_trailers(s, pos, k as nat) {
            Ok(q) => Ok::<(Seq<u8>, int), BodyError>((acc, q)),
            Err(e) => Err(e),
        },
    decreases k,
{
    lemma_read_line_advances(s, pos, MAX_CHUNK_LINE as int);
    match spec_read_line(s, pos, MAX_CHUNK_LINE as int) {
        Err(_) => {},
        Ok((b, p)) => {
            lemma_decode_empty(b);
            if b.len() == 0 {
                assert(after_line(ChunkPhase::Trailers(k), decode_utf8(b)) == Ok::<ChunkPhase, BodyError>(
                    ChunkPhase::Done,
                ));
                assert(stream_chunks(s, p, ChunkPhase::Done, acc) == Ok::<(Seq<u8>, int), BodyError>((acc, p)));
            } else if k > 1 {
                lemma_stream_trailers(s, p, (k - 1) as u64, acc);
            }
        },
    }
}

/// Streaming a chunked body phase by phase, as a connection is read,
/// decodes what reading it whole decodes: the same data, the same end,
/// the same error.
pub proof fn lemma_stream_matches_whole(s: Seq<u8>, pos: int, acc: Seq<u8>)
    requires
        0 <= pos <= s.len(),
    ensures
        stream_chunks(s, pos, ChunkPhase::SizeLine, acc) == spec_chunks(s, pos, acc),
    decreases s.len() - pos,
{
    lemma_read_line_advances(s, pos, MAX_CHUNK_LINE as int);
    match spec_read_line(s, pos, MAX_CHUNK_LINE as int) {
        Err(_) => {},
        Ok((b, p)) => {
            match chunk_size(decode_utf8(b)) {
                None => {},
                Some(n) => {
                    if n == 0 {
                        lemma_stream_trailers(s, p, MAX_HEADERS as u64, acc);
                    } else {
                        assert((n as u64) as int == n);
                        let data = acc + s.subrange(p, p + n);
                        assert(stream_chunks(s, pos, ChunkPhase::SizeLine, acc) == stream_chunks(
                            s,
                            p,
                            ChunkPhase::Data(n as u64),
                            acc,
                        ));
                        if p + n <= s.len() {
                            assert(stream_chunks(s, p, ChunkPhase::Data(n as u64), acc) == stream_chunks(
                                s,
                                p + n,
                                ChunkPhase::DataEnd,
                                data,
                            ));
                            lemma_read_line_advances(s, p + n, MAX_CHUNK_LINE as int);
                            match spec_read_line(s, p + n, MAX_CHUNK_LINE as int) {
                                Err(_) => {},
                                Ok((b2, q)) => {
                                    lemma_decode_empty(b2);
                                    if b2.len() == 0 {
                                        assert(stream_chunks(s, p + n, ChunkPhase::DataEnd, data) == stream_chunks(
                                            s,
                                            q,
                                            ChunkPhase::SizeLine,
                                            data,
                                        ));
                                        lemma_stream_matches_whole(s, q, data);
                                    }
                                },
                            }
                        }
                    }
                },
            }
        },
    }
}

/// The reason phrase of the statuses this server answers with.
pub open spec fn reason(status: u16) -> Seq<char> {
    if status == 200 {
        "OK"@
    } else if status == 204 {
        "No Content"@
    } else if status == 400 {
        "Bad Request"@
    } else if status == 401 {
        "Unauthorized"@
    } else if status == 403 {
        "Forbidden"@
    } else if status == 404 {
        "Not Found"@
    } else if status == 405 {
        "Method Not Allowed"@
    } else if status == 409 {
        "Conflict"@
    } else if status == 413 {
        "Payload Too Large"@
    } else if status == 429 {
        "Too Many Requests"@
    } else if status == 431 {
        "Request Header Fields Too Large"@
    } else if status == 500 {
        "Internal Server Error"@
    } else if status == 501 {
        "Not Implemented"@
    } else if status == 505 {
        "HTTP Version Not Supported"@
    } else {
        ""@
    }
}

pub fn reason_phrase(status: u16) -> (r: &'static str)
    ensures
        r@ == reason(status),
{
    match status {
        200 => "OK",
        204 => "No Content",
        400 => "Bad Request",
        401 => "Unauthorized",
        403 => "Forbidden",
        404 => "Not Found",
        405 => "Method Not Allowed",
        409 => "Conflict",
        413 => "Payload Too Large",
        429 => "Too Many Requests",
        431 => "Request Header Fields Too Large",
        500 => "Internal Server Error",
        501 => "Not Implemented",
        505 => "HTTP Version Not Supported",
        _ => "",
    }
}

/// The head of a response with `body`: status line, the JSON content type
/// when there is a body, its length, and `Connection: close`.
pub open spec fn response_head(status: u16, json: bool, body: Seq<char>) -> Seq<char> {
    "HTTP/1.1 "@ + dec(status as nat) + " "@ + reason(status) + "\r\n"@ + (if json {
        "Content-Type: application/json\r\n"@
    } else {
        ""@
    }) + "Content-Length: "@ + dec(encode_utf8(body).len()) + "\r\nConnection: close\r\n\r\n"@
}

/// The bytes of a whole response.
pub open spec fn response(status: u16, json: Option<Seq<char>>) -> Seq<u8> {
    let body = match json {
        Some(b) => b,
        None => Seq::empty(),
    };
    encode_utf8(response_head(status, json is Some, body) + body)
}

fn string_bytes(s: &str) -> (r: Vec<u8>)
    ensures
        r@ == encode_utf8(s@),
{
    let b = s.as_bytes();
    let mut out: Vec<u8> = Vec::new();
    copy_range(b, 0, b.len(), &mut out);
    assert(out@ =~= b@);
    out
}

fn respond(status: u16, json: Option<&str>) -> (r: Vec<u8>)
    ensures
        r@ == response(status, match json {
            Some(j) => Some(j@),
            None => None,
        }),
{
    let body: &str = match json {
        Some(j) => j,
        None => "",
    };
    proof {
        reveal_strlit("");
        assert(""@ =~= Seq::<char>::empty());
    }
    let body_len = body.as_bytes().len();
    let mut head: Vec<char> = str_chars("HTTP/1.1 ");
    head = concat_chars(&head, &decimal(status as u64));
    head = concat_chars(&head, &str_chars(" "));
    head = concat_chars(&head, &str_chars(reason_phrase(status)));
    head = concat_chars(&head, &str_chars("\r\n"));
    let content_type = if json.is_some() {
        "Content-Type: application/json\r\n"
    } else {
        ""
    };
    head = concat_chars(&head, &str_chars(content_type));
    head = concat_chars(&head, &str_chars("Content-Length: "));
    head = concat_chars(&head, &decimal(body_len as u64));
    head = concat_chars(&head, &str_chars("\r\nConnection: close\r\n\r\n"));
    head = concat_chars(&head, &str_chars(body));
    let text = string_of(&head);
    string_bytes(text.as_str())
}

fn concat_chars(a: &Vec<char>, b: &Vec<char>) -> (r: Vec<char>)
    ensures
        r@ == a@ + b@,
{
    crate::text::concat(a, b)
}

/// The bytes of a response with no body.
pub fn respond_empty(status: u16) -> (r: Vec<u8>)
    ensures
        r@ == response(status, None),
{
    respond(status, None)
}

/// The bytes of a JSON response.
pub fn respond_json(status: u16, json: &str) -> (r: Vec<u8>)
    ensures
        r@ == response(status, Some(json@)),
{
    respond(status, Some(json))
}

pub open spec fn continue_text() -> Seq<char> {
    "HTTP/1.1 100 Continue\r\n\r\n"@
}

/// The interim response a client sent `Expect: 100-continue` waits for.
pub fn write_continue() -> (r: Vec<u8>)
    ensures
        r@ == encode_utf8(continue_text()),
{
    string_bytes("HTTP/1.1 100 Continue\r\n\r\n")
}

} // verus!
