//! The HTTP/1.1 side of the DevTools inspector endpoint: finding and parsing a
//! request head, header lookup, the WebSocket upgrade test and handshake, and
//! the fixed responses.
use vstd::prelude::*;
use vstd::string::StrSliceExecFns;
use vstd::utf8::{decode_utf8, encode_utf8, valid_utf8};

use crate::codec::{base64_encode, base64_text, sha1, sha1_digest};
use crate::lexical::{
    contains_chars, contains_seq, eq_ignore_ascii_case, eq_ignore_case, lower_seq,
    lowercase_chars, next_word, next_word_bounds, trim, trim_bounds,
};
use crate::numbers::{decimal, push_decimal};
use crate::text::{
    append_chars, append_str, find_char, first_index, lemma_first_index_props, slice_chars,
    str_chars, string_from_chars,
};

verus! {

/// Cap on a request head, so that a client cannot make the server buffer
/// without bound while it waits for the terminating CRLFCRLF.
pub const MAX_HEAD_BYTES: usize = 16384;

/// The value from RFC 6455 §4.2.2 that `Sec-WebSocket-Accept` is derived with.
pub open spec fn ws_guid() -> Seq<char> {
    "258EAFA5-E914-47DA-95CA-C5AB0DC85B11"@
}

// ---------------------------------------------------------------------------
// Request heads
// ---------------------------------------------------------------------------

/// Whether `"\r\n\r\n"` starts at `i` in `buf`.
pub open spec fn blank_line_at(buf: Seq<u8>, i: int) -> bool {
    0 <= i && i + 4 <= buf.len() && buf[i] == 13u8 && buf[i + 1] == 10u8 && buf[i + 2] == 13u8
        && buf[i + 3] == 10u8
}

/// Position of the first `"\r\n\r\n"` in `buf`, which ends a request head.
pub fn find_head_end(buf: &[u8]) -> (r: Option<usize>)
    ensures
        match r {
            Some(i) => blank_line_at(buf@, i as int) && forall|j: int|
                0 <= j < i ==> !#[trigger] blank_line_at(buf@, j),
            None => forall|j: int| !#[trigger] blank_line_at(buf@, j),
        },
{
    let n: usize = buf.len();
    if n < 4 {
        return None;
    }
    let mut i: usize = 0;
    while i < n - 3
        invariant
            n == buf@.len(),
            n >= 4,
            forall|j: int| 0 <= j < i ==> !#[trigger] blank_line_at(buf@, j),
        decreases n - i,
    {
        if buf[i] == 13u8 && buf[i + 1] == 10u8 && buf[i + 2] == 13u8 && buf[i + 3] == 10u8 {
            return Some(i);
        }
        i = i + 1;
    }
    None
}

/// The pieces of `s` between occurrences of `"\r\n"`, as `str::split("\r\n")` gives them.
pub open spec fn split_lines(s: Seq<char>) -> Seq<Seq<char>>
    decreases s.len(),
{
    if s.len() == 0 {
        seq![Seq::<char>::empty()]
    } else if s.len() >= 2 && s[s.len() - 2] == '\r' && s.last() == '\n' {
        split_lines(s.take(s.len() - 2)).push(Seq::<char>::empty())
    } else {
        let p = split_lines(s.drop_last());
        p.update(p.len() - 1, p.last().push(s.last()))
    }
}

proof fn lemma_split_lines_nonempty(s: Seq<char>)
    ensures
        split_lines(s).len() >= 1,
    decreases s.len(),
{
    if s.len() >= 2 && s[s.len() - 2] == '\r' && s.last() == '\n' {
        lemma_split_lines_nonempty(s.take(s.len() - 2));
    } else if s.len() > 0 {
        lemma_split_lines_nonempty(s.drop_last());
    }
}

/// Pieces joined back together with `"\r\n"` between them.
pub open spec fn join_lines(ps: Seq<Seq<char>>) -> Seq<char>
    decreases ps.len(),
{
    if ps.len() <= 1 {
        if ps.len() == 1 {
            ps[0]
        } else {
            Seq::empty()
        }
    } else {
        join_lines(ps.drop_last()) + seq!['\r', '\n'] + ps.last()
    }
}

proof fn lemma_join_lines_extend_last(ps: Seq<Seq<char>>, c: char)
    requires
        ps.len() >= 1,
    ensures
        join_lines(ps.update(ps.len() - 1, ps.last().push(c))) == join_lines(ps).push(c),
{
    let q = ps.update(ps.len() - 1, ps.last().push(c));
    if ps.len() == 1 {
        assert(q[0] == ps[0].push(c));
    } else {
        assert(q.drop_last() =~= ps.drop_last());
        assert(q.last() == ps.last().push(c));
        assert((join_lines(ps.drop_last()) + seq!['\r', '\n'] + ps.last().push(c)) =~= (join_lines(ps.drop_last())
            + seq!['\r', '\n'] + ps.last()).push(c));
    }
}

/// Whether `p` holds no `"\r\n"`.
pub open spec fn free_of_crlf(p: Seq<char>) -> bool {
    forall|j: int| 0 <= j < p.len() - 1 ==> !(#[trigger] p[j] == '\r' && p[j + 1] == '\n')
}

/// Splitting at `"\r\n"` loses nothing and cuts at every `"\r\n"`: joining the
/// pieces back with `"\r\n"` gives the text again, no piece holds `"\r\n"`,
/// and there is always at least one piece.
pub proof fn law_split_lines_rejoin(s: Seq<char>)
    ensures
        split_lines(s).len() >= 1,
        join_lines(split_lines(s)) == s,
        forall|k: int| 0 <= k < split_lines(s).len() ==> free_of_crlf(#[trigger] split_lines(s)[k]),
        split_lines(s).last() == s.skip(s.len() - split_lines(s).last().len()),
    decreases s.len(),
{
    lemma_split_lines_nonempty(s);
    if s.len() == 0 {
        assert(join_lines(split_lines(s)) =~= s);
    } else if s.len() >= 2 && s[s.len() - 2] == '\r' && s.last() == '\n' {
        let t = s.take(s.len() - 2);
        law_split_lines_rejoin(t);
        let p = split_lines(t).push(Seq::<char>::empty());
        assert(p.drop_last() =~= split_lines(t));
        assert(join_lines(p) =~= t + seq!['\r', '\n'] + Seq::<char>::empty());
        assert(t + seq!['\r', '\n'] + Seq::<char>::empty() =~= s);
        assert forall|k: int| 0 <= k < p.len() implies free_of_crlf(#[trigger] p[k]) by {
            if k < p.len() - 1 {
                assert(p[k] == split_lines(t)[k]);
            }
        }
        assert(s.skip(s.len() as int) =~= Seq::<char>::empty());
    } else {
        let t = s.drop_last();
        law_split_lines_rejoin(t);
        lemma_join_lines_extend_last(split_lines(t), s.last());
        assert(t.push(s.last()) =~= s);
        let pt = split_lines(t);
        let l = pt.last();
        let c = s.last();
        let p = pt.update(pt.len() - 1, l.push(c));
        assert(free_of_crlf(pt[pt.len() - 1]));
        assert(free_of_crlf(l.push(c))) by {
            assert forall|j: int| 0 <= j < l.push(c).len() - 1 implies !(#[trigger] l.push(c)[j] == '\r' && l.push(
                c,
            )[j + 1] == '\n') by {
                if j < l.len() - 1 {
                    assert(l.push(c)[j] == l[j]);
                    assert(l.push(c)[j + 1] == l[j + 1]);
                } else {
                    assert(l.push(c)[j] == l.last());
                    assert(l.last() == t.last());
                    assert(t.last() == s[s.len() - 2]);
                }
            }
        }
        assert forall|k: int| 0 <= k < p.len() implies free_of_crlf(#[trigger] p[k]) by {
            if k < p.len() - 1 {
                assert(p[k] == pt[k]);
            }
        }
        assert(l.push(c) =~= s.skip(s.len() - l.push(c).len()));
    }
}

/// Splits `s` at every `"\r\n"`.
fn split_lines_exec(s: &[char]) -> (lines: Vec<Vec<char>>)
    ensures
        lines@.len() == split_lines(s@).len(),
        forall|i: int| 0 <= i < lines@.len() ==> (#[trigger] lines@[i])@ == split_lines(s@)[i],
{
    let n: usize = s.len();
    let mut lines: Vec<Vec<char>> = Vec::new();
    let mut cur: Vec<char> = Vec::new();
    let mut i: usize = 0;
    while i < n
        invariant
            n == s@.len(),
            i <= n,
            i > 0 && i < n ==> !(s@[i - 1] == '\r' && s@[i as int] == '\n'),
            ({
                let p = split_lines(s@.take(i as int));
                &&& lines@.len() + 1 == p.len()
                &&& forall|k: int| 0 <= k < lines@.len() ==> (#[trigger] lines@[k])@ == p[k]
                &&& cur@ == p.last()
            }),
        decreases n - i,
    {
        proof {
            lemma_split_lines_nonempty(s@.take(i as int));
        }
        if s[i] == '\r' && i + 1 < n && s[i + 1] == '\n' {
            proof {
                let t = s@.take(i + 2);
                assert(t.take(t.len() - 2) =~= s@.take(i as int));
            }
            let done = cur;
            lines.push(done);
            cur = Vec::new();
            i = i + 2;
        } else {
            proof {
                let t = s@.take(i + 1);
                assert(t.drop_last() =~= s@.take(i as int));
                if i > 0 {
                    assert(t[t.len() - 2] == s@[i - 1]);
                }
            }
            cur.push(s[i]);
            i = i + 1;
        }
    }
    proof {
        assert(s@.take(n as int) =~= s@);
    }
    lines.push(cur);
    lines
}

/// A header line's name and value, each trimmed, as `split_once(':')` and
/// `trim` give them; `None` for a line without a colon.
pub open spec fn header_entry(line: Seq<char>) -> Option<(Seq<char>, Seq<char>)> {
    match first_index(line, ':') {
        Some(i) => Some((trim(line.take(i)), trim(line.skip(i + 1)))),
        None => None,
    }
}

/// The headers of the given lines, in order, skipping lines without a colon.
pub open spec fn header_entries(lines: Seq<Seq<char>>) -> Seq<(Seq<char>, Seq<char>)>
    decreases lines.len(),
{
    if lines.len() == 0 {
        Seq::empty()
    } else {
        let rest = header_entries(lines.drop_last());
        match header_entry(lines.last()) {
            Some(e) => rest.push(e),
            None => rest,
        }
    }
}

/// What a request head says: its method, its path and its headers in order.
pub struct RequestModel {
    pub method: Seq<char>,
    pub path: Seq<char>,
    pub headers: Seq<(Seq<char>, Seq<char>)>,
}

/// The request a head describes: the first two words of its first line and the
/// headers of the lines after it; `None` when the first line has fewer than two words.
pub open spec fn parse_head_spec(head: Seq<char>) -> Option<RequestModel> {
    let lines = split_lines(head);
    match next_word(lines[0]) {
        None => None,
        Some((method, rest)) => match next_word(rest) {
            None => None,
            Some((path, _)) => Some(
                RequestModel { method, path, headers: header_entries(lines.drop_first()) },
            ),
        },
    }
}

/// A parsed HTTP request head.
pub struct Request {
    pub method: String,
    pub path: String,
    pub headers: Vec<(String, String)>,
}

impl View for Request {
    type V = RequestModel;

    open spec fn view(&self) -> RequestModel {
        RequestModel {
            method: self.method@,
            path: self.path@,
            headers: self.headers_view(),
        }
    }
}

impl Request {
    /// The headers, in the order they came.
    pub open spec fn headers_view(&self) -> Seq<(Seq<char>, Seq<char>)> {
        self.headers@.map_values(|h: (String, String)| (h.0@, h.1@))
    }
}

/// Parses the header line `line`, if it has a colon.
fn parse_header_line(line: &[char]) -> (r: Option<(String, String)>)
    ensures
        match r {
            Some(h) => header_entry(line@) == Some((h.0@, h.1@)),
            None => header_entry(line@) is None,
        },
{
    proof {
        lemma_first_index_props(line@, ':');
    }
    match find_char(line, ':') {
        None => None,
        Some(i) => {
            let n: usize = line.len();
            let (a, b) = trim_bounds(line, 0, i);
            let (c, d) = trim_bounds(line, i + 1, n);
            proof {
                assert(line@.subrange(0, i as int) =~= line@.take(i as int));
                assert(line@.subrange(i + 1, line@.len() as int) =~= line@.skip(i + 1));
            }
            let name = string_from_chars(slice_chars(line, a, b).as_slice());
            let value = string_from_chars(slice_chars(line, c, d).as_slice());
            Some((name, value))
        },
    }
}

/// Parses a request head: the request line and the header lines after it.
/// Returns `None` when the request line lacks a method or a path.
pub fn parse_head(head: &str) -> (r: Option<Request>)
    ensures
        match r {
            Some(req) => parse_head_spec(head@) == Some(req@),
            None => parse_head_spec(head@) is None,
        },
{
    let s = str_chars(head);
    let lines = split_lines_exec(s.as_slice());
    proof {
        lemma_split_lines_nonempty(s@);
    }
    let first = lines[0].as_slice();
    let (ma, mb) = match next_word_bounds(first, 0) {
        None => {
            proof {
                assert(first@.skip(0) =~= first@);
            }
            return None;
        },
        Some(w) => w,
    };
    proof {
        assert(first@.skip(0) =~= first@);
    }
    let (pa, pb) = match next_word_bounds(first, mb) {
        None => {
            return None;
        },
        Some(w) => w,
    };
    let method = string_from_chars(slice_chars(first, ma, mb).as_slice());
    let path = string_from_chars(slice_chars(first, pa, pb).as_slice());
    let mut headers: Vec<(String, String)> = Vec::new();
    let mut k: usize = 1;
    while k < lines.len()
        invariant
            1 <= k <= lines@.len(),
            lines@.len() == split_lines(s@).len(),
            forall|i: int| 0 <= i < lines@.len() ==> (#[trigger] lines@[i])@ == split_lines(s@)[i],
            headers@.map_values(|h: (String, String)| (h.0@, h.1@)) == header_entries(
                split_lines(s@).subrange(1, k as int),
            ),
        decreases lines@.len() - k,
    {
        let entry = parse_header_line(lines[k].as_slice());
        let ghost before = headers@;
        proof {
            let ls = split_lines(s@).subrange(1, k + 1);
            assert(ls.drop_last() =~= split_lines(s@).subrange(1, k as int));
            assert(ls.last() == lines@[k as int]@);
        }
        match entry {
            Some(h) => {
                headers.push(h);
                proof {
                    assert(headers@.map_values(|h: (String, String)| (h.0@, h.1@)) =~= before.map_values(
                        |h: (String, String)| (h.0@, h.1@),
                    ).push((h.0@, h.1@)));
                }
            },
            None => {},
        }
        k = k + 1;
    }
    proof {
        assert(split_lines(s@).subrange(1, lines@.len() as int) =~= split_lines(s@).drop_first());
    }
    Some(Request { method, path, headers })
}

/// The value of the first header named `name`, ignoring ASCII case.
pub open spec fn lookup_header(headers: Seq<(Seq<char>, Seq<char>)>, name: Seq<char>) -> Option<
    Seq<char>,
>
    decreases headers.len(),
{
    if headers.len() == 0 {
        None
    } else if eq_ignore_case(headers[0].0, name) {
        Some(headers[0].1)
    } else {
        lookup_header(headers.drop_first(), name)
    }
}

/// A header lookup gives the value of the first header whose name matches
/// ignoring ASCII case, and nothing when no header name matches.
pub proof fn law_header_lookup_first(headers: Seq<(Seq<char>, Seq<char>)>, name: Seq<char>)
    ensures
        lookup_header(headers, name) matches Some(v) ==> exists|i: int|
            0 <= i < headers.len() && eq_ignore_case(#[trigger] headers[i].0, name) && headers[i].1 == v
                && forall|j: int| 0 <= j < i ==> !eq_ignore_case(#[trigger] headers[j].0, name),
        lookup_header(headers, name) is None ==> forall|i: int|
            0 <= i < headers.len() ==> !eq_ignore_case(#[trigger] headers[i].0, name),
    decreases headers.len(),
{
    if headers.len() > 0 {
        let rest = headers.drop_first();
        law_header_lookup_first(rest, name);
        assert forall|i: int| 0 < i < headers.len() implies headers[i] == #[trigger] rest[i - 1] by {}
        if eq_ignore_case(headers[0].0, name) {
            assert(eq_ignore_case(headers[0].0, name) && headers[0].1 == lookup_header(headers, name)->Some_0);
        } else if let Some(v) = lookup_header(rest, name) {
            let k = choose|k: int|
                0 <= k < rest.len() && eq_ignore_case(#[trigger] rest[k].0, name) && rest[k].1 == v && forall|j: int|
                    0 <= j < k ==> !eq_ignore_case(#[trigger] rest[j].0, name);
            assert(headers[k + 1] == rest[k]);
            assert forall|j: int| 0 <= j < k + 1 implies !eq_ignore_case(#[trigger] headers[j].0, name) by {
                if j > 0 {
                    assert(headers[j] == rest[j - 1]);
                }
            }
            assert(eq_ignore_case(headers[k + 1].0, name) && headers[k + 1].1 == v);
        } else {
            assert forall|i: int| 0 <= i < headers.len() implies !eq_ignore_case(#[trigger] headers[i].0, name) by {
                if i > 0 {
                    assert(headers[i] == rest[i - 1]);
                }
            }
        }
    }
}

/// Whether a request with these headers asks for a WebSocket upgrade that can be
/// completed: `Connection` mentions `upgrade`, `Upgrade` is `websocket` (both
/// ignoring ASCII case), and `Sec-WebSocket-Key` is present.
pub open spec fn is_upgrade_spec(headers: Seq<(Seq<char>, Seq<char>)>) -> bool {
    &&& lookup_header(headers, "connection"@) matches Some(v) && contains_seq(
        lower_seq(v),
        "upgrade"@,
    )
    &&& lookup_header(headers, "upgrade"@) matches Some(v) && eq_ignore_case(v, "websocket"@)
    &&& lookup_header(headers, "sec-websocket-key"@) is Some
}

impl Request {
    /// The value of the first header named `name`; header names are compared
    /// ignoring ASCII case.
    pub fn header(&self, name: &str) -> (r: Option<&str>)
        ensures
            match r {
                Some(v) => lookup_header(self@.headers, name@) == Some(v@),
                None => lookup_header(self@.headers, name@) is None,
            },
    {
        let ghost hs = self@.headers;
        let key = str_chars(name);
        let mut i: usize = 0;
        proof {
            assert(hs.skip(0) =~= hs);
        }
        while i < self.headers.len()
            invariant
                i <= self.headers@.len(),
                hs == self@.headers,
                key@ == name@,
                lookup_header(hs, name@) == lookup_header(hs.skip(i as int), name@),
            decreases self.headers@.len() - i,
        {
            let k = str_chars(self.headers[i].0.as_str());
            proof {
                let t = hs.skip(i as int);
                assert(t[0] == hs[i as int]);
                assert(t.drop_first() =~= hs.skip(i + 1));
            }
            if eq_ignore_ascii_case(k.as_slice(), key.as_slice()) {
                return Some(self.headers[i].1.as_str());
            }
            i = i + 1;
        }
        None
    }

    /// True when this is a WebSocket upgrade request that can be completed.
    pub fn is_websocket_upgrade(&self) -> (r: bool)
        ensures
            r == is_upgrade_spec(self@.headers),
    {
        let connection_upgrade = match self.header("connection") {
            Some(v) => {
                let lowered = lowercase_chars(str_chars(v).as_slice());
                let want = str_chars("upgrade");
                contains_chars(lowered.as_slice(), want.as_slice())
            },
            None => false,
        };
        let upgrade_websocket = match self.header("upgrade") {
            Some(v) => {
                let want = str_chars("websocket");
                eq_ignore_ascii_case(str_chars(v).as_slice(), want.as_slice())
            },
            None => false,
        };
        let has_key = match self.header("sec-websocket-key") {
            Some(_) => true,
            None => false,
        };
        connection_upgrade && upgrade_websocket && has_key
    }
}

/// Calls `String::from_utf8_lossy`, which decodes `bytes` as UTF-8 and puts
/// U+FFFD in place of each invalid sequence. Trusted: the text depends on the
/// bytes alone, and is their decoding when they are valid UTF-8.
pub uninterp spec fn lossy_text(bytes: Seq<u8>) -> Seq<char>;

#[verifier::external_body]
fn utf8_lossy(bytes: &[u8]) -> (s: String)
    ensures
        s@ == lossy_text(bytes@),
        valid_utf8(bytes@) ==> s@ == decode_utf8(bytes@),
{
    String::from_utf8_lossy(bytes).into_owned()
}

/// What the bytes received so far make of a request head.
pub enum HeadScan {
    /// The head is complete: the request it holds, if it parses, and the bytes
    /// received after it (for an upgrade, the first frame bytes).
    Complete { request: Option<Request>, leftover: Vec<u8> },
    /// No head end yet, and more than `MAX_HEAD_BYTES` bytes have arrived.
    TooLarge,
    /// No head end yet; more bytes are needed.
    Incomplete,
}

/// Decides what to do with the bytes received so far on a new connection.
pub fn scan_request(buf: &[u8]) -> (r: HeadScan)
    ensures
        match r {
            HeadScan::Complete { request, leftover } => exists|end: int|
                #![trigger blank_line_at(buf@, end)]
                {
                    &&& blank_line_at(buf@, end)
                    &&& forall|j: int| 0 <= j < end ==> !#[trigger] blank_line_at(buf@, j)
                    &&& leftover@ == buf@.skip(end + 4)
                    &&& match request {
                        Some(req) => parse_head_spec(lossy_text(buf@.take(end))) == Some(req@),
                        None => parse_head_spec(lossy_text(buf@.take(end))) is None,
                    }
                },
            HeadScan::TooLarge => (forall|j: int| !#[trigger] blank_line_at(buf@, j)) && buf@.len()
                > MAX_HEAD_BYTES,
            HeadScan::Incomplete => (forall|j: int| !#[trigger] blank_line_at(buf@, j))
                && buf@.len() <= MAX_HEAD_BYTES,
        },
{
    let n: usize = buf.len();
    match find_head_end(buf) {
        Some(end) => {
            let head_bytes = vstd::slice::slice_subrange(buf, 0, end);
            let head = utf8_lossy(head_bytes);
            let request = parse_head(head.as_str());
            let rest = vstd::slice::slice_subrange(buf, end + 4, n);
            let leftover = vstd::slice::slice_to_vec(rest);
            proof {
                assert(head_bytes@ =~= buf@.take(end as int));
                assert(leftover@ =~= buf@.skip(end + 4));
            }
            HeadScan::Complete { request, leftover }
        },
        None => {
            if buf.len() > MAX_HEAD_BYTES {
                HeadScan::TooLarge
            } else {
                HeadScan::Incomplete
            }
        },
    }
}

// ---------------------------------------------------------------------------
// Responses
// ---------------------------------------------------------------------------

/// The headers that let a browser-hosted DevTools front end call the endpoint.
pub open spec fn cors_headers() -> Seq<char> {
    "Access-Control-Allow-Origin: *\r\nAccess-Control-Allow-Headers: content-type\r\nAccess-Control-Allow-Methods: GET, POST, OPTIONS\r\n"@
}

/// A `200 OK` response carrying `body` as JSON; `Content-Length` counts the
/// body's UTF-8 bytes.
pub open spec fn json_response_text(body: Seq<char>) -> Seq<char> {
    "HTTP/1.1 200 OK\r\nContent-Type: application/json\r\nContent-Length: "@ + decimal(
        encode_utf8(body).len(),
    ) + "\r\n"@ + cors_headers() + "Connection: close\r\n\r\n"@ + body
}

/// A response with the given status line and no body.
pub open spec fn empty_response_text(status: Seq<char>) -> Seq<char> {
    "HTTP/1.1 "@ + status + "\r\nContent-Length: 0\r\n"@ + cors_headers()
        + "Connection: close\r\n\r\n"@
}

/// The `101 Switching Protocols` response that completes a WebSocket handshake.
pub open spec fn handshake_text(accept: Seq<char>) -> Seq<char> {
    "HTTP/1.1 101 Switching Protocols\r\nUpgrade: websocket\r\nConnection: Upgrade\r\nSec-WebSocket-Accept: "@
        + accept + "\r\n\r\n"@
}

/// `Sec-WebSocket-Accept` for a client key: base64 of the SHA-1 of the key's
/// bytes followed by the GUID's bytes (RFC 6455 §4.2.2).
pub open spec fn accept_key_spec(client_key: Seq<char>) -> Seq<char> {
    base64_text(sha1_digest(encode_utf8(client_key) + encode_utf8(ws_guid())))
}

fn text_bytes(text: &[char]) -> (r: Vec<u8>)
    ensures
        r@ == encode_utf8(text@),
{
    let s = string_from_chars(text);
    s.as_str().as_bytes_vec()
}

fn push_cors(out: &mut Vec<char>)
    ensures
        final(out)@ == old(out)@ + cors_headers(),
{
    append_str(
        out,
        "Access-Control-Allow-Origin: *\r\nAccess-Control-Allow-Headers: content-type\r\nAccess-Control-Allow-Methods: GET, POST, OPTIONS\r\n",
    );
}

/// The bytes of a `200 OK` JSON response with the given body.
pub fn json_response(body: &str) -> (r: Vec<u8>)
    ensures
        r@ == encode_utf8(json_response_text(body@)),
{
    let mut out: Vec<char> = Vec::new();
    append_str(&mut out, "HTTP/1.1 200 OK\r\nContent-Type: application/json\r\nContent-Length: ");
    let n: usize = body.as_bytes().len();
    push_decimal(&mut out, n as u64);
    append_str(&mut out, "\r\n");
    push_cors(&mut out);
    append_str(&mut out, "Connection: close\r\n\r\n");
    append_str(&mut out, body);
    proof {
        assert(out@ =~= json_response_text(body@));
    }
    text_bytes(out.as_slice())
}

/// The bytes of a body-less response with the given status (such as `404 Not Found`).
pub fn empty_response(status: &str) -> (r: Vec<u8>)
    ensures
        r@ == encode_utf8(empty_response_text(status@)),
{
    let mut out: Vec<char> = Vec::new();
    append_str(&mut out, "HTTP/1.1 ");
    append_str(&mut out, status);
    append_str(&mut out, "\r\nContent-Length: 0\r\n");
    push_cors(&mut out);
    append_str(&mut out, "Connection: close\r\n\r\n");
    proof {
        assert(out@ =~= empty_response_text(status@));
    }
    text_bytes(out.as_slice())
}

/// Derives `Sec-WebSocket-Accept` from the client's `Sec-WebSocket-Key`.
pub fn accept_key(client_key: &str) -> (r: String)
    ensures
        r@ == accept_key_spec(client_key@),
{
    let mut data: Vec<u8> = client_key.as_bytes_vec();
    let mut guid: Vec<u8> = "258EAFA5-E914-47DA-95CA-C5AB0DC85B11".as_bytes_vec();
    data.append(&mut guid);
    let digest = sha1(data.as_slice());
    base64_encode(digest.as_slice())
}

/// The bytes of the handshake response for the client's `Sec-WebSocket-Key`.
pub fn handshake_response(client_key: &str) -> (r: Vec<u8>)
    ensures
        r@ == encode_utf8(handshake_text(accept_key_spec(client_key@))),
{
    let accept = accept_key(client_key);
    let mut out: Vec<char> = Vec::new();
    append_str(
        &mut out,
        "HTTP/1.1 101 Switching Protocols\r\nUpgrade: websocket\r\nConnection: Upgrade\r\nSec-WebSocket-Accept: ",
    );
    append_str(&mut out, accept.as_str());
    append_str(&mut out, "\r\n\r\n");
    proof {
        assert(out@ =~= handshake_text(accept_key_spec(client_key@)));
    }
    text_bytes(out.as_slice())
}

} // verus!
