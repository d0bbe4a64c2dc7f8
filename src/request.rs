//! The request parser: raw header bytes and body bytes into a structured
//! request, and the way back to bytes.

use vstd::prelude::*;
use crate::bytes::{
    is_space, is_space_byte, trim, trim_bytes, copy_range, push_all, utf8_decode, decode_utf8,
    ascii_lower, lower_byte, eq_ignore_case, bytes_eq_ignore_case, LF, CR,
};
use crate::error::ErrorToken;

verus! {

/// One header line: a name and its trimmed value, as they arrived.
#[derive(Clone, Debug)]
pub struct Header {
    pub name: Vec<u8>,
    pub value: Vec<u8>,
}

/// A parsed HTTP/1.1 request. `path` is the path part of `uri`.
#[derive(Clone, Debug)]
pub struct Request {
    pub method: Vec<u8>,
    pub uri: Vec<u8>,
    pub path: Vec<u8>,
    pub headers: Vec<Header>,
    pub body: Vec<u8>,
}

pub struct RequestView {
    pub method: Seq<u8>,
    pub uri: Seq<u8>,
    pub path: Seq<u8>,
    pub headers: Seq<(Seq<u8>, Seq<u8>)>,
    pub body: Seq<u8>,
}

pub open spec fn header_view(h: Header) -> (Seq<u8>, Seq<u8>) {
    (h.name@, h.value@)
}

impl View for Request {
    type V = RequestView;

    open spec fn view(&self) -> RequestView {
        RequestView {
            method: self.method@,
            uri: self.uri@,
            path: self.path@,
            headers: self.headers@.map_values(|h: Header| header_view(h)),
            body: self.body@,
        }
    }
}

/// A token character of RFC 7230.
pub open spec fn is_tchar(b: u8) -> bool {
    (48 <= b <= 57) || (65 <= b <= 90) || (97 <= b <= 122) || b == 33 || b == 35 || b == 36
        || b == 37 || b == 38 || b == 39 || b == 42 || b == 43 || b == 45 || b == 46 || b == 94
        || b == 95 || b == 96 || b == 124 || b == 126
}

/// A token: a non-empty string of token characters.
pub open spec fn is_token(s: Seq<u8>) -> bool {
    s.len() > 0 && forall|i: int| 0 <= i < s.len() ==> is_tchar(#[trigger] s[i])
}

/// A byte that may stand in a header value.
pub open spec fn is_value_byte(b: u8) -> bool {
    (b >= 32 && b != 127) || b == 9
}

/// A header name: a token of at most 65535 bytes.
pub open spec fn is_header_name(s: Seq<u8>) -> bool {
    is_token(s) && s.len() <= 65535
}

pub open spec fn is_header_value(s: Seq<u8>) -> bool {
    forall|i: int| 0 <= i < s.len() ==> is_value_byte(#[trigger] s[i])
}

/// Whether `http::Uri` accepts a request target.
pub uninterp spec fn uri_accepted(s: Seq<u8>) -> bool;

/// The path that `http::Uri::path` gives for an accepted request target.
pub uninterp spec fn uri_path_of(s: Seq<u8>) -> Seq<u8>;

/// Relies on http::Method::from_bytes, which accepts exactly the non-empty
/// strings of token characters.
#[verifier::external_body]
fn method_accepted(b: &[u8]) -> (r: bool)
    ensures r == is_token(b@),
{
    http::Method::from_bytes(b).is_ok()
}

/// Relies on http::HeaderValue::from_bytes, which accepts exactly the
/// strings of visible bytes, spaces and tabs.
#[verifier::external_body]
fn value_accepted(b: &[u8]) -> (r: bool)
    ensures r == is_header_value(b@),
{
    http::HeaderValue::from_bytes(b).is_ok()
}

/// Relies on http::HeaderName::from_bytes, which accepts exactly the tokens
/// of at most 65535 bytes.
#[verifier::external_body]
fn name_accepted(b: &[u8]) -> (r: bool)
    ensures r == is_header_name(b@),
{
    http::HeaderName::from_bytes(b).is_ok()
}

/// Relies on http::Uri's conversion from bytes to accept or refuse a request
/// target, and on http::Uri::path for the path of an accepted one.
#[verifier::external_body]
fn uri_path(b: &[u8]) -> (r: Option<Vec<u8>>)
    ensures
        r.is_some() == uri_accepted(b@),
        r matches Some(p) ==> p@ == uri_path_of(b@),
{
    http::Uri::try_from(b).ok().map(|u| u.path().as_bytes().to_vec())
}

/// Splits on LF, keeping empty pieces: one piece more than there are LF bytes.
pub open spec fn lines_of(s: Seq<u8>) -> Seq<Seq<u8>>
    decreases s.len(),
{
    if s.len() == 0 {
        seq![Seq::<u8>::empty()]
    } else {
        let prev = lines_of(s.drop_last());
        if s.last() == LF {
            prev.push(Seq::<u8>::empty())
        } else {
            prev.update(prev.len() - 1, prev.last().push(s.last()))
        }
    }
}

pub proof fn lemma_lines_nonempty(s: Seq<u8>)
    ensures lines_of(s).len() >= 1,
    decreases s.len(),
{
    if s.len() > 0 {
        lemma_lines_nonempty(s.drop_last());
    }
}

/// A line without its trailing CR.
pub open spec fn strip_cr(l: Seq<u8>) -> Seq<u8> {
    if l.len() > 0 && l.last() == CR { l.drop_last() } else { l }
}

/// Words of `s` that are complete, and the word still being read.
pub open spec fn words_state(s: Seq<u8>) -> (Seq<Seq<u8>>, Seq<u8>)
    decreases s.len(),
{
    if s.len() == 0 {
        (Seq::empty(), Seq::empty())
    } else {
        let (w, c) = words_state(s.drop_last());
        if is_space(s.last()) {
            if c.len() > 0 { (w.push(c), Seq::empty()) } else { (w, c) }
        } else {
            (w, c.push(s.last()))
        }
    }
}

/// The maximal runs of non-whitespace bytes of `s`, in order.
pub open spec fn words_of(s: Seq<u8>) -> Seq<Seq<u8>> {
    let (w, c) = words_state(s);
    if c.len() > 0 { w.push(c) } else { w }
}

pub open spec fn is_http11(v: Seq<u8>) -> bool {
    v.len() == 8 && ascii_lower(v[0]) == 104 && ascii_lower(v[1]) == 116 && ascii_lower(v[2]) == 116
        && ascii_lower(v[3]) == 112 && v[4] == 47 && v[5] == 49 && v[6] == 46 && v[7] == 49
}

/// The outcome of parsing a request line: method, target and its path.
pub open spec fn request_line_spec(l: Seq<u8>) -> Result<(Seq<u8>, Seq<u8>, Seq<u8>), ErrorToken> {
    let w = words_of(l);
    if w.len() != 3 {
        Err(ErrorToken::HeadersInvalidRequestLine)
    } else if !is_token(w[0]) {
        Err(ErrorToken::HeadersInvalidMethod)
    } else if !uri_accepted(w[1]) {
        Err(ErrorToken::HeadersInvalidUri)
    } else if !is_http11(w[2]) {
        Err(ErrorToken::HeadersInvalidVersion)
    } else {
        Ok((w[0], w[1], uri_path_of(w[1])))
    }
}

/// The first index `i >= from` where `": "` starts, or -1.
pub open spec fn find_colon_sp(s: Seq<u8>, from: int) -> int
    decreases s.len() - from,
{
    if from < 0 || from + 1 >= s.len() {
        -1
    } else if s[from] == 58 && s[from + 1] == 32 {
        from
    } else {
        find_colon_sp(s, from + 1)
    }
}

/// A header line: ignored when it holds no `": "`, else a name and a
/// trimmed value, both checked.
pub open spec fn header_line_spec(l: Seq<u8>) -> Result<Option<(Seq<u8>, Seq<u8>)>, ErrorToken> {
    let k = find_colon_sp(l, 0);
    if k < 0 {
        Ok(None)
    } else {
        let name = l.subrange(0, k);
        let value = trim(l.subrange(k + 2, l.len() as int));
        if !is_header_name(name) {
            Err(ErrorToken::HeadersInvalidHeaderName)
        } else if !is_header_value(value) {
            Err(ErrorToken::HeadersInvalidHeaderValue)
        } else {
            Ok(Some((name, value)))
        }
    }
}

/// The headers of `lines[i..]`, up to the first empty line.
pub open spec fn headers_spec(lines: Seq<Seq<u8>>, i: int) -> Result<Seq<(Seq<u8>, Seq<u8>)>, ErrorToken>
    decreases lines.len() - i,
{
    if i < 0 || i >= lines.len() || strip_cr(lines[i]).len() == 0 {
        Ok(Seq::empty())
    } else {
        match header_line_spec(strip_cr(lines[i])) {
            Err(e) => Err(e),
            Ok(None) => headers_spec(lines, i + 1),
            Ok(Some(h)) => match headers_spec(lines, i + 1) {
                Err(e) => Err(e),
                Ok(rest) => Ok(seq![h] + rest),
            },
        }
    }
}

/// What parsing a header section and a body gives.
pub open spec fn parse_spec(head: Seq<u8>, body: Seq<u8>) -> Result<RequestView, ErrorToken> {
    if head.len() == 0 {
        Err(ErrorToken::HeadersBufferEmpty)
    } else if utf8_decode(head).is_none() {
        Err(ErrorToken::HeadersBufferToString)
    } else {
        let lines = lines_of(head);
        match request_line_spec(strip_cr(lines[0])) {
            Err(e) => Err(e),
            Ok((m, u, p)) => match headers_spec(lines, 1) {
                Err(e) => Err(e),
                Ok(hs) => Ok(RequestView { method: m, uri: u, path: p, headers: hs, body }),
            },
        }
    }
}

pub open spec fn lines_view(v: Seq<Vec<u8>>) -> Seq<Seq<u8>> {
    v.map_values(|l: Vec<u8>| l@)
}

/// The LF-separated lines of `s`.
pub fn split_lines(s: &[u8]) -> (r: Vec<Vec<u8>>)
    ensures lines_view(r@) == lines_of(s@),
{
    let mut lines: Vec<Vec<u8>> = Vec::new();
    let mut cur: Vec<u8> = Vec::new();
    let mut i: usize = 0;
    assert(s@.subrange(0, 0) =~= Seq::<u8>::empty());
    assert(lines_view(lines@).push(cur@) =~= lines_of(s@.subrange(0, 0)));
    while i < s.len()
        invariant
            i <= s@.len(),
            lines_view(lines@).push(cur@) == lines_of(s@.subrange(0, i as int)),
        decreases s@.len() - i,
    {
        let ghost pre = s@.subrange(0, i as int);
        assert(s@.subrange(0, i + 1).drop_last() =~= pre);
        proof { lemma_lines_nonempty(pre); }
        if s[i] == LF {
            lines.push(cur);
            cur = Vec::new();
            assert(lines_view(lines@).push(cur@) =~= lines_of(s@.subrange(0, i + 1)));
        } else {
            cur.push(s[i]);
            assert(lines_view(lines@).push(cur@) =~= lines_of(s@.subrange(0, i + 1)));
        }
        i += 1;
    }
    lines.push(cur);
    assert(s@.subrange(0, s@.len() as int) =~= s@);
    assert(lines_view(lines@) =~= lines_of(s@));
    lines
}

/// The whitespace-separated words of `s`.
pub fn split_words(s: &[u8]) -> (r: Vec<Vec<u8>>)
    ensures lines_view(r@) == words_of(s@),
{
    let mut words: Vec<Vec<u8>> = Vec::new();
    let mut cur: Vec<u8> = Vec::new();
    let mut i: usize = 0;
    assert(s@.subrange(0, 0) =~= Seq::<u8>::empty());
    while i < s.len()
        invariant
            i <= s@.len(),
            (lines_view(words@), cur@) == words_state(s@.subrange(0, i as int)),
        decreases s@.len() - i,
    {
        assert(s@.subrange(0, i + 1).drop_last() =~= s@.subrange(0, i as int));
        if is_space_byte(s[i]) {
            if cur.len() > 0 {
                words.push(cur);
                cur = Vec::new();
                assert(lines_view(words@) =~= words_state(s@.subrange(0, i + 1)).0);
            }
        } else {
            cur.push(s[i]);
        }
        i += 1;
    }
    assert(s@.subrange(0, s@.len() as int) =~= s@);
    if cur.len() > 0 {
        words.push(cur);
        assert(lines_view(words@) =~= words_of(s@));
    }
    words
}

fn strip_cr_bytes(l: &[u8]) -> (r: Vec<u8>)
    ensures r@ == strip_cr(l@),
{
    if l.len() > 0 && l[l.len() - 1] == CR {
        copy_range(l, 0, l.len() - 1)
    } else {
        copy_range(l, 0, l.len())
    }
}

fn version_is_http11(v: &[u8]) -> (r: bool)
    ensures r == is_http11(v@),
{
    v.len() == 8 && lower_byte(v[0]) == 104 && lower_byte(v[1]) == 116 && lower_byte(v[2]) == 116
        && lower_byte(v[3]) == 112 && v[4] == 47 && v[5] == 49 && v[6] == 46 && v[7] == 49
}

/// The parts of a request line: the method, the request target, and the
/// target's path.
pub struct RequestLine {
    pub method: Vec<u8>,
    pub uri: Vec<u8>,
    pub path: Vec<u8>,
}

/// Parses `METHOD SP URI SP VERSION`: exactly three whitespace-separated
/// words, a valid method and target, and the version HTTP/1.1 in any case.
pub fn parse_request_line(line: &[u8]) -> (r: Result<RequestLine, ErrorToken>)
    ensures
        match (r, request_line_spec(line@)) {
            (Ok(rl), Ok((m, u, p))) => rl.method@ == m && rl.uri@ == u && rl.path@ == p,
            (Err(e), Err(f)) => e == f,
            _ => false,
        },
{
    let words = split_words(line);
    let ghost w = words_of(line@);
    if words.len() != 3 {
        return Err(ErrorToken::HeadersInvalidRequestLine);
    }
    assert(words@[0]@ == w[0] && words@[1]@ == w[1] && words@[2]@ == w[2]);
    if !method_accepted(words[0].as_slice()) {
        return Err(ErrorToken::HeadersInvalidMethod);
    }
    let path = match uri_path(words[1].as_slice()) {
        Some(p) => p,
        None => { return Err(ErrorToken::HeadersInvalidUri); },
    };
    if !version_is_http11(words[2].as_slice()) {
        return Err(ErrorToken::HeadersInvalidVersion);
    }
    let method = words[0].clone();
    let uri = words[1].clone();
    assert(method@ == w[0] && uri@ == w[1]);
    Ok(RequestLine { method, uri, path })
}

fn find_colon_space(l: &[u8]) -> (r: Option<usize>)
    ensures
        match r {
            Some(k) => find_colon_sp(l@, 0) == k as int && k + 1 < l@.len(),
            None => find_colon_sp(l@, 0) < 0,
        },
{
    if l.len() < 2 {
        return None;
    }
    let mut i: usize = 0;
    while i < l.len() - 1
        invariant
            l@.len() >= 2,
            i <= l@.len(),
            find_colon_sp(l@, 0) == find_colon_sp(l@, i as int),
        decreases l@.len() - i,
    {
        if l[i] == 58 && l[i + 1] == 32 {
            return Some(i);
        }
        i += 1;
    }
    None
}

/// Parses one header line: `None` where the line holds no `": "`.
pub fn parse_header_line(l: &[u8]) -> (r: Result<Option<Header>, ErrorToken>)
    ensures
        match (r, header_line_spec(l@)) {
            (Ok(Some(h)), Ok(Some(hv))) => header_view(h) == hv,
            (Ok(None), Ok(None)) => true,
            (Err(e), Err(f)) => e == f,
            _ => false,
        },
{
    let found = find_colon_space(l);
    match found {
        None => Ok(None),
        Some(k) => {
            assert(k + 1 < l@.len());
            let name = copy_range(l, 0, k);
            let n = l.len();
            let rest = copy_range(l, k + 2, n);
            let value = trim_bytes(rest.as_slice());
            if !name_accepted(name.as_slice()) {
                Err(ErrorToken::HeadersInvalidHeaderName)
            } else if !value_accepted(value.as_slice()) {
                Err(ErrorToken::HeadersInvalidHeaderValue)
            } else {
                Ok(Some(Header { name, value }))
            }
        },
    }
}

pub open spec fn headers_view(v: Seq<Header>) -> Seq<(Seq<u8>, Seq<u8>)> {
    v.map_values(|h: Header| header_view(h))
}

/// Parses a header section and a body into a request: the request line,
/// then each header line up to the first empty one. Lines end at LF, with a
/// trailing CR dropped; a line without `": "` is skipped; repeated names
/// are all kept, in order.
pub fn parse_raw_request(head: Vec<u8>, body: Vec<u8>) -> (r: Result<Request, ErrorToken>)
    ensures
        match (r, parse_spec(head@, body@)) {
            (Ok(q), Ok(v)) => q@ == v,
            (Err(e), Err(f)) => e == f,
            _ => false,
        },
{
    if head.len() == 0 {
        return Err(ErrorToken::HeadersBufferEmpty);
    }
    if decode_utf8(head.as_slice()).is_none() {
        return Err(ErrorToken::HeadersBufferToString);
    }
    let lines = split_lines(head.as_slice());
    let ghost lv = lines_of(head@);
    proof { lemma_lines_nonempty(head@); }
    assert(lines@[0]@ == lv[0]);
    let first = strip_cr_bytes(lines[0].as_slice());
    let rl = match parse_request_line(first.as_slice()) {
        Ok(rl) => rl,
        Err(e) => { return Err(e); },
    };
    let mut headers: Vec<Header> = Vec::new();
    let mut i: usize = 1;
    assert(headers_view(headers@) + Seq::<(Seq<u8>, Seq<u8>)>::empty() =~= Seq::<(Seq<u8>, Seq<u8>)>::empty());
    assert(headers_spec(lv, 1) == match headers_spec(lv, 1) {
        Ok(rest) => Ok(headers_view(headers@) + rest),
        Err(e) => Err(e),
    }) by {
        match headers_spec(lv, 1) {
            Ok(rest) => { assert(headers_view(headers@) + rest =~= rest); },
            Err(e) => {},
        }
    }
    while i < lines.len()
        invariant
            1 <= i <= lines@.len(),
            lv == lines_view(lines@),
            lv == lines_of(head@),
            head@.len() > 0,
            utf8_decode(head@) is Some,
            request_line_spec(strip_cr(lv[0])) == Ok::<(Seq<u8>, Seq<u8>, Seq<u8>), ErrorToken>((rl.method@, rl.uri@, rl.path@)),
            headers_spec(lv, 1) == match headers_spec(lv, i as int) {
                Ok(rest) => Ok(headers_view(headers@) + rest),
                Err(e) => Err(e),
            },
        decreases lines@.len() - i,
    {
        assert(lines@[i as int]@ == lv[i as int]);
        let line = strip_cr_bytes(lines[i].as_slice());
        if line.len() == 0 {
            assert(headers_spec(lv, lines@.len() as int) == headers_spec(lv, i as int));
            i = lines.len();
        } else {
            match parse_header_line(line.as_slice()) {
                Err(e) => {
                    assert(line@ == strip_cr(lv[i as int]));
                    assert(headers_spec(lv, i as int) == Err::<Seq<(Seq<u8>, Seq<u8>)>, ErrorToken>(e));
                    return Err(e);
                },
                Ok(None) => {},
                Ok(Some(h)) => {
                    let ghost old_hs = headers@;
                    headers.push(h);
                    assert(headers_view(headers@) =~= headers_view(old_hs).push(header_view(h)));
                    proof {
                        match headers_spec(lv, i + 1) {
                            Ok(rest) => {
                                assert(headers_view(old_hs) + (seq![header_view(h)] + rest)
                                    =~= headers_view(headers@) + rest);
                            },
                            Err(e) => {},
                        }
                    }
                },
            }
            i += 1;
        }
    }
    assert(headers_view(headers@) + Seq::<(Seq<u8>, Seq<u8>)>::empty() =~= headers_view(headers@));
    Ok(Request { method: rl.method, uri: rl.uri, path: rl.path, headers, body })
}

/// The value of the first header named `name`, in any case.
pub open spec fn header_lookup(hs: Seq<(Seq<u8>, Seq<u8>)>, name: Seq<u8>) -> Option<Seq<u8>>
    decreases hs.len(),
{
    if hs.len() == 0 {
        None
    } else if eq_ignore_case(hs[0].0, name) {
        Some(hs[0].1)
    } else {
        header_lookup(hs.drop_first(), name)
    }
}

/// The value of the first header named `name`, compared without case.
pub fn find_header(hs: &Vec<Header>, name: &[u8]) -> (r: Option<Vec<u8>>)
    ensures
        match (r, header_lookup(headers_view(hs@), name@)) {
            (Some(v), Some(w)) => v@ == w,
            (None, None) => true,
            _ => false,
        },
{
    let ghost hv = headers_view(hs@);
    let mut i: usize = 0;
    assert(hv.subrange(0, hv.len() as int) =~= hv);
    while i < hs.len()
        invariant
            i <= hs@.len(),
            hv == headers_view(hs@),
            header_lookup(hv, name@) == header_lookup(hv.subrange(i as int, hv.len() as int), name@),
        decreases hs@.len() - i,
    {
        let ghost rest = hv.subrange(i as int, hv.len() as int);
        assert(rest.drop_first() =~= hv.subrange(i + 1, hv.len() as int));
        assert(rest[0] == header_view(hs@[i as int]));
        if bytes_eq_ignore_case(hs[i].name.as_slice(), name) {
            return Some(hs[i].value.clone());
        }
        i += 1;
    }
    None
}

/// Lines joined with LF between them.
pub open spec fn join_lines(segs: Seq<Seq<u8>>) -> Seq<u8>
    decreases segs.len(),
{
    if segs.len() <= 1 {
        if segs.len() == 0 { Seq::empty() } else { segs[0] }
    } else {
        join_lines(segs.drop_last()) + seq![LF] + segs.last()
    }
}

pub open spec fn http11_bytes() -> Seq<u8> {
    seq![72u8, 84, 84, 80, 47, 49, 46, 49]
}

pub open spec fn request_line_bytes(method: Seq<u8>, uri: Seq<u8>) -> Seq<u8> {
    method + seq![32u8] + uri + seq![32u8] + http11_bytes()
}

pub open spec fn header_text(h: (Seq<u8>, Seq<u8>)) -> Seq<u8> {
    h.0 + seq![58u8, 32] + h.1
}

/// The lines of a request's header section, each ending in CR: the request
/// line, one line per header, the empty line; then the empty remainder.
pub open spec fn head_lines(r: RequestView) -> Seq<Seq<u8>> {
    seq![request_line_bytes(r.method, r.uri).push(CR)]
        + r.headers.map_values(|h: (Seq<u8>, Seq<u8>)| header_text(h).push(CR))
        + seq![seq![CR], Seq::<u8>::empty()]
}

/// The header section of a request on the wire.
pub open spec fn head_bytes(r: RequestView) -> Seq<u8> {
    join_lines(head_lines(r))
}

pub open spec fn no_space(s: Seq<u8>) -> bool {
    forall|i: int| 0 <= i < s.len() ==> !is_space(#[trigger] s[i])
}

pub open spec fn no_lf(s: Seq<u8>) -> bool {
    forall|i: int| 0 <= i < s.len() ==> #[trigger] s[i] != LF
}

/// A request that its header section describes exactly: a method token,
/// an accepted target without whitespace and its path, headers whose names
/// are accepted tokens and whose values are valid and already trimmed, and
/// a header section that is UTF-8 text.
pub open spec fn well_formed(r: RequestView) -> bool {
    &&& is_token(r.method)
    &&& r.uri.len() > 0 && no_space(r.uri) && uri_accepted(r.uri) && r.path == uri_path_of(r.uri)
    &&& forall|i: int| 0 <= i < r.headers.len() ==> {
        let h = #[trigger] r.headers[i];
        is_header_name(h.0) && is_header_value(h.1) && trim(h.1) == h.1
    }
    &&& utf8_decode(head_bytes(r)) is Some
}

proof fn lemma_lines_append_plain(a: Seq<u8>, b: Seq<u8>)
    requires no_lf(b),
    ensures
        lines_of(a + b) == lines_of(a).update(lines_of(a).len() - 1, lines_of(a).last() + b),
    decreases b.len(),
{
    lemma_lines_nonempty(a);
    if b.len() == 0 {
        assert(a + b =~= a);
        assert(lines_of(a).last() + b =~= lines_of(a).last());
        assert(lines_of(a).update(lines_of(a).len() - 1, lines_of(a).last()) =~= lines_of(a));
    } else {
        let b0 = b.drop_last();
        assert(no_lf(b0)) by {
            assert forall|i: int| 0 <= i < b0.len() implies #[trigger] b0[i] != LF by {
                assert(b0[i] == b[i]);
            }
        }
        lemma_lines_append_plain(a, b0);
        assert((a + b).drop_last() =~= a + b0);
        assert(b.last() != LF) by { assert(b[b.len() - 1] != LF); }
        assert((lines_of(a).last() + b0).push(b.last()) =~= lines_of(a).last() + b);
        assert(lines_of(a + b) =~= lines_of(a).update(lines_of(a).len() - 1, lines_of(a).last() + b));
    }
}

proof fn lemma_lines_of_join(segs: Seq<Seq<u8>>)
    requires
        segs.len() > 0,
        forall|i: int| 0 <= i < segs.len() ==> no_lf(#[trigger] segs[i]),
    ensures lines_of(join_lines(segs)) == segs,
    decreases segs.len(),
{
    if segs.len() == 1 {
        lemma_lines_append_plain(Seq::empty(), segs[0]);
        assert(Seq::<u8>::empty() + segs[0] =~= segs[0]);
        assert(lines_of(segs[0]) =~= segs);
    } else {
        let front = segs.drop_last();
        assert forall|i: int| 0 <= i < front.len() implies no_lf(#[trigger] front[i]) by {
            assert(front[i] == segs[i]);
        }
        lemma_lines_of_join(front);
        let a = join_lines(front) + seq![LF];
        assert((join_lines(front) + seq![LF]).drop_last() =~= join_lines(front));
        assert(lines_of(a) == front.push(Seq::<u8>::empty()));
        assert(no_lf(segs.last())) by { assert(segs.last() == segs[segs.len() - 1]); }
        lemma_lines_append_plain(a, segs.last());
        assert(Seq::<u8>::empty() + segs.last() =~= segs.last());
        assert(front.push(Seq::<u8>::empty()).update(front.len() as int, segs.last()) =~= segs);
    }
}

proof fn lemma_words_append_word(a: Seq<u8>, w: Seq<u8>)
    requires no_space(w),
    ensures words_state(a + w) == (words_state(a).0, words_state(a).1 + w),
    decreases w.len(),
{
    if w.len() == 0 {
        assert(a + w =~= a);
        assert(words_state(a).1 + w =~= words_state(a).1);
    } else {
        let w0 = w.drop_last();
        assert(no_space(w0)) by {
            assert forall|i: int| 0 <= i < w0.len() implies !is_space(#[trigger] w0[i]) by {
                assert(w0[i] == w[i]);
            }
        }
        lemma_words_append_word(a, w0);
        assert((a + w).drop_last() =~= a + w0);
        assert(!is_space(w.last())) by { assert(!is_space(w[w.len() - 1])); }
        assert((words_state(a).1 + w0).push(w.last()) =~= words_state(a).1 + w);
    }
}

proof fn lemma_words_append_space(a: Seq<u8>)
    ensures
        words_state(a + seq![32u8]) == (if words_state(a).1.len() > 0 {
            (words_state(a).0.push(words_state(a).1), Seq::<u8>::empty())
        } else {
            words_state(a)
        }),
{
    assert((a + seq![32u8]).drop_last() =~= a);
}

proof fn lemma_request_line_words(m: Seq<u8>, u: Seq<u8>)
    requires
        m.len() > 0,
        u.len() > 0,
        no_space(m),
        no_space(u),
    ensures words_of(request_line_bytes(m, u)) == seq![m, u, http11_bytes()],
{
    let e = Seq::<u8>::empty();
    assert(words_state(e) == (Seq::<Seq<u8>>::empty(), e));
    lemma_words_append_word(e, m);
    assert(e + m =~= m);
    lemma_words_append_space(m);
    let a1 = m + seq![32u8];
    lemma_words_append_word(a1, u);
    assert(e + u =~= u);
    let a2 = a1 + u;
    lemma_words_append_space(a2);
    let a3 = a2 + seq![32u8];
    let v = http11_bytes();
    assert(no_space(v));
    lemma_words_append_word(a3, v);
    assert(e + v =~= v);
    assert(a3 + v =~= request_line_bytes(m, u));
    assert(seq![m].push(u) =~= seq![m, u]);
    assert(seq![m, u].push(v) =~= seq![m, u, v]);
}

proof fn lemma_find_colon(name: Seq<u8>, value: Seq<u8>, i: int)
    requires
        0 <= i <= name.len(),
        is_token(name),
    ensures find_colon_sp(header_text((name, value)), i) == name.len(),
    decreases name.len() - i,
{
    let t = header_text((name, value));
    if i < name.len() {
        assert(t[i] == name[i]);
        assert(is_tchar(name[i]));
        lemma_find_colon(name, value, i + 1);
    } else {
        assert(t[i] == 58 && t[i + 1] == 32);
    }
}

proof fn lemma_header_lines(r: RequestView, j: int)
    requires
        well_formed(r),
        0 <= j <= r.headers.len(),
    ensures
        headers_spec(head_lines(r), 1 + j) == Ok::<Seq<(Seq<u8>, Seq<u8>)>, ErrorToken>(r.headers.subrange(j, r.headers.len() as int)),
    decreases r.headers.len() - j,
{
    let lines = head_lines(r);
    let n = r.headers.len() as int;
    if j == n {
        assert(lines[1 + n] == seq![CR]);
        assert(strip_cr(seq![CR]).len() == 0);
        assert(r.headers.subrange(n, n) =~= Seq::<(Seq<u8>, Seq<u8>)>::empty());
    } else {
        lemma_header_lines(r, j + 1);
        let h = r.headers[j];
        let t = header_text(h);
        assert(lines[1 + j] == t.push(CR));
        assert(t.push(CR).drop_last() =~= t);
        assert(strip_cr(lines[1 + j]) == t);
        assert(t.len() > 0) by { assert(h.0.len() > 0); }
        lemma_find_colon(h.0, h.1, 0);
        assert(t.subrange(0, h.0.len() as int) =~= h.0);
        assert(t.subrange(h.0.len() as int + 2, t.len() as int) =~= h.1);
        assert(header_line_spec(t) == Ok::<Option<(Seq<u8>, Seq<u8>)>, ErrorToken>(Some(h)));
        assert(seq![h] + r.headers.subrange(j + 1, n) =~= r.headers.subrange(j, n));
    }
}

/// Serializing a well-formed request and parsing the result gives the
/// request back: the header section and the body are read as they were
/// written.
pub proof fn lemma_parse_serialize(r: RequestView)
    requires well_formed(r),
    ensures parse_spec(head_bytes(r), r.body) == Ok::<RequestView, ErrorToken>(r),
{
    let lines = head_lines(r);
    let hl = r.headers.map_values(|h: (Seq<u8>, Seq<u8>)| header_text(h).push(CR));
    let rl = request_line_bytes(r.method, r.uri);
    assert(lines.len() == r.headers.len() + 3);
    assert(lines[0] == rl.push(CR));
    assert forall|i: int| 0 <= i < lines.len() implies no_lf(#[trigger] lines[i]) by {
        if i == 0 {
            assert forall|k: int| 0 <= k < lines[0].len() implies #[trigger] lines[0][k] != LF by {
                if k < r.method.len() {
                    assert(lines[0][k] == r.method[k]);
                    assert(is_tchar(r.method[k]));
                } else if k > r.method.len() && k < r.method.len() + 1 + r.uri.len() {
                    assert(lines[0][k] == r.uri[k - r.method.len() - 1]);
                    assert(!is_space(r.uri[k - r.method.len() - 1]));
                }
            }
        } else if i <= r.headers.len() {
            let h = r.headers[i - 1];
            assert(lines[i] == header_text(h).push(CR));
            assert forall|k: int| 0 <= k < lines[i].len() implies #[trigger] lines[i][k] != LF by {
                if k < h.0.len() {
                    assert(lines[i][k] == h.0[k]);
                    assert(is_tchar(h.0[k]));
                } else if k >= h.0.len() + 2 && k < h.0.len() + 2 + h.1.len() {
                    assert(lines[i][k] == h.1[k - h.0.len() - 2]);
                    assert(is_value_byte(h.1[k - h.0.len() - 2]));
                }
            }
        } else if i == r.headers.len() + 1 {
            assert(lines[i] == seq![CR]);
        } else {
            assert(lines[i] == Seq::<u8>::empty());
        }
    }
    lemma_lines_of_join(lines);
    assert(head_bytes(r).len() > 0) by {
        lemma_join_nonempty(lines);
    }
    assert(strip_cr(lines[0]) =~= rl);
    assert(no_space(r.method)) by {
        assert forall|k: int| 0 <= k < r.method.len() implies !is_space(#[trigger] r.method[k]) by {
            assert(is_tchar(r.method[k]));
        }
    }
    lemma_request_line_words(r.method, r.uri);
    assert(is_http11(http11_bytes()));
    lemma_header_lines(r, 0);
    assert(r.headers.subrange(0, r.headers.len() as int) =~= r.headers);
}

proof fn lemma_join_nonempty(segs: Seq<Seq<u8>>)
    requires
        segs.len() > 0,
        segs[0].len() > 0,
    ensures join_lines(segs).len() > 0,
    decreases segs.len(),
{
    if segs.len() > 1 {
        lemma_join_nonempty(segs.drop_last());
    }
}

/// The header section of a request, as `parse_raw_request` reads it.
pub fn serialize_head(r: &Request) -> (out: Vec<u8>)
    ensures out@ == head_bytes(r@),
{
    let ghost lines = head_lines(r@);
    let mut out: Vec<u8> = Vec::new();
    push_all(&mut out, r.method.as_slice());
    out.push(32);
    push_all(&mut out, r.uri.as_slice());
    out.push(32);
    let v: [u8; 8] = [72, 84, 84, 80, 47, 49, 46, 49];
    push_all(&mut out, v.as_slice());
    out.push(CR);
    assert(v@ =~= http11_bytes());
    assert(out@ =~= request_line_bytes(r.method@, r.uri@).push(CR));
    assert(lines.subrange(0, 1) =~= seq![lines[0]]);
    assert(out@ == join_lines(lines.subrange(0, 1)));
    let ghost hv = headers_view(r.headers@);
    assert(r@.headers == hv);
    let mut i: usize = 0;
    while i < r.headers.len()
        invariant
            i <= r.headers@.len(),
            lines == head_lines(r@),
            hv == headers_view(r.headers@),
            r@.headers == hv,
            out@ == join_lines(lines.subrange(0, i + 1)),
        decreases r.headers@.len() - i,
    {
        let ghost before = out@;
        out.push(LF);
        push_all(&mut out, r.headers[i].name.as_slice());
        out.push(58);
        out.push(32);
        push_all(&mut out, r.headers[i].value.as_slice());
        out.push(CR);
        assert(lines[i + 1] == header_text(hv[i as int]).push(CR));
        assert(out@ =~= before + seq![LF] + lines[i + 1]);
        assert(lines.subrange(0, i + 2).drop_last() =~= lines.subrange(0, i + 1));
        assert(lines.subrange(0, i + 2).last() == lines[i + 1]);
        i += 1;
    }
    let n = r.headers.len();
    let ghost before = out@;
    out.push(LF);
    out.push(CR);
    assert(lines.subrange(0, n + 2).drop_last() =~= lines.subrange(0, n + 1));
    assert(lines[n + 1] == seq![CR]);
    assert(out@ =~= before + seq![LF] + lines[n + 1]);
    assert(lines.subrange(0, n + 2).last() == lines[n + 1]);
    assert(out@ == join_lines(lines.subrange(0, n + 2)));
    let ghost before2 = out@;
    out.push(LF);
    assert(lines.subrange(0, n + 3).drop_last() =~= lines.subrange(0, n + 2));
    assert(lines[n + 2] == Seq::<u8>::empty());
    assert(out@ =~= before2 + seq![LF] + lines[n + 2]);
    assert(lines.subrange(0, n + 3).last() == lines[n + 2]);
    assert(out@ == join_lines(lines.subrange(0, n + 3)));
    assert(lines.subrange(0, n + 3) =~= lines);
    out
}

} // verus!
