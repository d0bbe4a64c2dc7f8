use localhost::body::{
    body_framing, decode_chunked, header_progress, unchunked_progress, BodyProgress, ChunkPhase,
    ChunkedDecoder, Framing, HeaderProgress,
};
use localhost::error::ErrorToken;
use localhost::request::{find_header, parse_header_line, parse_raw_request, parse_request_line, serialize_head};

fn head(s: &str) -> Vec<u8> {
    s.as_bytes().to_vec()
}

#[test]
fn request_line_three_tokens() {
    let rl = parse_request_line(b"GET /index.html?x=1 HTTP/1.1").unwrap();
    assert_eq!(rl.method, b"GET".to_vec());
    assert_eq!(rl.uri, b"/index.html?x=1".to_vec());
    assert_eq!(rl.path, b"/index.html".to_vec());
}

#[test]
fn request_line_version_any_case() {
    assert!(parse_request_line(b"GET / http/1.1").is_ok());
}

#[test]
fn request_line_two_tokens_rejected() {
    assert_eq!(parse_request_line(b"GET /index.html").err(), Some(ErrorToken::HeadersInvalidRequestLine));
}

#[test]
fn request_line_four_tokens_rejected() {
    assert_eq!(
        parse_request_line(b"GET /index.html HTTP/1.1 extra").err(),
        Some(ErrorToken::HeadersInvalidRequestLine)
    );
}

#[test]
fn request_line_bad_version() {
    assert_eq!(parse_request_line(b"GET / HTTP/1.0").err(), Some(ErrorToken::HeadersInvalidVersion));
}

#[test]
fn request_line_bad_method() {
    assert_eq!(parse_request_line(b"G(T / HTTP/1.1").err(), Some(ErrorToken::HeadersInvalidMethod));
}

#[test]
fn request_line_bad_uri() {
    assert_eq!(parse_request_line(b"GET /a\x01b HTTP/1.1").err(), Some(ErrorToken::HeadersInvalidUri));
}

#[test]
fn header_line_split_and_trim() {
    let h = parse_header_line(b"Host a.example").unwrap();
    assert!(h.is_none());
    let h = parse_header_line(b"Host: a.example:8080  ").unwrap().unwrap();
    assert_eq!(h.name, b"Host".to_vec());
    assert_eq!(h.value, b"a.example:8080".to_vec());
}

#[test]
fn header_line_bad_name() {
    assert_eq!(parse_header_line(b"Ho st: x").err(), Some(ErrorToken::HeadersInvalidHeaderName));
}

#[test]
fn header_line_bad_value() {
    assert_eq!(parse_header_line(b"X-A: a\x7fb").err(), Some(ErrorToken::HeadersInvalidHeaderValue));
}

#[test]
fn parse_happy_get() {
    let r = parse_raw_request(head("GET /index.html HTTP/1.1\r\nHost: a.example\r\n\r\n"), vec![]).unwrap();
    assert_eq!(r.method, b"GET".to_vec());
    assert_eq!(r.path, b"/index.html".to_vec());
    assert_eq!(r.headers.len(), 1);
    assert_eq!(find_header(&r.headers, b"host"), Some(b"a.example".to_vec()));
}

#[test]
fn parse_keeps_repeated_headers() {
    let r = parse_raw_request(head("GET / HTTP/1.1\r\nX-A: 1\r\nx-a: 2\r\n\r\nX-B: 3\r\n"), b"hi".to_vec()).unwrap();
    assert_eq!(r.headers.len(), 2);
    assert_eq!(r.headers[1].value, b"2".to_vec());
    assert_eq!(find_header(&r.headers, b"X-A"), Some(b"1".to_vec()));
    assert_eq!(r.body, b"hi".to_vec());
}

#[test]
fn parse_empty_buffer() {
    assert_eq!(parse_raw_request(vec![], vec![]).err(), Some(ErrorToken::HeadersBufferEmpty));
}

#[test]
fn parse_not_utf8() {
    let mut h = head("GET / HTTP/1.1\r\nX: a\r\n");
    h.push(0xff);
    h.extend_from_slice(b"\r\n\r\n");
    assert_eq!(parse_raw_request(h, vec![]).err(), Some(ErrorToken::HeadersBufferToString));
}

#[test]
fn parse_two_token_line() {
    assert_eq!(
        parse_raw_request(head("GET /\r\nHost: a\r\n\r\n"), vec![]).err(),
        Some(ErrorToken::HeadersInvalidRequestLine)
    );
}

#[test]
fn headers_complete_only_after_blank_line() {
    assert_eq!(header_progress(b"GET / HTTP/1.1\r\n", false, false), HeaderProgress::Continue);
    assert_eq!(header_progress(b"GET / HTTP/1.1\r\n\r\n", false, false), HeaderProgress::Complete);
}

#[test]
fn headers_timeout_with_nothing_closes_silently() {
    assert_eq!(header_progress(b"", true, false), HeaderProgress::CloseSilently);
    assert_eq!(header_progress(b"", false, true), HeaderProgress::CloseSilently);
}

#[test]
fn headers_timeout_with_partial_input() {
    assert_eq!(header_progress(b"GET", true, false), HeaderProgress::Failed(ErrorToken::HeadersReadTimeout));
    assert_eq!(header_progress(b"GET", false, true), HeaderProgress::Failed(ErrorToken::HeadersReadingStream));
}

fn headers_of(s: &str) -> Vec<localhost::request::Header> {
    parse_raw_request(head(s), vec![]).unwrap().headers
}

#[test]
fn framing_chunked_any_case() {
    let hs = headers_of("POST /echo HTTP/1.1\r\nTransfer-Encoding: Chunked\r\n\r\n");
    assert_eq!(body_framing(&hs, 10), Ok(Framing::Chunked));
}

#[test]
fn framing_content_length_at_limit() {
    let hs = headers_of("POST / HTTP/1.1\r\ncontent-length: 10\r\n\r\n");
    assert_eq!(body_framing(&hs, 10), Ok(Framing::Length(10)));
}

#[test]
fn framing_content_length_over_limit() {
    let hs = headers_of("POST / HTTP/1.1\r\nContent-Length: 11\r\n\r\n");
    assert_eq!(body_framing(&hs, 10), Err(ErrorToken::BodySizeLimit));
}

#[test]
fn framing_content_length_huge_is_over_limit() {
    let hs = headers_of("POST / HTTP/1.1\r\nContent-Length: 99999999999999999999999999\r\n\r\n");
    assert_eq!(body_framing(&hs, 10), Err(ErrorToken::BodySizeLimit));
}

#[test]
fn framing_content_length_not_decimal() {
    let hs = headers_of("POST / HTTP/1.1\r\nContent-Length: 1x\r\n\r\n");
    assert_eq!(body_framing(&hs, 10), Err(ErrorToken::HeadersFailedToParse));
}

#[test]
fn framing_without_length_is_dirty() {
    let hs = headers_of("POST / HTTP/1.1\r\nHost: a\r\n\r\n");
    assert_eq!(body_framing(&hs, 10), Ok(Framing::Dirty));
}

#[test]
fn unchunked_exact_limit_succeeds() {
    assert_eq!(unchunked_progress(Framing::Length(10), 10, 10, false, false, false), BodyProgress::Finished);
    assert_eq!(unchunked_progress(Framing::Length(10), 4, 10, false, false, false), BodyProgress::Continue);
}

#[test]
fn unchunked_one_byte_over_limit() {
    assert_eq!(
        unchunked_progress(Framing::Dirty, 11, 10, false, false, false),
        BodyProgress::Failed(ErrorToken::BodySizeLimit)
    );
}

#[test]
fn unchunked_timeouts() {
    assert_eq!(
        unchunked_progress(Framing::Length(5), 2, 10, true, false, false),
        BodyProgress::Failed(ErrorToken::BodyReadTimeout)
    );
    assert_eq!(unchunked_progress(Framing::Dirty, 0, 10, false, true, false), BodyProgress::Finished);
    assert_eq!(
        unchunked_progress(Framing::Dirty, 3, 10, false, true, false),
        BodyProgress::Failed(ErrorToken::DirtyBodyReadTimeout)
    );
    assert_eq!(unchunked_progress(Framing::Dirty, 3, 10, false, false, true), BodyProgress::Finished);
}

#[test]
fn chunked_hello_world() {
    let body = decode_chunked(b"5\r\nhello\r\n6\r\n world\r\n0\r\n\r\n", 100).unwrap();
    assert_eq!(body, b"hello world".to_vec());
}

#[test]
fn chunked_same_as_plain_body() {
    let plain = b"hello world".to_vec();
    let chunked = decode_chunked(b"b\r\nhello world\r\n0\r\n\r\n", 100).unwrap();
    assert_eq!(chunked, plain);
    assert_eq!(
        unchunked_progress(Framing::Length(plain.len()), plain.len(), 100, false, false, false),
        BodyProgress::Finished
    );
}

#[test]
fn chunked_uppercase_hex_size() {
    let body = decode_chunked(b"A\r\n0123456789\r\n0\r\n\r\n", 100).unwrap();
    assert_eq!(body.len(), 10);
}

#[test]
fn chunk_bigger_than_size() {
    assert_eq!(
        decode_chunked(b"5\r\nhello!\r\n0\r\n\r\n", 100).err(),
        Some(ErrorToken::BodyChunkIsBiggerThanChunkSize)
    );
}

#[test]
fn chunk_size_not_hex() {
    assert_eq!(decode_chunked(b"5g\r\nhello\r\n0\r\n\r\n", 100).err(), Some(ErrorToken::BodyChunkSizeParse));
    assert_eq!(decode_chunked(b"\r\n", 100).err(), Some(ErrorToken::BodyChunkSizeParse));
}

#[test]
fn chunked_zero_sum() {
    assert_eq!(decode_chunked(b"0\r\n\r\n", 100).err(), Some(ErrorToken::BodyChunkedButZeroSum));
}

#[test]
fn chunked_over_limit() {
    assert_eq!(decode_chunked(b"5\r\nhello\r\n6\r\n world\r\n0\r\n\r\n", 10).err(), Some(ErrorToken::BodySizeLimit));
    assert!(decode_chunked(b"5\r\nhello\r\n5\r\nworld\r\n0\r\n\r\n", 10).is_ok());
}

#[test]
fn chunked_bad_terminator() {
    assert_eq!(decode_chunked(b"1\r\na\r\n0\r\nX\r\n", 100).err(), Some(ErrorToken::BodyChunkTerminator));
}

#[test]
fn chunked_truncated() {
    assert_eq!(decode_chunked(b"5\r\nhel", 100).err(), Some(ErrorToken::BodyReadingStream));
}

#[test]
fn chunk_size_overflow() {
    assert_eq!(
        decode_chunked(b"fffffffffffffffffffffff\r\n", usize::MAX).err(),
        Some(ErrorToken::BodyChunkSizeParse)
    );
}

#[test]
fn decoder_byte_by_byte() {
    let mut d = ChunkedDecoder::new(100);
    for b in b"3\r\nabc\r\n0\r\n\r\n".iter() {
        d.feed(*b);
    }
    assert_eq!(d.phase(), ChunkPhase::Done);
    assert_eq!(d.body(), &b"abc".to_vec());
}

#[test]
fn parse_then_serialize_round_trip() {
    let raw = b"POST /echo?x=1 HTTP/1.1\r\nHost: a.example\r\nX-Tag: one two\r\n\r\n".to_vec();
    let r = parse_raw_request(raw.clone(), b"body".to_vec()).unwrap();
    assert_eq!(serialize_head(&r), raw);
    let again = parse_raw_request(serialize_head(&r), r.body.clone()).unwrap();
    assert_eq!(again.uri, r.uri);
    assert_eq!(again.headers.len(), 2);
    assert_eq!(again.body, b"body".to_vec());
}

#[test]
fn serialize_normalizes_header_whitespace() {
    let r = parse_raw_request(b"GET / HTTP/1.1\nHost:   a.example \r\n\r\n".to_vec(), vec![]).unwrap();
    assert_eq!(serialize_head(&r), b"GET / HTTP/1.1\r\nHost: a.example\r\n\r\n".to_vec());
}

#[test]
fn decoder_never_exceeds_limit() {
    let mut d = ChunkedDecoder::new(4);
    for b in b"3\r\nabc\r\n2\r\nde\r\n0\r\n\r\n".iter() {
        d.feed(*b);
        assert!(d.body().len() <= 4);
    }
    assert_eq!(d.phase(), ChunkPhase::Failed(ErrorToken::BodySizeLimit));
}
