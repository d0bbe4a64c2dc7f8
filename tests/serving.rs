use localhost::config::{select_config, Route, ServerConfig};
use localhost::error::ErrorToken;
use localhost::request::{find_header, parse_raw_request};
use localhost::response::{
    check_custom_errors, custom_response_500, error_page_path, error_response, file_response,
    hardcoded_response_500, serialize_response, Response,
};
use localhost::router::{handle_all, route_target, FsFacts};
use localhost::session::{session_id, SessionTable};

fn config(name: &str, port: u16, body: usize) -> ServerConfig {
    ServerConfig {
        server_name: name.as_bytes().to_vec(),
        listen_port: port,
        static_files_prefix: b"site".to_vec(),
        error_pages_prefix: b"errors".to_vec(),
        default_file: b"index.html".to_vec(),
        routes: vec![
            Route { path: b"index.html".to_vec(), methods: vec![b"GET".to_vec()] },
            Route { path: b"echo".to_vec(), methods: vec![b"POST".to_vec(), b"GET".to_vec()] },
        ],
        client_body_size: body,
        custom_error_pages: vec![404, 405],
    }
}

fn file_fs() -> FsFacts {
    FsFacts { is_dir: false, is_file: true, default_is_file: true, confined: true }
}

fn dir_fs() -> FsFacts {
    FsFacts { is_dir: true, is_file: false, default_is_file: true, confined: true }
}

#[test]
fn vhost_by_host_header() {
    let cs = vec![config("a.example", 80, 10), config("b.example", 80, 10), config("a.example", 81, 10)];
    assert_eq!(select_config(&cs, 80, &Some(b"B.Example:80".to_vec())), Some(1));
    assert_eq!(select_config(&cs, 81, &Some(b"a.example".to_vec())), Some(2));
}

#[test]
fn vhost_falls_back_to_first_on_port() {
    let cs = vec![config("x", 81, 10), config("a.example", 80, 10), config("b.example", 80, 10)];
    assert_eq!(select_config(&cs, 80, &Some(b"c.example".to_vec())), Some(1));
    assert_eq!(select_config(&cs, 80, &None), Some(1));
    assert_eq!(select_config(&cs, 82, &None), None);
}

#[test]
fn route_happy_get() {
    let c = config("a.example", 80, 10);
    let t = route_target(b"/index.html", &c);
    assert_eq!(t.relative, b"static/site/index.html".to_vec());
    let s = handle_all(&t, b"GET", &c, file_fs()).ok().unwrap();
    assert_eq!(s.path, b"static/site/index.html".to_vec());
    assert_eq!(s.status, 200);
}

#[test]
fn route_directory_default() {
    let c = config("a.example", 80, 10);
    let t = route_target(b"/", &c);
    assert_eq!(t.default_file, b"static/site/index.html".to_vec());
    let s = handle_all(&t, b"GET", &c, dir_fs()).ok().unwrap();
    assert_eq!(s.path, b"static/site/index.html".to_vec());
    assert_eq!(s.status, 200);
    let t = route_target(b"/docs", &c);
    let s = handle_all(&t, b"GET", &c, dir_fs()).ok().unwrap();
    assert_eq!(s.path, b"static/site/docs/index.html".to_vec());
}

#[test]
fn route_method_not_allowed() {
    let c = config("a.example", 80, 10);
    let t = route_target(b"/index.html", &c);
    assert_eq!(handle_all(&t, b"POST", &c, file_fs()).err(), Some(ErrorToken::MethodNotAllowed));
}

#[test]
fn route_not_found_cases() {
    let c = config("a.example", 80, 10);
    let t = route_target(b"/missing.html", &c);
    assert_eq!(handle_all(&t, b"GET", &c, file_fs()).err(), Some(ErrorToken::NotFound));
    let t = route_target(b"/index.html", &c);
    let gone = FsFacts { is_dir: false, is_file: false, default_is_file: false, confined: true };
    assert_eq!(handle_all(&t, b"GET", &c, gone).err(), Some(ErrorToken::NotFound));
    let t = route_target(b"/../secret", &c);
    assert_eq!(handle_all(&t, b"GET", &c, file_fs()).err(), Some(ErrorToken::NotFound));
    let outside = FsFacts { is_dir: false, is_file: true, default_is_file: false, confined: false };
    let t = route_target(b"/index.html", &c);
    assert_eq!(handle_all(&t, b"GET", &c, outside).err(), Some(ErrorToken::NotFound));
}

#[test]
fn route_error_page_directly() {
    let c = config("a.example", 80, 10);
    let t = route_target(b"/404.html", &c);
    assert_eq!(t.error_code, Some(404));
    assert_eq!(t.relative, b"static/errors/404.html".to_vec());
    let s = handle_all(&t, b"GET", &c, file_fs()).ok().unwrap();
    assert_eq!(s.status, 404);
    assert_eq!(handle_all(&t, b"DELETE", &c, file_fs()).err(), Some(ErrorToken::MethodNotAllowed));
}

#[test]
fn route_strips_uploads_prefix() {
    let c = config("a.example", 80, 10);
    let t = route_target(b"/uploads/echo", &c);
    assert_eq!(t.key, b"echo".to_vec());
}

#[test]
fn file_response_guesses_html() {
    let r = file_response(200, b"static/site/index.html", &b"session=abc".to_vec(), b"<p>hi</p>".to_vec());
    assert_eq!(r.status, 200);
    assert_eq!(r.content_type, b"text/html".to_vec());
    assert_eq!(r.set_cookie, Some(b"session=abc".to_vec()));
    assert_eq!(r.body, b"<p>hi</p>".to_vec());
}

#[test]
fn file_response_unknown_extension_is_plain() {
    let r = file_response(200, b"static/site/data.zzzunknown", &b"c".to_vec(), vec![1]);
    assert_eq!(r.content_type, b"text/plain".to_vec());
}

#[test]
fn error_response_fallback_text() {
    let r = error_response(405, Some(b"c".to_vec()), None);
    assert_eq!(r.status, 405);
    assert_eq!(r.content_type, b"text/plain".to_vec());
    assert_eq!(r.body, b"405 Method Not Allowed".to_vec());
    let r = error_response(413, None, Some(b"<h1>big</h1>".to_vec()));
    assert_eq!(r.content_type, b"text/html".to_vec());
    assert_eq!(r.set_cookie, None);
}

#[test]
fn last_resort_500() {
    let r = hardcoded_response_500(None);
    assert_eq!(r.status, 500);
    assert_eq!(r.body, b"Hardcoded status 500. Internal Server Error. Custom error 500 response failed. \n\n".to_vec());
    let r = custom_response_500(Some(b"c".to_vec()), Some(b"<b>oops</b>".to_vec()));
    assert_eq!(r.content_type, b"text/html".to_vec());
    assert_eq!(r.status, 500);
}

#[test]
fn error_page_path_only_when_configured() {
    let c = config("a.example", 80, 10);
    assert_eq!(error_page_path(404, &c), Some(b"static/errors/404.html".to_vec()));
    assert_eq!(error_page_path(413, &c), None);
}

#[test]
fn custom_errors_keep_cookie_except_invalid_cookie() {
    let served = Response { status: 200, content_type: b"text/html".to_vec(), set_cookie: None, body: vec![] };
    let cookie = b"session=abc".to_vec();
    let r = check_custom_errors(Some(ErrorToken::NotFound), &cookie, served.clone(), None);
    assert_eq!(r.status, 404);
    assert_eq!(r.set_cookie, Some(cookie.clone()));
    let r = check_custom_errors(Some(ErrorToken::HeadersInvalidCookie), &cookie, served.clone(), None);
    assert_eq!(r.status, 400);
    assert_eq!(r.set_cookie, None);
    let r = check_custom_errors(None, &cookie, served, None);
    assert_eq!(r.status, 200);
}

#[test]
fn serialize_wire_format() {
    let r = Response {
        status: 200,
        content_type: b"text/plain".to_vec(),
        set_cookie: Some(b"session=1".to_vec()),
        body: b"ok".to_vec(),
    };
    assert_eq!(
        serialize_response(&r),
        b"HTTP/1.1 200 OK\r\nContent-Type: text/plain\r\nSet-Cookie: session=1\r\n\r\nok".to_vec()
    );
}

#[test]
fn sessions_lookup_mint_and_sweep() {
    let mut t = SessionTable::new();
    let hs = parse_raw_request(b"GET / HTTP/1.1\r\nHost: a\r\n\r\n".to_vec(), vec![]).unwrap().headers;
    let (c, ok) = t.extract_cookies_from_request_or_provide_new(&hs, b"id1".to_vec(), 100);
    assert!(ok);
    assert_eq!(c, b"session=id1".to_vec());
    assert_eq!(t.len(), 1);
    let hs = parse_raw_request(b"GET / HTTP/1.1\r\nCookie: theme=x; session=id1\r\n\r\n".to_vec(), vec![]).unwrap().headers;
    let (c, ok) = t.extract_cookies_from_request_or_provide_new(&hs, b"id2".to_vec(), 100);
    assert!(ok);
    assert_eq!(c, b"session=id1".to_vec());
    assert_eq!(t.len(), 1);
    let hs = parse_raw_request(b"GET / HTTP/1.1\r\nCookie: theme=x\r\n\r\n".to_vec(), vec![]).unwrap().headers;
    let (c, ok) = t.extract_cookies_from_request_or_provide_new(&hs, b"id3".to_vec(), 200);
    assert!(ok);
    assert_eq!(c, b"session=id3".to_vec());
    assert_eq!(t.len(), 2);
    let hs = parse_raw_request(b"GET / HTTP/1.1\r\nCookie: theme=x; session=\r\n\r\n".to_vec(), vec![]).unwrap().headers;
    let (c, ok) = t.extract_cookies_from_request_or_provide_new(&hs, b"id4".to_vec(), 200);
    assert!(!ok);
    assert!(c.is_empty());
    assert_eq!(t.len(), 2);
    t.check_expired_cookies(100);
    assert_eq!(t.len(), 1);
}

#[test]
fn session_id_parsing() {
    assert_eq!(session_id(b"session=abc"), Ok(Some(b"abc".to_vec())));
    assert_eq!(session_id(b"a=1; session=abc; b=2"), Ok(Some(b"abc".to_vec())));
    assert_eq!(session_id(b"xsession=abc"), Ok(None));
    assert_eq!(session_id(b"session="), Err(()));
}

fn serve(cs: &[ServerConfig], raw_head: &str, body: Vec<u8>, fs: FsFacts, page: Option<Vec<u8>>) -> Response {
    let req = parse_raw_request(raw_head.as_bytes().to_vec(), body).unwrap();
    let host = find_header(&req.headers, b"host");
    let cs = cs.to_vec();
    let i = select_config(&cs, 80, &host).unwrap();
    let c = &cs[i];
    let cookie = b"session=s".to_vec();
    let t = route_target(&req.path, c);
    match handle_all(&t, &req.method, c, fs) {
        Ok(s) => {
            let served = file_response(s.status, &s.path, &cookie, b"<html>hi</html>".to_vec());
            check_custom_errors(None, &cookie, served, None)
        }
        Err(e) => {
            let empty = Response { status: 0, content_type: vec![], set_cookie: None, body: vec![] };
            check_custom_errors(Some(e), &cookie, empty, page)
        }
    }
}

#[test]
fn scenario_happy_get() {
    let cs = vec![config("a.example", 80, 10)];
    let r = serve(&cs, "GET /index.html HTTP/1.1\r\nHost: a.example\r\n\r\n", vec![], file_fs(), None);
    assert_eq!(r.status, 200);
    assert_eq!(r.body, b"<html>hi</html>".to_vec());
    assert_eq!(r.content_type, b"text/html".to_vec());
}

#[test]
fn scenario_directory_default() {
    let cs = vec![config("a.example", 80, 10)];
    let r = serve(&cs, "GET / HTTP/1.1\r\nHost: a.example\r\n\r\n", vec![], dir_fs(), None);
    assert_eq!(r.status, 200);
    assert_eq!(r.content_type, b"text/html".to_vec());
}

#[test]
fn scenario_method_disallowed() {
    let cs = vec![config("a.example", 80, 10)];
    let r = serve(&cs, "POST /index.html HTTP/1.1\r\nHost: a.example\r\n\r\n", vec![], file_fs(), None);
    assert_eq!(r.status, 405);
    assert_eq!(r.content_type, b"text/plain".to_vec());
    let r = serve(&cs, "POST /index.html HTTP/1.1\r\nHost: a.example\r\n\r\n", vec![], file_fs(), Some(b"<p>405</p>".to_vec()));
    assert_eq!(r.status, 405);
    assert_eq!(r.content_type, b"text/html".to_vec());
}

#[test]
fn scenario_oversize_body() {
    let req = parse_raw_request(b"POST /echo HTTP/1.1\r\nHost: a.example\r\nContent-Length: 11\r\n\r\n".to_vec(), vec![]).unwrap();
    let e = localhost::body::body_framing(&req.headers, 10).err().unwrap();
    let empty = Response { status: 0, content_type: vec![], set_cookie: None, body: vec![] };
    let r = check_custom_errors(Some(e), &b"c".to_vec(), empty, None);
    assert_eq!(r.status, 413);
}

#[test]
fn scenario_chunked_body() {
    let req = parse_raw_request(
        b"POST /echo HTTP/1.1\r\nHost: a.example\r\nTransfer-Encoding: chunked\r\n\r\n".to_vec(),
        vec![],
    )
    .unwrap();
    assert_eq!(localhost::body::body_framing(&req.headers, 100), Ok(localhost::body::Framing::Chunked));
    let body = localhost::body::decode_chunked(b"5\r\nhello\r\n6\r\n world\r\n0\r\n\r\n", 100).unwrap();
    assert_eq!(body, b"hello world".to_vec());
}

#[test]
fn scenario_headers_timeout_silent_close() {
    assert_eq!(
        localhost::body::header_progress(b"", true, false),
        localhost::body::HeaderProgress::CloseSilently
    );
}
