//! Responses: a served file, the error pages with their plain-text
//! fallbacks, the last-resort 500, and the bytes that go on the wire.

use vstd::prelude::*;
use crate::bytes::{push_all, decode_utf8, utf8_decode, opt_bytes, CR, LF};
use crate::config::ServerConfig;
use crate::error::{ErrorToken, is_error_status};
use crate::router::{
    page_name, page_name_bytes, under_static, route_spec, route_methods, method_in, has_dot_dot, ends_with_slash,
    FsFacts, Target,
};
use crate::config::Route;

verus! {

/// A response: status, the two headers the server sends, and the body.
#[derive(Clone, Debug)]
pub struct Response {
    pub status: u16,
    pub content_type: Vec<u8>,
    pub set_cookie: Option<Vec<u8>>,
    pub body: Vec<u8>,
}

pub struct ResponseView {
    pub status: u16,
    pub content_type: Seq<u8>,
    pub set_cookie: Option<Seq<u8>>,
    pub body: Seq<u8>,
}

impl View for Response {
    type V = ResponseView;

    open spec fn view(&self) -> ResponseView {
        ResponseView {
            status: self.status,
            content_type: self.content_type@,
            set_cookie: opt_bytes(self.set_cookie),
            body: self.body@,
        }
    }
}

pub open spec fn text_plain() -> Seq<u8> {
    seq![116u8, 101, 120, 116, 47, 112, 108, 97, 105, 110]
}

pub open spec fn text_html() -> Seq<u8> {
    seq![116u8, 101, 120, 116, 47, 104, 116, 109, 108]
}

fn text_plain_bytes() -> (r: Vec<u8>)
    ensures r@ == text_plain(),
{
    let r: Vec<u8> = vec![116, 101, 120, 116, 47, 112, 108, 97, 105, 110];
    assert(r@ =~= text_plain());
    r
}

fn text_html_bytes() -> (r: Vec<u8>)
    ensures r@ == text_html(),
{
    let r: Vec<u8> = vec![116, 101, 120, 116, 47, 104, 116, 109, 108];
    assert(r@ =~= text_html());
    r
}

/// The media type that `mime_guess` gives first for a path.
pub uninterp spec fn mime_guess_of(path: Seq<char>) -> Option<Seq<u8>>;

/// The standard reason phrase of a status code, where it has one.
pub uninterp spec fn reason_of(code: u16) -> Option<Seq<u8>>;

/// Relies on mime_guess::from_path and MimeGuess::first: the first media
/// type known for the path's extension.
#[verifier::external_body]
fn guess_mime(path: &str) -> (r: Option<Vec<u8>>)
    ensures opt_bytes(r) == mime_guess_of(path@),
{
    mime_guess::from_path(path).first().map(|m| m.to_string().into_bytes())
}

/// Relies on http::StatusCode::from_u16 and StatusCode::canonical_reason for
/// the reason phrase of a status code.
#[verifier::external_body]
fn reason_phrase(code: u16) -> (r: Option<Vec<u8>>)
    ensures opt_bytes(r) == reason_of(code),
{
    http::StatusCode::from_u16(code).ok().and_then(|s| s.canonical_reason()).map(|t| t.as_bytes().to_vec())
}

/// The `Content-Type` of a served file: the guess for its path, else
/// `text/plain`.
pub open spec fn content_type_for(path: Seq<u8>) -> Seq<u8> {
    match utf8_decode(path) {
        Some(p) => match mime_guess_of(p) {
            Some(m) => m,
            None => text_plain(),
        },
        None => text_plain(),
    }
}

/// A status as text: its three digits, then its reason phrase if any.
pub open spec fn status_text(code: u16) -> Seq<u8> {
    match reason_of(code) {
        Some(r) => page_name(code).subrange(0, 3) + seq![32u8] + r,
        None => page_name(code).subrange(0, 3),
    }
}

pub fn status_text_bytes(code: u16) -> (r: Vec<u8>)
    requires 100 <= code <= 999,
    ensures r@ == status_text(code),
{
    let name = page_name_bytes(code);
    let mut r: Vec<u8> = vec![name[0], name[1], name[2]];
    assert(r@ =~= page_name(code).subrange(0, 3));
    match reason_phrase(code) {
        Some(p) => {
            r.push(32);
            push_all(&mut r, p.as_slice());
            assert(r@ =~= page_name(code).subrange(0, 3) + seq![32u8] + p@);
        },
        None => {},
    }
    r
}

/// A served file: `status`, the media type guessed from its path, the
/// session cookie, the content.
pub open spec fn file_response_spec(status: u16, path: Seq<u8>, cookie: Seq<u8>, content: Seq<u8>) -> ResponseView {
    ResponseView { status, content_type: content_type_for(path), set_cookie: Some(cookie), body: content }
}

/// A file's content served with `status`, the session cookie and the
/// media type guessed from its path.
pub fn file_response(status: u16, path: &[u8], cookie: &Vec<u8>, content: Vec<u8>) -> (r: Response)
    ensures
        r@ == file_response_spec(status, path@, cookie@, content@),
        r.status == status,
        r.content_type@ == content_type_for(path@),
        opt_bytes(r.set_cookie) == Some(cookie@),
        r.body@ == content@,
{
    let content_type = match decode_utf8(path) {
        Some(p) => match guess_mime(p.as_str()) {
            Some(m) => m,
            None => text_plain_bytes(),
        },
        None => text_plain_bytes(),
    };
    Response { status, content_type, set_cookie: Some(cookie.clone()), body: content }
}

pub open spec fn hardcoded_500_body() -> Seq<u8> {
    seq![72u8, 97, 114, 100, 99, 111, 100, 101, 100, 32, 115, 116, 97, 116, 117, 115, 32, 53, 48, 48, 46, 32, 73, 110, 116, 101, 114, 110, 97, 108, 32, 83, 101, 114, 118, 101, 114, 32, 69, 114, 114, 111, 114, 46, 32, 67, 117, 115, 116, 111, 109, 32, 101, 114, 114, 111, 114, 32, 53, 48, 48, 32, 114, 101, 115, 112, 111, 110, 115, 101, 32, 102, 97, 105, 108, 101, 100, 46, 32, 10, 10]
}

/// The last resort: a 500 built from constants alone, which cannot fail.
pub fn hardcoded_response_500(cookie: Option<Vec<u8>>) -> (r: Response)
    ensures
        r.status == 500,
        r.content_type@ == text_plain(),
        r.set_cookie == cookie,
        r.body@ == hardcoded_500_body(),
{
    let body: Vec<u8> = vec![72, 97, 114, 100, 99, 111, 100, 101, 100, 32, 115, 116, 97, 116, 117, 115, 32, 53, 48, 48, 46, 32, 73, 110, 116, 101, 114, 110, 97, 108, 32, 83, 101, 114, 118, 101, 114, 32, 69, 114, 114, 111, 114, 46, 32, 67, 117, 115, 116, 111, 109, 32, 101, 114, 114, 111, 114, 32, 53, 48, 48, 32, 114, 101, 115, 112, 111, 110, 115, 101, 32, 102, 97, 105, 108, 101, 100, 46, 32, 10, 10];
    assert(body@ =~= hardcoded_500_body());
    Response { status: 500, content_type: text_plain_bytes(), set_cookie: cookie, body }
}

/// A 500 with the custom page when one was loaded, else the last resort.
pub fn custom_response_500(cookie: Option<Vec<u8>>, page: Option<Vec<u8>>) -> (r: Response)
    ensures
        r.status == 500,
        r.set_cookie == cookie,
        match page {
            Some(p) => r.content_type@ == text_html() && r.body@ == p@,
            None => r.content_type@ == text_plain() && r.body@ == hardcoded_500_body(),
        },
{
    match page {
        Some(p) => Response { status: 500, content_type: text_html_bytes(), set_cookie: cookie, body: p },
        None => hardcoded_response_500(cookie),
    }
}

/// The body of an error response without a custom page.
pub open spec fn fallback_body(status: u16) -> Seq<u8> {
    if status == 500 { hardcoded_500_body() } else { status_text(status) }
}

/// An error response: the custom page as HTML when one was loaded, else
/// the status in plain text.
pub open spec fn error_response_spec(status: u16, cookie: Option<Seq<u8>>, page: Option<Seq<u8>>) -> ResponseView {
    match page {
        Some(p) => ResponseView { status, content_type: text_html(), set_cookie: cookie, body: p },
        None => ResponseView { status, content_type: text_plain(), set_cookie: cookie, body: fallback_body(status) },
    }
}

/// The response that leaves for a recorded error token, or `served` when
/// there is none. The cookie goes with it unless the cookie was the error.
pub open spec fn final_response(token: Option<ErrorToken>, cookie: Seq<u8>, served: ResponseView, page: Option<Seq<u8>>) -> ResponseView {
    match token {
        None => served,
        Some(e) => error_response_spec(
            e.status_spec(),
            if e == ErrorToken::HeadersInvalidCookie { None } else { Some(cookie) },
            page,
        ),
    }
}

pub fn error_response(status: u16, cookie: Option<Vec<u8>>, page: Option<Vec<u8>>) -> (r: Response)
    requires 100 <= status <= 999,
    ensures
        r@ == error_response_spec(status, opt_bytes(cookie), opt_bytes(page)),
        r.status == status,
        r.set_cookie == cookie,
        match page {
            Some(p) => r.content_type@ == text_html() && r.body@ == p@,
            None => r.content_type@ == text_plain() && r.body@ == fallback_body(status),
        },
{
    if status == 500 {
        return custom_response_500(cookie, page);
    }
    match page {
        Some(p) => Response { status, content_type: text_html_bytes(), set_cookie: cookie, body: p },
        None => Response { status, content_type: text_plain_bytes(), set_cookie: cookie, body: status_text_bytes(status) },
    }
}

pub open spec fn has_custom_page(c: ServerConfig, status: u16) -> bool {
    exists|i: int| 0 <= i < c.custom_error_pages@.len() && c.custom_error_pages@[i] == status
}

/// The custom page to load for `status`, relative to the root, where the
/// virtual host provides one.
pub fn error_page_path(status: u16, config: &ServerConfig) -> (r: Option<Vec<u8>>)
    requires 100 <= status <= 999,
    ensures
        match r {
            Some(p) => has_custom_page(*config, status) && p@ == under_static(config.error_pages_prefix@, page_name(status)),
            None => !has_custom_page(*config, status),
        },
{
    let mut i: usize = 0;
    while i < config.custom_error_pages.len()
        invariant
            i <= config.custom_error_pages@.len(),
            100 <= status <= 999,
            forall|k: int| 0 <= k < i ==> config.custom_error_pages@[k] != status,
        decreases config.custom_error_pages@.len() - i,
    {
        if config.custom_error_pages[i] == status {
            let mut r: Vec<u8> = vec![115, 116, 97, 116, 105, 99, 47];
            push_all(&mut r, config.error_pages_prefix.as_slice());
            r.push(47);
            let name = page_name_bytes(status);
            push_all(&mut r, name.as_slice());
            assert(r@ =~= under_static(config.error_pages_prefix@, page_name(status)));
            return Some(r);
        }
        i += 1;
    }
    None
}

/// The response that leaves: `served` when no error was recorded, else the
/// error response for the recorded token. It carries the session cookie
/// unless the cookie itself was the error.
pub fn check_custom_errors(token: Option<ErrorToken>, cookie: &Vec<u8>, served: Response, page: Option<Vec<u8>>) -> (r: Response)
    ensures
        r@ == final_response(token, cookie@, served@, opt_bytes(page)),
        match token {
            None => r == served,
            Some(e) => {
                &&& r.status == e.status_spec()
                &&& is_error_status(r.status)
                &&& (r.content_type@ == text_html() || r.content_type@ == text_plain())
                &&& opt_bytes(r.set_cookie) == (if e == ErrorToken::HeadersInvalidCookie { None } else { Some(cookie@) })
                &&& match page {
                    Some(p) => r.content_type@ == text_html() && r.body@ == p@,
                    None => r.content_type@ == text_plain() && r.body@ == fallback_body(r.status),
                }
            },
        },
{
    match token {
        None => served,
        Some(e) => {
            let c = if matches!(e, ErrorToken::HeadersInvalidCookie) { None } else { Some(cookie.clone()) };
            error_response(e.status(), c, page)
        },
    }
}

/// A response carries the session cookie whatever its status, when the
/// request reached dispatch and was served, or when it failed anywhere; the
/// one exception is a request whose own cookie was malformed, which gets
/// none.
pub proof fn lemma_set_cookie_kept(
    token: Option<ErrorToken>,
    cookie: Seq<u8>,
    status: u16,
    path: Seq<u8>,
    content: Seq<u8>,
    page: Option<Seq<u8>>,
)
    ensures
        token != Some(ErrorToken::HeadersInvalidCookie) ==> final_response(
            token,
            cookie,
            file_response_spec(status, path, cookie, content),
            page,
        ).set_cookie == Some(cookie),
        token == Some(ErrorToken::HeadersInvalidCookie) ==> final_response(
            token,
            cookie,
            file_response_spec(status, path, cookie, content),
            page,
        ).set_cookie is None,
{
}

/// Every response built for an error token has an error status and is
/// either the custom page as `text/html` or the plain-text fallback.
pub proof fn lemma_error_responses_html_or_plain(
    e: ErrorToken,
    cookie: Seq<u8>,
    served: ResponseView,
    page: Option<Seq<u8>>,
)
    ensures
        is_error_status(final_response(Some(e), cookie, served, page).status),
        final_response(Some(e), cookie, served, page).content_type == (if page is Some {
            text_html()
        } else {
            text_plain()
        }),
{
}

/// A method that the route of an existing file does not allow is answered
/// with 405: the custom page as `text/html` when one was loaded, else plain
/// text.
pub proof fn lemma_method_not_allowed(
    t: Target,
    method: Seq<u8>,
    routes: Seq<Route>,
    fs: FsFacts,
    cookie: Seq<u8>,
    served: ResponseView,
    page: Option<Seq<u8>>,
)
    requires
        fs.confined && fs.is_file && !fs.is_dir,
        !has_dot_dot(t.key@),
        t.key@.len() > 0 && !ends_with_slash(t.key@),
        route_methods(routes, t.key@) matches Some(ms) && !method_in(ms, method),
    ensures
        route_spec(t, method, routes, fs) == Err::<(Seq<u8>, u16), ErrorToken>(ErrorToken::MethodNotAllowed),
        final_response(Some(ErrorToken::MethodNotAllowed), cookie, served, page).status == 405,
        final_response(Some(ErrorToken::MethodNotAllowed), cookie, served, page).content_type == (if page is Some {
            text_html()
        } else {
            text_plain()
        }),
{
}

pub open spec fn header_line(name: Seq<u8>, value: Seq<u8>) -> Seq<u8> {
    name + seq![58u8, 32] + value + seq![CR, LF]
}

pub open spec fn content_type_name() -> Seq<u8> {
    seq![67u8, 111, 110, 116, 101, 110, 116, 45, 84, 121, 112, 101]
}

pub open spec fn set_cookie_name() -> Seq<u8> {
    seq![83u8, 101, 116, 45, 67, 111, 111, 107, 105, 101]
}

pub open spec fn http11_prefix() -> Seq<u8> {
    seq![72u8, 84, 84, 80, 47, 49, 46, 49, 32]
}

/// The bytes of a response: status line, `Content-Type`, `Set-Cookie` when
/// there is a cookie, an empty line, the body.
pub open spec fn response_bytes(r: Response) -> Seq<u8> {
    http11_prefix() + status_text(r.status) + seq![CR, LF]
        + header_line(content_type_name(), r.content_type@)
        + (match r.set_cookie {
            Some(c) => header_line(set_cookie_name(), c@),
            None => Seq::empty(),
        })
        + seq![CR, LF] + r.body@
}

fn push_header(out: &mut Vec<u8>, name: &[u8], value: &[u8])
    ensures final(out)@ == old(out)@ + header_line(name@, value@),
{
    push_all(out, name);
    out.push(58);
    out.push(32);
    push_all(out, value);
    out.push(CR);
    out.push(LF);
    assert(final(out)@ =~= old(out)@ + header_line(name@, value@));
}

/// Serializes a response for the wire.
pub fn serialize_response(r: &Response) -> (out: Vec<u8>)
    requires 100 <= r.status <= 999,
    ensures out@ == response_bytes(*r),
{
    let mut out: Vec<u8> = vec![72, 84, 84, 80, 47, 49, 46, 49, 32];
    assert(out@ =~= http11_prefix());
    let st = status_text_bytes(r.status);
    push_all(&mut out, st.as_slice());
    out.push(CR);
    out.push(LF);
    let ct: [u8; 12] = [67, 111, 110, 116, 101, 110, 116, 45, 84, 121, 112, 101];
    assert(ct@ =~= content_type_name());
    push_header(&mut out, ct.as_slice(), r.content_type.as_slice());
    let ghost before_cookie = out@;
    match &r.set_cookie {
        Some(c) => {
            let sc: [u8; 10] = [83, 101, 116, 45, 67, 111, 111, 107, 105, 101];
            assert(sc@ =~= set_cookie_name());
            push_header(&mut out, sc.as_slice(), c.as_slice());
        },
        None => {
            assert(out@ =~= before_cookie + Seq::<u8>::empty());
        },
    }
    out.push(CR);
    out.push(LF);
    push_all(&mut out, r.body.as_slice());
    assert(out@ =~= response_bytes(*r));
    out
}

} // verus!
