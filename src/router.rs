//! Routing: from a request path and a virtual host to the file that
//! answers it, or the error that does. The caller looks at the file system
//! and reports what it found; the decisions are made here.

use vstd::prelude::*;
use crate::bytes::{copy_range, push_all};
use crate::config::{Route, ServerConfig};
use crate::error::ErrorToken;
use crate::request::{is_token, is_tchar};

verus! {

pub const SLASH: u8 = 47;

pub open spec fn uploads_prefix() -> Seq<u8> {
    seq![47u8, 117, 112, 108, 111, 97, 100, 115, 47]
}

/// The path as the routes name it: without a leading `/uploads/` (those
/// files are served elsewhere) and without the leading `/`.
pub open spec fn route_key(p: Seq<u8>) -> Seq<u8> {
    let q = if p.len() >= 9 && p.subrange(0, 9) == uploads_prefix() { p.subrange(8, p.len() as int) } else { p };
    if q.len() > 0 && q[0] == SLASH { q.drop_first() } else { q }
}

/// `<code>.html` for a three-digit code.
pub open spec fn page_name(code: u16) -> Seq<u8> {
    seq![(48 + code / 100) as u8, (48 + (code / 10) % 10) as u8, (48 + code % 10) as u8, 46u8, 104, 116, 109, 108]
}

/// The error pages that the server implements.
pub open spec fn is_page_code(code: u16) -> bool {
    code == 400 || code == 404 || code == 405 || code == 408 || code == 413 || code == 500
}

/// The status of an error page named by `key`, if it names one.
pub open spec fn error_page_code(key: Seq<u8>) -> Option<u16> {
    if key == page_name(400) {
        Some(400u16)
    } else if key == page_name(404) {
        Some(404u16)
    } else if key == page_name(405) {
        Some(405u16)
    } else if key == page_name(408) {
        Some(408u16)
    } else if key == page_name(413) {
        Some(413u16)
    } else if key == page_name(500) {
        Some(500u16)
    } else {
        None
    }
}

pub open spec fn static_dir() -> Seq<u8> {
    seq![115u8, 116, 97, 116, 105, 99, 47]
}

/// `static/<prefix>/<name>`, relative to the server's root.
pub open spec fn under_static(prefix: Seq<u8>, name: Seq<u8>) -> Seq<u8> {
    static_dir() + prefix + seq![SLASH] + name
}

pub open spec fn ends_with_slash(s: Seq<u8>) -> bool {
    s.len() > 0 && s.last() == SLASH
}

/// The default file inside the directory `dir`.
pub open spec fn default_path(dir: Seq<u8>, file: Seq<u8>) -> Seq<u8> {
    if ends_with_slash(dir) { dir + file } else { dir + seq![SLASH] + file }
}

/// A `..` segment, which would leave the served tree.
pub open spec fn dot_dot_at(s: Seq<u8>, i: int) -> bool {
    0 <= i && i + 1 < s.len() && s[i] == 46 && s[i + 1] == 46 && (i == 0 || s[i - 1] == SLASH)
        && (i + 2 == s.len() || s[i + 2] == SLASH)
}

pub open spec fn has_dot_dot(s: Seq<u8>) -> bool {
    exists|i: int| dot_dot_at(s, i)
}

/// Where a request path leads: its key in the routes, the error page it
/// names if any, the file it names relative to the root, and the default
/// file it would get as a directory.
pub struct Target {
    pub key: Vec<u8>,
    pub error_code: Option<u16>,
    pub relative: Vec<u8>,
    pub default_file: Vec<u8>,
}

pub open spec fn target_spec(path: Seq<u8>, c: ServerConfig, t: Target) -> bool {
    let key = route_key(path);
    &&& t.key@ == key
    &&& t.error_code == error_page_code(key)
    &&& t.relative@ == (if error_page_code(key) is Some {
        under_static(c.error_pages_prefix@, key)
    } else {
        under_static(c.static_files_prefix@, key)
    })
    &&& t.default_file@ == default_path(t.relative@, c.default_file@)
}

fn strip_route_key(p: &[u8]) -> (r: Vec<u8>)
    ensures r@ == route_key(p@),
{
    let up: [u8; 9] = [47, 117, 112, 108, 111, 97, 100, 115, 47];
    assert(up@ =~= uploads_prefix());
    let mut start: usize = 0;
    if p.len() >= 9 {
        let mut same = true;
        let mut i: usize = 0;
        while i < 9
            invariant
                p@.len() >= 9,
                i <= 9,
                same == (forall|k: int| 0 <= k < i ==> p@[k] == up@[k]),
            decreases 9 - i,
        {
            if p[i] != up[i] {
                same = false;
            }
            i += 1;
        }
        if same {
            assert(p@.subrange(0, 9) =~= uploads_prefix());
            start = 8;
        } else {
            assert(p@.subrange(0, 9) != uploads_prefix()) by {
                let k = choose|k: int| 0 <= k < 9 && p@[k] != up@[k];
                assert(p@.subrange(0, 9)[k] != uploads_prefix()[k]);
            }
        }
    }
    let ghost q = p@.subrange(start as int, p@.len() as int);
    assert(q == (if p@.len() >= 9 && p@.subrange(0, 9) == uploads_prefix() { p@.subrange(8, p@.len() as int) } else { p@ }));
    if start < p.len() && p[start] == SLASH {
        assert(q.drop_first() =~= p@.subrange(start + 1, p@.len() as int));
        copy_range(p, start + 1, p.len())
    } else {
        copy_range(p, start, p.len())
    }
}

/// `<code>.html` for a code of three digits.
pub fn page_name_bytes(code: u16) -> (r: Vec<u8>)
    requires 100 <= code <= 999,
    ensures r@ == page_name(code),
{
    let r: Vec<u8> = vec![(48 + code / 100) as u8, (48 + (code / 10) % 10) as u8, (48 + code % 10) as u8, 46, 104, 116, 109, 108];
    assert(r@ =~= page_name(code));
    r
}

pub fn same_bytes(a: &[u8], b: &[u8]) -> (r: bool)
    ensures r == (a@ == b@),
{
    if a.len() != b.len() {
        return false;
    }
    let mut i: usize = 0;
    while i < a.len()
        invariant
            a@.len() == b@.len(),
            i <= a@.len(),
            forall|k: int| 0 <= k < i ==> a@[k] == b@[k],
        decreases a@.len() - i,
    {
        if a[i] != b[i] {
            return false;
        }
        i += 1;
    }
    assert(a@ =~= b@);
    true
}

fn page_code_of(key: &[u8]) -> (r: Option<u16>)
    ensures r == error_page_code(key@),
{
    let codes: [u16; 6] = [400, 404, 405, 408, 413, 500];
    let mut i: usize = 0;
    while i < 6
        invariant
            i <= 6,
            codes@ == seq![400u16, 404, 405, 408, 413, 500],
            forall|k: int| 0 <= k < i ==> key@ != page_name(#[trigger] codes@[k]),
        decreases 6 - i,
    {
        let name = page_name_bytes(codes[i]);
        if same_bytes(key, name.as_slice()) {
            return Some(codes[i]);
        }
        i += 1;
    }
    assert(key@ != page_name(codes@[0]) && key@ != page_name(codes@[1]) && key@ != page_name(codes@[2]));
    assert(key@ != page_name(codes@[3]) && key@ != page_name(codes@[4]) && key@ != page_name(codes@[5]));
    None
}

fn static_path(prefix: &[u8], name: &[u8]) -> (r: Vec<u8>)
    ensures r@ == under_static(prefix@, name@),
{
    let mut r: Vec<u8> = vec![115, 116, 97, 116, 105, 99, 47];
    assert(r@ =~= static_dir());
    push_all(&mut r, prefix);
    r.push(SLASH);
    push_all(&mut r, name);
    assert(r@ =~= under_static(prefix@, name@));
    r
}

/// Resolves a request path against a virtual host.
pub fn route_target(path: &[u8], config: &ServerConfig) -> (r: Target)
    ensures target_spec(path@, *config, r),
{
    let key = strip_route_key(path);
    let error_code = page_code_of(key.as_slice());
    let relative = match error_code {
        Some(_) => static_path(config.error_pages_prefix.as_slice(), key.as_slice()),
        None => static_path(config.static_files_prefix.as_slice(), key.as_slice()),
    };
    let mut default_file = copy_range(relative.as_slice(), 0, relative.len());
    let n = relative.len();
    if !(n > 0 && relative[n - 1] == SLASH) {
        default_file.push(SLASH);
    }
    push_all(&mut default_file, config.default_file.as_slice());
    assert(default_file@ =~= default_path(relative@, config.default_file@));
    Target { key, error_code, relative, default_file }
}

/// What the file system says of a target, as the caller found it.
#[derive(Clone, Copy, Debug, PartialEq, Eq, Structural)]
pub struct FsFacts {
    /// The target is a directory.
    pub is_dir: bool,
    /// The target is a regular file.
    pub is_file: bool,
    /// The default file of the target, as a directory, is a regular file.
    pub default_is_file: bool,
    /// The target, once canonical, stays inside the served tree.
    pub confined: bool,
}

/// The methods of the first route for `key`.
pub open spec fn route_methods(routes: Seq<Route>, key: Seq<u8>) -> Option<Seq<Vec<u8>>>
    decreases routes.len(),
{
    if routes.len() == 0 {
        None
    } else if routes[0].path@ == key {
        Some(routes[0].methods@)
    } else {
        route_methods(routes.drop_first(), key)
    }
}

pub open spec fn method_in(methods: Seq<Vec<u8>>, m: Seq<u8>) -> bool {
    exists|i: int| 0 <= i < methods.len() && (#[trigger] methods[i])@ == m
}

pub open spec fn get_method() -> Seq<u8> {
    seq![71u8, 69, 84]
}

/// What answers a request for `t` with `method`: a file and the status it
/// is served with, or an error. A directory, or a path ending in `/`, gets
/// its default file with no method check; an error page carries its own
/// status and, without a route of its own, allows GET alone.
pub open spec fn route_spec(t: Target, method: Seq<u8>, routes: Seq<Route>, fs: FsFacts) -> Result<(Seq<u8>, u16), ErrorToken> {
    if !fs.confined || has_dot_dot(t.key@) {
        Err(ErrorToken::NotFound)
    } else if t.key@.len() == 0 || ends_with_slash(t.key@) || fs.is_dir {
        if fs.default_is_file { Ok((t.default_file@, 200u16)) } else { Err(ErrorToken::NotFound) }
    } else if !fs.is_file {
        Err(ErrorToken::NotFound)
    } else {
        let status: u16 = match t.error_code { Some(c) => c, None => 200u16 };
        match route_methods(routes, t.key@) {
            Some(ms) => if method_in(ms, method) { Ok((t.relative@, status)) } else { Err(ErrorToken::MethodNotAllowed) },
            None => if t.error_code is None {
                Err(ErrorToken::NotFound)
            } else if method == get_method() {
                Ok((t.relative@, status))
            } else {
                Err(ErrorToken::MethodNotAllowed)
            },
        }
    }
}

/// Asking for `/` is answered as asking for the default file itself: the
/// same file with status 200, when the default file is a plain name that
/// the routes allow for the method and the file system finds it both ways.
pub proof fn lemma_directory_default_matches_file(
    c: ServerConfig,
    root: Target,
    file: Target,
    method: Seq<u8>,
    fs_root: FsFacts,
    fs_file: FsFacts,
)
    requires
        target_spec(seq![SLASH], c, root),
        target_spec(seq![SLASH] + c.default_file@, c, file),
        is_token(c.default_file@),
        !has_dot_dot(c.default_file@),
        error_page_code(c.default_file@) is None,
        fs_root.confined && fs_root.default_is_file,
        fs_file.confined && fs_file.is_file && !fs_file.is_dir,
        route_methods(c.routes@, c.default_file@) matches Some(ms) && method_in(ms, method),
    ensures
        route_spec(root, method, c.routes@, fs_root) == route_spec(file, method, c.routes@, fs_file),
        route_spec(root, method, c.routes@, fs_root) == Ok::<(Seq<u8>, u16), ErrorToken>(
            (under_static(c.static_files_prefix@, c.default_file@), 200u16),
        ),
{
    let d = c.default_file@;
    let slash = seq![SLASH];
    assert(slash.drop_first() =~= Seq::<u8>::empty());
    assert(route_key(slash) == Seq::<u8>::empty());
    assert(error_page_code(Seq::<u8>::empty()) is None) by {
        assert(page_name(400).len() == 8);
    }
    assert(!has_dot_dot(Seq::<u8>::empty()));
    let rel = under_static(c.static_files_prefix@, Seq::<u8>::empty());
    assert(rel.last() == SLASH);
    assert(rel + d =~= under_static(c.static_files_prefix@, d));
    let p = slash + d;
    if p.len() >= 9 {
        assert(p.subrange(0, 9)[8] == d[7]);
        assert(is_tchar(d[7]));
        assert(p.subrange(0, 9) != uploads_prefix());
    }
    assert(p.drop_first() =~= d);
    assert(route_key(p) == d);
}

/// A file to serve, relative to the root, with its status.
pub struct Served {
    pub path: Vec<u8>,
    pub status: u16,
}

fn has_dot_dot_segment(s: &[u8]) -> (r: bool)
    ensures r == has_dot_dot(s@),
{
    let n = s.len();
    let mut i: usize = 0;
    while i < n
        invariant
            n == s@.len(),
            i <= n,
            forall|k: int| 0 <= k < i ==> !dot_dot_at(s@, k),
        decreases n - i,
    {
        if i + 1 < n && s[i] == 46 && s[i + 1] == 46 && (i == 0 || s[i - 1] == SLASH)
            && (i + 2 == n || s[i + 2] == SLASH) {
            assert(dot_dot_at(s@, i as int));
            return true;
        }
        i += 1;
    }
    assert forall|k: int| !dot_dot_at(s@, k) by {
        if 0 <= k < n {
        }
    }
    false
}

fn find_route<'a>(routes: &'a Vec<Route>, key: &[u8]) -> (r: Option<&'a Vec<Vec<u8>>>)
    ensures
        match (r, route_methods(routes@, key@)) {
            (Some(ms), Some(sm)) => ms@ == sm,
            (None, None) => true,
            _ => false,
        },
{
    let mut i: usize = 0;
    assert(routes@.subrange(0, routes@.len() as int) =~= routes@);
    while i < routes.len()
        invariant
            i <= routes@.len(),
            route_methods(routes@, key@) == route_methods(routes@.subrange(i as int, routes@.len() as int), key@),
        decreases routes@.len() - i,
    {
        assert(routes@.subrange(i as int, routes@.len() as int).drop_first() =~= routes@.subrange(i + 1, routes@.len() as int));
        if same_bytes(routes[i].path.as_slice(), key) {
            return Some(&routes[i].methods);
        }
        i += 1;
    }
    None
}

fn contains_method(methods: &Vec<Vec<u8>>, m: &[u8]) -> (r: bool)
    ensures r == method_in(methods@, m@),
{
    let mut i: usize = 0;
    while i < methods.len()
        invariant
            i <= methods@.len(),
            forall|k: int| 0 <= k < i ==> (#[trigger] methods@[k])@ != m@,
        decreases methods@.len() - i,
    {
        if same_bytes(methods[i].as_slice(), m) {
            return true;
        }
        i += 1;
    }
    false
}

/// Decides how a request for `target` with `method` is answered under the
/// routes of its virtual host and what the file system showed.
pub fn handle_all(target: &Target, method: &[u8], config: &ServerConfig, fs: FsFacts) -> (r: Result<Served, ErrorToken>)
    ensures
        match (r, route_spec(*target, method@, config.routes@, fs)) {
            (Ok(sv), Ok((p, st))) => sv.path@ == p && sv.status == st,
            (Err(e), Err(f)) => e == f,
            _ => false,
        },
{
    if !fs.confined || has_dot_dot_segment(target.key.as_slice()) {
        return Err(ErrorToken::NotFound);
    }
    let n = target.key.len();
    if n == 0 || target.key[n - 1] == SLASH || fs.is_dir {
        if fs.default_is_file {
            return Ok(Served { path: copy_range(target.default_file.as_slice(), 0, target.default_file.len()), status: 200 });
        }
        return Err(ErrorToken::NotFound);
    }
    if !fs.is_file {
        return Err(ErrorToken::NotFound);
    }
    let status: u16 = match target.error_code { Some(c) => c, None => 200 };
    let path = copy_range(target.relative.as_slice(), 0, target.relative.len());
    assert(path@ =~= target.relative@);
    match find_route(&config.routes, target.key.as_slice()) {
        Some(ms) => {
            if contains_method(ms, method) {
                Ok(Served { path, status })
            } else {
                Err(ErrorToken::MethodNotAllowed)
            }
        },
        None => {
            let get: [u8; 3] = [71, 69, 84];
            assert(get@ =~= get_method());
            if target.error_code.is_none() {
                Err(ErrorToken::NotFound)
            } else if same_bytes(method, get.as_slice()) {
                Ok(Served { path, status })
            } else {
                Err(ErrorToken::MethodNotAllowed)
            }
        },
    }
}

} // verus!
