//! Sessions: the cookie a request brings, the ids the server handed out,
//! and their expiry. Fresh ids come from the caller.

use vstd::prelude::*;
use crate::bytes::{copy_range, push_all};
use crate::request::{Header, headers_view, header_lookup, find_header};

verus! {

/// `session=`, the name under which the id travels.
pub open spec fn session_key() -> Seq<u8> {
    seq![115u8, 101, 115, 115, 105, 111, 110, 61]
}

pub open spec fn cookie_name() -> Seq<u8> {
    seq![99u8, 111, 111, 107, 105, 101]
}

/// Where `session=` starts a pair of a `Cookie` value: at its start or
/// after `"; "`.
pub open spec fn key_at(v: Seq<u8>, i: int) -> bool {
    0 <= i && i + 8 <= v.len() && v.subrange(i, i + 8) == session_key()
        && (i == 0 || (i >= 2 && v[i - 2] == 59 && v[i - 1] == 32))
}

/// The index just past the first `session=` pair key at or after `from`,
/// or -1.
pub open spec fn session_start(v: Seq<u8>, from: int) -> int
    decreases v.len() - from,
{
    if from < 0 || from + 8 > v.len() {
        -1
    } else if key_at(v, from) {
        from + 8
    } else {
        session_start(v, from + 1)
    }
}

/// The end of the value that starts at `i`: the next `;`, or the end.
pub open spec fn value_end(v: Seq<u8>, i: int) -> int
    decreases v.len() - i,
{
    if i < 0 || i >= v.len() || v[i] == 59 { i } else { value_end(v, i + 1) }
}

/// The session id in a `Cookie` value: none when no pair is named
/// `session`, an error when that pair's value is empty.
pub open spec fn session_id_of(v: Seq<u8>) -> Result<Option<Seq<u8>>, ()> {
    let s = session_start(v, 0);
    if s < 0 {
        Ok(None)
    } else if value_end(v, s) == s {
        Err(())
    } else {
        Ok(Some(v.subrange(s, value_end(v, s))))
    }
}

/// One session id handed out, and when it lapses.
#[derive(Clone, Debug)]
pub struct Session {
    pub id: Vec<u8>,
    pub expires_at: u64,
}

pub open spec fn session_view(s: Session) -> (Seq<u8>, u64) {
    (s.id@, s.expires_at)
}

/// The sessions that live past `now`, in order.
pub open spec fn live(s: Seq<(Seq<u8>, u64)>, now: u64) -> Seq<(Seq<u8>, u64)>
    decreases s.len(),
{
    if s.len() == 0 {
        s
    } else if s.last().1 > now {
        live(s.drop_last(), now).push(s.last())
    } else {
        live(s.drop_last(), now)
    }
}

pub open spec fn knows(s: Seq<(Seq<u8>, u64)>, id: Seq<u8>) -> bool {
    exists|i: int| 0 <= i < s.len() && (#[trigger] s[i]).0 == id
}

/// The session ids the process has handed out.
pub struct SessionTable {
    entries: Vec<Session>,
}

impl View for SessionTable {
    type V = Seq<(Seq<u8>, u64)>;

    closed spec fn view(&self) -> Seq<(Seq<u8>, u64)> {
        self.entries@.map_values(|s: Session| session_view(s))
    }
}

/// What the `Cookie` header says of the table: a known session id
/// (`Some(Some(id))`), no session to resume (`Some(None)`), or a malformed
/// session pair (`None`).
pub open spec fn lookup_spec(hs: Seq<(Seq<u8>, Seq<u8>)>, table: Seq<(Seq<u8>, u64)>) -> Option<Option<Seq<u8>>> {
    match header_lookup(hs, cookie_name()) {
        None => Some(None),
        Some(v) => match session_id_of(v) {
            Err(_) => None,
            Ok(None) => Some(None),
            Ok(Some(id)) => if knows(table, id) { Some(Some(id)) } else { Some(None) },
        },
    }
}

fn find_session_start(v: &[u8]) -> (r: Option<usize>)
    ensures
        match r {
            Some(s) => session_start(v@, 0) == s as int && s <= v@.len(),
            None => session_start(v@, 0) < 0,
        },
{
    let key: [u8; 8] = [115, 101, 115, 115, 105, 111, 110, 61];
    assert(key@ =~= session_key());
    let n = v.len();
    if n < 8 {
        return None;
    }
    let mut i: usize = 0;
    while i <= n - 8
        invariant
            n == v@.len(),
            n >= 8,
            key@ == session_key(),
            session_start(v@, 0) == session_start(v@, i as int),
        decreases n - i,
    {
        let mut same = true;
        let mut k: usize = 0;
        while k < 8
            invariant
                i + 8 <= n == v@.len(),
                k <= 8,
                key@ == session_key(),
                same == (forall|j: int| 0 <= j < k ==> v@[i + j] == key@[j]),
            decreases 8 - k,
        {
            if v[i + k] != key[k] {
                same = false;
            }
            k += 1;
        }
        let sep = i == 0 || (i >= 2 && v[i - 2] == 59 && v[i - 1] == 32);
        if same {
            assert(v@.subrange(i as int, i + 8) =~= session_key());
        } else {
            assert(v@.subrange(i as int, i + 8) != session_key()) by {
                let j = choose|j: int| 0 <= j < 8 && v@[i + j] != key@[j];
                assert(v@.subrange(i as int, i + 8)[j] != session_key()[j]);
            }
        }
        if same && sep {
            return Some(i + 8);
        }
        i += 1;
    }
    None
}

fn find_value_end(v: &[u8], s: usize) -> (r: usize)
    requires s <= v@.len(),
    ensures r as int == value_end(v@, s as int), s <= r <= v@.len(),
{
    let mut i: usize = s;
    while i < v.len() && v[i] != 59
        invariant
            s <= i <= v@.len(),
            value_end(v@, s as int) == value_end(v@, i as int),
        decreases v@.len() - i,
    {
        i += 1;
    }
    i
}

/// The session id of a `Cookie` value.
pub fn session_id(v: &[u8]) -> (r: Result<Option<Vec<u8>>, ()>)
    ensures
        match (r, session_id_of(v@)) {
            (Ok(Some(a)), Ok(Some(b))) => a@ == b,
            (Ok(None), Ok(None)) => true,
            (Err(_), Err(_)) => true,
            _ => false,
        },
{
    match find_session_start(v) {
        None => Ok(None),
        Some(s) => {
            let e = find_value_end(v, s);
            if e == s { Err(()) } else { Ok(Some(copy_range(v, s, e))) }
        },
    }
}

/// The value of `Set-Cookie` for a session id.
pub open spec fn cookie_for(id: Seq<u8>) -> Seq<u8> {
    session_key() + id
}

pub fn cookie_for_id(id: &[u8]) -> (r: Vec<u8>)
    ensures r@ == cookie_for(id@),
{
    let mut r: Vec<u8> = vec![115, 101, 115, 115, 105, 111, 110, 61];
    assert(r@ =~= session_key());
    push_all(&mut r, id);
    r
}

impl SessionTable {
    pub fn new() -> (r: SessionTable)
        ensures r@ == Seq::<(Seq<u8>, u64)>::empty(),
    {
        let r = SessionTable { entries: Vec::new() };
        assert(r@ =~= Seq::<(Seq<u8>, u64)>::empty());
        r
    }

    pub fn len(&self) -> (r: usize)
        ensures r == self@.len(),
    {
        self.entries.len()
    }

    /// Records a session id that lapses at `expires_at`.
    pub fn insert(&mut self, id: Vec<u8>, expires_at: u64)
        ensures final(self)@ == old(self)@.push((id@, expires_at)),
    {
        let s = Session { id, expires_at };
        self.entries.push(s);
        assert(self@ =~= old(self)@.push((id@, expires_at)));
    }

    /// Whether the table holds `id`.
    pub fn contains(&self, id: &[u8]) -> (r: bool)
        ensures r == knows(self@, id@),
    {
        let mut i: usize = 0;
        while i < self.entries.len()
            invariant
                i <= self@.len(),
                self@.len() == self.entries@.len(),
                forall|k: int| 0 <= k < i ==> (#[trigger] self@[k]).0 != id@,
            decreases self.entries@.len() - i,
        {
            assert(self@[i as int] == session_view(self.entries@[i as int]));
            if crate::router::same_bytes(self.entries[i].id.as_slice(), id) {
                return true;
            }
            i += 1;
        }
        false
    }

    /// Drops every session that has lapsed by `now`.
    pub fn check_expired_cookies(&mut self, now: u64)
        ensures final(self)@ == live(old(self)@, now),
    {
        let ghost start = self@;
        let mut kept: Vec<Session> = Vec::new();
        let mut i: usize = 0;
        assert(start.subrange(0, 0) =~= Seq::<(Seq<u8>, u64)>::empty());
        assert(kept@.map_values(|s: Session| session_view(s)) =~= Seq::<(Seq<u8>, u64)>::empty());
        while i < self.entries.len()
            invariant
                i <= self.entries@.len(),
                start == self@,
                start.len() == self.entries@.len(),
                kept@.map_values(|s: Session| session_view(s)) == live(start.subrange(0, i as int), now),
            decreases self.entries@.len() - i,
        {
            assert(start.subrange(0, i + 1).drop_last() =~= start.subrange(0, i as int));
            assert(start[i as int] == session_view(self.entries@[i as int]));
            if self.entries[i].expires_at > now {
                let ghost before = kept@;
                let e = Session { id: self.entries[i].id.clone(), expires_at: self.entries[i].expires_at };
                kept.push(e);
                assert(kept@.map_values(|s: Session| session_view(s))
                    =~= before.map_values(|s: Session| session_view(s)).push(start[i as int]));
            }
            i += 1;
        }
        assert(start.subrange(0, start.len() as int) =~= start);
        self.entries = kept;
    }

    /// The cookie of a request's session, and whether it was acceptable:
    /// a known session is resumed; a request without one, or with an
    /// unknown one, gets `fresh_id`, which lapses at `expires_at`; a session
    /// pair with an empty id gives an empty cookie and `false`.
    pub fn extract_cookies_from_request_or_provide_new(
        &mut self,
        hs: &Vec<Header>,
        fresh_id: Vec<u8>,
        expires_at: u64,
    ) -> (r: (Vec<u8>, bool))
        ensures
            match lookup_spec(headers_view(hs@), old(self)@) {
                None => r.0@ == Seq::<u8>::empty() && !r.1 && final(self)@ == old(self)@,
                Some(Some(id)) => r.0@ == cookie_for(id) && r.1 && final(self)@ == old(self)@,
                Some(None) => r.0@ == cookie_for(fresh_id@) && r.1
                    && final(self)@ == old(self)@.push((fresh_id@, expires_at)),
            },
    {
        let name: [u8; 6] = [99, 111, 111, 107, 105, 101];
        assert(name@ =~= cookie_name());
        match find_header(hs, name.as_slice()) {
            Some(v) => match session_id(v.as_slice()) {
                Err(_) => { return (Vec::new(), false); },
                Ok(None) => {},
                Ok(Some(id)) => {
                    if self.contains(id.as_slice()) {
                        return (cookie_for_id(id.as_slice()), true);
                    }
                },
            },
            None => {},
        }
        let c = cookie_for_id(fresh_id.as_slice());
        self.insert(fresh_id, expires_at);
        (c, true)
    }
}

} // verus!
