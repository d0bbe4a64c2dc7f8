//! Virtual-host configuration and the choice of one by port and `Host`.

use vstd::prelude::*;
use crate::bytes::{eq_ignore_case, bytes_eq_ignore_case, copy_range, opt_bytes};

verus! {

/// A path and the methods allowed on it.
#[derive(Clone, Debug)]
pub struct Route {
    pub path: Vec<u8>,
    pub methods: Vec<Vec<u8>>,
}

/// One virtual host. Immutable once the server runs.
#[derive(Clone, Debug)]
pub struct ServerConfig {
    pub server_name: Vec<u8>,
    pub listen_port: u16,
    pub static_files_prefix: Vec<u8>,
    pub error_pages_prefix: Vec<u8>,
    pub default_file: Vec<u8>,
    pub routes: Vec<Route>,
    pub client_body_size: usize,
    pub custom_error_pages: Vec<u16>,
}

/// The host name of a `Host` value: what comes before the first `:`.
pub open spec fn host_name(h: Seq<u8>) -> Seq<u8>
    decreases h.len(),
{
    if h.len() == 0 {
        h
    } else if h[0] == 58 {
        Seq::empty()
    } else {
        seq![h[0]] + host_name(h.drop_first())
    }
}

pub open spec fn names_host(c: ServerConfig, port: u16, host: Seq<u8>) -> bool {
    c.listen_port == port && eq_ignore_case(c.server_name@, host_name(host))
}

/// The config for a connection on `port` whose `Host` header is `host`: the
/// first that serves that port under that name, else the first that serves
/// the port, else none.
pub open spec fn selected(cs: Seq<ServerConfig>, port: u16, host: Option<Seq<u8>>, i: int) -> bool {
    &&& 0 <= i < cs.len()
    &&& cs[i].listen_port == port
    &&& if host is Some && exists|j: int| 0 <= j < cs.len() && names_host(#[trigger] cs[j], port, host->0) {
        names_host(cs[i], port, host->0) && forall|j: int| 0 <= j < i ==> !names_host(#[trigger] cs[j], port, host->0)
    } else {
        forall|j: int| 0 <= j < i ==> (#[trigger] cs[j]).listen_port != port
    }
}

fn host_name_of(h: &[u8]) -> (r: Vec<u8>)
    ensures r@ == host_name(h@),
{
    let mut i: usize = 0;
    while i < h.len() && h[i] != 58
        invariant
            i <= h@.len(),
            forall|k: int| 0 <= k < i ==> h@[k] != 58,
        decreases h@.len() - i,
    {
        i += 1;
    }
    proof { lemma_host_name_prefix(h@, i as int); }
    copy_range(h, 0, i)
}

proof fn lemma_host_name_prefix(h: Seq<u8>, i: int)
    requires
        0 <= i <= h.len(),
        forall|k: int| 0 <= k < i ==> h[k] != 58,
        i == h.len() || h[i] == 58,
    ensures host_name(h) == h.subrange(0, i),
    decreases i,
{
    if i == 0 {
        assert(h.subrange(0, 0) =~= Seq::<u8>::empty());
        if h.len() > 0 {
            assert(h[0] == 58);
        } else {
            assert(h =~= Seq::<u8>::empty());
        }
    } else {
        let t = h.drop_first();
        assert forall|k: int| 0 <= k < i - 1 implies t[k] != 58 by {
            assert(t[k] == h[k + 1]);
        }
        if i < h.len() {
            assert(t[i - 1] == h[i]);
        }
        lemma_host_name_prefix(t, i - 1);
        assert(seq![h[0]] + t.subrange(0, i - 1) =~= h.subrange(0, i));
    }
}

/// Picks the virtual host for a request that arrived on `port` with the
/// given `Host` header value; the port suffix of the value and the case of
/// the name do not matter.
pub fn select_config(configs: &Vec<ServerConfig>, port: u16, host: &Option<Vec<u8>>) -> (r: Option<usize>)
    ensures
        match r {
            Some(i) => selected(configs@, port, opt_bytes(*host), i as int),
            None => forall|j: int| 0 <= j < configs@.len() ==> (#[trigger] configs@[j]).listen_port != port,
        },
{
    let ghost hv = opt_bytes(*host);
    if let Some(h) = host {
        let name = host_name_of(h.as_slice());
        let mut i: usize = 0;
        while i < configs.len()
            invariant
                i <= configs@.len(),
                hv == Some(h@),
                hv == opt_bytes(*host),
                name@ == host_name(h@),
                forall|j: int| 0 <= j < i ==> !names_host(#[trigger] configs@[j], port, h@),
            decreases configs@.len() - i,
        {
            if configs[i].listen_port == port && bytes_eq_ignore_case(configs[i].server_name.as_slice(), name.as_slice()) {
                assert(names_host(configs@[i as int], port, h@));
                return Some(i);
            }
            i += 1;
        }
    }
    let mut k: usize = 0;
    while k < configs.len()
        invariant
            k <= configs@.len(),
            hv == opt_bytes(*host),
            forall|j: int| 0 <= j < k ==> (#[trigger] configs@[j]).listen_port != port,
            hv is Some ==> forall|j: int| 0 <= j < configs@.len() ==> !names_host(#[trigger] configs@[j], port, hv->0),
        decreases configs@.len() - k,
    {
        if configs[k].listen_port == port {
            return Some(k);
        }
        k += 1;
    }
    None
}

} // verus!
