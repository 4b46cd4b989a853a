//! The request dispatch pipeline: host extraction, tenant lookup, route
//! match, request assembly, worker invocation. The HTTP layer around it
//! only hands in plain values and carries the verdict back out.
use vstd::prelude::*;

use crate::engine::{JsWorker, Req, Res};
use crate::errors::AppError;
use crate::method::{method_chars, parse_method_chars, HttpMethod};
use crate::router::match_contract;
use crate::strutil::{from_chars, seq_eq_icase, to_chars};
use crate::swap::SwappableAppRouter;

verus! {

/// One tenant: a host and its swappable router.
pub struct TennetRouter {
    pub host: String,
    pub router: SwappableAppRouter,
}

impl TennetRouter {
    /// Binds a host to its router.
    pub fn new(host: String, router: SwappableAppRouter) -> (r: TennetRouter)
        ensures
            r.host == host,
            r.router == router,
    {
        TennetRouter { host, router }
    }
}

/// The registry of tenants, looked up by bare host on every request.
pub struct AppState {
    pub routers: Vec<TennetRouter>,
}

/// Every registered router holds a well-formed table.
pub open spec fn state_wf(s: AppState) -> bool {
    forall|i: int| 0 <= i < s.routers@.len() ==> (#[trigger] s.routers@[i].router).wf()
}

impl AppState {
    /// A registry over the given tenants. A host registered twice is
    /// served by its later entry.
    pub fn new(routers: Vec<TennetRouter>) -> (s: AppState)
        ensures
            s.routers == routers,
    {
        AppState { routers }
    }
}

/// Index of the first `:` in `h`, or `h.len()` when there is none.
pub open spec fn first_colon(h: Seq<char>) -> int
    decreases h.len(),
{
    if h.len() == 0 {
        0
    } else if h[0] == ':' {
        0
    } else {
        1 + first_colon(h.drop_first())
    }
}

pub proof fn lemma_first_colon(h: Seq<char>)
    ensures
        0 <= first_colon(h) <= h.len(),
        forall|j: int| 0 <= j < first_colon(h) ==> h[j] != ':',
        first_colon(h) < h.len() ==> h[first_colon(h)] == ':',
    decreases h.len(),
{
    if h.len() > 0 && h[0] != ':' {
        lemma_first_colon(h.drop_first());
        assert forall|j: int| 0 <= j < first_colon(h) implies h[j] != ':' by {
            if j > 0 {
                assert(h.drop_first()[j - 1] == h[j]);
            }
        }
    }
}

/// The tenant key of a host header: everything before the first `:`, so
/// that a port suffix does not take part in the lookup.
pub open spec fn host_key(h: Seq<char>) -> Seq<char> {
    if 0 <= first_colon(h) <= h.len() {
        h.take(first_colon(h))
    } else {
        h
    }
}

/// Strips the port suffix from a host header.
pub fn strip_port(host: &String) -> (r: String)
    ensures
        r@ == host_key(host@),
{
    let hv = to_chars(host.as_str());
    proof {
        lemma_first_colon(host@);
    }
    let mut i: usize = 0;
    while i < hv.len()
        invariant
            i <= hv@.len(),
            hv@ == host@,
            forall|j: int| 0 <= j < i ==> hv@[j] != ':',
        decreases hv@.len() - i,
    {
        if hv[i] == ':' {
            proof {
                lemma_first_colon(host@);
                assert(first_colon(host@) == i);
            }
            let mut out: Vec<char> = Vec::new();
            let mut k: usize = 0;
            while k < i
                invariant
                    k <= i,
                    i <= hv@.len(),
                    out@ == hv@.take(k as int),
                decreases i - k,
            {
                out.push(hv[k]);
                k += 1;
                proof {
                    assert(out@ =~= hv@.take(k as int));
                }
            }
            return from_chars(&out);
        }
        i += 1;
    }
    proof {
        lemma_first_colon(host@);
        assert(first_colon(host@) == host@.len());
        assert(host@.take(host@.len() as int) =~= host@);
    }
    host.clone()
}

/// The index of the last registered tenant for key `k`, if any.
pub open spec fn lookup(rs: Seq<TennetRouter>, k: Seq<char>) -> Option<int>
    decreases rs.len(),
{
    if rs.len() == 0 {
        None
    } else if rs.last().host@ == k {
        Some(rs.len() - 1)
    } else {
        lookup(rs.drop_last(), k)
    }
}

pub proof fn lemma_lookup(rs: Seq<TennetRouter>, k: Seq<char>)
    ensures
        match lookup(rs, k) {
            Some(i) => 0 <= i < rs.len() && rs[i].host@ == k && forall|j: int|
                i < j < rs.len() ==> (#[trigger] rs[j].host)@ != k,
            None => forall|j: int| 0 <= j < rs.len() ==> (#[trigger] rs[j].host)@ != k,
        },
    decreases rs.len(),
{
    if rs.len() > 0 && rs.last().host@ != k {
        lemma_lookup(rs.drop_last(), k);
        assert forall|j: int| 0 <= j < rs.len() - 1 implies rs.drop_last()[j] == rs[j] by {}
    }
}

/// Finds the router serving `host`, after stripping its port. Fails with
/// `HostNotFound`, naming the bare host, exactly when no tenant carries
/// that key.
pub fn get_router_by_host<'a>(state: &'a AppState, host: &String) -> (r: Result<
    &'a SwappableAppRouter,
    AppError,
>)
    ensures
        match r {
            Ok(router) => {
                let lk = lookup(state.routers@, host_key(host@));
                lk is Some && router == &state.routers@[lk->0].router
            },
            Err(e) => match e {
                AppError::HostNotFound(h) => h@ == host_key(host@) && lookup(
                    state.routers@,
                    host_key(host@),
                ) is None,
                _ => false,
            },
        },
{
    let key = strip_port(host);
    proof {
        lemma_lookup(state.routers@, host_key(host@));
    }
    let n = state.routers.len();
    let mut i: usize = n;
    while i > 0
        invariant
            i <= state.routers@.len(),
            n == state.routers@.len(),
            key@ == host_key(host@),
            forall|j: int|
                i <= j < state.routers@.len() ==> (#[trigger] state.routers@[j].host)@
                    != host_key(host@),
        decreases i,
    {
        i -= 1;
        if state.routers[i].host == key {
            proof {
                lemma_lookup(state.routers@, host_key(host@));
            }
            return Ok(&state.routers[i].router);
        }
    }
    Err(AppError::HostNotFound(key))
}

/// The first index in `acc` holding key `k`, if any.
pub open spec fn key_index(acc: Seq<(Seq<char>, Seq<char>)>, k: Seq<char>) -> Option<int>
    decreases acc.len(),
{
    if acc.len() == 0 {
        None
    } else if acc[0].0 == k {
        Some(0int)
    } else {
        match key_index(acc.drop_first(), k) {
            Some(i) => Some(i + 1),
            None => None,
        }
    }
}

pub proof fn lemma_key_index(acc: Seq<(Seq<char>, Seq<char>)>, k: Seq<char>)
    ensures
        match key_index(acc, k) {
            Some(i) => 0 <= i < acc.len() && acc[i].0 == k && forall|j: int|
                0 <= j < i ==> (#[trigger] acc[j]).0 != k,
            None => forall|j: int| 0 <= j < acc.len() ==> (#[trigger] acc[j]).0 != k,
        },
    decreases acc.len(),
{
    if acc.len() > 0 && acc[0].0 != k {
        lemma_key_index(acc.drop_first(), k);
        match key_index(acc.drop_first(), k) {
            Some(i) => {
                assert forall|j: int| 0 <= j < i + 1 implies (#[trigger] acc[j]).0 != k by {
                    if j > 0 {
                        assert(acc.drop_first()[j - 1] == acc[j]);
                    }
                }
            },
            None => {
                assert forall|j: int| 0 <= j < acc.len() implies (#[trigger] acc[j]).0 != k by {
                    if j > 0 {
                        assert(acc.drop_first()[j - 1] == acc[j]);
                    }
                }
            },
        }
    }
}

/// One header folded into the accumulator: a later value for a present
/// key replaces the earlier one in place; a new key is appended.
pub open spec fn upsert(
    acc: Seq<(Seq<char>, Seq<char>)>,
    p: (Seq<char>, Seq<char>),
) -> Seq<(Seq<char>, Seq<char>)> {
    match key_index(acc, p.0) {
        Some(i) => acc.update(i, p),
        None => acc.push(p),
    }
}

/// Raw header pairs folded left to right.
pub open spec fn flatten_acc(
    hs: Seq<(Seq<char>, Seq<char>)>,
    acc: Seq<(Seq<char>, Seq<char>)>,
) -> Seq<(Seq<char>, Seq<char>)>
    decreases hs.len(),
{
    if hs.len() == 0 {
        acc
    } else {
        flatten_acc(hs.drop_first(), upsert(acc, hs[0]))
    }
}

/// The flattened form of raw header pairs: one entry per name, in order
/// of first occurrence, each carrying the last value that name had.
pub open spec fn flatten_headers_spec(hs: Seq<(Seq<char>, Seq<char>)>) -> Seq<
    (Seq<char>, Seq<char>),
> {
    flatten_acc(hs, Seq::empty())
}

/// The first index in `out` holding key `k`, executably.
fn find_key(out: &Vec<(String, String)>, k: &String) -> (r: Option<usize>)
    ensures
        match r {
            Some(i) => key_index(out.deep_view(), k@) == Some(i as int),
            None => key_index(out.deep_view(), k@) is None,
        },
{
    proof {
        lemma_key_index(out.deep_view(), k@);
    }
    let mut i: usize = 0;
    while i < out.len()
        invariant
            i <= out@.len(),
            out.deep_view().len() == out@.len(),
            forall|j: int| 0 <= j < i ==> (#[trigger] out.deep_view()[j]).0 != k@,
        decreases out@.len() - i,
    {
        proof {
            assert(out.deep_view()[i as int] == (out@[i as int].0@, out@[i as int].1@));
        }
        if out[i].0 == *k {
            proof {
                assert(out.deep_view()[i as int].0 == k@);
                lemma_key_index(out.deep_view(), k@);
            }
            return Some(i);
        }
        i += 1;
    }
    proof {
        lemma_key_index(out.deep_view(), k@);
    }
    None
}

/// Flattens raw header pairs: duplicate names last-write-wins, the entry
/// staying at its first position.
pub fn flatten_headers(hs: Vec<(String, String)>) -> (r: Vec<(String, String)>)
    ensures
        r.deep_view() == flatten_headers_spec(hs.deep_view()),
{
    let ghost hv = hs.deep_view();
    let mut out: Vec<(String, String)> = Vec::new();
    let mut k: usize = 0;
    proof {
        assert(hv.skip(0) =~= hv);
        assert(out.deep_view() =~= Seq::<(Seq<char>, Seq<char>)>::empty());
    }
    while k < hs.len()
        invariant
            k <= hv.len(),
            hv == hs.deep_view(),
            hv.len() == hs@.len(),
            flatten_acc(hv.skip(k as int), out.deep_view()) == flatten_headers_spec(hv),
        decreases hv.len() - k,
    {
        let ghost acc0 = out.deep_view();
        proof {
            assert(hv.skip(k as int)[0] == hv[k as int]);
            assert(hv.skip(k as int).drop_first() =~= hv.skip(k + 1));
            assert(hv[k as int] == (hs@[k as int].0@, hs@[k as int].1@));
        }
        let key = hs[k].0.clone();
        let val = hs[k].1.clone();
        match find_key(&out, &key) {
            Some(i) => {
                proof {
                    lemma_key_index(out.deep_view(), key@);
                    assert(out.deep_view().len() == out@.len());
                }
                out.remove(i);
                out.insert(i, (key, val));
                proof {
                    assert(out.deep_view() =~~= acc0.update(i as int, hv[k as int]));
                    assert(out.deep_view() =~~= upsert(acc0, hv[k as int]));
                }
            },
            None => {
                out.push((key, val));
                proof {
                    assert(out.deep_view() =~~= acc0.push(hv[k as int]));
                    assert(out.deep_view() =~~= upsert(acc0, hv[k as int]));
                }
            },
        }
        k += 1;
    }
    proof {
        assert(hv.skip(hv.len() as int) =~= Seq::<(Seq<char>, Seq<char>)>::empty());
    }
    out
}

/// Assembles the request record a handler receives: the plain request
/// parts, the route's bound parameters, and the body decoded as UTF-8
/// (`None` when the bytes are not valid UTF-8 or there is no body).
pub fn assemble_req(
    method: String,
    url: String,
    headers: Vec<(String, String)>,
    query: Vec<(String, String)>,
    params: Vec<(String, String)>,
    body: Option<Vec<u8>>,
) -> (r: Req)
    ensures
        r.method == method,
        r.url == url,
        r.headers == headers,
        r.query == query,
        r.params == params,
        match body {
            None => r.body is None,
            Some(b) => match r.body {
                Some(s) => vstd::utf8::valid_utf8(b@) && vstd::utf8::encode_utf8(s@) == b@,
                None => !vstd::utf8::valid_utf8(b@),
            },
        },
{
    let decoded = match body {
        None => None,
        Some(b) => utf8_decode(b),
    };
    Req { query, params, headers, method, url, body: decoded }
}

/// Relies on std's `String::from_utf8`: succeeds exactly on valid UTF-8,
/// and the returned string encodes back to the given bytes.
#[verifier::external_body]
fn utf8_decode(b: Vec<u8>) -> (r: Option<String>)
    ensures
        r is Some <==> vstd::utf8::valid_utf8(b@),
        match r {
            Some(s) => vstd::utf8::encode_utf8(s@) == b@,
            None => true,
        },
{
    String::from_utf8(b).ok()
}

/// What dispatching against one snapshot returns: an unknown method is an
/// internal error; otherwise the route match and the worker outcome decide,
/// per the error taxonomy.
pub open spec fn dispatch_snapshot_contract(
    inner: crate::swap::AppRouterInner,
    method_name: Seq<char>,
    path: Seq<char>,
    r: Result<Res, AppError>,
) -> bool {
    match r {
        Err(AppError::Internal(_)) => forall|m: HttpMethod|
            !seq_eq_icase(method_name, method_chars(m)),
        Err(AppError::HostNotFound(_)) => false,
        _ => exists|m: HttpMethod|
            {
                let tbl = inner.router;
                &&& #[trigger] seq_eq_icase(method_name, method_chars(m))
                &&& match r {
                    Err(AppError::RoutePathNotFound(_)) => match_contract(
                        tbl,
                        m,
                        path,
                        Err(r->Err_0),
                    ),
                    Err(AppError::RouteMethodNotAllowed(_)) => match_contract(
                        tbl,
                        m,
                        path,
                        Err(r->Err_0),
                    ),
                    Err(AppError::WorkerInit(_)) | Err(AppError::WorkerShape(_))
                        | Err(AppError::WorkerRejected(_)) => exists|
                        rm: crate::router::RouteMatch,
                    | match_contract(tbl, m, path, Ok(rm)),
                    Ok(res) => (exists|rm: crate::router::RouteMatch|
                        match_contract(tbl, m, path, Ok(rm))) && (exists|t: Seq<char>|
                        #[trigger] crate::engine::spec_unmarshal_res(t) == Some(
                            crate::engine::res_view(res),
                        )),
                    _ => false,
                }
            },
    }
}

/// What one dispatch may return, stated over the registry, the request
/// parts and the error taxonomy.
pub open spec fn dispatch_contract(
    state: AppState,
    method_name: Seq<char>,
    host: Seq<char>,
    path: Seq<char>,
    r: Result<Res, AppError>,
) -> bool {
    let key = host_key(host);
    let lk = lookup(state.routers@, key);
    match r {
        Err(AppError::HostNotFound(h)) => h@ == key && lk is None,
        _ => lk is Some && dispatch_snapshot_contract(
            state.routers@[lk->0].router.current(),
            method_name,
            path,
            r,
        ),
    }
}

/// Dispatches one request against a snapshot already in hand: route match,
/// request assembly, one fresh worker over the snapshot's bundle, handler
/// invocation, response unmarshalling. Taking the snapshot first lets the
/// HTTP layer release any registry guard before script execution, so a
/// pending swap never waits on a running handler.
pub fn dispatch_snapshot(
    snapshot: &crate::swap::AppRouter,
    method_name: &String,
    url: String,
    path: &String,
    headers: Vec<(String, String)>,
    query: Vec<(String, String)>,
    body: Option<Vec<u8>>,
) -> (r: Result<Res, AppError>)
    requires
        crate::router::table_wf(snapshot.snapshot().router),
    ensures
        dispatch_snapshot_contract(snapshot.snapshot(), method_name@, path@, r),
{
    let mv = to_chars(method_name.as_str());
    let m = match parse_method_chars(&mv) {
        Some(m) => m,
        None => {
            return Err(AppError::Internal("unsupported method".to_owned()));
        },
    };
    let matched = match snapshot.match_it(m, path.as_str()) {
        Ok(rm) => rm,
        Err(e) => {
            return Err(e);
        },
    };
    let req = assemble_req(
        method_name.clone(),
        url,
        headers,
        query,
        matched.params,
        body,
    );
    let worker = match JsWorker::try_new(snapshot.code().as_str()) {
        Ok(w) => w,
        Err(e) => {
            return Err(e);
        },
    };
    worker.run(matched.handler.as_str(), req)
}

/// Dispatches one request: tenant lookup by bare host, snapshot, then
/// `dispatch_snapshot`. Each failure is the taxonomy's error for its
/// step; a method name outside the closed set is an internal error.
pub fn dispatch(
    state: &AppState,
    method_name: &String,
    host: &String,
    url: String,
    path: &String,
    headers: Vec<(String, String)>,
    query: Vec<(String, String)>,
    body: Option<Vec<u8>>,
) -> (r: Result<Res, AppError>)
    requires
        state_wf(*state),
    ensures
        dispatch_contract(*state, method_name@, host@, path@, r),
{
    let router = match get_router_by_host(state, host) {
        Ok(rt) => rt,
        Err(e) => {
            return Err(e);
        },
    };
    let snapshot = router.load();
    proof {
        lemma_lookup(state.routers@, host_key(host@));
        let lk = lookup(state.routers@, host_key(host@));
        let idx = lk->0;
        assert(0 <= idx < state.routers@.len());
        assert(state.routers@[idx].router.wf());
    }
    dispatch_snapshot(&snapshot, method_name, url, path, headers, query, body)
}

} // verus!
