//! The per-tenant routing table: an immutable set of path patterns, each
//! carrying one optional handler name per HTTP method. Construction refuses
//! duplicate methods on one path and ambiguous patterns; matching returns
//! the handler of the most specific matching pattern together with the
//! bound path parameters.
use vstd::prelude::*;

use crate::errors::{AppError, BuildError};
use crate::method::HttpMethod;
use crate::pattern::{
    beats, bound_params, lemma_beats_asym, lemma_beats_total, lemma_beats_trans,
    lemma_bound_params_exact, param_name, seg_is_param, segs_match, shape_eq, split_chars,
    split_segs,
};
use crate::strutil::{chars_eq, from_chars, to_chars};

verus! {

broadcast use crate::strutil::lemma_vec_char_deep_view;

/// One route entry of a project config: a method and a handler name.
#[derive(Debug, Clone)]
pub struct ProjectRoute {
    pub method: HttpMethod,
    pub handler: String,
}

/// The routes of a project: for each path pattern, in registration order,
/// its entries.
pub type ProjectRoutes = Vec<(String, Vec<ProjectRoute>)>;

/// For one path pattern, the optional handler name of every HTTP method.
#[derive(Debug, Clone)]
pub struct MethodRoute {
    pub get: Option<String>,
    pub head: Option<String>,
    pub post: Option<String>,
    pub put: Option<String>,
    pub patch: Option<String>,
    pub delete: Option<String>,
    pub options: Option<String>,
    pub trace: Option<String>,
    pub connect: Option<String>,
}

/// The handler name `mr` carries for method `m`, as characters.
pub open spec fn slot_view(mr: MethodRoute, m: HttpMethod) -> Option<Seq<char>> {
    let slot = match m {
        HttpMethod::Get => mr.get,
        HttpMethod::Head => mr.head,
        HttpMethod::Post => mr.post,
        HttpMethod::Put => mr.put,
        HttpMethod::Patch => mr.patch,
        HttpMethod::Delete => mr.delete,
        HttpMethod::Options => mr.options,
        HttpMethod::Trace => mr.trace,
        HttpMethod::Connect => mr.connect,
    };
    match slot {
        Some(h) => Some(h@),
        None => None,
    }
}

impl MethodRoute {
    /// A route with every slot empty.
    pub fn empty() -> (mr: MethodRoute)
        ensures
            forall|m: HttpMethod| slot_view(mr, m) is None,
    {
        MethodRoute {
            get: None,
            head: None,
            post: None,
            put: None,
            patch: None,
            delete: None,
            options: None,
            trace: None,
            connect: None,
        }
    }

    /// The handler name for method `m`, if one is set.
    pub fn slot(&self, m: HttpMethod) -> (r: &Option<String>)
        ensures
            match r {
                Some(h) => slot_view(*self, m) == Some(h@),
                None => slot_view(*self, m) is None,
            },
    {
        match m {
            HttpMethod::Get => &self.get,
            HttpMethod::Head => &self.head,
            HttpMethod::Post => &self.post,
            HttpMethod::Put => &self.put,
            HttpMethod::Patch => &self.patch,
            HttpMethod::Delete => &self.delete,
            HttpMethod::Options => &self.options,
            HttpMethod::Trace => &self.trace,
            HttpMethod::Connect => &self.connect,
        }
    }
}

impl Default for MethodRoute {
    /// The empty route.
    fn default() -> (mr: MethodRoute)
        ensures
            forall|m: HttpMethod| slot_view(mr, m) is None,
    {
        MethodRoute::empty()
    }
}

/// Some two entries name the same method.
pub open spec fn dup_in(entries: Seq<ProjectRoute>) -> bool {
    exists|i: int, j: int|
        0 <= i < j < entries.len() && #[trigger] entries[i].method == #[trigger] entries[j].method
}

/// The handler of the first entry for method `m`, if any.
pub open spec fn entry_for(entries: Seq<ProjectRoute>, m: HttpMethod) -> Option<Seq<char>>
    decreases entries.len(),
{
    if entries.len() == 0 {
        None
    } else if entries[0].method == m {
        Some(entries[0].handler@)
    } else {
        entry_for(entries.drop_first(), m)
    }
}

proof fn lemma_entry_for_exists(entries: Seq<ProjectRoute>, m: HttpMethod)
    ensures
        entry_for(entries, m) is Some <==> exists|i: int|
            0 <= i < entries.len() && entries[i].method == m,
    decreases entries.len(),
{
    if entries.len() > 0 {
        lemma_entry_for_exists(entries.drop_first(), m);
        if entries[0].method != m {
            if entry_for(entries, m) is Some {
                let i = choose|i: int|
                    0 <= i < entries.drop_first().len() && entries.drop_first()[i].method == m;
                assert(entries[i + 1].method == m);
            }
            if exists|i: int| 0 <= i < entries.len() && entries[i].method == m {
                let i = choose|i: int| 0 <= i < entries.len() && entries[i].method == m;
                assert(entries.drop_first()[i - 1].method == m);
            }
        }
    }
}

proof fn lemma_entry_for_snoc(entries: Seq<ProjectRoute>, e: ProjectRoute, m: HttpMethod)
    ensures
        entry_for(entries.push(e), m) == (if entry_for(entries, m) is Some {
            entry_for(entries, m)
        } else if e.method == m {
            Some(e.handler@)
        } else {
            None::<Seq<char>>
        }),
    decreases entries.len(),
{
    if entries.len() == 0 {
        assert(entries.push(e)[0] == e);
        assert(entries.push(e).drop_first() =~= Seq::<ProjectRoute>::empty());
    } else {
        assert(entries.push(e)[0] == entries[0]);
        assert(entries.push(e).drop_first() =~= entries.drop_first().push(e));
        lemma_entry_for_snoc(entries.drop_first(), e, m);
    }
}

/// Builds the per-method slots for one path from its entries. Returns the
/// offending method when one appears twice.
pub fn build_method_route(entries: &Vec<ProjectRoute>) -> (r: Result<MethodRoute, HttpMethod>)
    ensures
        match r {
            Ok(mr) => !dup_in(entries@) && forall|m: HttpMethod|
                slot_view(mr, m) == entry_for(entries@, m),
            Err(m) => dup_in(entries@) && exists|i: int, j: int|
                0 <= i < j < entries@.len() && entries@[i].method == m && entries@[j].method == m,
        },
{
    let mut mr = MethodRoute::empty();
    let mut k: usize = 0;
    proof {
        assert(entries@.take(0) =~= Seq::<ProjectRoute>::empty());
    }
    while k < entries.len()
        invariant
            k <= entries@.len(),
            forall|m: HttpMethod| slot_view(mr, m) == entry_for(entries@.take(k as int), m),
            !dup_in(entries@.take(k as int)),
        decreases entries@.len() - k,
    {
        let e = &entries[k];
        let m = e.method;
        let already = mr.slot(m).is_some();
        proof {
            lemma_entry_for_exists(entries@.take(k as int), m);
            assert(entries@.take(k + 1) =~= entries@.take(k as int).push(entries@[k as int]));
            lemma_entry_for_snoc(entries@.take(k as int), entries@[k as int], m);
            assert forall|mm: HttpMethod|
                entry_for(entries@.take(k + 1), mm) == (if mm == m && entry_for(
                    entries@.take(k as int),
                    mm,
                ) is None {
                    Some(entries@[k as int].handler@)
                } else {
                    entry_for(entries@.take(k as int), mm)
                }) by {
                lemma_entry_for_snoc(entries@.take(k as int), entries@[k as int], mm);
            }
        }
        if already {
            proof {
                let i = choose|i: int|
                    0 <= i < k && entries@.take(k as int)[i].method == m;
                assert(entries@[i].method == m);
                assert(entries@[i].method == m && entries@[k as int].method == m);
            }
            return Err(m);
        }
        let h = e.handler.clone();
        let ghost old_mr = mr;
        match m {
            HttpMethod::Get => mr.get = Some(h),
            HttpMethod::Head => mr.head = Some(h),
            HttpMethod::Post => mr.post = Some(h),
            HttpMethod::Put => mr.put = Some(h),
            HttpMethod::Patch => mr.patch = Some(h),
            HttpMethod::Delete => mr.delete = Some(h),
            HttpMethod::Options => mr.options = Some(h),
            HttpMethod::Trace => mr.trace = Some(h),
            HttpMethod::Connect => mr.connect = Some(h),
        }
        proof {
            assert forall|mm: HttpMethod|
                slot_view(mr, mm) == entry_for(entries@.take(k + 1), mm) by {
                lemma_entry_for_snoc(entries@.take(k as int), entries@[k as int], mm);
                if mm != m {
                    assert(slot_view(mr, mm) == slot_view(old_mr, mm));
                } else {
                    assert(slot_view(mr, m) == Some(entries@[k as int].handler@));
                }
            }
        }
        proof {
            assert(!dup_in(entries@.take(k + 1))) by {
                if dup_in(entries@.take(k + 1)) {
                    let (i, j) = choose|i: int, j: int|
                        0 <= i < j < k + 1 && #[trigger] entries@.take(k + 1)[i].method
                            == #[trigger] entries@.take(k + 1)[j].method;
                    if j < k {
                        assert(entries@.take(k as int)[i].method == entries@.take(
                            k as int,
                        )[j].method);
                    } else {
                        lemma_entry_for_exists(entries@.take(k as int), entries@[i].method);
                        assert(entries@.take(k as int)[i] == entries@[i]);
                    }
                }
            }
        }
        k += 1;
    }
    proof {
        assert(entries@.take(entries@.len() as int) =~= entries@);
    }
    Ok(mr)
}

/// A path pattern is valid when it begins with `/`.
pub open spec fn path_valid(p: Seq<char>) -> bool {
    p.len() >= 1 && p[0] == '/'
}

/// The segments of a valid path or pattern: what follows the leading `/`,
/// split at every further `/`.
pub open spec fn pattern_segs(p: Seq<char>) -> Seq<Seq<char>>
    recommends
        path_valid(p),
{
    split_segs(p.skip(1))
}

/// One row of a routing table: the segments of a pattern and its slots.
#[derive(Debug, Clone)]
pub struct RouteRec {
    pub segs: Vec<Vec<char>>,
    pub route: MethodRoute,
}

/// An immutable routing table.
#[derive(Debug, Clone)]
pub struct RouterTable {
    pub entries: Vec<RouteRec>,
}

/// Well-formedness of a table: no two patterns have the same shape.
pub open spec fn table_wf(t: RouterTable) -> bool {
    forall|i: int, j: int|
        0 <= i < j < t.entries@.len() ==> !shape_eq(
            #[trigger] t.entries@[i].segs.deep_view(),
            #[trigger] t.entries@[j].segs.deep_view(),
        )
}

/// Which route list fault a build error names: an invalid-pattern error
/// names a path that does not begin with `/`, a duplicate-method error a
/// path whose entries repeat a method, a conflicting-pattern error the
/// later of two same-shape patterns.
pub open spec fn build_error_cause(e: BuildError, routes: Seq<(String, Vec<ProjectRoute>)>) -> bool {
    match e {
        BuildError::InvalidPattern { path } => exists|i: int|
            0 <= i < routes.len() && (#[trigger] routes[i].0)@ == path@ && !path_valid(
                routes[i].0@,
            ),
        BuildError::DuplicateMethod { path, method } => exists|i: int|
            0 <= i < routes.len() && (#[trigger] routes[i].0)@ == path@ && dup_in(routes[i].1@),
        BuildError::ConflictingPattern { path } => exists|i: int, j: int|
            0 <= i < j < routes.len() && routes[j].0@ == path@ && shape_eq(
                pattern_segs((#[trigger] routes[i].0)@),
                pattern_segs((#[trigger] routes[j].0)@),
            ),
    }
}

/// Everything table construction refuses is absent from `routes`.
pub open spec fn routes_ok(routes: Seq<(String, Vec<ProjectRoute>)>) -> bool {
    &&& forall|i: int| 0 <= i < routes.len() ==> path_valid((#[trigger] routes[i].0)@)
    &&& forall|i: int| 0 <= i < routes.len() ==> !dup_in((#[trigger] routes[i].1)@)
    &&& forall|i: int, j: int|
        0 <= i < j < routes.len() ==> !shape_eq(
            pattern_segs((#[trigger] routes[i].0)@),
            pattern_segs((#[trigger] routes[j].0)@),
        )
}

/// The result of a route match: the handler name and the parameters bound
/// by the winning pattern.
#[derive(Debug)]
pub struct RouteMatch {
    pub handler: String,
    pub params: Vec<(String, String)>,
}

/// Whether `seg` is a `:name` parameter segment.
fn is_param_seg(seg: &Vec<char>) -> (r: bool)
    ensures
        r == seg_is_param(seg@),
{
    seg.len() >= 1 && seg[0] == ':'
}

/// Whether pattern `pat` matches path `path`, segment for segment.
fn segs_match_exec(pat: &Vec<Vec<char>>, path: &Vec<Vec<char>>) -> (r: bool)
    ensures
        r == segs_match(pat.deep_view(), path.deep_view()),
{
    if pat.len() != path.len() {
        return false;
    }
    let mut i: usize = 0;
    while i < pat.len()
        invariant
            pat@.len() == path@.len(),
            i <= pat@.len(),
            forall|j: int|
                0 <= j < i ==> (seg_is_param(#[trigger] pat.deep_view()[j]) || pat.deep_view()[j]
                    == path.deep_view()[j]),
        decreases pat@.len() - i,
    {
        if !is_param_seg(&pat[i]) && !chars_eq(&pat[i], &path[i]) {
            assert(!seg_is_param(pat.deep_view()[i as int]) && pat.deep_view()[i as int]
                != path.deep_view()[i as int]);
            return false;
        }
        i += 1;
    }
    true
}

/// Whether two patterns have the same shape.
fn shape_eq_exec(a: &Vec<Vec<char>>, b: &Vec<Vec<char>>) -> (r: bool)
    ensures
        r == shape_eq(a.deep_view(), b.deep_view()),
{
    if a.len() != b.len() {
        return false;
    }
    let mut i: usize = 0;
    while i < a.len()
        invariant
            a@.len() == b@.len(),
            i <= a@.len(),
            forall|j: int|
                0 <= j < i ==> (seg_is_param(#[trigger] a.deep_view()[j]) == seg_is_param(
                    b.deep_view()[j],
                ) && (!seg_is_param(a.deep_view()[j]) ==> a.deep_view()[j] == b.deep_view()[j])),
        decreases a@.len() - i,
    {
        let pa = is_param_seg(&a[i]);
        let pb = is_param_seg(&b[i]);
        proof {
            assert(a.deep_view()[i as int] == a@[i as int]@);
            assert(b.deep_view()[i as int] == b@[i as int]@);
        }
        if pa != pb {
            assert(!shape_eq(a.deep_view(), b.deep_view()));
            return false;
        }
        if !pa && !chars_eq(&a[i], &b[i]) {
            assert(!shape_eq(a.deep_view(), b.deep_view()));
            return false;
        }
        i += 1;
    }
    true
}

/// Whether `a` takes precedence over `b`.
fn beats_exec(a: &Vec<Vec<char>>, b: &Vec<Vec<char>>) -> (r: bool)
    ensures
        r == beats(a.deep_view(), b.deep_view()),
{
    let mut i: usize = 0;
    let ghost av = a.deep_view();
    let ghost bv = b.deep_view();
    proof {
        assert(av.skip(0) =~= av);
        assert(bv.skip(0) =~= bv);
    }
    while i < a.len() && i < b.len()
        invariant
            av == a.deep_view(),
            bv == b.deep_view(),
            i <= av.len(),
            i <= bv.len(),
            beats(av, bv) == beats(av.skip(i as int), bv.skip(i as int)),
        decreases av.len() - i,
    {
        let pa = is_param_seg(&a[i]);
        let pb = is_param_seg(&b[i]);
        proof {
            assert(av.skip(i as int)[0] == av[i as int]);
            assert(bv.skip(i as int)[0] == bv[i as int]);
            assert(av.skip(i as int).drop_first() =~= av.skip(i + 1));
            assert(bv.skip(i as int).drop_first() =~= bv.skip(i + 1));
        }
        if !pa && pb {
            return true;
        }
        if pa && !pb {
            return false;
        }
        i += 1;
    }
    proof {
        assert(av.skip(i as int).len() == 0 || bv.skip(i as int).len() == 0);
    }
    false
}

/// The characters of `v` after the first.
fn tail_chars(v: &Vec<char>) -> (out: Vec<char>)
    requires
        v@.len() >= 1,
    ensures
        out@ == v@.skip(1),
{
    let mut out: Vec<char> = Vec::new();
    let mut i: usize = 1;
    while i < v.len()
        invariant
            1 <= i <= v@.len(),
            out@ == v@.subrange(1, i as int),
        decreases v@.len() - i,
    {
        out.push(v[i]);
        i += 1;
        proof {
            assert(out@ =~= v@.subrange(1, i as int));
        }
    }
    proof {
        assert(out@ =~= v@.skip(1));
    }
    out
}

proof fn lemma_bound_params_snoc(pat: Seq<Seq<char>>, path: Seq<Seq<char>>, k: int)
    requires
        0 <= k < pat.len(),
        pat.len() == path.len(),
    ensures
        bound_params(pat.take(k + 1), path.take(k + 1)) == bound_params(pat.take(k), path.take(k))
            + (if seg_is_param(pat[k]) {
            seq![(param_name(pat[k]), path[k])]
        } else {
            Seq::<(Seq<char>, Seq<char>)>::empty()
        }),
    decreases k,
{
    if k == 0 {
        assert(pat.take(0) =~= Seq::<Seq<char>>::empty());
        assert(path.take(0) =~= Seq::<Seq<char>>::empty());
        assert(bound_params(Seq::<Seq<char>>::empty(), Seq::<Seq<char>>::empty())
            =~= Seq::<(Seq<char>, Seq<char>)>::empty());
        assert(pat.take(1).len() == 1);
        assert(pat.take(1)[0] == pat[0]);
        assert(pat.take(1).drop_first() =~= Seq::<Seq<char>>::empty());
        assert(path.take(1).drop_first() =~= Seq::<Seq<char>>::empty());
        if seg_is_param(pat[0]) {
            assert(bound_params(pat.take(1), path.take(1)) =~= seq![
                (param_name(pat[0]), path[0]),
            ]);
        } else {
            assert(bound_params(pat.take(1), path.take(1)) =~= Seq::<(Seq<char>, Seq<char>)>::empty());
        }
        assert(bound_params(pat.take(0), path.take(0)) =~= Seq::<(Seq<char>, Seq<char>)>::empty());
    } else {
        lemma_bound_params_snoc(pat.drop_first(), path.drop_first(), k - 1);
        assert(pat.take(k + 1)[0] == pat[0]);
        assert(pat.take(k + 1).drop_first() =~= pat.drop_first().take(k));
        assert(path.take(k + 1).drop_first() =~= path.drop_first().take(k));
        assert(pat.take(k)[0] == pat[0]);
        assert(pat.take(k).drop_first() =~= pat.drop_first().take(k - 1));
        assert(path.take(k).drop_first() =~= path.drop_first().take(k - 1));
        assert(pat.drop_first()[k - 1] == pat[k]);
        assert(path.drop_first()[k - 1] == path[k]);
    }
}

/// The parameters bound by `pat` against `path`, as owned strings.
fn extract_params(pat: &Vec<Vec<char>>, path: &Vec<Vec<char>>) -> (out: Vec<(String, String)>)
    requires
        pat@.len() == path@.len(),
    ensures
        out.deep_view() == bound_params(pat.deep_view(), path.deep_view()),
{
    let ghost pv = pat.deep_view();
    let ghost qv = path.deep_view();
    let mut out: Vec<(String, String)> = Vec::new();
    let mut k: usize = 0;
    proof {
        assert(pv.take(0) =~= Seq::<Seq<char>>::empty());
        assert(qv.take(0) =~= Seq::<Seq<char>>::empty());
        assert(out.deep_view() =~= bound_params(pv.take(0), qv.take(0)));
    }
    while k < pat.len()
        invariant
            pv == pat.deep_view(),
            qv == path.deep_view(),
            pv.len() == qv.len(),
            k <= pv.len(),
            out.deep_view() == bound_params(pv.take(k as int), qv.take(k as int)),
        decreases pv.len() - k,
    {
        proof {
            lemma_bound_params_snoc(pv, qv, k as int);
        }
        if is_param_seg(&pat[k]) {
            let name = from_chars(&tail_chars(&pat[k]));
            let value = from_chars(&path[k]);
            let ghost old_out = out.deep_view();
            out.push((name, value));
            proof {
                assert(out.deep_view() =~~= old_out + seq![(pv[k as int].skip(1), qv[k as int])]);
                assert(out.deep_view() =~~= bound_params(pv.take(k + 1), qv.take(k + 1)));
            }
        } else {
            proof {
                assert(out.deep_view() =~~= bound_params(pv.take(k + 1), qv.take(k + 1)));
            }
        }
        k += 1;
    }
    proof {
        assert(pv.take(pv.len() as int) =~= pv);
        assert(qv.take(qv.len() as int) =~= qv);
    }
    out
}

impl RouterTable {
    /// Builds a table from project routes. Fails exactly when a path does
    /// not begin with `/`, a path repeats a method, or two patterns differ
    /// only in parameter names.
    pub fn build(routes: &ProjectRoutes) -> (r: Result<RouterTable, BuildError>)
        ensures
            r is Ok <==> routes_ok(routes@),
            match r {
                Ok(t) => {
                    &&& table_wf(t)
                    &&& t.entries@.len() == routes@.len()
                    &&& forall|i: int|
                        0 <= i < routes@.len() ==> (#[trigger] t.entries@[i].segs).deep_view()
                            == pattern_segs(routes@[i].0@)
                    &&& forall|i: int, m: HttpMethod|
                        0 <= i < routes@.len() ==> #[trigger] slot_view(t.entries@[i].route, m)
                            == entry_for(routes@[i].1@, m)
                },
                Err(e) => build_error_cause(e, routes@),
            },
    {
        let mut entries: Vec<RouteRec> = Vec::new();
        let mut i: usize = 0;
        while i < routes.len()
            invariant
                i <= routes@.len(),
                entries@.len() == i,
                forall|k: int|
                    0 <= k < i ==> path_valid((#[trigger] routes@[k].0)@),
                forall|k: int|
                    0 <= k < i ==> !dup_in((#[trigger] routes@[k].1)@),
                forall|k: int, l: int|
                    0 <= k < l < i ==> !shape_eq(
                        pattern_segs((#[trigger] routes@[k].0)@),
                        pattern_segs((#[trigger] routes@[l].0)@),
                    ),
                forall|k: int|
                    0 <= k < i ==> (#[trigger] entries@[k].segs).deep_view() == pattern_segs(
                        routes@[k].0@,
                    ),
                forall|k: int, m: HttpMethod|
                    0 <= k < i ==> #[trigger] slot_view(entries@[k].route, m) == entry_for(
                        routes@[k].1@,
                        m,
                    ),
            decreases routes@.len() - i,
        {
            let pair: &(String, Vec<ProjectRoute>) = &routes[i];
            assert(*pair == routes@[i as int]);
            let path_str: &String = &pair.0;
            assert(path_str@ == routes@[i as int].0@);
            let pv = to_chars(path_str.as_str());
            if pv.len() == 0 {
                return Err(BuildError::InvalidPattern { path: path_str.clone() });
            }
            if pv[0] != '/' {
                return Err(BuildError::InvalidPattern { path: path_str.clone() });
            }
            let rest = tail_chars(&pv);
            let segs = split_chars(&rest);
            let route = match build_method_route(&routes[i].1) {
                Ok(mr) => mr,
                Err(m) => {
                    return Err(
                        BuildError::DuplicateMethod { path: path_str.clone(), method: m },
                    );
                },
            };
            let mut j: usize = 0;
            while j < entries.len()
                invariant
                    j <= entries@.len(),
                    entries@.len() == i,
                    i < routes@.len(),
                    path_str@ == routes@[i as int].0@,
                    segs.deep_view() == pattern_segs(routes@[i as int].0@),
                    forall|k: int|
                        0 <= k < i ==> (#[trigger] entries@[k].segs).deep_view() == pattern_segs(
                            routes@[k].0@,
                        ),
                    forall|k: int|
                        0 <= k < j ==> !shape_eq(
                            pattern_segs((#[trigger] routes@[k].0)@),
                            pattern_segs(routes@[i as int].0@),
                        ),
                decreases entries@.len() - j,
            {
                if shape_eq_exec(&entries[j].segs, &segs) {
                    proof {
                        let ii = j as int;
                        let jj = i as int;
                        assert(shape_eq(
                            pattern_segs((routes@[ii].0)@),
                            pattern_segs((routes@[jj].0)@),
                        ));
                        assert(!routes_ok(routes@));
                        assert(path_str@ == routes@[jj].0@);
                    }
                    let p = path_str.clone();
                    assert(p@ == routes@[i as int].0@);
                    return Err(BuildError::ConflictingPattern { path: p });
                }
                j += 1;
            }
            entries.push(RouteRec { segs, route });
            i += 1;
        }
        Ok(RouterTable { entries })
    }

    /// Matches `path` under method `m`: the most specific matching pattern
    /// wins; a match without a handler for `m` is refused with
    /// `RouteMethodNotAllowed`, no match at all with `RoutePathNotFound`.
    pub fn match_route(&self, m: HttpMethod, path: &str) -> (r: Result<RouteMatch, AppError>)
        requires
            table_wf(*self),
        ensures
            match_contract(*self, m, path@, r),
    {
        let pv = to_chars(path);
        if pv.len() == 0 || pv[0] != '/' {
            return Err(AppError::RoutePathNotFound(path.to_owned()));
        }
        let rest = tail_chars(&pv);
        let psegs = split_chars(&rest);
        let ghost pview = pattern_segs(path@);
        proof {
            assert(psegs.deep_view() == pview);
        }
        self.match_segs(m, &psegs, path)
    }
}

/// What a route match returns, stated over the table, the method and the
/// path: the most specific matching pattern decides; its empty slot for
/// `m` is `RouteMethodNotAllowed`; no match at all is `RoutePathNotFound`.
pub open spec fn match_contract(
    t_whole: RouterTable,
    m: HttpMethod,
    path: Seq<char>,
    r: Result<RouteMatch, AppError>,
) -> bool {
    ({
        let t = t_whole.entries@;
        let ok_path = path_valid(path);
        let psegs = pattern_segs(path);
        match r {
            Ok(rm) => exists|i: int|
                {
                    &&& 0 <= i < t.len()
                    &&& ok_path
                    &&& segs_match(#[trigger] t[i].segs.deep_view(), psegs)
                    &&& forall|j: int|
                        0 <= j < t.len() && j != i && segs_match(
                            #[trigger] t[j].segs.deep_view(),
                            psegs,
                        ) ==> beats(t[i].segs.deep_view(), t[j].segs.deep_view())
                    &&& slot_view(t[i].route, m) == Some(rm.handler@)
                    &&& rm.params.deep_view() == bound_params(t[i].segs.deep_view(), psegs)
                },
            Err(AppError::RoutePathNotFound(p)) => p@ == path && (!ok_path || forall|i: int|
                0 <= i < t.len() ==> !segs_match(#[trigger] t[i].segs.deep_view(), psegs)),
            Err(AppError::RouteMethodNotAllowed(mm)) => mm == m && ok_path && exists|i: int|
                {
                    &&& 0 <= i < t.len()
                    &&& segs_match(#[trigger] t[i].segs.deep_view(), psegs)
                    &&& forall|j: int|
                        0 <= j < t.len() && j != i && segs_match(
                            #[trigger] t[j].segs.deep_view(),
                            psegs,
                        ) ==> beats(t[i].segs.deep_view(), t[j].segs.deep_view())
                    &&& slot_view(t[i].route, m) is None
                },
            _ => false,
        }
    })
}

/// Law: matching binds exactly the winning pattern's parameters. When the
/// table holds a pattern that matches the path, carries a handler for the
/// method, and is beaten by no other matching pattern, the match succeeds
/// with that handler, and its parameters are exactly the pattern's `:name`
/// segments keyed by name and valued with the path segment in the same
/// position — one entry per parameter position, and nothing else.
pub proof fn lemma_match_binds_pattern(
    t: RouterTable,
    m: HttpMethod,
    path: Seq<char>,
    r: Result<RouteMatch, AppError>,
    i: int,
)
    requires
        table_wf(t),
        match_contract(t, m, path, r),
        path_valid(path),
        0 <= i < t.entries@.len(),
        segs_match(t.entries@[i].segs.deep_view(), pattern_segs(path)),
        slot_view(t.entries@[i].route, m) is Some,
        forall|j: int|
            0 <= j < t.entries@.len() && j != i && segs_match(
                (#[trigger] t.entries@[j].segs).deep_view(),
                pattern_segs(path),
            ) ==> beats(t.entries@[i].segs.deep_view(), t.entries@[j].segs.deep_view()),
    ensures
        r is Ok,
        Some((r->Ok_0).handler@) == slot_view(t.entries@[i].route, m),
        (r->Ok_0).params.deep_view() == bound_params(
            t.entries@[i].segs.deep_view(),
            pattern_segs(path),
        ),
        forall|name: Seq<char>, val: Seq<char>|
            (r->Ok_0).params.deep_view().contains((name, val)) <==> (exists|k: int|
                0 <= k < t.entries@[i].segs.deep_view().len() && seg_is_param(
                    #[trigger] t.entries@[i].segs.deep_view()[k],
                ) && param_name(t.entries@[i].segs.deep_view()[k]) == name && pattern_segs(
                    path,
                )[k] == val),
{
    let te = t.entries@;
    let psegs = pattern_segs(path);
    let si = te[i].segs.deep_view();
    match r {
        Ok(rm) => {
            let w = choose|w: int|
                {
                    &&& 0 <= w < te.len()
                    &&& path_valid(path)
                    &&& segs_match(#[trigger] te[w].segs.deep_view(), psegs)
                    &&& forall|j: int|
                        0 <= j < te.len() && j != w && segs_match(
                            #[trigger] te[j].segs.deep_view(),
                            psegs,
                        ) ==> beats(te[w].segs.deep_view(), te[j].segs.deep_view())
                    &&& slot_view(te[w].route, m) == Some(rm.handler@)
                    &&& rm.params.deep_view() == bound_params(te[w].segs.deep_view(), psegs)
                };
            if w != i {
                assert(beats(si, te[w].segs.deep_view()));
                assert(beats(te[w].segs.deep_view(), si));
                lemma_beats_asym(si, te[w].segs.deep_view());
            }
            assert(w == i);
            lemma_bound_params_exact(si, psegs);
        },
        Err(AppError::RoutePathNotFound(_)) => {
            assert(segs_match(te[i].segs.deep_view(), psegs));
            assert(false);
        },
        Err(AppError::RouteMethodNotAllowed(_)) => {
            let w = choose|w: int|
                {
                    &&& 0 <= w < te.len()
                    &&& segs_match(#[trigger] te[w].segs.deep_view(), psegs)
                    &&& forall|j: int|
                        0 <= j < te.len() && j != w && segs_match(
                            #[trigger] te[j].segs.deep_view(),
                            psegs,
                        ) ==> beats(te[w].segs.deep_view(), te[j].segs.deep_view())
                    &&& slot_view(te[w].route, m) is None
                };
            if w != i {
                assert(beats(si, te[w].segs.deep_view()));
                assert(beats(te[w].segs.deep_view(), si));
                lemma_beats_asym(si, te[w].segs.deep_view());
            }
            assert(w == i);
            assert(false);
        },
        _ => {
            assert(false);
        },
    }
}

impl RouterTable {
    /// Matches pre-split path segments; `path` is the unsplit text, used
    /// in the not-found error and to state the contract.
    fn match_segs(&self, m: HttpMethod, psegs: &Vec<Vec<char>>, path: &str) -> (r: Result<
        RouteMatch,
        AppError,
    >)
        requires
            table_wf(*self),
            path_valid(path@),
            psegs.deep_view() == pattern_segs(path@),
        ensures
            match_contract(*self, m, path@, r),
    {
        let ghost pview = pattern_segs(path@);
        let mut best: usize = 0;
        let mut found = false;
        let mut i: usize = 0;
        while i < self.entries.len()
            invariant
                table_wf(*self),
                i <= self.entries@.len(),
                psegs.deep_view() == pview,
                !found ==> forall|j: int|
                    0 <= j < i ==> !segs_match(
                        (#[trigger] self.entries@[j].segs).deep_view(),
                        pview,
                    ),
                found ==> best < i && segs_match(self.entries@[best as int].segs.deep_view(), pview)
                    && forall|j: int|
                    0 <= j < i && j != best && segs_match(
                        (#[trigger] self.entries@[j].segs).deep_view(),
                        pview,
                    ) ==> beats(
                        self.entries@[best as int].segs.deep_view(),
                        self.entries@[j].segs.deep_view(),
                    ),
            decreases self.entries@.len() - i,
        {
            if segs_match_exec(&self.entries[i].segs, psegs) {
                if !found {
                    best = i;
                    found = true;
                } else {
                    let ghost bv = self.entries@[best as int].segs.deep_view();
                    let ghost cv = self.entries@[i as int].segs.deep_view();
                    proof {
                        lemma_beats_total(cv, bv, pview);
                    }
                    if beats_exec(&self.entries[i].segs, &self.entries[best].segs) {
                        proof {
                            assert forall|j: int|
                                0 <= j < i + 1 && j != i && segs_match(
                                    (#[trigger] self.entries@[j].segs).deep_view(),
                                    pview,
                                ) implies beats(cv, self.entries@[j].segs.deep_view()) by {
                                if j != best {
                                    lemma_beats_trans(
                                        cv,
                                        bv,
                                        self.entries@[j].segs.deep_view(),
                                    );
                                }
                            }
                        }
                        best = i;
                    }
                }
            }
            i += 1;
        }
        if !found {
            return Err(AppError::RoutePathNotFound(path.to_owned()));
        }
        let rec = &self.entries[best];
        match rec.route.slot(m) {
            Some(h) => {
                let params = extract_params(&rec.segs, psegs);
                Ok(RouteMatch { handler: h.clone(), params })
            },
            None => Err(AppError::RouteMethodNotAllowed(m)),
        }
    }
}

} // verus!
