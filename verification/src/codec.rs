//! Unmarshalling of marshalled request records, and the round-trip law:
//! a request record marshalled to JSON text and unmarshalled again comes
//! back unchanged, field for field.
use vstd::prelude::*;

use crate::engine::{
    key_body, key_headers, key_method, key_params, key_query, key_url, opt_str_view, req_json, Req,
};
use crate::errors::AppError;
use crate::json::{
    lemma_parse_render_obj, lemma_parse_render_str, null_chars, parse_len_ok, parse_null,
    parse_string, parse_strmap, render_obj, render_opt_str, render_str, sp_null, sp_string,
    sp_strmap,
};
use crate::strutil::{chars_eq, from_chars};

verus! {

broadcast use crate::strutil::lemma_vec_char_deep_view;

/// The view of a request record: its six fields as sequences.
pub open spec fn req_view(r: Req) -> (
    Seq<(Seq<char>, Seq<char>)>,
    Seq<(Seq<char>, Seq<char>)>,
    Seq<(Seq<char>, Seq<char>)>,
    Seq<char>,
    Seq<char>,
    Option<Seq<char>>,
) {
    (
        r.query.deep_view(),
        r.params.deep_view(),
        r.headers.deep_view(),
        r.method@,
        r.url@,
        opt_str_view(r.body),
    )
}

/// Parses `"key":` at `i`, for exactly the given key.
pub open spec fn sp_field_head(s: Seq<char>, i: int, key: Seq<char>) -> Option<int> {
    match sp_string(s, i) {
        None => None,
        Some((k, j)) => if k == key && 0 <= j < s.len() && s[j] == ':' {
            Some(j + 1)
        } else {
            None
        },
    }
}

/// Expects character `c` at `i`.
pub open spec fn sp_sep(s: Seq<char>, i: int, c: char) -> Option<int> {
    if 0 <= i < s.len() && s[i] == c {
        Some(i + 1)
    } else {
        None
    }
}

/// What marshalled request text parses to: the strict canonical shape the
/// marshaller writes, with the six members in their fixed order.
pub open spec fn sp_parse_req(s: Seq<char>) -> Option<
    (
        Seq<(Seq<char>, Seq<char>)>,
        Seq<(Seq<char>, Seq<char>)>,
        Seq<(Seq<char>, Seq<char>)>,
        Seq<char>,
        Seq<char>,
        Option<Seq<char>>,
    ),
> {
    if !(s.len() >= 1 && s[0] == '{') {
        None
    } else {
        match sp_field_head(s, 1, key_query()) {
            None => None,
            Some(i1) => match sp_strmap(s, i1) {
                None => None,
                Some((q, i2)) => match sp_sep(s, i2, ',') {
                    None => None,
                    Some(i3) => match sp_field_head(s, i3, key_params()) {
                        None => None,
                        Some(i4) => match sp_strmap(s, i4) {
                            None => None,
                            Some((pm, i5)) => match sp_sep(s, i5, ',') {
                                None => None,
                                Some(i6) => match sp_field_head(s, i6, key_headers()) {
                                    None => None,
                                    Some(i7) => match sp_strmap(s, i7) {
                                        None => None,
                                        Some((hd, i8)) => sp_parse_req_tail(s, i8, q, pm, hd),
                                    },
                                },
                            },
                        },
                    },
                },
            },
        }
    }
}

/// The tail of a marshalled request: method, url and body members, then
/// the closing brace ending the text.
pub open spec fn sp_parse_req_tail(
    s: Seq<char>,
    i8: int,
    q: Seq<(Seq<char>, Seq<char>)>,
    pm: Seq<(Seq<char>, Seq<char>)>,
    hd: Seq<(Seq<char>, Seq<char>)>,
) -> Option<
    (
        Seq<(Seq<char>, Seq<char>)>,
        Seq<(Seq<char>, Seq<char>)>,
        Seq<(Seq<char>, Seq<char>)>,
        Seq<char>,
        Seq<char>,
        Option<Seq<char>>,
    ),
> {
    match sp_sep(s, i8, ',') {
        None => None,
        Some(i9) => match sp_field_head(s, i9, key_method()) {
            None => None,
            Some(i10) => match sp_string(s, i10) {
                None => None,
                Some((mth, i11)) => match sp_sep(s, i11, ',') {
                    None => None,
                    Some(i12) => match sp_field_head(s, i12, key_url()) {
                        None => None,
                        Some(i13) => match sp_string(s, i13) {
                            None => None,
                            Some((url, i14)) => match sp_sep(s, i14, ',') {
                                None => None,
                                Some(i15) => match sp_field_head(s, i15, key_body()) {
                                    None => None,
                                    Some(i16) => {
                                        let bodyres: Option<(Option<Seq<char>>, int)> = match sp_null(
                                            s,
                                            i16,
                                        ) {
                                            Some(i17) => Some((None, i17)),
                                            None => match sp_string(s, i16) {
                                                Some((b, i17)) => Some((Some(b), i17)),
                                                None => None,
                                            },
                                        };
                                        match bodyres {
                                            None => None,
                                            Some((body, i17)) => match sp_sep(s, i17, '}') {
                                                None => None,
                                                Some(i18) => if i18 == s.len() {
                                                    Some((q, pm, hd, mth, url, body))
                                                } else {
                                                    None
                                                },
                                            },
                                        }
                                    },
                                },
                            },
                        },
                    },
                },
            },
        },
    }
}

/// Parses `"key":` at `i` for exactly `key`, executably.
fn parse_field_head(s: &Vec<char>, i: usize, key: &Vec<char>) -> (r: Result<usize, ()>)
    requires
        parse_len_ok(s@),
    ensures
        match r {
            Ok(j) => sp_field_head(s@, i as int, key@) == Some(j as int),
            Err(()) => sp_field_head(s@, i as int, key@) is None,
        },
{
    let k = match parse_string(s, i) {
        Ok(p) => p,
        Err(()) => {
            return Err(());
        },
    };
    if !chars_eq(&k.0, key) {
        return Err(());
    }
    let j = k.1;
    proof {
        crate::json::lemma_sp_string_bounds(s@, i as int);
    }
    if j >= s.len() || s[j] != ':' {
        return Err(());
    }
    Ok(j + 1)
}

/// Unmarshals marshalled request text back into a request record. The
/// text must be exactly the canonical shape `marshal_req` writes; every
/// other text is refused with `WorkerShape`.
pub fn unmarshal_req(s: &Vec<char>) -> (r: Result<Req, AppError>)
    requires
        parse_len_ok(s@),
    ensures
        match r {
            Ok(req) => sp_parse_req(s@) == Some(req_view(req)),
            Err(e) => sp_parse_req(s@) is None && e is WorkerShape,
        },
{
    let kq: Vec<char> = vec!['q', 'u', 'e', 'r', 'y'];
    let kp: Vec<char> = vec!['p', 'a', 'r', 'a', 'm', 's'];
    let kh: Vec<char> = vec!['h', 'e', 'a', 'd', 'e', 'r', 's'];
    let km: Vec<char> = vec!['m', 'e', 't', 'h', 'o', 'd'];
    let ku: Vec<char> = vec!['u', 'r', 'l'];
    let kb: Vec<char> = vec!['b', 'o', 'd', 'y'];
    proof {
        assert(kq@ =~= key_query());
        assert(kp@ =~= key_params());
        assert(kh@ =~= key_headers());
        assert(km@ =~= key_method());
        assert(ku@ =~= key_url());
        assert(kb@ =~= key_body());
    }
    if s.len() < 1 || s[0] != '{' {
        return Err(shape());
    }
    let i1 = match parse_field_head(s, 1, &kq) {
        Ok(i) => i,
        Err(()) => {
            return Err(shape());
        },
    };
    let (query, i2) = match parse_strmap(s, i1) {
        Ok(p) => p,
        Err(()) => {
            return Err(shape());
        },
    };
    proof {
        lemma_strmap_bounds(s@, i1 as int);
    }
    if i2 >= s.len() || s[i2] != ',' {
        return Err(shape());
    }
    let i4 = match parse_field_head(s, i2 + 1, &kp) {
        Ok(i) => i,
        Err(()) => {
            return Err(shape());
        },
    };
    let (params, i5) = match parse_strmap(s, i4) {
        Ok(p) => p,
        Err(()) => {
            return Err(shape());
        },
    };
    proof {
        lemma_strmap_bounds(s@, i4 as int);
    }
    if i5 >= s.len() || s[i5] != ',' {
        return Err(shape());
    }
    let i7 = match parse_field_head(s, i5 + 1, &kh) {
        Ok(i) => i,
        Err(()) => {
            return Err(shape());
        },
    };
    let (headers, i8) = match parse_strmap(s, i7) {
        Ok(p) => p,
        Err(()) => {
            return Err(shape());
        },
    };
    proof {
        lemma_strmap_bounds(s@, i7 as int);
    }
    if i8 >= s.len() || s[i8] != ',' {
        return Err(shape());
    }
    let i10 = match parse_field_head(s, i8 + 1, &km) {
        Ok(i) => i,
        Err(()) => {
            return Err(shape());
        },
    };
    let (mth, i11) = match parse_string(s, i10) {
        Ok(p) => p,
        Err(()) => {
            return Err(shape());
        },
    };
    proof {
        crate::json::lemma_sp_string_bounds(s@, i10 as int);
    }
    if i11 >= s.len() || s[i11] != ',' {
        return Err(shape());
    }
    let i13 = match parse_field_head(s, i11 + 1, &ku) {
        Ok(i) => i,
        Err(()) => {
            return Err(shape());
        },
    };
    let (url, i14) = match parse_string(s, i13) {
        Ok(p) => p,
        Err(()) => {
            return Err(shape());
        },
    };
    proof {
        crate::json::lemma_sp_string_bounds(s@, i13 as int);
    }
    if i14 >= s.len() || s[i14] != ',' {
        return Err(shape());
    }
    let i16 = match parse_field_head(s, i14 + 1, &kb) {
        Ok(i) => i,
        Err(()) => {
            return Err(shape());
        },
    };
    let body: Option<String>;
    let i17: usize;
    match parse_null(s, i16) {
        Ok(j) => {
            body = None;
            i17 = j;
        },
        Err(()) => {
            let (b, j) = match parse_string(s, i16) {
                Ok(p) => p,
                Err(()) => {
                    return Err(shape());
                },
            };
            proof {
                crate::json::lemma_sp_string_bounds(s@, i16 as int);
            }
            body = Some(from_chars(&b));
            i17 = j;
        },
    }
    if i17 >= s.len() || s[i17] != '}' {
        return Err(shape());
    }
    if i17 + 1 != s.len() {
        return Err(shape());
    }
    Ok(
        Req {
            query,
            params,
            headers,
            method: from_chars(&mth),
            url: from_chars(&url),
            body,
        },
    )
}

proof fn lemma_strmap_bounds(s: Seq<char>, i: int)
    ensures
        match sp_strmap(s, i) {
            Some((m, j)) => i < j <= s.len(),
            None => true,
        },
{
    if 0 <= i && i + 1 < s.len() && s[i] == '{' && s[i + 1] != '}' {
        crate::json::lemma_sp_members_bounds(s, i + 1);
    }
}

fn shape() -> (e: AppError)
    ensures
        e is WorkerShape,
{
    AppError::WorkerShape("request shape".to_owned())
}

/// The index just past `"query":` in marshalled request text.
pub open spec fn pos_qk(r: Req) -> int {
    2 + render_str(key_query()).len() as int
}

/// The index just past the query object.
pub open spec fn pos_q(r: Req) -> int {
    pos_qk(r) + render_obj(r.query.deep_view()).len() as int
}

/// The index just past `"params":`.
pub open spec fn pos_pk(r: Req) -> int {
    pos_q(r) + 2 + render_str(key_params()).len() as int
}

/// The index just past the params object.
pub open spec fn pos_p(r: Req) -> int {
    pos_pk(r) + render_obj(r.params.deep_view()).len() as int
}

/// The index just past `"headers":`.
pub open spec fn pos_hk(r: Req) -> int {
    pos_p(r) + 2 + render_str(key_headers()).len() as int
}

/// The index just past the headers object.
pub open spec fn pos_h(r: Req) -> int {
    pos_hk(r) + render_obj(r.headers.deep_view()).len() as int
}

/// The index just past `"method":`.
pub open spec fn pos_mk(r: Req) -> int {
    pos_h(r) + 2 + render_str(key_method()).len() as int
}

/// The index just past the method string.
pub open spec fn pos_m(r: Req) -> int {
    pos_mk(r) + render_str(r.method@).len() as int
}

/// The index just past `"url":`.
pub open spec fn pos_uk(r: Req) -> int {
    pos_m(r) + 2 + render_str(key_url()).len() as int
}

/// The index just past the url string.
pub open spec fn pos_u(r: Req) -> int {
    pos_uk(r) + render_str(r.url@).len() as int
}

/// The index just past `"body":`.
pub open spec fn pos_bk(r: Req) -> int {
    pos_u(r) + 2 + render_str(key_body()).len() as int
}

/// The index just past the body value.
pub open spec fn pos_b(r: Req) -> int {
    pos_bk(r) + render_opt_str(opt_str_view(r.body)).len() as int
}

/// The marshalled text split before the `query` key.
spec fn parts_before_qk(r: Req) -> Seq<char> {
    seq!['{']
}

/// The marshalled text from the colon after the `query` key on.
spec fn parts_after_qk(r: Req) -> Seq<char> {
    seq![':'] + render_obj(r.query.deep_view()) + parts_after_q(r)
}

/// The marshalled text from the comma after the query object on.
spec fn parts_after_q(r: Req) -> Seq<char> {
    seq![','] + render_str(key_params()) + seq![':'] + render_obj(r.params.deep_view())
        + parts_after_p(r)
}

/// The marshalled text from the comma after the params object on.
spec fn parts_after_p(r: Req) -> Seq<char> {
    seq![','] + render_str(key_headers()) + seq![':'] + render_obj(r.headers.deep_view())
        + parts_after_h(r)
}

/// The marshalled text from the comma after the headers object on.
spec fn parts_after_h(r: Req) -> Seq<char> {
    seq![','] + render_str(key_method()) + seq![':'] + render_str(r.method@) + parts_after_m(r)
}

/// The marshalled text from the comma after the method string on.
spec fn parts_after_m(r: Req) -> Seq<char> {
    seq![','] + render_str(key_url()) + seq![':'] + render_str(r.url@) + parts_after_u(r)
}

/// The marshalled text from the comma after the url string on.
spec fn parts_after_u(r: Req) -> Seq<char> {
    seq![','] + render_str(key_body()) + seq![':'] + render_opt_str(opt_str_view(r.body))
        + seq!['}']
}

#[verifier::rlimit(100)]
#[verifier::spinoff_prover]
proof fn lemma_rt_decompose(r: Req)
    ensures
        req_json(r) == parts_before_qk(r) + render_str(key_query()) + parts_after_qk(r),
        req_json(r).len() == pos_b(r) + 1,
{
    assert(req_json(r) =~= parts_before_qk(r) + render_str(key_query()) + parts_after_qk(r));
}

#[verifier::rlimit(100)]
#[verifier::spinoff_prover]
proof fn lemma_rt_query(r: Req)
    ensures
        sp_field_head(req_json(r), 1, key_query()) == Some(pos_qk(r)),
        sp_strmap(req_json(r), pos_qk(r)) == Some((r.query.deep_view(), pos_q(r))),
        req_json(r) == (seq!['{'] + render_str(key_query()) + seq![':'] + render_obj(
            r.query.deep_view(),
        )) + parts_after_q(r),
{
    let s = req_json(r);
    lemma_rt_decompose(r);
    let p1: Seq<char> = seq!['{'];
    lemma_parse_render_str(p1, key_query(), parts_after_qk(r));
    let j1 = p1.len() as int + render_str(key_query()).len() as int;
    assert(s[j1] == ':');
    assert(sp_field_head(s, 1, key_query()) == Some(j1 + 1));
    let p2 = p1 + render_str(key_query()) + seq![':'];
    assert(s =~= p2 + render_obj(r.query.deep_view()) + parts_after_q(r));
    lemma_parse_render_obj(p2, r.query.deep_view(), parts_after_q(r));
}

#[verifier::rlimit(100)]
#[verifier::spinoff_prover]
proof fn lemma_rt_params(r: Req)
    ensures
        0 <= pos_q(r) < req_json(r).len() && req_json(r)[pos_q(r)] == ',',
        sp_field_head(req_json(r), pos_q(r) + 1, key_params()) == Some(pos_pk(r)),
        sp_strmap(req_json(r), pos_pk(r)) == Some((r.params.deep_view(), pos_p(r))),
        req_json(r) == (seq!['{'] + render_str(key_query()) + seq![':'] + render_obj(
            r.query.deep_view(),
        ) + seq![','] + render_str(key_params()) + seq![':'] + render_obj(r.params.deep_view()))
            + parts_after_p(r),
{
    let s = req_json(r);
    lemma_rt_query(r);
    let p0 = seq!['{'] + render_str(key_query()) + seq![':'] + render_obj(r.query.deep_view());
    assert(s == p0 + parts_after_q(r));
    assert(s[pos_q(r)] == ',');
    let p1 = p0 + seq![','];
    assert(s =~= p1 + render_str(key_params()) + (seq![':'] + render_obj(r.params.deep_view())
        + parts_after_p(r)));
    lemma_parse_render_str(p1, key_params(), seq![':'] + render_obj(r.params.deep_view())
        + parts_after_p(r));
    let j1 = p1.len() as int + render_str(key_params()).len() as int;
    assert(s[j1] == ':');
    assert(sp_field_head(s, pos_q(r) + 1, key_params()) == Some(j1 + 1));
    let p2 = p1 + render_str(key_params()) + seq![':'];
    assert(s =~= p2 + render_obj(r.params.deep_view()) + parts_after_p(r));
    lemma_parse_render_obj(p2, r.params.deep_view(), parts_after_p(r));
    assert(s =~= (p2 + render_obj(r.params.deep_view())) + parts_after_p(r));
}

#[verifier::rlimit(100)]
#[verifier::spinoff_prover]
proof fn lemma_rt_headers(r: Req)
    ensures
        0 <= pos_p(r) < req_json(r).len() && req_json(r)[pos_p(r)] == ',',
        sp_field_head(req_json(r), pos_p(r) + 1, key_headers()) == Some(pos_hk(r)),
        sp_strmap(req_json(r), pos_hk(r)) == Some((r.headers.deep_view(), pos_h(r))),
        req_json(r) == (seq!['{'] + render_str(key_query()) + seq![':'] + render_obj(
            r.query.deep_view(),
        ) + seq![','] + render_str(key_params()) + seq![':'] + render_obj(r.params.deep_view())
            + seq![','] + render_str(key_headers()) + seq![':'] + render_obj(
            r.headers.deep_view(),
        )) + parts_after_h(r),
{
    let s = req_json(r);
    lemma_rt_params(r);
    let p0 = seq!['{'] + render_str(key_query()) + seq![':'] + render_obj(r.query.deep_view())
        + seq![','] + render_str(key_params()) + seq![':'] + render_obj(r.params.deep_view());
    assert(s == p0 + parts_after_p(r));
    assert(s[pos_p(r)] == ',');
    let p1 = p0 + seq![','];
    assert(s =~= p1 + render_str(key_headers()) + (seq![':'] + render_obj(r.headers.deep_view())
        + parts_after_h(r)));
    lemma_parse_render_str(p1, key_headers(), seq![':'] + render_obj(r.headers.deep_view())
        + parts_after_h(r));
    let j1 = p1.len() as int + render_str(key_headers()).len() as int;
    assert(s[j1] == ':');
    assert(sp_field_head(s, pos_p(r) + 1, key_headers()) == Some(j1 + 1));
    let p2 = p1 + render_str(key_headers()) + seq![':'];
    assert(s =~= p2 + render_obj(r.headers.deep_view()) + parts_after_h(r));
    lemma_parse_render_obj(p2, r.headers.deep_view(), parts_after_h(r));
    assert(s =~= (p2 + render_obj(r.headers.deep_view())) + parts_after_h(r));
}

#[verifier::rlimit(100)]
#[verifier::spinoff_prover]
proof fn lemma_rt_method_url(r: Req)
    ensures
        0 <= pos_h(r) < req_json(r).len() && req_json(r)[pos_h(r)] == ',',
        sp_field_head(req_json(r), pos_h(r) + 1, key_method()) == Some(pos_mk(r)),
        sp_string(req_json(r), pos_mk(r)) == Some((r.method@, pos_m(r))),
        0 <= pos_m(r) < req_json(r).len() && req_json(r)[pos_m(r)] == ',',
        sp_field_head(req_json(r), pos_m(r) + 1, key_url()) == Some(pos_uk(r)),
        sp_string(req_json(r), pos_uk(r)) == Some((r.url@, pos_u(r))),
        req_json(r) == (seq!['{'] + render_str(key_query()) + seq![':'] + render_obj(
            r.query.deep_view(),
        ) + seq![','] + render_str(key_params()) + seq![':'] + render_obj(r.params.deep_view())
            + seq![','] + render_str(key_headers()) + seq![':'] + render_obj(
            r.headers.deep_view(),
        ) + seq![','] + render_str(key_method()) + seq![':'] + render_str(r.method@) + seq![',']
            + render_str(key_url()) + seq![':'] + render_str(r.url@)) + parts_after_u(r),
{
    let s = req_json(r);
    lemma_rt_headers(r);
    let p0 = seq!['{'] + render_str(key_query()) + seq![':'] + render_obj(r.query.deep_view())
        + seq![','] + render_str(key_params()) + seq![':'] + render_obj(r.params.deep_view())
        + seq![','] + render_str(key_headers()) + seq![':'] + render_obj(r.headers.deep_view());
    assert(s == p0 + parts_after_h(r));
    assert(s[pos_h(r)] == ',');
    let p1 = p0 + seq![','];
    assert(s =~= p1 + render_str(key_method()) + (seq![':'] + render_str(r.method@)
        + parts_after_m(r)));
    lemma_parse_render_str(p1, key_method(), seq![':'] + render_str(r.method@)
        + parts_after_m(r));
    let j1 = p1.len() as int + render_str(key_method()).len() as int;
    assert(s[j1] == ':');
    assert(sp_field_head(s, pos_h(r) + 1, key_method()) == Some(j1 + 1));
    let p2 = p1 + render_str(key_method()) + seq![':'];
    assert(s =~= p2 + render_str(r.method@) + parts_after_m(r));
    lemma_parse_render_str(p2, r.method@, parts_after_m(r));
    let p3 = p2 + render_str(r.method@);
    assert(s == p3 + parts_after_m(r)) by {
        assert(s =~= p3 + parts_after_m(r));
    }
    assert(s[pos_m(r)] == ',');
    let p4 = p3 + seq![','];
    assert(s =~= p4 + render_str(key_url()) + (seq![':'] + render_str(r.url@)
        + parts_after_u(r)));
    lemma_parse_render_str(p4, key_url(), seq![':'] + render_str(r.url@) + parts_after_u(r));
    let j4 = p4.len() as int + render_str(key_url()).len() as int;
    assert(s[j4] == ':');
    assert(sp_field_head(s, pos_m(r) + 1, key_url()) == Some(j4 + 1));
    let p5 = p4 + render_str(key_url()) + seq![':'];
    assert(s =~= p5 + render_str(r.url@) + parts_after_u(r));
    lemma_parse_render_str(p5, r.url@, parts_after_u(r));
    assert(s =~= (p5 + render_str(r.url@)) + parts_after_u(r));
}

#[verifier::rlimit(100)]
#[verifier::spinoff_prover]
proof fn lemma_rt_body_head(r: Req)
    ensures
        0 <= pos_u(r) < req_json(r).len() && req_json(r)[pos_u(r)] == ',',
        sp_field_head(req_json(r), pos_u(r) + 1, key_body()) == Some(pos_bk(r)),
        req_json(r) == (seq!['{'] + render_str(key_query()) + seq![':'] + render_obj(
            r.query.deep_view(),
        ) + seq![','] + render_str(key_params()) + seq![':'] + render_obj(r.params.deep_view())
            + seq![','] + render_str(key_headers()) + seq![':'] + render_obj(
            r.headers.deep_view(),
        ) + seq![','] + render_str(key_method()) + seq![':'] + render_str(r.method@) + seq![',']
            + render_str(key_url()) + seq![':'] + render_str(r.url@) + seq![','] + render_str(
            key_body(),
        ) + seq![':']) + render_opt_str(opt_str_view(r.body)) + seq!['}'],
{
    let s = req_json(r);
    lemma_rt_method_url(r);
    let p0 = seq!['{'] + render_str(key_query()) + seq![':'] + render_obj(r.query.deep_view())
        + seq![','] + render_str(key_params()) + seq![':'] + render_obj(r.params.deep_view())
        + seq![','] + render_str(key_headers()) + seq![':'] + render_obj(r.headers.deep_view())
        + seq![','] + render_str(key_method()) + seq![':'] + render_str(r.method@) + seq![',']
        + render_str(key_url()) + seq![':'] + render_str(r.url@);
    assert(s == p0 + parts_after_u(r));
    assert(s[pos_u(r)] == ',');
    let p1 = p0 + seq![','];
    let ob = render_opt_str(opt_str_view(r.body));
    assert(s =~= p1 + render_str(key_body()) + (seq![':'] + ob + seq!['}']));
    lemma_parse_render_str(p1, key_body(), seq![':'] + ob + seq!['}']);
    let j1 = p1.len() as int + render_str(key_body()).len() as int;
    assert(s[j1] == ':');
    assert(sp_field_head(s, pos_u(r) + 1, key_body()) == Some(j1 + 1));
    let p2 = p1 + render_str(key_body()) + seq![':'];
    assert(s =~= p2 + ob + seq!['}']);
}

#[verifier::rlimit(100)]
#[verifier::spinoff_prover]
proof fn lemma_rt_body(r: Req)
    ensures
        0 <= pos_u(r) < req_json(r).len() && req_json(r)[pos_u(r)] == ',',
        sp_field_head(req_json(r), pos_u(r) + 1, key_body()) == Some(pos_bk(r)),
        match opt_str_view(r.body) {
            None => sp_null(req_json(r), pos_bk(r)) == Some(pos_b(r)),
            Some(b) => sp_null(req_json(r), pos_bk(r)) is None && sp_string(
                req_json(r),
                pos_bk(r),
            ) == Some((b, pos_b(r))),
        },
        0 <= pos_b(r) < req_json(r).len() && req_json(r)[pos_b(r)] == '}',
        pos_b(r) + 1 == req_json(r).len(),
{
    let s = req_json(r);
    lemma_rt_body_head(r);
    let p2 = seq!['{'] + render_str(key_query()) + seq![':'] + render_obj(r.query.deep_view())
        + seq![','] + render_str(key_params()) + seq![':'] + render_obj(r.params.deep_view())
        + seq![','] + render_str(key_headers()) + seq![':'] + render_obj(r.headers.deep_view())
        + seq![','] + render_str(key_method()) + seq![':'] + render_str(r.method@) + seq![',']
        + render_str(key_url()) + seq![':'] + render_str(r.url@) + seq![','] + render_str(
        key_body(),
    ) + seq![':'];
    let ob = render_opt_str(opt_str_view(r.body));
    assert(s == p2 + ob + seq!['}']);
    assert(p2.len() == pos_bk(r));
    let j1 = pos_bk(r) - 1;
    let j2 = p2.len() as int + ob.len() as int;
    match opt_str_view(r.body) {
        None => {
            assert(ob == null_chars());
            assert(s[j1 + 1] == 'n' && s[j1 + 2] == 'u' && s[j1 + 3] == 'l' && s[j1 + 4] == 'l');
            assert(j1 + 5 <= s.len());
            assert(sp_null(s, j1 + 1) == Some(j2));
        },
        Some(b) => {
            assert(ob == render_str(b));
            lemma_parse_render_str(p2, b, seq!['}']);
            assert(s[j1 + 1] == '"');
            assert(sp_null(s, j1 + 1) is None);
        },
    }
    assert(s[j2] == '}');
    assert(j2 + 1 == s.len());
}

/// Law: marshalling and unmarshalling is the identity on request records.
/// The text `marshal_req` writes for any record parses back, under the
/// strict canonical grammar, to exactly the record's six fields.
#[verifier::rlimit(100)]
#[verifier::spinoff_prover]
pub proof fn lemma_req_roundtrip(r: Req)
    ensures
        sp_parse_req(req_json(r)) == Some(req_view(r)),
{
    let s = req_json(r);
    lemma_rt_query(r);
    lemma_rt_params(r);
    lemma_rt_headers(r);
    lemma_rt_method_url(r);
    lemma_rt_body(r);
    assert(s.len() >= 1 && s[0] == '{') by {
        lemma_rt_decompose(r);
        assert(s == parts_before_qk(r) + render_str(key_query()) + parts_after_qk(r));
        assert(s[0] == '{');
    }
    assert(sp_sep(s, pos_q(r), ',') == Some(pos_q(r) + 1));
    assert(sp_sep(s, pos_p(r), ',') == Some(pos_p(r) + 1));
    assert(sp_sep(s, pos_h(r), ',') == Some(pos_h(r) + 1));
    assert(sp_sep(s, pos_m(r), ',') == Some(pos_m(r) + 1));
    assert(sp_sep(s, pos_u(r), ',') == Some(pos_u(r) + 1));
    assert(sp_sep(s, pos_b(r), '}') == Some(pos_b(r) + 1));
    assert(sp_parse_req_tail(
        s,
        pos_h(r),
        r.query.deep_view(),
        r.params.deep_view(),
        r.headers.deep_view(),
    ) == Some(req_view(r)));
}

/// Law: for every request record, unmarshalling its marshalled text gives
/// back a record with identical fields; stated over the views the two
/// functions' contracts use.
pub proof fn lemma_unmarshal_marshal_identity(r: Req, out: Result<Req, AppError>)
    requires
        match out {
            Ok(req2) => sp_parse_req(req_json(r)) == Some(req_view(req2)),
            Err(e) => sp_parse_req(req_json(r)) is None,
        },
    ensures
        out is Ok,
        req_view(out->Ok_0) == req_view(r),
{
    lemma_req_roundtrip(r);
}

} // verus!
