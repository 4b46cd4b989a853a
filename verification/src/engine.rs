//! The script-execution worker: one embedded JS runtime and context per
//! worker. The bundle is evaluated once and its handler object bound to
//! the global `handlers`; each call marshals a request record to JSON
//! text, invokes the named handler, drives a returned promise to
//! settlement, and unmarshals the settled value's JSON text into a
//! response record.
use vstd::prelude::*;

use crate::errors::AppError;
use crate::json::{
    emit_obj, emit_opt_str, emit_str, emit_str_chars, parse_len_ok, parse_null,
    parse_number, parse_string, parse_strmap, render_obj, render_opt_str, render_str, skip_value,
    sp_null, sp_number, sp_string, sp_strmap, sp_skip_value,
};
use crate::strutil::{chars_eq, from_chars};

verus! {

broadcast use crate::strutil::lemma_vec_char_deep_view;

/// The request record handed to a handler, all fields plain values.
#[derive(Debug)]
pub struct Req {
    pub query: Vec<(String, String)>,
    pub params: Vec<(String, String)>,
    pub headers: Vec<(String, String)>,
    pub method: String,
    pub url: String,
    pub body: Option<String>,
}

/// The response record a handler's settled value unmarshals to.
#[derive(Debug)]
pub struct Res {
    pub status: u16,
    pub headers: Vec<(String, String)>,
    pub body: Option<String>,
}

/// A request record without query or route parameters.
#[derive(Debug)]
pub struct Request {
    pub headers: Vec<(String, String)>,
    pub method: String,
    pub url: String,
    pub body: Option<String>,
}

/// A response record, field for field the shape handlers settle to.
#[derive(Debug)]
pub struct Response {
    pub status: u16,
    pub headers: Vec<(String, String)>,
    pub body: Option<String>,
}

impl Request {
    /// The same record as a full request, with empty query and parameters.
    pub fn into_req(self) -> (r: Req)
        ensures
            r.query@.len() == 0,
            r.params@.len() == 0,
            r.headers == self.headers,
            r.method == self.method,
            r.url == self.url,
            r.body == self.body,
    {
        Req {
            query: Vec::new(),
            params: Vec::new(),
            headers: self.headers,
            method: self.method,
            url: self.url,
            body: self.body,
        }
    }
}

impl Response {
    /// The response record carrying the fields of `r`.
    pub fn from_res(r: Res) -> (out: Response)
        ensures
            out.status == r.status,
            out.headers == r.headers,
            out.body == r.body,
    {
        Response { status: r.status, headers: r.headers, body: r.body }
    }
}

/// The spelling of the `query` member name.
pub open spec fn key_query() -> Seq<char> {
    seq!['q', 'u', 'e', 'r', 'y']
}

/// The spelling of the `params` member name.
pub open spec fn key_params() -> Seq<char> {
    seq!['p', 'a', 'r', 'a', 'm', 's']
}

/// The spelling of the `headers` member name.
pub open spec fn key_headers() -> Seq<char> {
    seq!['h', 'e', 'a', 'd', 'e', 'r', 's']
}

/// The spelling of the `method` member name.
pub open spec fn key_method() -> Seq<char> {
    seq!['m', 'e', 't', 'h', 'o', 'd']
}

/// The spelling of the `url` member name.
pub open spec fn key_url() -> Seq<char> {
    seq!['u', 'r', 'l']
}

/// The spelling of the `body` member name.
pub open spec fn key_body() -> Seq<char> {
    seq!['b', 'o', 'd', 'y']
}

/// The spelling of the `status` member name.
pub open spec fn key_status() -> Seq<char> {
    seq!['s', 't', 'a', 't', 'u', 's']
}

/// The view of an optional string.
pub open spec fn opt_str_view(o: Option<String>) -> Option<Seq<char>> {
    match o {
        None => None,
        Some(s) => Some(s@),
    }
}

/// The JSON text a request record marshals to: one object with the six
/// members `query`, `params`, `headers`, `method`, `url`, `body`, in that
/// order; maps as objects of strings, an absent body as `null`.
pub open spec fn req_json(r: Req) -> Seq<char> {
    seq!['{'] + render_str(key_query()) + seq![':'] + render_obj(r.query.deep_view()) + seq![',']
        + render_str(key_params()) + seq![':'] + render_obj(r.params.deep_view()) + seq![',']
        + render_str(key_headers()) + seq![':'] + render_obj(r.headers.deep_view()) + seq![',']
        + render_str(key_method()) + seq![':'] + render_str(r.method@) + seq![','] + render_str(
        key_url(),
    ) + seq![':'] + render_str(r.url@) + seq![','] + render_str(key_body()) + seq![':']
        + render_opt_str(opt_str_view(r.body)) + seq!['}']
}

/// Marshals a request record to its JSON text.
pub fn marshal_req(r: &Req) -> (out: Vec<char>)
    ensures
        out@ == req_json(*r),
{
    let mut out: Vec<char> = Vec::new();
    out.push('{');
    let kq: Vec<char> = vec!['q', 'u', 'e', 'r', 'y'];
    proof {
        assert(kq@ =~= key_query());
    }
    emit_str_chars(&mut out, &kq);
    out.push(':');
    emit_obj(&mut out, &r.query);
    out.push(',');
    let kp: Vec<char> = vec!['p', 'a', 'r', 'a', 'm', 's'];
    proof {
        assert(kp@ =~= key_params());
    }
    emit_str_chars(&mut out, &kp);
    out.push(':');
    emit_obj(&mut out, &r.params);
    out.push(',');
    let kh: Vec<char> = vec!['h', 'e', 'a', 'd', 'e', 'r', 's'];
    proof {
        assert(kh@ =~= key_headers());
    }
    emit_str_chars(&mut out, &kh);
    out.push(':');
    emit_obj(&mut out, &r.headers);
    out.push(',');
    let km: Vec<char> = vec!['m', 'e', 't', 'h', 'o', 'd'];
    proof {
        assert(km@ =~= key_method());
    }
    emit_str_chars(&mut out, &km);
    out.push(':');
    emit_str(&mut out, &r.method);
    out.push(',');
    let ku: Vec<char> = vec!['u', 'r', 'l'];
    proof {
        assert(ku@ =~= key_url());
    }
    emit_str_chars(&mut out, &ku);
    out.push(':');
    emit_str(&mut out, &r.url);
    out.push(',');
    let kb: Vec<char> = vec!['b', 'o', 'd', 'y'];
    proof {
        assert(kb@ =~= key_body());
    }
    emit_str_chars(&mut out, &kb);
    out.push(':');
    emit_opt_str(&mut out, &r.body);
    out.push('}');
    proof {
        assert(out@ =~= req_json(*r));
    }
    out
}

/// The value of a run of decimal digit characters.
pub open spec fn digits_val(raw: Seq<char>) -> int
    decreases raw.len(),
{
    if raw.len() == 0 {
        0
    } else {
        digits_val(raw.drop_last()) * 10 + (raw.last() as u32 - 48)
    }
}

/// Every character is a decimal digit.
pub open spec fn all_digits(raw: Seq<char>) -> bool {
    forall|i: int| 0 <= i < raw.len() ==> 48 <= (#[trigger] raw[i]) as u32 <= 57
}

/// What a raw number token means as an HTTP status: it must be one to five
/// plain digits with value at most 65535; everything else (signs, dots,
/// exponents, out-of-range values) has no status value.
pub open spec fn status_val(raw: Seq<char>) -> Option<u16> {
    if 1 <= raw.len() <= 5 && all_digits(raw) && 0 <= digits_val(raw) <= 65535 {
        Some(digits_val(raw) as u16)
    } else {
        None
    }
}

/// Ten to the `k`.
pub open spec fn pow10(k: nat) -> int
    decreases k,
{
    if k == 0 {
        1
    } else {
        10 * pow10((k - 1) as nat)
    }
}

proof fn lemma_pow10_vals()
    ensures
        pow10(0nat) == 1,
        pow10(1nat) == 10,
        pow10(2nat) == 100,
        pow10(3nat) == 1000,
        pow10(4nat) == 10000,
        pow10(5nat) == 100000,
{
    assert(pow10(0nat) == 1);
    assert(pow10(1nat) == 10 * pow10(0nat));
    assert(pow10(2nat) == 10 * pow10(1nat));
    assert(pow10(3nat) == 10 * pow10(2nat));
    assert(pow10(4nat) == 10 * pow10(3nat));
    assert(pow10(5nat) == 10 * pow10(4nat));
}

/// The status a raw number token denotes, if any.
fn status_from_raw(raw: &Vec<char>) -> (r: Option<u16>)
    ensures
        r == status_val(raw@),
{
    if raw.len() < 1 || raw.len() > 5 {
        return None;
    }
    let mut val: u32 = 0;
    let mut k: usize = 0;
    proof {
        assert(raw@.take(0) =~= Seq::<char>::empty());
        assert(pow10(0) == 1);
    }
    while k < raw.len()
        invariant
            k <= raw@.len() <= 5,
            all_digits(raw@.take(k as int)),
            val == digits_val(raw@.take(k as int)),
            val < pow10(k as nat),
            pow10(k as nat) <= 100000,
        decreases raw@.len() - k,
    {
        let u = raw[k] as u32;
        if u < 48 || u > 57 {
            proof {
                assert(!all_digits(raw@));
            }
            return None;
        }
        proof {
            assert(raw@.take(k + 1).drop_last() =~= raw@.take(k as int));
            assert(raw@.take(k + 1).last() == raw@[k as int]);
            assert(pow10((k + 1) as nat) == 10 * pow10(k as nat));
            lemma_pow10_vals();
        }
        val = val * 10 + (u - 48);
        k += 1;
    }
    proof {
        assert(raw@.take(raw@.len() as int) =~= raw@);
    }
    if val <= 65535 {
        Some(val as u16)
    } else {
        None
    }
}

/// The three fields a response object may set, each kept from its last
/// occurrence: the raw status token, the header pairs, and the body (which
/// may itself be an explicit `null`).
pub open spec fn sp_res_fields(
    s: Seq<char>,
    i: int,
    st: Option<Seq<char>>,
    hd: Option<Seq<(Seq<char>, Seq<char>)>>,
    bd: Option<Option<Seq<char>>>,
) -> Option<((Option<Seq<char>>, Option<Seq<(Seq<char>, Seq<char>)>>, Option<Option<Seq<char>>>), int)>
    decreases s.len() - i,
{
    match sp_string(s, i) {
        None => None,
        Some((k, j)) => if !(i < j && j < s.len()) {
            None
        } else if s[j] != ':' {
            None
        } else {
            let vres: Option<
                (Option<Seq<char>>, Option<Seq<(Seq<char>, Seq<char>)>>, Option<Option<Seq<char>>>, int),
            > = if k == key_status() {
                match sp_number(s, j + 1) {
                    None => None,
                    Some((raw, j2)) => Some((Some(raw), hd, bd, j2)),
                }
            } else if k == key_headers() {
                match sp_strmap(s, j + 1) {
                    None => None,
                    Some((prs, j2)) => Some((st, Some(prs), bd, j2)),
                }
            } else if k == key_body() {
                match sp_null(s, j + 1) {
                    Some(j2) => Some((st, hd, Some(None), j2)),
                    None => match sp_string(s, j + 1) {
                        None => None,
                        Some((v, j2)) => Some((st, hd, Some(Some(v)), j2)),
                    },
                }
            } else {
                match sp_skip_value(s, j + 1) {
                    None => None,
                    Some(j2) => Some((st, hd, bd, j2)),
                }
            };
            match vres {
                None => None,
                Some((st2, hd2, bd2, j2)) => if !(j + 1 <= j2 && j2 < s.len()) {
                    None
                } else if s[j2] == ',' {
                    sp_res_fields(s, j2 + 1, st2, hd2, bd2)
                } else if s[j2] == '}' {
                    Some(((st2, hd2, bd2), j2 + 1))
                } else {
                    None
                },
            }
        },
    }
}

/// What a whole response text parses to: one object, fully consumed.
pub open spec fn sp_parse_res(s: Seq<char>) -> Option<
    (Option<Seq<char>>, Option<Seq<(Seq<char>, Seq<char>)>>, Option<Option<Seq<char>>>),
> {
    if s.len() < 2 || s[0] != '{' {
        None
    } else if s[1] == '}' {
        if s.len() == 2 {
            Some((None, None, None))
        } else {
            None
        }
    } else {
        match sp_res_fields(s, 1, None, None, None) {
            None => None,
            Some((f, j)) => if j == s.len() {
                Some(f)
            } else {
                None
            },
        }
    }
}

/// The response record a parsed field trio denotes: status and headers are
/// required, the body optional; a status token without a value in
/// `[0, 65535]` denotes nothing.
pub open spec fn res_semantics(
    f: (Option<Seq<char>>, Option<Seq<(Seq<char>, Seq<char>)>>, Option<Option<Seq<char>>>),
) -> Option<(u16, Seq<(Seq<char>, Seq<char>)>, Option<Seq<char>>)> {
    match f {
        (Some(raw), Some(prs), bd) => match status_val(raw) {
            Some(v) => Some(
                (
                    v,
                    prs,
                    match bd {
                        None => None,
                        Some(b) => b,
                    },
                ),
            ),
            None => None,
        },
        _ => None,
    }
}

/// What response text `s` unmarshals to, if anything.
pub open spec fn spec_unmarshal_res(s: Seq<char>) -> Option<
    (u16, Seq<(Seq<char>, Seq<char>)>, Option<Seq<char>>),
> {
    match sp_parse_res(s) {
        None => None,
        Some(f) => res_semantics(f),
    }
}

/// The view of a response record.
pub open spec fn res_view(r: Res) -> (u16, Seq<(Seq<char>, Seq<char>)>, Option<Seq<char>>) {
    (r.status, r.headers.deep_view(), opt_str_view(r.body))
}

/// Unmarshals a handler's response text. Returns `WorkerShape` exactly
/// when the text is not one JSON object carrying a `status` number in
/// `[0, 65535]` and a `headers` object of strings.
#[verifier::rlimit(100)]
#[verifier::spinoff_prover]
pub fn unmarshal_res(s: &Vec<char>) -> (r: Result<Res, AppError>)
    requires
        parse_len_ok(s@),
    ensures
        match r {
            Ok(res) => spec_unmarshal_res(s@) == Some(res_view(res)),
            Err(e) => spec_unmarshal_res(s@) is None && e is WorkerShape,
        },
{
    if s.len() < 2 || s[0] != '{' {
        return Err(shape_err());
    }
    if s[1] == '}' {
        return Err(shape_err());
    }
    let mut cur: usize = 1;
    let mut st: Option<Vec<char>> = None;
    let mut hd: Option<Vec<(String, String)>> = None;
    let mut bd: Option<Option<String>> = None;
    let kst: Vec<char> = vec!['s', 't', 'a', 't', 'u', 's'];
    let khd: Vec<char> = vec!['h', 'e', 'a', 'd', 'e', 'r', 's'];
    let kbd: Vec<char> = vec!['b', 'o', 'd', 'y'];
    proof {
        assert(kst@ =~= key_status());
        assert(khd@ =~= key_headers());
        assert(kbd@ =~= key_body());
    }
    loop
        invariant
            parse_len_ok(s@),
            1 <= cur <= s@.len(),
            kst@ == key_status(),
            khd@ == key_headers(),
            kbd@ == key_body(),
            sp_parse_res(s@) == (match sp_res_fields(
                s@,
                cur as int,
                st_view(st),
                hd_view(hd),
                bd_view(bd),
            ) {
                None => None::<
                    (
                        Option<Seq<char>>,
                        Option<Seq<(Seq<char>, Seq<char>)>>,
                        Option<Option<Seq<char>>>,
                    ),
                >,
                Some((f, j)) => if j == s@.len() {
                    Some(f)
                } else {
                    None
                },
            }),
        decreases s@.len() - cur,
    {
        let k = match parse_string(s, cur) {
            Ok(p) => p,
            Err(()) => {
                return Err(shape_err());
            },
        };
        proof {
            crate::json::lemma_sp_string_bounds(s@, cur as int);
        }
        let j = k.1;
        if j >= s.len() || s[j] != ':' {
            return Err(shape_err());
        }
        let j2: usize;
        if chars_eq(&k.0, &kst) {
            let p = match parse_number(s, j + 1) {
                Ok(p) => p,
                Err(()) => {
                    return Err(shape_err());
                },
            };
            proof {
                crate::json::lemma_num_end_bounds(s@, j + 1);
            }
            st = Some(p.0);
            j2 = p.1;
        } else if chars_eq(&k.0, &khd) {
            let p = match parse_strmap(s, j + 1) {
                Ok(p) => p,
                Err(()) => {
                    return Err(shape_err());
                },
            };
            proof {
                if s@[j + 1] == '{' && j + 2 < s@.len() && s@[j + 2] != '}' {
                    crate::json::lemma_sp_members_bounds(s@, j + 2);
                }
            }
            hd = Some(p.0);
            j2 = p.1;
        } else if chars_eq(&k.0, &kbd) {
            match parse_null(s, j + 1) {
                Ok(jn) => {
                    bd = Some(None);
                    j2 = jn;
                },
                Err(()) => {
                    let p = match parse_string(s, j + 1) {
                        Ok(p) => p,
                        Err(()) => {
                            return Err(shape_err());
                        },
                    };
                    proof {
                        crate::json::lemma_sp_string_bounds(s@, j + 1);
                    }
                    bd = Some(Some(from_chars(&p.0)));
                    j2 = p.1;
                },
            }
        } else {
            j2 = match skip_value(s, j + 1) {
                Ok(j2) => j2,
                Err(()) => {
                    return Err(shape_err());
                },
            };
        }
        if j2 >= s.len() {
            return Err(shape_err());
        }
        if s[j2] == ',' {
            cur = j2 + 1;
        } else if s[j2] == '}' {
            if j2 + 1 != s.len() {
                return Err(shape_err());
            }
            let raw = match st {
                Some(raw) => raw,
                None => {
                    return Err(shape_err());
                },
            };
            let headers = match hd {
                Some(h) => h,
                None => {
                    return Err(shape_err());
                },
            };
            let status = match status_from_raw(&raw) {
                Some(v) => v,
                None => {
                    return Err(shape_err());
                },
            };
            let body = match bd {
                Some(b) => b,
                None => None,
            };
            return Ok(Res { status, headers, body });
        } else {
            return Err(shape_err());
        }
    }
}

/// The view of an accumulated raw status token.
pub open spec fn st_view(st: Option<Vec<char>>) -> Option<Seq<char>> {
    match st {
        None => None,
        Some(v) => Some(v@),
    }
}

/// The view of accumulated header pairs.
pub open spec fn hd_view(hd: Option<Vec<(String, String)>>) -> Option<
    Seq<(Seq<char>, Seq<char>)>,
> {
    match hd {
        None => None,
        Some(v) => Some(v.deep_view()),
    }
}

/// The view of an accumulated body field.
pub open spec fn bd_view(bd: Option<Option<String>>) -> Option<Option<Seq<char>>> {
    match bd {
        None => None,
        Some(b) => Some(opt_str_view(b)),
    }
}

/// A shape error with a short fixed description.
fn shape_err() -> (e: AppError)
    ensures
        e is WorkerShape,
{
    AppError::WorkerShape("response shape".to_owned())
}

#[verifier::external_type_specification]
#[verifier::external_body]
pub struct ExRuntime(rquickjs::Runtime);

#[verifier::external_type_specification]
#[verifier::external_body]
pub struct ExContext(rquickjs::Context);

/// One embedded JS runtime and its evaluation context. Not thread safe:
/// a worker belongs to one task at a time.
pub struct JsWorker {
    rt: rquickjs::Runtime,
    ctx: rquickjs::Context,
}

/// Relies on rquickjs (`Runtime::new`, `Context::full`, `Ctx::eval`,
/// `Object::set`): builds one runtime and context, evaluates the bundle
/// expression, and binds the resulting object to the global `handlers`.
/// `Err` carries the engine's message; nothing else is promised of the
/// evaluation of arbitrary script text.
#[verifier::external_body]
fn js_new_worker(code: &str) -> (r: Result<JsWorker, String>) {
    let build = || -> Result<JsWorker, rquickjs::Error> {
        let rt = rquickjs::Runtime::new()?;
        let ctx = rquickjs::Context::full(&rt)?;
        ctx.with(|c| -> Result<(), rquickjs::Error> {
            let ret: rquickjs::Object = c.eval(code)?;
            c.globals().set("handlers", ret)?;
            Ok(())
        })?;
        Ok(JsWorker { rt, ctx })
    };
    build().map_err(|e| e.to_string())
}

/// Relies on rquickjs (`Object::get`, `Function::call`, `Promise::finish`,
/// `Ctx::json_parse`, `Ctx::json_stringify`): looks up `handlers[name]`,
/// calls it with the value parsed from `req_json`, drives a returned
/// promise to settlement, and hands back the JSON text of the settled
/// value (`None` when it has no JSON form, as for `undefined`). `Err`
/// carries the engine's message; what text comes back depends on the
/// handler and is not promised.
#[verifier::external_body]
fn js_call_json(w: &JsWorker, name: &str, req_json: &str) -> (r: Result<Option<String>, String>) {
    w.ctx.with(|c| {
        let run = || -> Result<Option<String>, rquickjs::Error> {
            let handlers: rquickjs::Object = c.globals().get("handlers")?;
            let f: rquickjs::Function = handlers.get(name)?;
            let v: rquickjs::Value = f.call((c.json_parse(req_json)?,))?;
            let v = if let Some(p) = v.as_promise() { p.finish()? } else { v };
            match c.json_stringify(v)? {
                Some(j) => Ok(Some(j.to_string()?)),
                None => Ok(None),
            }
        };
        run().map_err(|e| e.to_string())
    })
}

/// What `run` may return: a response that some JSON text unmarshals to
/// under the exact response grammar, or a worker error.
pub open spec fn run_outcome(r: Result<Res, AppError>) -> bool {
    match r {
        Ok(res) => exists|t: Seq<char>| #[trigger] spec_unmarshal_res(t) == Some(res_view(res)),
        Err(e) => e is WorkerShape || e is WorkerRejected,
    }
}

impl JsWorker {
    /// Evaluates the bundle and binds its handler object. Every failure of
    /// the evaluation is reported as `WorkerInit`.
    pub fn try_new(module: &str) -> (r: Result<JsWorker, AppError>)
        ensures
            r is Err ==> r->Err_0 is WorkerInit,
    {
        match js_new_worker(module) {
            Ok(w) => Ok(w),
            Err(m) => Err(AppError::WorkerInit(m)),
        }
    }

    /// Invokes `handlers[name]` on the marshalled request and unmarshals
    /// the settled value. A failure inside the engine (rejection, missing
    /// handler, thrown error) is `WorkerRejected`; a settled value whose
    /// JSON text is absent, over-long or not a well-shaped response object
    /// is `WorkerShape`.
    pub fn run(&self, name: &str, req: Req) -> (r: Result<Res, AppError>)
        ensures
            run_outcome(r),
    {
        let req_text = from_chars(&marshal_req(&req));
        let out = match js_call_json(self, name, &req_text) {
            Ok(o) => o,
            Err(m) => {
                return Err(AppError::WorkerRejected(m));
            },
        };
        let text = match out {
            Some(t) => t,
            None => {
                return Err(shape_err());
            },
        };
        let chars = crate::strutil::to_chars(text.as_str());
        if chars.len() >= 0x1000_0000 {
            return Err(shape_err());
        }
        unmarshal_res(&chars)
    }
}

} // verus!
