//! The closed set of HTTP methods a route may carry, and the
//! case-insensitive parsing of method names used by the config loader.
use vstd::prelude::*;

use crate::strutil::{chars_eq_icase, seq_eq_icase, to_chars};

verus! {

/// One of the nine HTTP methods a route entry may name.
#[derive(Clone, Copy, PartialEq, Eq, Structural, Debug, Hash)]
pub enum HttpMethod {
    Get,
    Head,
    Post,
    Put,
    Patch,
    Delete,
    Options,
    Trace,
    Connect,
}

/// The canonical (upper-case) spelling of a method.
pub open spec fn method_chars(m: HttpMethod) -> Seq<char> {
    match m {
        HttpMethod::Get => seq!['G', 'E', 'T'],
        HttpMethod::Head => seq!['H', 'E', 'A', 'D'],
        HttpMethod::Post => seq!['P', 'O', 'S', 'T'],
        HttpMethod::Put => seq!['P', 'U', 'T'],
        HttpMethod::Patch => seq!['P', 'A', 'T', 'C', 'H'],
        HttpMethod::Delete => seq!['D', 'E', 'L', 'E', 'T', 'E'],
        HttpMethod::Options => seq!['O', 'P', 'T', 'I', 'O', 'N', 'S'],
        HttpMethod::Trace => seq!['T', 'R', 'A', 'C', 'E'],
        HttpMethod::Connect => seq!['C', 'O', 'N', 'N', 'E', 'C', 'T'],
    }
}

/// The canonical spelling of `m`, as characters.
pub fn method_name_chars(m: HttpMethod) -> (v: Vec<char>)
    ensures
        v@ == method_chars(m),
{
    let v: Vec<char> = match m {
        HttpMethod::Get => vec!['G', 'E', 'T'],
        HttpMethod::Head => vec!['H', 'E', 'A', 'D'],
        HttpMethod::Post => vec!['P', 'O', 'S', 'T'],
        HttpMethod::Put => vec!['P', 'U', 'T'],
        HttpMethod::Patch => vec!['P', 'A', 'T', 'C', 'H'],
        HttpMethod::Delete => vec!['D', 'E', 'L', 'E', 'T', 'E'],
        HttpMethod::Options => vec!['O', 'P', 'T', 'I', 'O', 'N', 'S'],
        HttpMethod::Trace => vec!['T', 'R', 'A', 'C', 'E'],
        HttpMethod::Connect => vec!['C', 'O', 'N', 'N', 'E', 'C', 'T'],
    };
    proof {
        assert(v@ =~= method_chars(m));
    }
    v
}

/// Parses a method name, ignoring ASCII case. Exactly the nine canonical
/// spellings are accepted.
pub fn parse_method(s: &str) -> (r: Option<HttpMethod>)
    ensures
        match r {
            Some(m) => seq_eq_icase(s@, method_chars(m)),
            None => forall|m: HttpMethod| !seq_eq_icase(s@, method_chars(m)),
        },
{
    let v = to_chars(s);
    parse_method_chars(&v)
}

/// Parses a method name given as characters, ignoring ASCII case.
pub fn parse_method_chars(v: &Vec<char>) -> (r: Option<HttpMethod>)
    ensures
        match r {
            Some(m) => seq_eq_icase(v@, method_chars(m)),
            None => forall|m: HttpMethod| !seq_eq_icase(v@, method_chars(m)),
        },
{
    if chars_eq_icase(v, &method_name_chars(HttpMethod::Get)) {
        Some(HttpMethod::Get)
    } else if chars_eq_icase(v, &method_name_chars(HttpMethod::Head)) {
        Some(HttpMethod::Head)
    } else if chars_eq_icase(v, &method_name_chars(HttpMethod::Post)) {
        Some(HttpMethod::Post)
    } else if chars_eq_icase(v, &method_name_chars(HttpMethod::Put)) {
        Some(HttpMethod::Put)
    } else if chars_eq_icase(v, &method_name_chars(HttpMethod::Patch)) {
        Some(HttpMethod::Patch)
    } else if chars_eq_icase(v, &method_name_chars(HttpMethod::Delete)) {
        Some(HttpMethod::Delete)
    } else if chars_eq_icase(v, &method_name_chars(HttpMethod::Options)) {
        Some(HttpMethod::Options)
    } else if chars_eq_icase(v, &method_name_chars(HttpMethod::Trace)) {
        Some(HttpMethod::Trace)
    } else if chars_eq_icase(v, &method_name_chars(HttpMethod::Connect)) {
        Some(HttpMethod::Connect)
    } else {
        proof {
            assert forall|m: HttpMethod| !seq_eq_icase(v@, method_chars(m)) by {
                match m {
                    HttpMethod::Get => {},
                    HttpMethod::Head => {},
                    HttpMethod::Post => {},
                    HttpMethod::Put => {},
                    HttpMethod::Patch => {},
                    HttpMethod::Delete => {},
                    HttpMethod::Options => {},
                    HttpMethod::Trace => {},
                    HttpMethod::Connect => {},
                }
            }
        }
        None
    }
}

} // verus!
