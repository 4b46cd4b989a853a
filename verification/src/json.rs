//! The JSON text layer of the worker boundary. Handler input and output
//! are JSON-shaped strings: this module renders the request records the
//! pipeline sends to a handler, and parses the response text a handler's
//! settled value stringifies to. Rendering is canonical (no whitespace,
//! escapes only for `"`, `\` and control characters); parsing accepts any
//! member order, skips unknown members, and refuses malformed text.
use vstd::prelude::*;

use crate::strutil::from_chars;

verus! {

broadcast use vstd::utf8::char_is_scalar, vstd::utf8::char_u32_cast,
    crate::strutil::lemma_vec_char_deep_view;

/// The hexadecimal digit character for `d`.
pub open spec fn hex_digit(d: nat) -> char
    recommends
        d < 16,
{
    if d == 0 {
        '0'
    } else if d == 1 {
        '1'
    } else if d == 2 {
        '2'
    } else if d == 3 {
        '3'
    } else if d == 4 {
        '4'
    } else if d == 5 {
        '5'
    } else if d == 6 {
        '6'
    } else if d == 7 {
        '7'
    } else if d == 8 {
        '8'
    } else if d == 9 {
        '9'
    } else if d == 10 {
        'a'
    } else if d == 11 {
        'b'
    } else if d == 12 {
        'c'
    } else if d == 13 {
        'd'
    } else if d == 14 {
        'e'
    } else {
        'f'
    }
}

/// How one character is written inside a JSON string literal: `"` and `\`
/// are escaped, control characters become `\u00XX`, all else stands as is.
pub open spec fn esc_char(c: char) -> Seq<char> {
    if c == '"' {
        seq!['\\', '"']
    } else if c == '\\' {
        seq!['\\', '\\']
    } else if (c as u32) < 32 {
        seq!['\\', 'u', '0', '0', hex_digit((c as u32 / 16) as nat), hex_digit(
            (c as u32 % 16) as nat,
        )]
    } else {
        seq![c]
    }
}

/// The escaped body of a JSON string literal.
pub open spec fn esc(s: Seq<char>) -> Seq<char>
    decreases s.len(),
{
    if s.len() == 0 {
        Seq::empty()
    } else {
        esc_char(s[0]) + esc(s.drop_first())
    }
}

pub proof fn lemma_esc_snoc(s: Seq<char>, c: char)
    ensures
        esc(s.push(c)) == esc(s) + esc_char(c),
    decreases s.len(),
{
    if s.len() == 0 {
        let p = s.push(c);
        assert(p[0] == c);
        assert(esc(p) == esc_char(p[0]) + esc(p.drop_first()));
        assert(p.drop_first() =~= Seq::<char>::empty());
        assert(esc(Seq::<char>::empty()) == Seq::<char>::empty());
        assert(esc(p) =~= esc(s) + esc_char(c));
    } else {
        assert(s.push(c)[0] == s[0]);
        assert(s.push(c).drop_first() =~= s.drop_first().push(c));
        lemma_esc_snoc(s.drop_first(), c);
        assert(esc(s.push(c)) =~= esc(s) + esc_char(c));
    }
}

/// A JSON string literal: quote, escaped body, quote.
pub open spec fn render_str(s: Seq<char>) -> Seq<char> {
    seq!['"'] + esc(s) + seq!['"']
}

/// One object member whose value is a string: `"key":"value"`.
pub open spec fn render_pair(p: (Seq<char>, Seq<char>)) -> Seq<char> {
    render_str(p.0) + seq![':'] + render_str(p.1)
}

/// The members after the first, each preceded by a comma.
pub open spec fn render_tail(m: Seq<(Seq<char>, Seq<char>)>) -> Seq<char>
    decreases m.len(),
{
    if m.len() == 0 {
        Seq::empty()
    } else {
        seq![','] + render_pair(m[0]) + render_tail(m.drop_first())
    }
}

/// The comma-separated members of an object of strings.
pub open spec fn render_pairs(m: Seq<(Seq<char>, Seq<char>)>) -> Seq<char> {
    if m.len() == 0 {
        Seq::empty()
    } else {
        render_pair(m[0]) + render_tail(m.drop_first())
    }
}

pub proof fn lemma_tail_snoc(m: Seq<(Seq<char>, Seq<char>)>, x: (Seq<char>, Seq<char>))
    ensures
        render_tail(m.push(x)) == render_tail(m) + seq![','] + render_pair(x),
    decreases m.len(),
{
    if m.len() == 0 {
        let p = m.push(x);
        assert(p[0] == x);
        assert(render_tail(p) == seq![','] + render_pair(p[0]) + render_tail(p.drop_first()));
        assert(p.drop_first() =~= Seq::<(Seq<char>, Seq<char>)>::empty());
        assert(render_tail(Seq::<(Seq<char>, Seq<char>)>::empty()) == Seq::<char>::empty());
        assert(render_tail(p) =~= render_tail(m) + seq![','] + render_pair(x));
    } else {
        assert(m.push(x)[0] == m[0]);
        assert(m.push(x).drop_first() =~= m.drop_first().push(x));
        lemma_tail_snoc(m.drop_first(), x);
        assert(render_tail(m.push(x)) =~= render_tail(m) + seq![','] + render_pair(x));
    }
}

pub proof fn lemma_pairs_snoc(m: Seq<(Seq<char>, Seq<char>)>, x: (Seq<char>, Seq<char>))
    ensures
        render_pairs(m.push(x)) == render_pairs(m) + (if m.len() == 0 {
            Seq::<char>::empty()
        } else {
            seq![',']
        }) + render_pair(x),
    decreases m.len(),
{
    if m.len() == 0 {
        assert(m.push(x)[0] == x);
        assert(m.push(x).drop_first() =~= Seq::<(Seq<char>, Seq<char>)>::empty());
        assert(render_pairs(m.push(x)) =~= render_pairs(m) + Seq::<char>::empty() + render_pair(
            x,
        ));
    } else {
        assert(m.push(x)[0] == m[0]);
        assert(m.push(x).drop_first() =~= m.drop_first().push(x));
        lemma_tail_snoc(m.drop_first(), x);
        assert(render_pairs(m.push(x)) =~= render_pairs(m) + seq![','] + render_pair(x));
    }
}

/// An object of string members: `{"k":"v",...}`.
pub open spec fn render_obj(m: Seq<(Seq<char>, Seq<char>)>) -> Seq<char> {
    seq!['{'] + render_pairs(m) + seq!['}']
}

/// The four characters of the JSON `null` literal.
pub open spec fn null_chars() -> Seq<char> {
    seq!['n', 'u', 'l', 'l']
}

/// An optional string: `null` when absent, a string literal when present.
pub open spec fn render_opt_str(o: Option<Seq<char>>) -> Seq<char> {
    match o {
        None => null_chars(),
        Some(s) => render_str(s),
    }
}

/// The hexadecimal digit character for `d`.
fn hex_digit_exec(d: u32) -> (c: char)
    requires
        d < 16,
    ensures
        c == hex_digit(d as nat),
{
    if d == 0 {
        '0'
    } else if d == 1 {
        '1'
    } else if d == 2 {
        '2'
    } else if d == 3 {
        '3'
    } else if d == 4 {
        '4'
    } else if d == 5 {
        '5'
    } else if d == 6 {
        '6'
    } else if d == 7 {
        '7'
    } else if d == 8 {
        '8'
    } else if d == 9 {
        '9'
    } else if d == 10 {
        'a'
    } else if d == 11 {
        'b'
    } else if d == 12 {
        'c'
    } else if d == 13 {
        'd'
    } else if d == 14 {
        'e'
    } else {
        'f'
    }
}

/// Appends the escaped form of one character.
fn emit_esc_char(out: &mut Vec<char>, c: char)
    ensures
        final(out)@ == old(out)@ + esc_char(c),
{
    let u = c as u32;
    if c == '"' {
        out.push('\\');
        out.push('"');
        proof {
            assert(out@ =~= old(out)@ + esc_char(c));
        }
    } else if c == '\\' {
        out.push('\\');
        out.push('\\');
        proof {
            assert(out@ =~= old(out)@ + esc_char(c));
        }
    } else if u < 32 {
        out.push('\\');
        out.push('u');
        out.push('0');
        out.push('0');
        out.push(hex_digit_exec(u / 16));
        out.push(hex_digit_exec(u % 16));
        proof {
            assert(out@ =~= old(out)@ + esc_char(c));
        }
    } else {
        out.push(c);
        proof {
            assert(out@ =~= old(out)@ + esc_char(c));
        }
    }
}

/// Appends a JSON string literal holding the characters of `s`.
pub fn emit_str_chars(out: &mut Vec<char>, s: &Vec<char>)
    ensures
        final(out)@ == old(out)@ + render_str(s@),
{
    out.push('"');
    let ghost base = out@;
    let mut i: usize = 0;
    proof {
        assert(esc(s@.take(0)) =~= Seq::<char>::empty());
        assert(out@ =~= base + esc(s@.take(0)));
    }
    while i < s.len()
        invariant
            i <= s@.len(),
            out@ == base + esc(s@.take(i as int)),
            base == old(out)@ + seq!['"'],
        decreases s@.len() - i,
    {
        emit_esc_char(out, s[i]);
        proof {
            assert(s@.take(i + 1) =~= s@.take(i as int).push(s@[i as int]));
            lemma_esc_snoc(s@.take(i as int), s@[i as int]);
        }
        i += 1;
    }
    proof {
        assert(s@.take(s@.len() as int) =~= s@);
    }
    out.push('"');
    proof {
        assert(out@ =~= old(out)@ + render_str(s@));
    }
}

/// Appends a JSON string literal holding `s`.
pub fn emit_str(out: &mut Vec<char>, s: &String)
    ensures
        final(out)@ == old(out)@ + render_str(s@),
{
    let cs = crate::strutil::to_chars(s.as_str());
    emit_str_chars(out, &cs);
}

/// Appends `{"k":"v",...}` for the given members, in order.
pub fn emit_obj(out: &mut Vec<char>, m: &Vec<(String, String)>)
    ensures
        final(out)@ == old(out)@ + render_obj(m.deep_view()),
{
    out.push('{');
    let ghost base = out@;
    let ghost mv = m.deep_view();
    let mut i: usize = 0;
    proof {
        assert(render_pairs(mv.take(0)) =~= Seq::<char>::empty());
        assert(out@ =~= base + render_pairs(mv.take(0)));
    }
    while i < m.len()
        invariant
            i <= mv.len(),
            mv == m.deep_view(),
            mv.len() == m@.len(),
            out@ == base + render_pairs(mv.take(i as int)),
            base == old(out)@ + seq!['{'],
        decreases mv.len() - i,
    {
        if i > 0 {
            out.push(',');
        }
        proof {
            assert(mv[i as int] == (m@[i as int].0@, m@[i as int].1@));
        }
        emit_str(out, &m[i].0);
        out.push(':');
        emit_str(out, &m[i].1);
        proof {
            assert(mv.take(i + 1) =~= mv.take(i as int).push(mv[i as int]));
            lemma_pairs_snoc(mv.take(i as int), mv[i as int]);
            assert(out@ =~= base + render_pairs(mv.take(i + 1)));
        }
        i += 1;
    }
    proof {
        assert(mv.take(mv.len() as int) =~= mv);
    }
    out.push('}');
    proof {
        assert(out@ =~= old(out)@ + render_obj(mv));
    }
}

/// Appends `null` or a string literal.
pub fn emit_opt_str(out: &mut Vec<char>, o: &Option<String>)
    ensures
        final(out)@ == old(out)@ + render_opt_str(match o {
            Some(s) => Some(s@),
            None => None,
        }),
{
    match o {
        None => {
            out.push('n');
            out.push('u');
            out.push('l');
            out.push('l');
            proof {
                assert(out@ =~= old(out)@ + null_chars());
            }
        },
        Some(s) => {
            emit_str(out, s);
        },
    }
}

/// Headroom so that index arithmetic in the parser cannot overflow.
pub open spec fn parse_len_ok(s: Seq<char>) -> bool {
    s.len() < 0x1000_0000
}

/// The numeric value of a hexadecimal digit character, or `-1`.
pub open spec fn hex_val(c: char) -> int {
    let u = c as u32;
    if 48 <= u <= 57 {
        u - 48
    } else if 97 <= u <= 102 {
        u - 87
    } else if 65 <= u <= 70 {
        u - 55
    } else {
        -1
    }
}

/// What the body of a JSON string literal (after its opening quote) parses
/// to: the decoded characters and the index just past the closing quote.
pub open spec fn sp_string_body(s: Seq<char>, i: int) -> Option<(Seq<char>, int)>
    decreases s.len() - i,
{
    if i < 0 || i >= s.len() {
        None
    } else if s[i] == '"' {
        Some((Seq::empty(), i + 1))
    } else if s[i] == '\\' {
        if i + 1 >= s.len() {
            None
        } else {
            let e = s[i + 1];
            if e == '"' || e == '\\' || e == '/' {
                sp_cons(e, sp_string_body(s, i + 2))
            } else if e == 'n' {
                sp_cons('\n', sp_string_body(s, i + 2))
            } else if e == 't' {
                sp_cons('\t', sp_string_body(s, i + 2))
            } else if e == 'r' {
                sp_cons('\r', sp_string_body(s, i + 2))
            } else if e == 'b' {
                sp_cons('\u{8}', sp_string_body(s, i + 2))
            } else if e == 'f' {
                sp_cons('\u{c}', sp_string_body(s, i + 2))
            } else if e == 'u' {
                if i + 5 >= s.len() {
                    None
                } else {
                    let v = hex_val(s[i + 2]) * 4096 + hex_val(s[i + 3]) * 256 + hex_val(
                        s[i + 4],
                    ) * 16 + hex_val(s[i + 5]);
                    if hex_val(s[i + 2]) < 0 || hex_val(s[i + 3]) < 0 || hex_val(s[i + 4]) < 0
                        || hex_val(s[i + 5]) < 0 || v >= 0xD800 {
                        None
                    } else {
                        sp_cons((v as u32) as char, sp_string_body(s, i + 6))
                    }
                }
            } else {
                None
            }
        }
    } else if (s[i] as u32) < 32 {
        None
    } else {
        sp_cons(s[i], sp_string_body(s, i + 1))
    }
}

/// Prepends one decoded character to a string-body parse.
pub open spec fn sp_cons(c: char, rest: Option<(Seq<char>, int)>) -> Option<(Seq<char>, int)> {
    match rest {
        None => None,
        Some((t, j)) => Some((seq![c] + t, j)),
    }
}

/// What a JSON string literal parses to, starting at its opening quote.
pub open spec fn sp_string(s: Seq<char>, i: int) -> Option<(Seq<char>, int)> {
    if 0 <= i < s.len() && s[i] == '"' {
        sp_string_body(s, i + 1)
    } else {
        None
    }
}

/// A string-body parse lands strictly past where it began, within bounds.
pub proof fn lemma_sp_string_body_bounds(s: Seq<char>, i: int)
    ensures
        match sp_string_body(s, i) {
            Some((t, j)) => i < j <= s.len(),
            None => true,
        },
    decreases s.len() - i,
{
    if 0 <= i < s.len() {
        if s[i] == '\\' {
            if i + 1 < s.len() {
                if s[i + 1] == 'u' {
                    if i + 5 < s.len() {
                        lemma_sp_string_body_bounds(s, i + 6);
                    }
                } else {
                    lemma_sp_string_body_bounds(s, i + 2);
                }
            }
        } else {
            lemma_sp_string_body_bounds(s, i + 1);
        }
    }
}

/// A string parse lands strictly past its opening quote, within bounds.
pub proof fn lemma_sp_string_bounds(s: Seq<char>, i: int)
    ensures
        match sp_string(s, i) {
            Some((t, j)) => i + 1 < j <= s.len(),
            None => true,
        },
{
    if 0 <= i < s.len() && s[i] == '"' {
        lemma_sp_string_body_bounds(s, i + 1);
    }
}

/// True for the characters that may appear in a JSON number token.
pub open spec fn is_num_char(c: char) -> bool {
    let u = c as u32;
    (48 <= u <= 57) || c == '-' || c == '+' || c == '.' || c == 'e' || c == 'E'
}

/// The end of the maximal run of number characters starting at `i`.
pub open spec fn num_end(s: Seq<char>, i: int) -> int
    decreases s.len() - i,
{
    if 0 <= i < s.len() && is_num_char(s[i]) {
        num_end(s, i + 1)
    } else {
        i
    }
}

pub proof fn lemma_num_end_bounds(s: Seq<char>, i: int)
    requires
        0 <= i <= s.len(),
    ensures
        i <= num_end(s, i) <= s.len(),
    decreases s.len() - i,
{
    if i < s.len() && is_num_char(s[i]) {
        lemma_num_end_bounds(s, i + 1);
    }
}

/// What a JSON number token parses to: its raw text and its end.
pub open spec fn sp_number(s: Seq<char>, i: int) -> Option<(Seq<char>, int)> {
    if 0 <= i <= s.len() && num_end(s, i) > i {
        Some((s.subrange(i, num_end(s, i)), num_end(s, i)))
    } else {
        None
    }
}

/// Whether the four characters of `null` stand at `i`.
pub open spec fn sp_null(s: Seq<char>, i: int) -> Option<int> {
    if 0 <= i && i + 4 <= s.len() && s[i] == 'n' && s[i + 1] == 'u' && s[i + 2] == 'l' && s[i + 3]
        == 'l' {
        Some(i + 4)
    } else {
        None
    }
}

/// Whether `true` or `false` stands at `i`.
pub open spec fn sp_bool(s: Seq<char>, i: int) -> Option<int> {
    if 0 <= i && i + 4 <= s.len() && s[i] == 't' && s[i + 1] == 'r' && s[i + 2] == 'u' && s[i + 3]
        == 'e' {
        Some(i + 4)
    } else if 0 <= i && i + 5 <= s.len() && s[i] == 'f' && s[i + 1] == 'a' && s[i + 2] == 'l'
        && s[i + 3] == 's' && s[i + 4] == 'e' {
        Some(i + 5)
    } else {
        None
    }
}

/// The members of an object of string values, from just after `{` or a
/// comma: pairs of decoded key and value, and the index past the `}`.
pub open spec fn sp_members(s: Seq<char>, i: int) -> Option<(Seq<(Seq<char>, Seq<char>)>, int)>
    decreases s.len() - i,
{
    match sp_string(s, i) {
        None => None,
        Some((k, j)) => if !(i < j && j < s.len()) {
            None
        } else if s[j] != ':' {
            None
        } else {
            match sp_string(s, j + 1) {
                None => None,
                Some((v, j2)) => if !(j + 1 < j2 && j2 < s.len()) {
                    None
                } else if s[j2] == ',' {
                    match sp_members(s, j2 + 1) {
                        None => None,
                        Some((rest, j3)) => Some((seq![(k, v)] + rest, j3)),
                    }
                } else if s[j2] == '}' {
                    Some((seq![(k, v)], j2 + 1))
                } else {
                    None
                },
            }
        },
    }
}

/// What an object of string values parses to, starting at its `{`.
pub open spec fn sp_strmap(s: Seq<char>, i: int) -> Option<(Seq<(Seq<char>, Seq<char>)>, int)> {
    if !(0 <= i && i + 1 < s.len() && s[i] == '{') {
        None
    } else if s[i + 1] == '}' {
        Some((Seq::empty(), i + 2))
    } else {
        sp_members(s, i + 1)
    }
}

pub proof fn lemma_sp_members_bounds(s: Seq<char>, i: int)
    ensures
        match sp_members(s, i) {
            Some((m, j)) => i < j <= s.len(),
            None => true,
        },
    decreases s.len() - i,
{
    lemma_sp_string_bounds(s, i);
    match sp_string(s, i) {
        None => {},
        Some((k, j)) => {
            if i < j && j < s.len() && s[j] == ':' {
                lemma_sp_string_bounds(s, j + 1);
                match sp_string(s, j + 1) {
                    None => {},
                    Some((v, j2)) => {
                        if j + 1 < j2 && j2 < s.len() && s[j2] == ',' {
                            lemma_sp_members_bounds(s, j2 + 1);
                        }
                    },
                }
            }
        },
    }
}

/// Where the JSON value starting at `i` ends, without interpreting it.
pub open spec fn sp_skip_value(s: Seq<char>, i: int) -> Option<int>
    decreases s.len() - i, 0int,
{
    if i < 0 || i >= s.len() {
        None
    } else if s[i] == '"' {
        match sp_string(s, i) {
            None => None,
            Some((t, j)) => Some(j),
        }
    } else if is_num_char(s[i]) {
        match sp_number(s, i) {
            None => None,
            Some((t, j)) => Some(j),
        }
    } else if s[i] == 'n' {
        sp_null(s, i)
    } else if s[i] == 't' || s[i] == 'f' {
        sp_bool(s, i)
    } else if s[i] == '[' {
        sp_skip_elems(s, i + 1)
    } else if s[i] == '{' {
        sp_skip_fields(s, i + 1)
    } else {
        None
    }
}

/// Skips array elements from just after `[` or a comma, to past the `]`.
pub open spec fn sp_skip_elems(s: Seq<char>, i: int) -> Option<int>
    decreases s.len() - i, 1int,
{
    if i < 0 || i >= s.len() {
        None
    } else if s[i] == ']' {
        Some(i + 1)
    } else {
        match sp_skip_value(s, i) {
            None => None,
            Some(j) => if !(i < j && j < s.len()) {
                None
            } else if s[j] == ',' {
                sp_skip_elems(s, j + 1)
            } else if s[j] == ']' {
                Some(j + 1)
            } else {
                None
            },
        }
    }
}

/// Skips object members from just after `{` or a comma, to past the `}`.
pub open spec fn sp_skip_fields(s: Seq<char>, i: int) -> Option<int>
    decreases s.len() - i, 1int,
{
    if i < 0 || i >= s.len() {
        None
    } else if s[i] == '}' {
        Some(i + 1)
    } else {
        match sp_string(s, i) {
            None => None,
            Some((k, j)) => if !(i < j && j < s.len()) {
                None
            } else if s[j] != ':' {
                None
            } else {
                match sp_skip_value(s, j + 1) {
                    None => None,
                    Some(j2) => if !(j + 1 < j2 && j2 < s.len()) {
                        None
                    } else if s[j2] == ',' {
                        sp_skip_fields(s, j2 + 1)
                    } else if s[j2] == '}' {
                        Some(j2 + 1)
                    } else {
                        None
                    },
                }
            },
        }
    }
}

pub proof fn lemma_sp_skip_value_bounds(s: Seq<char>, i: int)
    ensures
        match sp_skip_value(s, i) {
            Some(j) => i < j <= s.len(),
            None => true,
        },
    decreases s.len() - i, 0int,
{
    if 0 <= i < s.len() {
        lemma_sp_string_bounds(s, i);
        if 0 <= i <= s.len() {
            lemma_num_end_bounds(s, i);
        }
        if s[i] == '[' {
            lemma_sp_skip_elems_bounds(s, i + 1);
        }
        if s[i] == '{' {
            lemma_sp_skip_fields_bounds(s, i + 1);
        }
    }
}

pub proof fn lemma_sp_skip_elems_bounds(s: Seq<char>, i: int)
    ensures
        match sp_skip_elems(s, i) {
            Some(j) => i < j <= s.len(),
            None => true,
        },
    decreases s.len() - i, 1int,
{
    if 0 <= i < s.len() && s[i] != ']' {
        lemma_sp_skip_value_bounds(s, i);
        match sp_skip_value(s, i) {
            None => {},
            Some(j) => {
                if i < j && j < s.len() && s[j] == ',' {
                    lemma_sp_skip_elems_bounds(s, j + 1);
                }
            },
        }
    }
}

proof fn lemma_hex_val_digit(d: nat)
    requires
        d < 16,
    ensures
        hex_val(hex_digit(d)) == d,
{
}

/// Parsing the body of a rendered string literal, wherever it stands,
/// recovers exactly the escaped characters and stops past the closing
/// quote.
#[verifier::rlimit(100)]
#[verifier::spinoff_prover]
pub proof fn lemma_parse_render_str_body(p: Seq<char>, v: Seq<char>, r: Seq<char>)
    ensures
        sp_string_body(p + esc(v) + seq!['"'] + r, p.len() as int) == Some(
            (v, p.len() + esc(v).len() + 1int),
        ),
    decreases v.len(),
{
    broadcast use vstd::utf8::char_is_scalar, vstd::utf8::char_u32_cast;

    let s = p + esc(v) + seq!['"'] + r;
    let i = p.len() as int;
    if v.len() == 0 {
        assert(esc(v) == Seq::<char>::empty());
        assert(s[i] == '"');
        assert(sp_string_body(s, i) == Some((Seq::<char>::empty(), i + 1)));
        assert(v =~= Seq::<char>::empty());
    } else {
        let c = v[0];
        let v2 = v.drop_first();
        assert(esc(v) == esc_char(c) + esc(v2));
        if c == '"' {
            let p2 = p + seq!['\\', '"'];
            assert(s =~= p2 + esc(v2) + seq!['"'] + r);
            lemma_parse_render_str_body(p2, v2, r);
            assert(s[i] == '\\');
            assert(s[i + 1] == '"');
            assert(i + 1 < s.len());
            assert(sp_string_body(s, i) == sp_cons('"', sp_string_body(s, i + 2)));
            assert(seq![c] + v2 =~= v);
        } else if c == '\\' {
            let p2 = p + seq!['\\', '\\'];
            assert(s =~= p2 + esc(v2) + seq!['"'] + r);
            lemma_parse_render_str_body(p2, v2, r);
            assert(s[i] == '\\');
            assert(s[i + 1] == '\\');
            assert(i + 1 < s.len());
            assert(sp_string_body(s, i) == sp_cons('\\', sp_string_body(s, i + 2)));
            assert(seq![c] + v2 =~= v);
        } else if (c as u32) < 32 {
            let u = c as u32;
            let p2 = p + esc_char(c);
            assert(s =~= p2 + esc(v2) + seq!['"'] + r);
            lemma_parse_render_str_body(p2, v2, r);
            assert(s[i] == '\\');
            assert(s[i + 1] == 'u');
            assert(s[i + 2] == '0');
            assert(s[i + 3] == '0');
            assert(s[i + 4] == hex_digit((u / 16) as nat));
            assert(s[i + 5] == hex_digit((u % 16) as nat));
            assert(i + 5 < s.len());
            lemma_hex_val_digit((u / 16) as nat);
            lemma_hex_val_digit((u % 16) as nat);
            assert(hex_val(s[i + 2]) == 0 && hex_val(s[i + 3]) == 0);
            let code = hex_val(s[i + 2]) * 4096 + hex_val(s[i + 3]) * 256 + hex_val(s[i + 4]) * 16
                + hex_val(s[i + 5]);
            assert(code == (u / 16) * 16 + (u % 16));
            assert(code == u);
            vstd::utf8::char_u32_cast(c, code as u32);
            assert(((code as u32) as char) == c);
            assert(sp_string_body(s, i) == sp_cons(c, sp_string_body(s, i + 6)));
            assert(seq![c] + v2 =~= v);
        } else {
            let p2 = p + seq![c];
            assert(s =~= p2 + esc(v2) + seq!['"'] + r);
            lemma_parse_render_str_body(p2, v2, r);
            assert(s[i] == c);
            assert(s[i] != '"' && s[i] != '\\' && (s[i] as u32) >= 32);
            assert(sp_string_body(s, i) == sp_cons(c, sp_string_body(s, i + 1)));
            assert(seq![c] + v2 =~= v);
        }
    }
}

/// Parsing a rendered string literal, wherever it stands, recovers its
/// characters and stops just past it.
pub proof fn lemma_parse_render_str(p: Seq<char>, v: Seq<char>, r: Seq<char>)
    ensures
        sp_string(p + render_str(v) + r, p.len() as int) == Some(
            (v, p.len() as int + render_str(v).len() as int),
        ),
{
    let s = p + render_str(v) + r;
    assert(s[p.len() as int] == '"');
    assert(s =~= (p + seq!['"']) + esc(v) + seq!['"'] + r);
    lemma_parse_render_str_body(p + seq!['"'], v, r);
    assert(0 <= p.len() < s.len());
}

/// Parsing the members of a rendered non-empty object of strings,
/// wherever they stand, recovers its pairs in order and stops past the
/// closing brace.
/// Parsing one rendered `"key":"value"` member, wherever it stands:
/// the key string, the colon, then the value string.
#[verifier::rlimit(100)]
#[verifier::spinoff_prover]
pub proof fn lemma_parse_render_pair(p: Seq<char>, x: (Seq<char>, Seq<char>), t: Seq<char>)
    ensures
        ({
            let s = p + render_pair(x) + t;
            let j = p.len() as int + render_str(x.0).len() as int;
            let j2 = p.len() as int + render_pair(x).len() as int;
            &&& sp_string(s, p.len() as int) == Some((x.0, j))
            &&& 0 <= j < s.len() && s[j] == ':'
            &&& sp_string(s, j + 1) == Some((x.1, j2))
            &&& j2 == j + 1 + render_str(x.1).len()
        }),
{
    let s = p + render_pair(x) + t;
    assert(render_pair(x) == render_str(x.0) + seq![':'] + render_str(x.1));
    assert(s =~= p + render_str(x.0) + (seq![':'] + render_str(x.1) + t));
    lemma_parse_render_str(p, x.0, seq![':'] + render_str(x.1) + t);
    let j = p.len() as int + render_str(x.0).len() as int;
    assert(s[j] == ':');
    assert(s =~= (p + render_str(x.0) + seq![':']) + render_str(x.1) + t);
    lemma_parse_render_str(p + render_str(x.0) + seq![':'], x.1, t);
}

#[verifier::rlimit(100)]
#[verifier::spinoff_prover]
pub proof fn lemma_parse_render_members(
    p: Seq<char>,
    m: Seq<(Seq<char>, Seq<char>)>,
    r: Seq<char>,
)
    requires
        m.len() >= 1,
    ensures
        sp_members(p + render_pairs(m) + seq!['}'] + r, p.len() as int) == Some(
            (m, p.len() + render_pairs(m).len() + 1int),
        ),
    decreases m.len(),
{
    let s = p + render_pairs(m) + seq!['}'] + r;
    let i = p.len() as int;
    let x = m[0];
    assert(render_pairs(m) == render_pair(x) + render_tail(m.drop_first()));
    if m.len() == 1 {
        assert(render_tail(m.drop_first()) == Seq::<char>::empty());
        assert(s =~= p + render_pair(x) + (seq!['}'] + r));
        lemma_parse_render_pair(p, x, seq!['}'] + r);
        let j: int = p.len() as int + render_str(x.0).len() as int;
        let j2: int = p.len() as int + render_pair(x).len() as int;
        assert(s[j2] == '}');
        assert(j2 < s.len());
        assert(i < j < s.len());
        assert(sp_members(s, i) == Some((seq![(x.0, x.1)], j2 + 1)));
        assert((x.0, x.1) == x);
        assert(seq![(x.0, x.1)] =~= m);
        assert(j2 + 1 == p.len() + render_pairs(m).len() + 1);
    } else {
        let m2 = m.drop_first();
        assert(render_tail(m2) == seq![','] + render_pair(m2[0]) + render_tail(m2.drop_first()));
        assert(render_pairs(m2) == render_pair(m2[0]) + render_tail(m2.drop_first()));
        assert(render_tail(m2) =~= seq![','] + render_pairs(m2));
        assert(s =~= p + render_pair(x) + (seq![','] + render_pairs(m2) + seq!['}'] + r));
        lemma_parse_render_pair(p, x, seq![','] + render_pairs(m2) + seq!['}'] + r);
        let j: int = p.len() as int + render_str(x.0).len() as int;
        let j2: int = p.len() as int + render_pair(x).len() as int;
        assert(s[j2] == ',');
        assert(j2 < s.len());
        assert(i < j < s.len());
        let p2 = p + render_pair(x) + seq![','];
        assert(s =~= p2 + render_pairs(m2) + seq!['}'] + r);
        lemma_parse_render_members(p2, m2, r);
        assert(p2.len() == j2 + 1);
        assert(sp_members(s, j2 + 1) == Some((m2, p2.len() + render_pairs(m2).len() + 1int)));
        assert(sp_members(s, i) == Some((seq![(x.0, x.1)] + m2, p2.len() + render_pairs(m2).len() + 1int)));
        assert((x.0, x.1) == x);
        assert(seq![(x.0, x.1)] + m2 =~= m);
        assert(p2.len() + render_pairs(m2).len() + 1 == p.len() + render_pairs(m).len() + 1);
    }
}

/// Parsing a rendered object of strings, wherever it stands, recovers its
/// pairs and stops just past it.
pub proof fn lemma_parse_render_obj(p: Seq<char>, m: Seq<(Seq<char>, Seq<char>)>, r: Seq<char>)
    ensures
        sp_strmap(p + render_obj(m) + r, p.len() as int) == Some(
            (m, p.len() as int + render_obj(m).len() as int),
        ),
{
    let s = p + render_obj(m) + r;
    let i = p.len() as int;
    assert(s[i] == '{');
    assert(0 <= i && i + 1 < s.len());
    if m.len() == 0 {
        assert(render_pairs(m) == Seq::<char>::empty());
        assert(s[i + 1] == '}');
        assert(sp_strmap(s, i) == Some((Seq::<(Seq<char>, Seq<char>)>::empty(), i + 2)));
        assert(Seq::<(Seq<char>, Seq<char>)>::empty() =~= m);
    } else {
        assert(render_pairs(m).len() >= render_pair(m[0]).len());
        assert(render_pair(m[0]).len() >= 2);
        assert(render_pairs(m)[0] == render_pair(m[0])[0]);
        assert(render_pair(m[0])[0] == '"');
        assert(s[i + 1] == '"');
        assert(s[i + 1] != '}');
        let p2 = p + seq!['{'];
        assert(s =~= p2 + render_pairs(m) + seq!['}'] + r);
        lemma_parse_render_members(p2, m, r);
    }
}

/// Prepends decoded characters to a string-body parse.
pub open spec fn sp_prepend(pre: Seq<char>, rest: Option<(Seq<char>, int)>) -> Option<
    (Seq<char>, int),
> {
    match rest {
        None => None,
        Some((t, j)) => Some((pre + t, j)),
    }
}

/// Prepends members to a member-list parse.
pub open spec fn sp_prepend_pairs(
    pre: Seq<(Seq<char>, Seq<char>)>,
    rest: Option<(Seq<(Seq<char>, Seq<char>)>, int)>,
) -> Option<(Seq<(Seq<char>, Seq<char>)>, int)> {
    match rest {
        None => None,
        Some((m, j)) => Some((pre + m, j)),
    }
}

/// The numeric value of a hexadecimal digit character.
fn hex_val_exec(c: char) -> (r: Option<u32>)
    ensures
        match r {
            Some(v) => hex_val(c) == v && v < 16,
            None => hex_val(c) < 0,
        },
{
    let u = c as u32;
    if 48 <= u && u <= 57 {
        Some(u - 48)
    } else if 97 <= u && u <= 102 {
        Some(u - 87)
    } else if 65 <= u && u <= 70 {
        Some(u - 55)
    } else {
        None
    }
}

/// Relies on std's `char::from_u32`: every value below the surrogate range
/// is a Unicode scalar value and yields the character with that value.
#[verifier::external_body]
fn char_from_code(u: u32) -> (c: char)
    requires
        u < 0xD800,
    ensures
        c as u32 == u,
{
    char::from_u32(u).unwrap_or(' ')
}

/// Parses a JSON string literal starting at `i`; returns the decoded
/// characters and the index past the closing quote.
pub fn parse_string(s: &Vec<char>, i: usize) -> (r: Result<(Vec<char>, usize), ()>)
    requires
        parse_len_ok(s@),
    ensures
        match r {
            Ok(p) => sp_string(s@, i as int) == Some((p.0@, p.1 as int)),
            Err(()) => sp_string(s@, i as int) is None,
        },
{
    if i >= s.len() || s[i] != '"' {
        return Err(());
    }
    let mut acc: Vec<char> = Vec::new();
    let mut cur: usize = i + 1;
    proof {
        assert(acc@ + Seq::<char>::empty() =~= acc@);
    }
    while cur <= s.len()
        invariant
            parse_len_ok(s@),
            i < s@.len(),
            s@[i as int] == '"',
            i + 1 <= cur <= s@.len() + 1,
            sp_string_body(s@, (i + 1) as int) == sp_prepend(acc@, sp_string_body(s@, cur as int)),
        decreases s@.len() + 1 - cur,
    {
        if cur >= s.len() {
            return Err(());
        }
        let c = s[cur];
        if c == '"' {
            let j = cur + 1;
            proof {
                assert(sp_string_body(s@, cur as int) == Some((Seq::<char>::empty(), j as int)));
                assert(acc@ + Seq::<char>::empty() =~= acc@);
            }
            return Ok((acc, j));
        }
        if c == '\\' {
            if cur + 1 >= s.len() {
                return Err(());
            }
            let e = s[cur + 1];
            let d: char;
            let adv: usize;
            if e == '"' || e == '\\' || e == '/' {
                d = e;
                adv = 2;
            } else if e == 'n' {
                d = '\n';
                adv = 2;
            } else if e == 't' {
                d = '\t';
                adv = 2;
            } else if e == 'r' {
                d = '\r';
                adv = 2;
            } else if e == 'b' {
                d = '\u{8}';
                adv = 2;
            } else if e == 'f' {
                d = '\u{c}';
                adv = 2;
            } else if e == 'u' {
                if cur + 5 >= s.len() {
                    return Err(());
                }
                let h0 = hex_val_exec(s[cur + 2]);
                let h1 = hex_val_exec(s[cur + 3]);
                let h2 = hex_val_exec(s[cur + 4]);
                let h3 = hex_val_exec(s[cur + 5]);
                match (h0, h1, h2, h3) {
                    (Some(a), Some(b), Some(cc), Some(dd)) => {
                        let v = a * 4096 + b * 256 + cc * 16 + dd;
                        if v >= 0xD800 {
                            return Err(());
                        }
                        d = char_from_code(v);
                        adv = 6;
                    },
                    _ => {
                        return Err(());
                    },
                }
            } else {
                return Err(());
            }
            let ghost old_acc = acc@;
            acc.push(d);
            proof {
                assert(sp_string_body(s@, cur as int) == sp_cons(
                    d,
                    sp_string_body(s@, cur + adv),
                ));
                assert forall|t: Seq<char>, j: int|
                    sp_string_body(s@, cur + adv) == Some::<(Seq<char>, int)>((t, j)) implies (
                old_acc + (seq![d] + t)) =~= (acc@ + t) by {}
                assert(sp_prepend(old_acc, sp_string_body(s@, cur as int)) == sp_prepend(
                    acc@,
                    sp_string_body(s@, cur + adv),
                ));
            }
            cur = cur + adv;
        } else if (c as u32) < 32 {
            return Err(());
        } else {
            let ghost old_acc = acc@;
            acc.push(c);
            proof {
                assert(sp_string_body(s@, cur as int) == sp_cons(
                    c,
                    sp_string_body(s@, cur + 1),
                ));
                assert forall|t: Seq<char>, j: int|
                    sp_string_body(s@, cur + 1) == Some::<(Seq<char>, int)>((t, j)) implies (
                old_acc + (seq![c] + t)) =~= (acc@ + t) by {}
                assert(sp_prepend(old_acc, sp_string_body(s@, cur as int)) == sp_prepend(
                    acc@,
                    sp_string_body(s@, cur + 1),
                ));
            }
            cur = cur + 1;
        }
    }
    Err(())
}

/// Whether `c` may appear in a JSON number token.
fn is_num_char_exec(c: char) -> (r: bool)
    ensures
        r == is_num_char(c),
{
    let u = c as u32;
    (48 <= u && u <= 57) || c == '-' || c == '+' || c == '.' || c == 'e' || c == 'E'
}

/// Parses a JSON number token starting at `i`; returns its raw text and
/// its end.
pub fn parse_number(s: &Vec<char>, i: usize) -> (r: Result<(Vec<char>, usize), ()>)
    requires
        parse_len_ok(s@),
        i <= s@.len(),
    ensures
        match r {
            Ok(p) => sp_number(s@, i as int) == Some((p.0@, p.1 as int)),
            Err(()) => sp_number(s@, i as int) is None,
        },
{
    let mut cur: usize = i;
    while cur < s.len() && is_num_char_exec(s[cur])
        invariant
            i <= cur <= s@.len(),
            num_end(s@, i as int) == num_end(s@, cur as int),
        decreases s@.len() - cur,
    {
        cur = cur + 1;
    }
    proof {
        assert(num_end(s@, cur as int) == cur);
    }
    if cur == i {
        return Err(());
    }
    let mut raw: Vec<char> = Vec::new();
    let mut k: usize = i;
    while k < cur
        invariant
            i <= k <= cur <= s@.len(),
            raw@ == s@.subrange(i as int, k as int),
        decreases cur - k,
    {
        raw.push(s[k]);
        k = k + 1;
        proof {
            assert(raw@ =~= s@.subrange(i as int, k as int));
        }
    }
    Ok((raw, cur))
}

/// Parses an object whose values are all strings, starting at its `{`.
pub fn parse_strmap(s: &Vec<char>, i: usize) -> (r: Result<(Vec<(String, String)>, usize), ()>)
    requires
        parse_len_ok(s@),
        i <= s@.len(),
    ensures
        match r {
            Ok(p) => sp_strmap(s@, i as int) == Some((p.0.deep_view(), p.1 as int)),
            Err(()) => sp_strmap(s@, i as int) is None,
        },
{
    if !(i + 1 < s.len() && s[i] == '{') {
        return Err(());
    }
    if s[i + 1] == '}' {
        let empty: Vec<(String, String)> = Vec::new();
        proof {
            assert(empty.deep_view() =~= Seq::<(Seq<char>, Seq<char>)>::empty());
        }
        return Ok((empty, i + 2));
    }
    let mut acc: Vec<(String, String)> = Vec::new();
    let mut cur: usize = i + 1;
    proof {
        assert(acc.deep_view() =~= Seq::<(Seq<char>, Seq<char>)>::empty());
    }
    loop
        invariant
            parse_len_ok(s@),
            i + 1 < s@.len(),
            s@[i as int] == '{',
            s@[i + 1] != '}',
            i + 1 <= cur <= s@.len(),
            sp_members(s@, (i + 1) as int) == sp_prepend_pairs(
                acc.deep_view(),
                sp_members(s@, cur as int),
            ),
        decreases s@.len() - cur,
    {
        let k = match parse_string(s, cur) {
            Ok(p) => p,
            Err(()) => {
                return Err(());
            },
        };
        proof {
            lemma_sp_string_bounds(s@, cur as int);
        }
        let j = k.1;
        if j >= s.len() || s[j] != ':' {
            return Err(());
        }
        let v = match parse_string(s, j + 1) {
            Ok(p) => p,
            Err(()) => {
                return Err(());
            },
        };
        proof {
            lemma_sp_string_bounds(s@, j + 1);
        }
        let j2 = v.1;
        if j2 >= s.len() {
            return Err(());
        }
        let key = from_chars(&k.0);
        let val = from_chars(&v.0);
        let ghost old_acc = acc.deep_view();
        let ghost kv = (k.0@, v.0@);
        if s[j2] == ',' {
            acc.push((key, val));
            proof {
                assert(acc.deep_view() =~~= old_acc + seq![kv]);
                assert forall|m: Seq<(Seq<char>, Seq<char>)>, jj: int|
                    sp_members(s@, j2 + 1) == Some::<(Seq<(Seq<char>, Seq<char>)>, int)>(
                        (m, jj),
                    ) implies (old_acc + (seq![kv] + m)) =~= (acc.deep_view() + m) by {}
                assert(sp_prepend_pairs(old_acc, sp_members(s@, cur as int)) == sp_prepend_pairs(
                    acc.deep_view(),
                    sp_members(s@, j2 + 1),
                ));
            }
            cur = j2 + 1;
        } else if s[j2] == '}' {
            acc.push((key, val));
            proof {
                assert(acc.deep_view() =~~= old_acc + seq![kv]);
                assert(sp_members(s@, cur as int) == Some::<(Seq<(Seq<char>, Seq<char>)>, int)>(
                    (seq![kv], j2 + 1),
                ));
                assert(old_acc + seq![kv] =~= acc.deep_view());
            }
            return Ok((acc, j2 + 1));
        } else {
            return Err(());
        }
    }
}

/// Whether `null` stands at `i`; returns the index past it.
pub fn parse_null(s: &Vec<char>, i: usize) -> (r: Result<usize, ()>)
    requires
        parse_len_ok(s@),
        i <= s@.len(),
    ensures
        match r {
            Ok(j) => sp_null(s@, i as int) == Some(j as int),
            Err(()) => sp_null(s@, i as int) is None,
        },
{
    if i + 4 <= s.len() && s[i] == 'n' && s[i + 1] == 'u' && s[i + 2] == 'l' && s[i + 3] == 'l' {
        Ok(i + 4)
    } else {
        Err(())
    }
}

/// Whether `true` or `false` stands at `i`; returns the index past it.
fn parse_bool(s: &Vec<char>, i: usize) -> (r: Result<usize, ()>)
    requires
        parse_len_ok(s@),
        i <= s@.len(),
    ensures
        match r {
            Ok(j) => sp_bool(s@, i as int) == Some(j as int),
            Err(()) => sp_bool(s@, i as int) is None,
        },
{
    if i + 4 <= s.len() && s[i] == 't' && s[i + 1] == 'r' && s[i + 2] == 'u' && s[i + 3] == 'e' {
        Ok(i + 4)
    } else if i + 5 <= s.len() && s[i] == 'f' && s[i + 1] == 'a' && s[i + 2] == 'l' && s[i + 3]
        == 's' && s[i + 4] == 'e' {
        Ok(i + 5)
    } else {
        Err(())
    }
}

/// Skips the JSON value starting at `i`, whatever its kind; returns the
/// index past it.
pub fn skip_value(s: &Vec<char>, i: usize) -> (r: Result<usize, ()>)
    requires
        parse_len_ok(s@),
    ensures
        match r {
            Ok(j) => sp_skip_value(s@, i as int) == Some(j as int) && i < j <= s@.len(),
            Err(()) => sp_skip_value(s@, i as int) is None,
        },
    decreases s@.len() - i, 0int,
{
    proof {
        lemma_sp_skip_value_bounds(s@, i as int);
    }
    if i >= s.len() {
        return Err(());
    }
    let c = s[i];
    if c == '"' {
        match parse_string(s, i) {
            Ok(p) => Ok(p.1),
            Err(()) => Err(()),
        }
    } else if is_num_char_exec(c) {
        match parse_number(s, i) {
            Ok(p) => Ok(p.1),
            Err(()) => Err(()),
        }
    } else if c == 'n' {
        parse_null(s, i)
    } else if c == 't' || c == 'f' {
        parse_bool(s, i)
    } else if c == '[' {
        skip_elems(s, i + 1)
    } else if c == '{' {
        skip_fields(s, i + 1)
    } else {
        Err(())
    }
}

/// Skips array elements from just after `[` or a comma.
fn skip_elems(s: &Vec<char>, i: usize) -> (r: Result<usize, ()>)
    requires
        parse_len_ok(s@),
    ensures
        match r {
            Ok(j) => sp_skip_elems(s@, i as int) == Some(j as int) && i < j <= s@.len(),
            Err(()) => sp_skip_elems(s@, i as int) is None,
        },
    decreases s@.len() - i, 1int,
{
    proof {
        lemma_sp_skip_elems_bounds(s@, i as int);
    }
    if i >= s.len() {
        return Err(());
    }
    if s[i] == ']' {
        return Ok(i + 1);
    }
    let j = match skip_value(s, i) {
        Ok(j) => j,
        Err(()) => {
            return Err(());
        },
    };
    if j >= s.len() {
        return Err(());
    }
    if s[j] == ',' {
        skip_elems(s, j + 1)
    } else if s[j] == ']' {
        Ok(j + 1)
    } else {
        Err(())
    }
}

/// Skips object members from just after `{` or a comma.
fn skip_fields(s: &Vec<char>, i: usize) -> (r: Result<usize, ()>)
    requires
        parse_len_ok(s@),
    ensures
        match r {
            Ok(j) => sp_skip_fields(s@, i as int) == Some(j as int) && i < j <= s@.len(),
            Err(()) => sp_skip_fields(s@, i as int) is None,
        },
    decreases s@.len() - i, 1int,
{
    proof {
        lemma_sp_skip_fields_bounds(s@, i as int);
    }
    if i >= s.len() {
        return Err(());
    }
    if s[i] == '}' {
        return Ok(i + 1);
    }
    let k = match parse_string(s, i) {
        Ok(p) => p,
        Err(()) => {
            return Err(());
        },
    };
    proof {
        lemma_sp_string_bounds(s@, i as int);
    }
    let j = k.1;
    if j >= s.len() || s[j] != ':' {
        return Err(());
    }
    let j2 = match skip_value(s, j + 1) {
        Ok(j2) => j2,
        Err(()) => {
            return Err(());
        },
    };
    if j2 >= s.len() {
        return Err(());
    }
    if s[j2] == ',' {
        skip_fields(s, j2 + 1)
    } else if s[j2] == '}' {
        Ok(j2 + 1)
    } else {
        Err(())
    }
}

pub proof fn lemma_sp_skip_fields_bounds(s: Seq<char>, i: int)
    ensures
        match sp_skip_fields(s, i) {
            Some(j) => i < j <= s.len(),
            None => true,
        },
    decreases s.len() - i, 1int,
{
    if 0 <= i < s.len() && s[i] != '}' {
        lemma_sp_string_bounds(s, i);
        match sp_string(s, i) {
            None => {},
            Some((k, j)) => {
                if i < j && j < s.len() && s[j] == ':' {
                    lemma_sp_skip_value_bounds(s, j + 1);
                    match sp_skip_value(s, j + 1) {
                        None => {},
                        Some(j2) => {
                            if j + 1 < j2 && j2 < s.len() && s[j2] == ',' {
                                lemma_sp_skip_fields_bounds(s, j2 + 1);
                            }
                        },
                    }
                }
            },
        }
    }
}

} // verus!
