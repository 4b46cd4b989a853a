//! The bundler: collapses a multi-file project into one self-invoking
//! script expression that evaluates to an object of the entry module's
//! exported handlers. Sources are read through a `ModuleLoader`; each
//! module's import lines are resolved and bundled first, then its body
//! lines are emitted once (so cyclic graphs terminate), and the entry's
//! exports close the expression. What each loaded text contributes is
//! specified line by line: `module_emission` and `module_exports` below
//! are the meaning of one source, and the bundle is exactly prologue,
//! contributions, export object, epilogue.
use vstd::prelude::*;

use crate::strutil::{chars_eq, from_chars, to_chars};

verus! {

broadcast use crate::strutil::lemma_vec_char_deep_view;

/// A resolved module path.
pub type ModulePath = String;

/// The source text of one module.
pub type ModuleSource = String;

/// Defines the interface of a module loader.
pub trait ModuleLoader {
    /// The source of the module at `specifier`.
    fn load(&self, specifier: &str) -> Result<ModuleSource, String>;

    /// The path that `specifier` denotes, relative to `base`.
    fn resolve(&self, base: Option<&str>, specifier: &str) -> Result<ModulePath, String>;
}

/// Bundling options; carries defaults for now.
#[derive(Default)]
pub struct Options {
}

/// True for the characters trimmed from line ends.
pub open spec fn blank(c: char) -> bool {
    c == ' ' || c == '\t' || c == '\r'
}

/// `l` without leading blanks.
pub open spec fn sp_trim_front(l: Seq<char>) -> Seq<char>
    decreases l.len(),
{
    if l.len() > 0 && blank(l[0]) {
        sp_trim_front(l.drop_first())
    } else {
        l
    }
}

/// `l` without trailing blanks.
pub open spec fn sp_trim_back(l: Seq<char>) -> Seq<char>
    decreases l.len(),
{
    if l.len() > 0 && blank(l.last()) {
        sp_trim_back(l.drop_last())
    } else {
        l
    }
}

/// `l` without leading or trailing blanks.
pub open spec fn sp_trim(l: Seq<char>) -> Seq<char> {
    sp_trim_back(sp_trim_front(l))
}

/// The characters of `v` with leading and trailing blanks removed.
fn trim_chars(v: &Vec<char>) -> (out: Vec<char>)
    ensures
        out@ == sp_trim(v@),
{
    let mut a: usize = 0;
    proof {
        assert(v@.skip(0) =~= v@);
    }
    while a < v.len() && (v[a] == ' ' || v[a] == '\t' || v[a] == '\r')
        invariant
            a <= v@.len(),
            sp_trim_front(v@) == sp_trim_front(v@.skip(a as int)),
        decreases v@.len() - a,
    {
        proof {
            assert(v@.skip(a as int)[0] == v@[a as int]);
            assert(v@.skip(a as int).drop_first() =~= v@.skip(a + 1));
        }
        a += 1;
    }
    proof {
        if a < v@.len() {
            assert(v@.skip(a as int)[0] == v@[a as int]);
        }
        assert(sp_trim_front(v@) == v@.skip(a as int));
    }
    let ghost w = v@.skip(a as int);
    let mut b: usize = v.len();
    proof {
        assert(v@.subrange(a as int, v@.len() as int) =~= w);
    }
    while b > a && (v[b - 1] == ' ' || v[b - 1] == '\t' || v[b - 1] == '\r')
        invariant
            a <= b <= v@.len(),
            w == v@.skip(a as int),
            sp_trim_back(w) == sp_trim_back(v@.subrange(a as int, b as int)),
        decreases b,
    {
        proof {
            assert(v@.subrange(a as int, b as int).last() == v@[b - 1]);
            assert(v@.subrange(a as int, b as int).drop_last() =~= v@.subrange(
                a as int,
                b - 1,
            ));
        }
        b -= 1;
    }
    proof {
        if b > a {
            assert(v@.subrange(a as int, b as int).last() == v@[b - 1]);
        }
        assert(sp_trim_back(w) == v@.subrange(a as int, b as int));
    }
    let mut out: Vec<char> = Vec::new();
    let mut i: usize = a;
    while i < b
        invariant
            a <= i <= b <= v@.len(),
            out@ == v@.subrange(a as int, i as int),
        decreases b - i,
    {
        out.push(v[i]);
        i += 1;
        proof {
            assert(out@ =~= v@.subrange(a as int, i as int));
        }
    }
    out
}

/// Index of the first newline in `s` at or after 0, or `s.len()`.
pub open spec fn first_nl(s: Seq<char>) -> int
    decreases s.len(),
{
    if s.len() == 0 {
        0
    } else if s[0] == '\n' {
        0
    } else {
        1 + first_nl(s.drop_first())
    }
}

pub proof fn lemma_first_nl(s: Seq<char>)
    ensures
        0 <= first_nl(s) <= s.len(),
        forall|j: int| 0 <= j < first_nl(s) ==> s[j] != '\n',
        first_nl(s) < s.len() ==> s[first_nl(s)] == '\n',
    decreases s.len(),
{
    if s.len() > 0 && s[0] != '\n' {
        lemma_first_nl(s.drop_first());
        assert forall|j: int| 0 <= j < first_nl(s) implies s[j] != '\n' by {
            if j > 0 {
                assert(s.drop_first()[j - 1] == s[j]);
            }
        }
    }
}

/// `first_nl`, clipped into `[0, s.len()]`.
pub open spec fn first_nl_bounded(s: Seq<char>) -> int {
    if 0 <= first_nl(s) <= s.len() {
        first_nl(s)
    } else {
        s.len() as int
    }
}

/// The lines of a source text, split at every newline.
pub open spec fn sp_lines(s: Seq<char>) -> Seq<Seq<char>>
    decreases s.len(),
{
    let i = first_nl_bounded(s);
    if i == s.len() {
        seq![s]
    } else {
        seq![s.subrange(0, i)] + sp_lines(s.subrange(i + 1, s.len() as int))
    }
}

/// Splitting a text that opens with a newline-free prefix `p`.
pub proof fn lemma_lines_prefix(p: Seq<char>, q: Seq<char>)
    requires
        forall|j: int| 0 <= j < p.len() ==> p[j] != '\n',
        q.len() == 0 || q[0] == '\n',
    ensures
        first_nl(p + q) == p.len(),
        q.len() == 0 ==> sp_lines(p + q) == seq![p],
        q.len() > 0 ==> sp_lines(p + q) == seq![p] + sp_lines(q.subrange(1, q.len() as int)),
    decreases p.len(),
{
    lemma_first_nl(p + q);
    if p.len() == 0 {
        assert(p + q =~= q);
        if q.len() == 0 {
            assert(sp_lines(p + q) =~= seq![p]);
        } else {
            assert(first_nl(q) == 0);
            assert(sp_lines(q) == seq![q.subrange(0, 0)] + sp_lines(q.subrange(1, q.len() as int)));
            assert(q.subrange(0, 0) =~= p);
        }
    } else {
        let s = p + q;
        assert(s[0] == p[0]);
        assert(s[0] != '\n');
        assert(first_nl(s) == 1 + first_nl(s.drop_first()));
        assert(s.drop_first() =~= p.drop_first() + q);
        lemma_lines_prefix(p.drop_first(), q);
        assert(first_nl(s) == p.len());
        if q.len() == 0 {
            assert(first_nl(s) == s.len());
            assert(sp_lines(s) == seq![s]);
            assert(s =~= p);
        } else {
            assert(first_nl(s) < s.len());
            assert(sp_lines(s) == seq![s.subrange(0, p.len() as int)] + sp_lines(
                s.subrange(p.len() as int + 1, s.len() as int),
            ));
            assert(s.subrange(0, p.len() as int) =~= p);
            assert(s.subrange(p.len() as int + 1, s.len() as int) =~= q.subrange(
                1,
                q.len() as int,
            ));
        }
    }
}

/// Splits `s` into its lines.
fn split_lines(s: &Vec<char>) -> (out: Vec<Vec<char>>)
    ensures
        out.deep_view() == sp_lines(s@),
{
    let mut done: Vec<Vec<char>> = Vec::new();
    let mut cur: Vec<char> = Vec::new();
    let mut i: usize = 0;
    proof {
        assert(cur@ + s@.skip(0) =~= s@);
        assert(done.deep_view() + sp_lines(s@) =~= sp_lines(s@));
    }
    while i < s.len()
        invariant
            i <= s@.len(),
            forall|j: int| 0 <= j < cur@.len() ==> cur@[j] != '\n',
            sp_lines(s@) == done.deep_view() + sp_lines(cur@ + s@.skip(i as int)),
        decreases s@.len() - i,
    {
        let c = s[i];
        if c == '\n' {
            proof {
                lemma_lines_prefix(cur@, s@.skip(i as int));
                assert((cur@ + s@.skip(i as int)).subrange(
                    cur@.len() as int + 1,
                    (cur@ + s@.skip(i as int)).len() as int,
                ) =~= s@.skip(i as int).subrange(1, s@.skip(i as int).len() as int));
                assert(s@.skip(i as int).subrange(1, s@.skip(i as int).len() as int) =~= s@.skip(
                    i + 1,
                ));
            }
            let ghost old_done = done.deep_view();
            let ghost old_cur = cur@;
            done.push(cur);
            cur = Vec::new();
            proof {
                assert(done.deep_view() =~~= old_done + seq![old_cur]);
                assert(cur@ + s@.skip(i + 1) =~= s@.skip(i + 1));
                assert(done.deep_view() + sp_lines(s@.skip(i + 1)) =~~= old_done + (seq![old_cur]
                    + sp_lines(s@.skip(i + 1))));
                assert(done.deep_view() + sp_lines(s@.skip(i + 1)) =~~= sp_lines(s@));
            }
        } else {
            let ghost oldcur = cur@;
            cur.push(c);
            proof {
                assert(cur@ + s@.skip(i + 1) =~= oldcur + s@.skip(i as int));
            }
        }
        i += 1;
    }
    proof {
        assert(cur@ + s@.skip(i as int) =~= cur@);
        lemma_lines_prefix(cur@, Seq::<char>::empty());
        assert(cur@ + Seq::<char>::empty() =~= cur@);
        assert(sp_lines(cur@) == seq![cur@]);
    }
    let ghost old_done = done.deep_view();
    let ghost old_cur = cur@;
    done.push(cur);
    proof {
        assert(done.deep_view() =~~= old_done + seq![old_cur]);
        assert(done.deep_view() =~~= sp_lines(s@));
    }
    done
}

/// The spelling of the `import` keyword.
pub open spec fn kw_import_chars() -> Seq<char> {
    seq!['i', 'm', 'p', 'o', 'r', 't']
}

/// The spelling that opens a default export line.
pub open spec fn kw_export_default_chars() -> Seq<char> {
    seq!['e', 'x', 'p', 'o', 'r', 't', ' ', 'd', 'e', 'f', 'a', 'u', 'l', 't', ' ']
}

/// The spelling that opens an export declaration line.
pub open spec fn kw_export_chars() -> Seq<char> {
    seq!['e', 'x', 'p', 'o', 'r', 't', ' ']
}

/// The spelling of the default export's name.
pub open spec fn default_name_chars() -> Seq<char> {
    seq!['d', 'e', 'f', 'a', 'u', 'l', 't']
}

/// A trimmed line that is an import statement.
pub open spec fn is_import_line(l: Seq<char>) -> bool {
    l.len() >= 6 && l.take(6) == kw_import_chars()
}

/// A trimmed line that is a default export.
pub open spec fn is_export_default_line(l: Seq<char>) -> bool {
    l.len() >= 15 && l.take(15) == kw_export_default_chars()
}

/// A trimmed line that is an export declaration.
pub open spec fn is_export_line(l: Seq<char>) -> bool {
    l.len() >= 7 && l.take(7) == kw_export_chars()
}

/// Whether `v` starts with `p`.
fn starts_with(v: &Vec<char>, p: &Vec<char>) -> (r: bool)
    ensures
        r == (v@.len() >= p@.len() && v@.take(p@.len() as int) == p@),
{
    if v.len() < p.len() {
        return false;
    }
    let mut i: usize = 0;
    while i < p.len()
        invariant
            p@.len() <= v@.len(),
            i <= p@.len(),
            forall|j: int| 0 <= j < i ==> v@[j] == p@[j],
        decreases p@.len() - i,
    {
        if v[i] != p[i] {
            assert(v@.take(p@.len() as int)[i as int] != p@[i as int]);
            return false;
        }
        i += 1;
    }
    proof {
        assert(v@.take(p@.len() as int) =~= p@);
    }
    true
}

/// Index of the first `"` in `l` at or after `i`, or `l.len()`.
pub open spec fn first_quote(l: Seq<char>, i: int) -> int
    decreases l.len() - i,
{
    if i < 0 || i >= l.len() {
        l.len() as int
    } else if l[i] == '"' {
        i
    } else {
        first_quote(l, i + 1)
    }
}

/// The specifier of an import line: the text between its first two
/// quotes, if it has two.
pub open spec fn sp_quoted(l: Seq<char>) -> Option<Seq<char>> {
    let q1 = first_quote(l, 0);
    if q1 >= l.len() {
        None
    } else {
        let q2 = first_quote(l, q1 + 1);
        if q2 >= l.len() {
            None
        } else {
            Some(l.subrange(q1 + 1, q2))
        }
    }
}

/// The text between the first two `"` quotes of `v`, if there are two.
fn quoted_part(v: &Vec<char>) -> (r: Option<Vec<char>>)
    ensures
        match r {
            Some(q) => sp_quoted(v@) == Some(q@),
            None => sp_quoted(v@) is None,
        },
{
    let mut i: usize = 0;
    while i < v.len() && v[i] != '"'
        invariant
            i <= v@.len(),
            first_quote(v@, 0) == first_quote(v@, i as int),
        decreases v@.len() - i,
    {
        i += 1;
    }
    proof {
        assert(first_quote(v@, 0) == i);
    }
    if i >= v.len() {
        return None;
    }
    let mut out: Vec<char> = Vec::new();
    let mut j: usize = i + 1;
    while j < v.len() && v[j] != '"'
        invariant
            i + 1 <= j <= v@.len(),
            first_quote(v@, i + 1) == first_quote(v@, j as int),
            out@ == v@.subrange(i + 1, j as int),
        decreases v@.len() - j,
    {
        out.push(v[j]);
        j += 1;
        proof {
            assert(out@ =~= v@.subrange(i + 1, j as int));
        }
    }
    proof {
        assert(first_quote(v@, i + 1) == j);
    }
    if j >= v.len() {
        return None;
    }
    Some(out)
}

/// A trimmed binding with a trailing `;` removed.
pub open spec fn sp_drop_semi(t: Seq<char>) -> Seq<char> {
    if t.len() > 0 && t.last() == ';' {
        sp_trim(t.drop_last())
    } else {
        t
    }
}

/// The binding named after a keyword of `from` characters: the rest of
/// the line, trimmed, without a trailing semicolon.
pub open spec fn sp_binding(l: Seq<char>, from: int) -> Seq<char> {
    sp_drop_semi(sp_trim(l.skip(from)))
}

/// The characters of `v` from `from` on, trimmed, without a trailing `;`.
fn binding_part(v: &Vec<char>, from: usize) -> (out: Vec<char>)
    requires
        from <= v@.len(),
    ensures
        out@ == sp_binding(v@, from as int),
{
    let t = binding_part_raw(v, from);
    if t.len() > 0 && t[t.len() - 1] == ';' {
        let mut u: Vec<char> = Vec::new();
        let mut k: usize = 0;
        while k < t.len() - 1
            invariant
                t@.len() >= 1,
                k <= t@.len() - 1,
                u@ == t@.subrange(0, k as int),
            decreases t@.len() - 1 - k,
        {
            u.push(t[k]);
            k += 1;
            proof {
                assert(u@ =~= t@.subrange(0, k as int));
            }
        }
        proof {
            assert(u@ =~= t@.drop_last());
        }
        trim_chars(&u)
    } else {
        t
    }
}

/// The characters of `v` from `from` on, trimmed.
fn binding_part_raw(v: &Vec<char>, from: usize) -> (out: Vec<char>)
    requires
        from <= v@.len(),
    ensures
        out@ == sp_trim(v@.skip(from as int)),
{
    let mut out: Vec<char> = Vec::new();
    let mut i: usize = from;
    while i < v.len()
        invariant
            from <= i <= v@.len(),
            out@ == v@.subrange(from as int, i as int),
        decreases v@.len() - i,
    {
        out.push(v[i]);
        i += 1;
        proof {
            assert(out@ =~= v@.subrange(from as int, i as int));
        }
    }
    proof {
        assert(out@ =~= v@.skip(from as int));
    }
    trim_chars(&out)
}

/// The marker before a declared function's name.
pub open spec fn fn_marker_chars() -> Seq<char> {
    seq!['f', 'u', 'n', 'c', 't', 'i', 'o', 'n', ' ']
}

/// Index of the first `function ` marker in `l` at or after `i`, or `-1`.
pub open spec fn find_fn_marker(l: Seq<char>, i: int) -> int
    decreases l.len() - i,
{
    if i < 0 || i + 9 > l.len() {
        -1
    } else if l.subrange(i, i + 9) == fn_marker_chars() {
        i
    } else {
        find_fn_marker(l, i + 1)
    }
}

/// End of the identifier starting at `k`: the first `(`, space or end.
pub open spec fn name_end(l: Seq<char>, k: int) -> int
    decreases l.len() - k,
{
    if 0 <= k < l.len() && l[k] != '(' && l[k] != ' ' {
        name_end(l, k + 1)
    } else {
        k
    }
}

pub proof fn lemma_name_end(l: Seq<char>, k: int)
    requires
        0 <= k <= l.len(),
    ensures
        k <= name_end(l, k) <= l.len(),
    decreases l.len() - k,
{
    if k < l.len() && l[k] != '(' && l[k] != ' ' {
        lemma_name_end(l, k + 1);
    }
}

/// The identifier following the first `function ` marker of `l`, if that
/// marker is there and an identifier follows it.
pub open spec fn sp_fn_name(l: Seq<char>) -> Option<Seq<char>> {
    let i = find_fn_marker(l, 0);
    if i < 0 {
        None
    } else {
        let e = name_end(l, i + 9);
        if e == i + 9 {
            None
        } else {
            Some(l.subrange(i + 9, e))
        }
    }
}

/// The identifier following `function ` in a declaration, if one is
/// there.
fn declared_fn_name(v: &Vec<char>) -> (r: Option<Vec<char>>)
    ensures
        match r {
            Some(n) => sp_fn_name(v@) == Some(n@),
            None => sp_fn_name(v@) is None,
        },
{
    let marker: Vec<char> = vec!['f', 'u', 'n', 'c', 't', 'i', 'o', 'n', ' '];
    proof {
        assert(marker@ =~= fn_marker_chars());
    }
    let mut i: usize = 0;
    while i < v.len()
        invariant
            marker@ == fn_marker_chars(),
            i <= v@.len(),
            find_fn_marker(v@, 0) == find_fn_marker(v@, i as int),
        decreases v@.len() - i,
    {
        if v.len() - i < 9 {
            proof {
                assert(find_fn_marker(v@, i as int) == -1);
            }
            return None;
        }
        let mut m: usize = 0;
        let mut all = true;
        while m < marker.len()
            invariant
                marker@ == fn_marker_chars(),
                i + marker@.len() <= v@.len(),
                v@.len() <= usize::MAX,
                m <= marker@.len(),
                all ==> forall|j: int| 0 <= j < m ==> v@[i + j] == marker@[j],
                !all ==> v@.subrange(i as int, i + 9) != fn_marker_chars(),
            decreases marker@.len() - m,
        {
            if v[i + m] != marker[m] {
                proof {
                    assert(v@.subrange(i as int, i + 9)[m as int] != fn_marker_chars()[m as int]);
                }
                all = false;
            }
            m += 1;
        }
        if all {
            proof {
                assert(v@.subrange(i as int, i + 9) =~= fn_marker_chars());
                assert(find_fn_marker(v@, i as int) == i);
            }
            let mut out: Vec<char> = Vec::new();
            let mut k: usize = i + 9;
            while k < v.len() && v[k] != '(' && v[k] != ' '
                invariant
                    i + 9 <= k <= v@.len(),
                    name_end(v@, i + 9) == name_end(v@, k as int),
                    out@ == v@.subrange(i + 9, k as int),
                decreases v@.len() - k,
            {
                out.push(v[k]);
                k += 1;
                proof {
                    assert(out@ =~= v@.subrange(i + 9, k as int));
                }
            }
            proof {
                assert(name_end(v@, k as int) == k);
            }
            if out.len() > 0 {
                return Some(out);
            }
            return None;
        }
        proof {
            assert(find_fn_marker(v@, i as int) == find_fn_marker(v@, i + 1));
        }
        i += 1;
    }
    proof {
        assert(find_fn_marker(v@, i as int) == -1);
    }
    None
}

/// What one trimmed line contributes to its module's body: nothing for
/// blanks, imports and default exports; the declaration without its
/// `export ` prefix for exports; the line itself otherwise.
pub open spec fn line_emit(l: Seq<char>) -> Seq<char> {
    if l.len() == 0 || is_import_line(l) || is_export_default_line(l) {
        Seq::empty()
    } else if is_export_line(l) {
        sp_trim(l.skip(7))
    } else {
        l
    }
}

/// The export one trimmed line declares: `default` bound to the named
/// value, or a named function bound to itself.
pub open spec fn line_export(l: Seq<char>) -> Option<(Seq<char>, Seq<char>)> {
    if l.len() == 0 || is_import_line(l) {
        None
    } else if is_export_default_line(l) {
        Some((default_name_chars(), sp_binding(l, 15)))
    } else if is_export_line(l) {
        match sp_fn_name(sp_trim(l.skip(7))) {
            Some(n) => Some((n, n)),
            None => None,
        }
    } else {
        None
    }
}

/// The body text a list of lines contributes, in order.
pub open spec fn emit_of_lines(ls: Seq<Seq<char>>) -> Seq<char>
    decreases ls.len(),
{
    if ls.len() == 0 {
        Seq::empty()
    } else {
        line_emit(sp_trim(ls[0])) + emit_of_lines(ls.drop_first())
    }
}

pub proof fn lemma_emit_snoc(ls: Seq<Seq<char>>, x: Seq<char>)
    ensures
        emit_of_lines(ls.push(x)) == emit_of_lines(ls) + line_emit(sp_trim(x)),
    decreases ls.len(),
{
    if ls.len() == 0 {
        let p = ls.push(x);
        assert(p[0] == x);
        assert(p.drop_first() =~= Seq::<Seq<char>>::empty());
        assert(emit_of_lines(Seq::<Seq<char>>::empty()) == Seq::<char>::empty());
        assert(emit_of_lines(p) =~= emit_of_lines(ls) + line_emit(sp_trim(x)));
    } else {
        assert(ls.push(x)[0] == ls[0]);
        assert(ls.push(x).drop_first() =~= ls.drop_first().push(x));
        lemma_emit_snoc(ls.drop_first(), x);
        assert(emit_of_lines(ls.push(x)) =~= emit_of_lines(ls) + line_emit(sp_trim(x)));
    }
}

/// The exports a list of lines declares, in order.
pub open spec fn exports_of_lines(ls: Seq<Seq<char>>) -> Seq<(Seq<char>, Seq<char>)>
    decreases ls.len(),
{
    if ls.len() == 0 {
        Seq::empty()
    } else {
        (match line_export(sp_trim(ls[0])) {
            Some(p) => seq![p],
            None => Seq::<(Seq<char>, Seq<char>)>::empty(),
        }) + exports_of_lines(ls.drop_first())
    }
}

pub proof fn lemma_exports_snoc(ls: Seq<Seq<char>>, x: Seq<char>)
    ensures
        exports_of_lines(ls.push(x)) == exports_of_lines(ls) + (match line_export(sp_trim(x)) {
            Some(p) => seq![p],
            None => Seq::<(Seq<char>, Seq<char>)>::empty(),
        }),
    decreases ls.len(),
{
    if ls.len() == 0 {
        let p = ls.push(x);
        assert(p[0] == x);
        assert(p.drop_first() =~= Seq::<Seq<char>>::empty());
        assert(exports_of_lines(Seq::<Seq<char>>::empty()) == Seq::<(Seq<char>, Seq<char>)>::empty());
        assert(exports_of_lines(p) =~= exports_of_lines(ls) + (match line_export(sp_trim(x)) {
            Some(q) => seq![q],
            None => Seq::<(Seq<char>, Seq<char>)>::empty(),
        }));
    } else {
        assert(ls.push(x)[0] == ls[0]);
        assert(ls.push(x).drop_first() =~= ls.drop_first().push(x));
        lemma_exports_snoc(ls.drop_first(), x);
        assert(exports_of_lines(ls.push(x)) =~= exports_of_lines(ls) + (match line_export(
            sp_trim(x),
        ) {
            Some(q) => seq![q],
            None => Seq::<(Seq<char>, Seq<char>)>::empty(),
        }));
    }
}

/// The body text one module source contributes to the bundle.
pub open spec fn module_emission(src: Seq<char>) -> Seq<char> {
    emit_of_lines(sp_lines(src))
}

/// The exports one module source declares, in order.
pub open spec fn module_exports(src: Seq<char>) -> Seq<(Seq<char>, Seq<char>)> {
    exports_of_lines(sp_lines(src))
}

/// The empty source contributes nothing and exports nothing.
pub proof fn lemma_empty_module()
    ensures
        module_emission(Seq::<char>::empty()) == Seq::<char>::empty(),
        module_exports(Seq::<char>::empty()) == Seq::<(Seq<char>, Seq<char>)>::empty(),
{
    let e = Seq::<char>::empty();
    assert(sp_lines(e) == seq![e]);
    assert(sp_lines(e).drop_first() =~= Seq::<Seq<char>>::empty());
    assert(emit_of_lines(Seq::<Seq<char>>::empty()) == Seq::<char>::empty());
    assert(exports_of_lines(Seq::<Seq<char>>::empty()) == Seq::<(Seq<char>, Seq<char>)>::empty());
    assert(sp_trim(e) == e);
    assert(module_emission(e) =~= Seq::<char>::empty());
    assert(module_exports(e) =~= Seq::<(Seq<char>, Seq<char>)>::empty());
}

/// `v` without a leading `./`.
pub open spec fn sp_strip_dot_slash(v: Seq<char>) -> Seq<char> {
    if v.len() >= 2 && v[0] == '.' && v[1] == '/' {
        v.skip(2)
    } else {
        v
    }
}

/// Index of the last `/` in `v`, or `-1`.
pub open spec fn last_slash(v: Seq<char>) -> int
    decreases v.len(),
{
    if v.len() == 0 {
        -1
    } else if v.last() == '/' {
        v.len() - 1
    } else {
        last_slash(v.drop_last())
    }
}

pub proof fn lemma_last_slash_bounds(v: Seq<char>)
    ensures
        -1 <= last_slash(v) < v.len(),
    decreases v.len(),
{
    if v.len() > 0 && v.last() != '/' {
        lemma_last_slash_bounds(v.drop_last());
    }
}

pub proof fn lemma_last_slash_snoc(v: Seq<char>, c: char)
    ensures
        last_slash(v.push(c)) == (if c == '/' {
            v.len() as int
        } else {
            last_slash(v)
        }),
{
    assert(v.push(c).last() == c);
    assert(v.push(c).drop_last() =~= v);
}

/// The final path segment carries a `.` extension.
pub open spec fn ext_present(v: Seq<char>) -> bool {
    exists|i: int| last_slash(v) < i < v.len() && v[i] == '.'
}

/// The resolution of a specifier: a `./` prefix is dropped and `.ts`
/// appended when the final segment has no extension.
pub open spec fn sp_normalize(v: Seq<char>) -> Seq<char> {
    let s = sp_strip_dot_slash(v);
    if ext_present(s) {
        s
    } else {
        s + seq!['.', 't', 's']
    }
}

/// The directory prefix of a path, up to and including its last `/`.
pub open spec fn sp_dir_of(v: Seq<char>) -> Seq<char> {
    if last_slash(v) >= 0 {
        v.take(last_slash(v) + 1)
    } else {
        Seq::empty()
    }
}

/// What the in-memory loader resolves a specifier to: normalized, and
/// joined onto the base's directory when there is a base.
pub open spec fn sp_resolve(base: Option<Seq<char>>, specifier: Seq<char>) -> Seq<char> {
    match base {
        None => sp_normalize(specifier),
        Some(b) => sp_dir_of(b) + sp_normalize(specifier),
    }
}

/// The characters of `v` without a leading `./`.
fn strip_dot_slash(v: &Vec<char>) -> (out: Vec<char>)
    ensures
        out@ == sp_strip_dot_slash(v@),
{
    if v.len() >= 2 && v[0] == '.' && v[1] == '/' {
        let mut out: Vec<char> = Vec::new();
        let mut i: usize = 2;
        while i < v.len()
            invariant
                2 <= i <= v@.len(),
                out@ == v@.subrange(2, i as int),
            decreases v@.len() - i,
        {
            out.push(v[i]);
            i += 1;
            proof {
                assert(out@ =~= v@.subrange(2, i as int));
            }
        }
        proof {
            assert(out@ =~= v@.skip(2));
        }
        out
    } else {
        v.clone()
    }
}

/// Appends `.ts` when the final path segment has no extension.
fn ensure_ts_ext(v: &Vec<char>) -> (out: Vec<char>)
    ensures
        out@ == (if ext_present(v@) {
            v@
        } else {
            v@ + seq!['.', 't', 's']
        }),
{
    let mut has_dot = false;
    let ghost mut ls: int = -1;
    let mut i: usize = 0;
    proof {
        assert(v@.take(0) =~= Seq::<char>::empty());
        assert(last_slash(v@.take(0)) == -1);
    }
    while i < v.len()
        invariant
            i <= v@.len(),
            ls == last_slash(v@.take(i as int)),
            has_dot == exists|j: int| ls < j < i && v@[j] == '.',
        decreases v@.len() - i,
    {
        proof {
            assert(v@.take(i + 1) =~= v@.take(i as int).push(v@[i as int]));
            lemma_last_slash_snoc(v@.take(i as int), v@[i as int]);
        }
        proof {
            lemma_last_slash_bounds(v@.take(i as int));
        }
        let ghost had_dot = has_dot;
        if v[i] == '.' {
            has_dot = true;
        }
        if v[i] == '/' {
            has_dot = false;
            proof {
                ls = i as int;
                assert(!(exists|j: int| ls < j < i + 1 && v@[j] == '.'));
            }
        } else {
            proof {
                if v@[i as int] == '.' {
                    assert(ls < i < i + 1 && v@[i as int] == '.');
                    assert(exists|j: int| ls < j < i + 1 && v@[j] == '.');
                } else {
                    if had_dot {
                        let j0 = choose|j0: int| ls < j0 < i && v@[j0] == '.';
                        assert(ls < j0 < i + 1 && v@[j0] == '.');
                    } else {
                        assert(!(exists|j: int| ls < j < i + 1 && v@[j] == '.'));
                    }
                }
            }
        }
        i += 1;
    }
    proof {
        assert(v@.take(v@.len() as int) =~= v@);
        assert(has_dot == ext_present(v@));
    }
    let mut out = v.clone();
    if !has_dot {
        out.push('.');
        out.push('t');
        out.push('s');
        proof {
            assert(out@ =~= v@ + seq!['.', 't', 's']);
        }
    }
    out
}

/// The directory prefix of a path, up to and including its last `/`.
fn dir_of(v: &Vec<char>) -> (out: Vec<char>)
    ensures
        out@ == sp_dir_of(v@),
{
    let mut last: usize = 0;
    let mut found = false;
    let ghost mut ls: int = -1;
    let mut i: usize = 0;
    proof {
        assert(v@.take(0) =~= Seq::<char>::empty());
        assert(last_slash(v@.take(0)) == -1);
    }
    while i < v.len()
        invariant
            i <= v@.len(),
            ls == last_slash(v@.take(i as int)),
            found == (ls >= 0),
            found ==> last == ls && last < i,
        decreases v@.len() - i,
    {
        proof {
            assert(v@.take(i + 1) =~= v@.take(i as int).push(v@[i as int]));
            lemma_last_slash_snoc(v@.take(i as int), v@[i as int]);
        }
        if v[i] == '/' {
            last = i;
            found = true;
            proof {
                ls = i as int;
            }
        }
        i += 1;
    }
    proof {
        assert(v@.take(v@.len() as int) =~= v@);
        assert(ls == last_slash(v@));
    }
    let mut out: Vec<char> = Vec::new();
    if found {
        let mut k: usize = 0;
        while k <= last
            invariant
                last < v@.len(),
                v@.len() <= usize::MAX,
                k <= last + 1,
                out@ == v@.take(k as int),
            decreases last + 1 - k,
        {
            out.push(v[k]);
            k += 1;
            proof {
                assert(out@ =~= v@.take(k as int));
            }
        }
    }
    out
}

/// Resolves a specifier against an optional base path, as the in-memory
/// loader does: normalize the specifier, then join it onto the base's
/// directory.
pub fn resolve_spec_path(base: Option<&str>, specifier: &str) -> (r: String)
    ensures
        r@ == sp_resolve(
            match base {
                None => None,
                Some(b) => Some(b@),
            },
            specifier@,
        ),
{
    let sv = to_chars(specifier);
    let stripped = strip_dot_slash(&sv);
    let norm = ensure_ts_ext(&stripped);
    match base {
        None => from_chars(&norm),
        Some(b) => {
            let bv = to_chars(b);
            let mut dir = dir_of(&bv);
            let ghost dv = dir@;
            let mut j: usize = 0;
            while j < norm.len()
                invariant
                    j <= norm@.len(),
                    dir@ == dv + norm@.take(j as int),
                decreases norm@.len() - j,
            {
                dir.push(norm[j]);
                j += 1;
                proof {
                    assert(dir@ =~= dv + norm@.take(j as int));
                }
            }
            proof {
                assert(norm@.take(norm@.len() as int) =~= norm@);
            }
            from_chars(&dir)
        },
    }
}

/// The source stored for the first matching path, if any.
pub open spec fn mem_lookup(fs: Seq<(Seq<char>, Seq<char>)>, k: Seq<char>) -> Option<Seq<char>>
    decreases fs.len(),
{
    if fs.len() == 0 {
        None
    } else if fs[0].0 == k {
        Some(fs[0].1)
    } else {
        mem_lookup(fs.drop_first(), k)
    }
}

/// Looks a path up among in-memory sources, first match winning.
pub fn memory_source(files: &Vec<(String, String)>, specifier: &str) -> (r: Option<String>)
    ensures
        match r {
            Some(s) => mem_lookup(files.deep_view(), specifier@) == Some(s@),
            None => mem_lookup(files.deep_view(), specifier@) is None,
        },
{
    let ghost fv = files.deep_view();
    let sv = to_chars(specifier);
    let mut i: usize = 0;
    proof {
        assert(fv.skip(0) =~= fv);
    }
    while i < files.len()
        invariant
            i <= fv.len(),
            fv == files.deep_view(),
            fv.len() == files@.len(),
            sv@ == specifier@,
            mem_lookup(fv, specifier@) == mem_lookup(fv.skip(i as int), specifier@),
        decreases fv.len() - i,
    {
        proof {
            assert(fv.skip(i as int)[0] == fv[i as int]);
            assert(fv.skip(i as int).drop_first() =~= fv.skip(i + 1));
            assert(fv[i as int] == (files@[i as int].0@, files@[i as int].1@));
        }
        let kv = to_chars(files[i].0.as_str());
        if chars_eq(&kv, &sv) {
            return Some(files[i].1.clone());
        }
        i += 1;
    }
    proof {
        assert(fv.skip(fv.len() as int) =~= Seq::<(Seq<char>, Seq<char>)>::empty());
    }
    None
}

/// An in-memory loader over `(path, source)` pairs: `load` returns the
/// source of the first matching path, `resolve` follows `sp_resolve`.
pub struct MemoryLoader {
    pub files: Vec<(String, String)>,
}

impl ModuleLoader for MemoryLoader {
    fn load(&self, specifier: &str) -> Result<ModuleSource, String> {
        match memory_source(&self.files, specifier) {
            Some(s) => Ok(s),
            None => Err("unresolved module".to_owned()),
        }
    }

    fn resolve(&self, base: Option<&str>, specifier: &str) -> Result<ModulePath, String> {
        Ok(resolve_spec_path(base, specifier))
    }
}

/// Whether `visited` already holds `path`.
fn visited_contains(visited: &Vec<String>, path: &Vec<char>) -> (r: bool)
    ensures
        r == exists|i: int| 0 <= i < visited@.len() && (#[trigger] visited@[i])@ == path@,
{
    let mut i: usize = 0;
    while i < visited.len()
        invariant
            i <= visited@.len(),
            forall|j: int| 0 <= j < i ==> (#[trigger] visited@[j])@ != path@,
        decreases visited@.len() - i,
    {
        let kv = to_chars(visited[i].as_str());
        if chars_eq(&kv, path) {
            return true;
        }
        i += 1;
    }
    false
}

/// Appends the characters of `v`.
fn append_chars(out: &mut Vec<char>, v: &Vec<char>)
    ensures
        final(out)@ == old(out)@ + v@,
{
    let mut k: usize = 0;
    while k < v.len()
        invariant
            k <= v@.len(),
            out@ == old(out)@ + v@.take(k as int),
        decreases v@.len() - k,
    {
        out.push(v[k]);
        k += 1;
        proof {
            assert(out@ =~= old(out)@ + v@.take(k as int));
        }
    }
    proof {
        assert(v@.take(v@.len() as int) =~= v@);
    }
}

/// Emits one module: everything its import lines name first, then its
/// own body lines, each module once. On success the text appended is
/// exactly the imports' contributions followed by `module_emission` of
/// the text the loader returned (the empty text for a module already
/// emitted), and the recorded exports are `module_exports` of that text.
/// The text standing after one module is bundled: what was there, the
/// imports' contributions, then the module's own emission.
pub open spec fn emitted_after(base: Seq<char>, deps: Seq<char>, src: Seq<char>) -> Seq<char> {
    base + deps + module_emission(src)
}

fn bundle_module<L: ModuleLoader>(
    loader: &L,
    path: &String,
    visited: &mut Vec<String>,
    out: &mut Vec<char>,
    exports: &mut Vec<(String, String)>,
    record_exports: bool,
    fuel: u64,
) -> (r: Result<(), String>)
    ensures
        match r {
            Ok(()) => exists|deps: Seq<char>, src: Seq<char>|
                final(out)@ == #[trigger] emitted_after(old(out)@, deps, src) && final(
                exports).deep_view() == old(exports).deep_view() + (if record_exports {
                    module_exports(src)
                } else {
                    Seq::<(Seq<char>, Seq<char>)>::empty()
                }),
            Err(_) => true,
        },
    decreases fuel,
{
    let pv = to_chars(path.as_str());
    if visited_contains(visited, &pv) {
        proof {
            lemma_empty_module();
            assert(out@ =~= emitted_after(out@, Seq::<char>::empty(), Seq::<char>::empty()));
            assert(exports.deep_view() =~= exports.deep_view() + module_exports(
                Seq::<char>::empty(),
            ));
            assert(exports.deep_view() =~= exports.deep_view() + Seq::<(Seq<char>, Seq<char>)>::empty());
        }
        return Ok(());
    }
    visited.push(path.clone());
    let source = match loader.load(path.as_str()) {
        Ok(s) => s,
        Err(e) => {
            return Err(e);
        },
    };
    let sv = to_chars(source.as_str());
    let lines = split_lines(&sv);
    let ghost linesv = lines.deep_view();
    let kw_import: Vec<char> = vec!['i', 'm', 'p', 'o', 'r', 't'];
    proof {
        assert(kw_import@ =~= kw_import_chars());
    }
    let ghost base_out = out@;
    let ghost base_exp = exports.deep_view();
    let mut li: usize = 0;
    while li < lines.len()
        invariant
            kw_import@ == kw_import_chars(),
            li <= linesv.len(),
            linesv == lines.deep_view(),
            linesv.len() == lines@.len(),
            base_out.len() <= out@.len(),
            out@.take(base_out.len() as int) == base_out,
            exports.deep_view() == base_exp,
        decreases linesv.len() - li,
    {
        let line = trim_chars(&lines[li]);
        li += 1;
        if starts_with(&line, &kw_import) {
            let spec_part = match quoted_part(&line) {
                Some(q) => q,
                None => {
                    return Err("unresolved import".to_owned());
                },
            };
            let spec_s = from_chars(&spec_part);
            let dep = match loader.resolve(Some(path.as_str()), spec_s.as_str()) {
                Ok(d) => d,
                Err(e) => {
                    return Err(e);
                },
            };
            if fuel == 0 {
                return Err("module graph too deep".to_owned());
            }
            let ghost out_before = out@;
            match bundle_module(loader, &dep, visited, out, exports, false, fuel - 1) {
                Ok(()) => {},
                Err(e) => {
                    return Err(e);
                },
            }
            proof {
                let (d, ms) = choose|d: Seq<char>, ms: Seq<char>|
                    out@ == #[trigger] emitted_after(out_before, d, ms) && exports.deep_view()
                        == base_exp + Seq::<(Seq<char>, Seq<char>)>::empty();
                assert(exports.deep_view() =~= base_exp);
                assert(out@.take(base_out.len() as int) =~= base_out);
            }
        }
    }
    let ghost deps = out@.skip(base_out.len() as int);
    proof {
        assert(out@ =~= base_out + deps);
    }
    let kw_exp_def: Vec<char> = vec![
        'e',
        'x',
        'p',
        'o',
        'r',
        't',
        ' ',
        'd',
        'e',
        'f',
        'a',
        'u',
        'l',
        't',
        ' ',
    ];
    let kw_exp: Vec<char> = vec!['e', 'x', 'p', 'o', 'r', 't', ' '];
    proof {
        assert(kw_exp_def@ =~= kw_export_default_chars());
        assert(kw_exp@ =~= kw_export_chars());
    }
    let ghost base2 = out@;
    let ghost base2_exp = exports.deep_view();
    let mut k: usize = 0;
    proof {
        assert(linesv.take(0) =~= Seq::<Seq<char>>::empty());
        assert(out@ =~= base2 + emit_of_lines(linesv.take(0)));
        assert(exports.deep_view() =~= base2_exp + exports_of_lines(linesv.take(0)));
    }
    while k < lines.len()
        invariant
            kw_import@ == kw_import_chars(),
            kw_exp_def@ == kw_export_default_chars(),
            kw_exp@ == kw_export_chars(),
            k <= linesv.len(),
            linesv == lines.deep_view(),
            linesv.len() == lines@.len(),
            record_exports ==> exports.deep_view() == base2_exp + exports_of_lines(
                linesv.take(k as int),
            ),
            !record_exports ==> exports.deep_view() == base2_exp,
            out@ == base2 + emit_of_lines(linesv.take(k as int)),
        decreases linesv.len() - k,
    {
        proof {
            assert(linesv.take(k + 1) =~= linesv.take(k as int).push(linesv[k as int]));
            lemma_emit_snoc(linesv.take(k as int), linesv[k as int]);
            lemma_exports_snoc(linesv.take(k as int), linesv[k as int]);
            assert(linesv[k as int] == lines@[k as int].deep_view());
        }
        let line = trim_chars(&lines[k]);
        let ghost lv = sp_trim(linesv[k as int]);
        proof {
            assert(line@ == lv);
        }
        if line.len() == 0 || starts_with(&line, &kw_import) {
            proof {
                assert(line_emit(lv) == Seq::<char>::empty());
                assert(line_export(lv) is None);
                assert(out@ =~= base2 + emit_of_lines(linesv.take(k + 1)));
            }
        } else if starts_with(&line, &kw_exp_def) {
            proof {
                assert(is_export_default_line(lv));
                assert(line_emit(lv) == Seq::<char>::empty());
                assert(out@ =~= base2 + emit_of_lines(linesv.take(k + 1)));
            }
            if record_exports {
                let binding = binding_part(&line, 15);
                let dname: Vec<char> = vec!['d', 'e', 'f', 'a', 'u', 'l', 't'];
                proof {
                    assert(dname@ =~= default_name_chars());
                }
                let ghost before = exports.deep_view();
                exports.push((from_chars(&dname), from_chars(&binding)));
                proof {
                    assert(exports.deep_view() =~~= before + seq![
                        (default_name_chars(), sp_binding(lv, 15)),
                    ]);
                    assert(line_export(lv) == Some((default_name_chars(), sp_binding(lv, 15))));
                    assert(exports.deep_view() =~~= base2_exp + exports_of_lines(
                        linesv.take(k + 1),
                    ));
                }
            }
        } else if starts_with(&line, &kw_exp) {
            proof {
                assert(is_export_line(lv));
                assert(!is_export_default_line(lv));
            }
            let rest = binding_part_raw(&line, 7);
            proof {
                assert(rest@ == sp_trim(lv.skip(7)));
                assert(line_emit(lv) == rest@);
            }
            if record_exports {
                match declared_fn_name(&rest) {
                    Some(name) => {
                        let n = from_chars(&name);
                        let ghost before = exports.deep_view();
                        exports.push((n.clone(), n));
                        proof {
                            assert(line_export(lv) == Some((name@, name@)));
                            assert(exports.deep_view() =~~= before + seq![(name@, name@)]);
                            assert(exports.deep_view() =~~= base2_exp + exports_of_lines(
                                linesv.take(k + 1),
                            ));
                        }
                    },
                    None => {
                        proof {
                            assert(line_export(lv) is None);
                        }
                    },
                }
            }
            append_chars(out, &rest);
            proof {
                assert(out@ =~= base2 + emit_of_lines(linesv.take(k + 1)));
            }
        } else {
            proof {
                assert(line_emit(lv) == lv);
                assert(line_export(lv) is None);
            }
            append_chars(out, &line);
            proof {
                assert(out@ =~= base2 + emit_of_lines(linesv.take(k + 1)));
            }
        }
        k += 1;
    }
    proof {
        assert(linesv.take(linesv.len() as int) =~= linesv);
        assert(linesv == sp_lines(source@));
        assert(out@ =~= base_out + deps + module_emission(source@));
        assert(out@ == emitted_after(base_out, deps, source@));
        if record_exports {
            assert(exports.deep_view() =~= base_exp + module_exports(source@));
        } else {
            assert(exports.deep_view() =~= base_exp + Seq::<(Seq<char>, Seq<char>)>::empty());
        }
    }
    Ok(())
}

/// One export inside the returned object: `name:binding`.
pub open spec fn export_pair_chars(p: (Seq<char>, Seq<char>)) -> Seq<char> {
    p.0 + seq![':'] + p.1
}

/// The exports after the first, each preceded by a comma.
pub open spec fn exports_tail(es: Seq<(Seq<char>, Seq<char>)>) -> Seq<char>
    decreases es.len(),
{
    if es.len() == 0 {
        Seq::empty()
    } else {
        seq![','] + export_pair_chars(es[0]) + exports_tail(es.drop_first())
    }
}

/// The comma-separated export bindings.
pub open spec fn exports_text(es: Seq<(Seq<char>, Seq<char>)>) -> Seq<char> {
    if es.len() == 0 {
        Seq::empty()
    } else {
        export_pair_chars(es[0]) + exports_tail(es.drop_first())
    }
}

pub proof fn lemma_exports_tail_snoc(es: Seq<(Seq<char>, Seq<char>)>, x: (Seq<char>, Seq<char>))
    ensures
        exports_tail(es.push(x)) == exports_tail(es) + seq![','] + export_pair_chars(x),
    decreases es.len(),
{
    if es.len() == 0 {
        let p = es.push(x);
        assert(p[0] == x);
        assert(p.drop_first() =~= Seq::<(Seq<char>, Seq<char>)>::empty());
        assert(exports_tail(Seq::<(Seq<char>, Seq<char>)>::empty()) == Seq::<char>::empty());
        assert(exports_tail(p) =~= exports_tail(es) + seq![','] + export_pair_chars(x));
    } else {
        assert(es.push(x)[0] == es[0]);
        assert(es.push(x).drop_first() =~= es.drop_first().push(x));
        lemma_exports_tail_snoc(es.drop_first(), x);
        assert(exports_tail(es.push(x)) =~= exports_tail(es) + seq![','] + export_pair_chars(x));
    }
}

pub proof fn lemma_exports_text_snoc(es: Seq<(Seq<char>, Seq<char>)>, x: (Seq<char>, Seq<char>))
    ensures
        exports_text(es.push(x)) == exports_text(es) + (if es.len() == 0 {
            Seq::<char>::empty()
        } else {
            seq![',']
        }) + export_pair_chars(x),
    decreases es.len(),
{
    if es.len() == 0 {
        assert(es.push(x)[0] == x);
        assert(es.push(x).drop_first() =~= Seq::<(Seq<char>, Seq<char>)>::empty());
        assert(exports_text(es.push(x)) =~= exports_text(es) + Seq::<char>::empty()
            + export_pair_chars(x));
    } else {
        assert(es.push(x)[0] == es[0]);
        assert(es.push(x).drop_first() =~= es.drop_first().push(x));
        lemma_exports_tail_snoc(es.drop_first(), x);
        assert(exports_text(es.push(x)) =~= exports_text(es) + seq![','] + export_pair_chars(x));
    }
}

/// The returned object closing a bundle: `return{name:binding,…};`.
pub open spec fn return_object_chars(es: Seq<(Seq<char>, Seq<char>)>) -> Seq<char> {
    seq!['r', 'e', 't', 'u', 'r', 'n', '{'] + exports_text(es) + seq!['}', ';']
}

/// The opening of every bundle.
pub open spec fn bundle_prologue() -> Seq<char> {
    seq!['(', 'f', 'u', 'n', 'c', 't', 'i', 'o', 'n', '(', ')', '{']
}

/// The closing of every bundle.
pub open spec fn bundle_epilogue() -> Seq<char> {
    seq!['}', ')', '(', ')', ';']
}

/// The whole text of a bundle: the prologue, the imported modules'
/// contributions, the entry module's own emission, the object returning
/// the entry's exports, and the epilogue.
pub open spec fn bundle_text(deps: Seq<char>, entry_src: Seq<char>) -> Seq<char> {
    bundle_prologue() + deps + module_emission(entry_src) + return_object_chars(
        module_exports(entry_src),
    ) + bundle_epilogue()
}

/// Bundles the module graph rooted at `entry` into one self-invoking
/// expression. On success the output is exactly: the prologue, the
/// contributions of the imported modules, `module_emission` of the entry
/// text the loader returned, the object returning `module_exports` of
/// that text, and the epilogue. The same loader answers always bundle to
/// the same text.
pub fn run_bundle<L: ModuleLoader>(entry: &str, options: &Options, loader: &L) -> (r: Result<
    String,
    String,
>)
    ensures
        match r {
            Ok(text) => exists|deps: Seq<char>, entry_src: Seq<char>|
                text@ == #[trigger] bundle_text(deps, entry_src),
            Err(_) => true,
        },
{
    let entry_path = match loader.resolve(None, entry) {
        Ok(p) => p,
        Err(e) => {
            return Err(e);
        },
    };
    let mut visited: Vec<String> = Vec::new();
    let mut body: Vec<char> = Vec::new();
    let mut exports: Vec<(String, String)> = Vec::new();
    match bundle_module(loader, &entry_path, &mut visited, &mut body, &mut exports, true, 4096) {
        Ok(()) => {},
        Err(e) => {
            return Err(e);
        },
    }
    let ghost (deps, entry_src) = choose|deps: Seq<char>, entry_src: Seq<char>|
        body@ == #[trigger] emitted_after(Seq::<char>::empty(), deps, entry_src)
            && exports.deep_view() == Seq::<(Seq<char>, Seq<char>)>::empty() + module_exports(
            entry_src,
        );
    proof {
        assert(body@ =~= deps + module_emission(entry_src));
        assert(exports.deep_view() =~= module_exports(entry_src));
    }
    let mut out: Vec<char> = vec![
        '(',
        'f',
        'u',
        'n',
        'c',
        't',
        'i',
        'o',
        'n',
        '(',
        ')',
        '{',
    ];
    proof {
        assert(out@ =~= bundle_prologue());
    }
    append_chars(&mut out, &body);
    let mut mid: Vec<char> = vec!['r', 'e', 't', 'u', 'r', 'n', '{'];
    let ghost retkw = seq!['r', 'e', 't', 'u', 'r', 'n', '{'];
    let ghost ev = exports.deep_view();
    proof {
        assert(mid@ =~= retkw);
        assert(ev.take(0) =~= Seq::<(Seq<char>, Seq<char>)>::empty());
        assert(mid@ =~= retkw + exports_text(ev.take(0)));
    }
    let mut e: usize = 0;
    while e < exports.len()
        invariant
            e <= ev.len(),
            ev == exports.deep_view(),
            ev.len() == exports@.len(),
            mid@ == retkw + exports_text(ev.take(e as int)),
        decreases ev.len() - e,
    {
        proof {
            assert(ev.take(e + 1) =~= ev.take(e as int).push(ev[e as int]));
            lemma_exports_text_snoc(ev.take(e as int), ev[e as int]);
            assert(ev[e as int] == (exports@[e as int].0@, exports@[e as int].1@));
        }
        if e > 0 {
            mid.push(',');
        }
        let nv = to_chars(exports[e].0.as_str());
        append_chars(&mut mid, &nv);
        mid.push(':');
        let bv = to_chars(exports[e].1.as_str());
        append_chars(&mut mid, &bv);
        proof {
            assert(mid@ =~= retkw + exports_text(ev.take(e + 1)));
        }
        e += 1;
    }
    proof {
        assert(ev.take(ev.len() as int) =~= ev);
    }
    mid.push('}');
    mid.push(';');
    proof {
        assert(mid@ =~= return_object_chars(ev));
    }
    append_chars(&mut out, &mid);
    out.push('}');
    out.push(')');
    out.push('(');
    out.push(')');
    out.push(';');
    proof {
        assert(out@ =~= bundle_prologue() + deps + module_emission(entry_src)
            + return_object_chars(module_exports(entry_src)) + bundle_epilogue());
        assert(out@ == bundle_text(deps, entry_src));
    }
    Ok(from_chars(&out))
}

} // verus!
