//! Path patterns: `/` separated segments, each literal or a `:name`
//! parameter. Matching a pattern against a concrete path binds each
//! parameter segment to the path segment in the same position. When several
//! patterns match one path, the one whose first differing segment is literal
//! wins.
use vstd::prelude::*;

verus! {

/// Index of the first `/` in `s`, or `s.len()` when there is none.
pub open spec fn first_slash(s: Seq<char>) -> int
    decreases s.len(),
{
    if s.len() == 0 {
        0
    } else if s[0] == '/' {
        0
    } else {
        1 + first_slash(s.drop_first())
    }
}

pub proof fn lemma_first_slash(s: Seq<char>)
    ensures
        0 <= first_slash(s) <= s.len(),
        forall|j: int| 0 <= j < first_slash(s) ==> s[j] != '/',
        first_slash(s) < s.len() ==> s[first_slash(s)] == '/',
    decreases s.len(),
{
    if s.len() > 0 && s[0] != '/' {
        lemma_first_slash(s.drop_first());
        assert forall|j: int| 0 <= j < first_slash(s) implies s[j] != '/' by {
            if j > 0 {
                assert(s.drop_first()[j - 1] == s[j]);
            }
        }
    }
}

/// The segments of `s`, split at every `/`. A trailing or doubled `/`
/// yields an empty segment, as it does in a URL path.
pub open spec fn split_segs(s: Seq<char>) -> Seq<Seq<char>>
    decreases s.len(),
{
    let i = first_slash_bounded(s);
    if i == s.len() {
        seq![s]
    } else {
        seq![s.subrange(0, i)] + split_segs(s.subrange(i + 1, s.len() as int))
    }
}

/// `first_slash`, clipped into `[0, s.len()]` so that `split_segs` is
/// well defined without an auxiliary lemma.
pub open spec fn first_slash_bounded(s: Seq<char>) -> int {
    if 0 <= first_slash(s) <= s.len() {
        first_slash(s)
    } else {
        s.len() as int
    }
}

pub proof fn lemma_first_slash_bounded(s: Seq<char>)
    ensures
        first_slash_bounded(s) == first_slash(s),
{
    lemma_first_slash(s);
}

/// Splitting a sequence that opens with a slashless prefix `p`: the first
/// segment is `p` extended to the next slash of `q`.
pub proof fn lemma_split_prefix(p: Seq<char>, q: Seq<char>)
    requires
        forall|j: int| 0 <= j < p.len() ==> p[j] != '/',
        q.len() == 0 || q[0] == '/',
    ensures
        first_slash(p + q) == p.len() + (if q.len() == 0 {
            0int
        } else {
            0int
        }),
        q.len() == 0 ==> split_segs(p + q) == seq![p],
        q.len() > 0 ==> split_segs(p + q) == seq![p] + split_segs(
            q.subrange(1, q.len() as int),
        ),
    decreases p.len(),
{
    lemma_first_slash(p + q);
    if p.len() == 0 {
        assert(p + q =~= q);
        if q.len() == 0 {
            assert(split_segs(p + q) =~= seq![p]);
        } else {
            assert(first_slash(q) == 0);
            assert(split_segs(q) == seq![q.subrange(0, 0)] + split_segs(q.subrange(1, q.len() as int)));
            assert(q.subrange(0, 0) =~= p);
        }
    } else {
        let s = p + q;
        assert(s[0] == p[0]);
        assert(s[0] != '/');
        assert(first_slash(s) == 1 + first_slash(s.drop_first()));
        assert(s.drop_first() =~= p.drop_first() + q);
        lemma_split_prefix(p.drop_first(), q);
        assert(first_slash(s) == p.len());
        lemma_first_slash_bounded(s);
        if q.len() == 0 {
            assert(first_slash(s) == s.len());
            assert(split_segs(s) == seq![s]);
            assert(s =~= p);
        } else {
            assert(first_slash(s) < s.len());
            assert(split_segs(s) == seq![s.subrange(0, p.len() as int)] + split_segs(
                s.subrange(p.len() as int + 1, s.len() as int),
            ));
            assert(s.subrange(0, p.len() as int) =~= p);
            assert(s.subrange(p.len() as int + 1, s.len() as int) =~= q.subrange(1, q.len() as int));
        }
    }
}

/// Splits `s` into its `/` separated segments.
pub fn split_chars(s: &Vec<char>) -> (out: Vec<Vec<char>>)
    ensures
        out.deep_view() == split_segs(s@),
{
    let mut done: Vec<Vec<char>> = Vec::new();
    let mut cur: Vec<char> = Vec::new();
    let mut i: usize = 0;
    proof {
        assert(cur@ + s@.skip(0) =~= s@);
        assert(done.deep_view() + split_segs(s@) =~= split_segs(s@));
    }
    while i < s.len()
        invariant
            i <= s@.len(),
            forall|j: int| 0 <= j < cur@.len() ==> cur@[j] != '/',
            split_segs(s@) == done.deep_view() + split_segs(cur@ + s@.skip(i as int)),
        decreases s@.len() - i,
    {
        let c = s[i];
        if c == '/' {
            proof {
                lemma_split_prefix(cur@, s@.skip(i as int));
                assert((cur@ + s@.skip(i as int)).subrange(
                    cur@.len() as int + 1,
                    (cur@ + s@.skip(i as int)).len() as int,
                ) =~= s@.skip(i as int).subrange(1, s@.skip(i as int).len() as int));
                assert(s@.skip(i as int).subrange(1, s@.skip(i as int).len() as int) =~= s@.skip(
                    i + 1,
                ));
            }
            let ghost old_done = done.deep_view();
            let ghost old_cur = cur@;
            done.push(cur);
            cur = Vec::new();
            proof {
                assert(done.deep_view() =~~= old_done + seq![old_cur]);
                assert(cur@ + s@.skip(i + 1) =~= s@.skip(i + 1));
                assert(done.deep_view() + split_segs(s@.skip(i + 1)) =~~= old_done + (seq![old_cur]
                    + split_segs(s@.skip(i + 1))));
                assert(done.deep_view() + split_segs(s@.skip(i + 1)) =~~= split_segs(s@));
            }
        } else {
            let ghost oldcur = cur@;
            cur.push(c);
            proof {
                assert(cur@ + s@.skip(i + 1) =~= oldcur + s@.skip(i as int));
            }
        }
        i += 1;
    }
    proof {
        assert(cur@ + s@.skip(i as int) =~= cur@);
        lemma_split_prefix(cur@, Seq::<char>::empty());
        assert(cur@ + Seq::<char>::empty() =~= cur@);
        assert(split_segs(cur@) == seq![cur@]);
    }
    let ghost old_done = done.deep_view();
    let ghost old_cur = cur@;
    done.push(cur);
    proof {
        assert(done.deep_view() =~~= old_done + seq![old_cur]);
        assert(done.deep_view() =~~= split_segs(s@));
    }
    done
}

/// True when a pattern segment is a `:name` parameter.
pub open spec fn seg_is_param(seg: Seq<char>) -> bool {
    seg.len() >= 1 && seg[0] == ':'
}

/// The name bound by a parameter segment: what follows the `:`.
pub open spec fn param_name(seg: Seq<char>) -> Seq<char> {
    seg.skip(1)
}

/// Pattern `pat` matches path `path`: same number of segments, and every
/// non-parameter segment is equal.
pub open spec fn segs_match(pat: Seq<Seq<char>>, path: Seq<Seq<char>>) -> bool {
    pat.len() == path.len() && forall|i: int|
        0 <= i < pat.len() ==> (seg_is_param(#[trigger] pat[i]) || pat[i] == path[i])
}

/// The parameter bindings of a match: for each `:name` segment of `pat`,
/// in order, the pair of its name and the path segment in that position.
pub open spec fn bound_params(pat: Seq<Seq<char>>, path: Seq<Seq<char>>) -> Seq<
    (Seq<char>, Seq<char>),
>
    decreases pat.len(),
{
    if pat.len() == 0 || path.len() == 0 {
        Seq::empty()
    } else {
        let rest = bound_params(pat.drop_first(), path.drop_first());
        if seg_is_param(pat[0]) {
            seq![(param_name(pat[0]), path[0])] + rest
        } else {
            rest
        }
    }
}

/// Two patterns that differ only in parameter names: a path matched by one
/// is matched by the other, which the table refuses as ambiguous.
pub open spec fn shape_eq(p: Seq<Seq<char>>, q: Seq<Seq<char>>) -> bool {
    &&& p.len() == q.len()
    &&& forall|i: int|
        0 <= i < p.len() ==> (seg_is_param(#[trigger] p[i]) == seg_is_param(q[i]) && (!seg_is_param(
            p[i],
        ) ==> p[i] == q[i]))
}

/// Precedence between two patterns of equal length: `p` beats `q` when, at
/// the first position where one has a literal and the other a parameter,
/// `p` has the literal.
pub open spec fn beats(p: Seq<Seq<char>>, q: Seq<Seq<char>>) -> bool
    decreases p.len(),
{
    if p.len() == 0 || q.len() == 0 {
        false
    } else if !seg_is_param(p[0]) && seg_is_param(q[0]) {
        true
    } else if seg_is_param(p[0]) && !seg_is_param(q[0]) {
        false
    } else {
        beats(p.drop_first(), q.drop_first())
    }
}

/// Two matching patterns for one path either have the same shape or one
/// beats the other, never both.
pub proof fn lemma_beats_total(p: Seq<Seq<char>>, q: Seq<Seq<char>>, path: Seq<Seq<char>>)
    requires
        segs_match(p, path),
        segs_match(q, path),
        !shape_eq(p, q),
    ensures
        beats(p, q) != beats(q, p),
    decreases p.len(),
{
    if p.len() == 0 {
        assert(shape_eq(p, q));
    } else {
        if seg_is_param(p[0]) == seg_is_param(q[0]) {
            assert(!seg_is_param(p[0]) ==> p[0] == path[0] && q[0] == path[0]);
            assert(!shape_eq(p.drop_first(), q.drop_first())) by {
                if shape_eq(p.drop_first(), q.drop_first()) {
                    assert forall|i: int|
                        0 <= i < p.len() implies (seg_is_param(#[trigger] p[i]) == seg_is_param(
                        q[i],
                    ) && (!seg_is_param(p[i]) ==> p[i] == q[i])) by {
                        if i > 0 {
                            assert(p.drop_first()[i - 1] == p[i]);
                            assert(q.drop_first()[i - 1] == q[i]);
                        }
                    }
                }
            }
            assert(segs_match(p.drop_first(), path.drop_first())) by {
                assert forall|i: int|
                    0 <= i < p.drop_first().len() implies (seg_is_param(
                    #[trigger] p.drop_first()[i],
                ) || p.drop_first()[i] == path.drop_first()[i]) by {
                    assert(p.drop_first()[i] == p[i + 1]);
                    assert(path.drop_first()[i] == path[i + 1]);
                }
            }
            assert(segs_match(q.drop_first(), path.drop_first())) by {
                assert forall|i: int|
                    0 <= i < q.drop_first().len() implies (seg_is_param(
                    #[trigger] q.drop_first()[i],
                ) || q.drop_first()[i] == path.drop_first()[i]) by {
                    assert(q.drop_first()[i] == q[i + 1]);
                    assert(path.drop_first()[i] == path[i + 1]);
                }
            }
            lemma_beats_total(p.drop_first(), q.drop_first(), path.drop_first());
        }
    }
}

/// Precedence is asymmetric: two patterns never beat each other.
pub proof fn lemma_beats_asym(p: Seq<Seq<char>>, q: Seq<Seq<char>>)
    requires
        beats(p, q),
    ensures
        !beats(q, p),
    decreases p.len(),
{
    if p.len() > 0 && q.len() > 0 {
        if seg_is_param(p[0]) == seg_is_param(q[0]) {
            lemma_beats_asym(p.drop_first(), q.drop_first());
        }
    }
}

/// Precedence is transitive over patterns of one length.
pub proof fn lemma_beats_trans(a: Seq<Seq<char>>, b: Seq<Seq<char>>, c: Seq<Seq<char>>)
    requires
        a.len() == b.len() == c.len(),
        beats(a, b),
        beats(b, c),
    ensures
        beats(a, c),
    decreases a.len(),
{
    if a.len() > 0 {
        let pa = seg_is_param(a[0]);
        let pb = seg_is_param(b[0]);
        let pc = seg_is_param(c[0]);
        if pa == pb && pb == pc {
            lemma_beats_trans(a.drop_first(), b.drop_first(), c.drop_first());
        }
    }
}

/// A parameter binding appears in `bound_params(pat, path)` exactly when
/// some position of `pat` holds a `:name` parameter and `path` carries the
/// bound value there: matching binds exactly the `:name` segments of the
/// pattern, in their positions.
pub proof fn lemma_bound_params_exact(pat: Seq<Seq<char>>, path: Seq<Seq<char>>)
    requires
        segs_match(pat, path),
    ensures
        forall|name: Seq<char>, val: Seq<char>|
            bound_params(pat, path).contains((name, val)) <==> (exists|i: int|
                0 <= i < pat.len() && seg_is_param(#[trigger] pat[i]) && param_name(pat[i]) == name
                    && path[i] == val),
    decreases pat.len(),
{
    if pat.len() == 0 {
    } else {
        assert(segs_match(pat.drop_first(), path.drop_first())) by {
            assert forall|i: int|
                0 <= i < pat.drop_first().len() implies (seg_is_param(#[trigger] pat.drop_first()[i])
                || pat.drop_first()[i] == path.drop_first()[i]) by {
                assert(pat.drop_first()[i] == pat[i + 1]);
                assert(path.drop_first()[i] == path[i + 1]);
            }
        }
        lemma_bound_params_exact(pat.drop_first(), path.drop_first());
        let rest = bound_params(pat.drop_first(), path.drop_first());
        assert forall|name: Seq<char>, val: Seq<char>|
            bound_params(pat, path).contains((name, val)) implies (exists|i: int|
            0 <= i < pat.len() && seg_is_param(#[trigger] pat[i]) && param_name(pat[i]) == name
                && path[i] == val) by {
            let b = bound_params(pat, path);
            let k = choose|k: int| 0 <= k < b.len() && b[k] == (name, val);
            if seg_is_param(pat[0]) && k == 0 {
                assert(seg_is_param(pat[0]) && param_name(pat[0]) == name && path[0] == val);
            } else {
                let kr = if seg_is_param(pat[0]) {
                    k - 1
                } else {
                    k
                };
                assert(rest[kr] == (name, val));
                assert(rest.contains((name, val)));
                let i = choose|i: int|
                    0 <= i < pat.drop_first().len() && seg_is_param(#[trigger] pat.drop_first()[i])
                        && param_name(pat.drop_first()[i]) == name && path.drop_first()[i] == val;
                assert(pat[i + 1] == pat.drop_first()[i]);
                assert(path[i + 1] == path.drop_first()[i]);
            }
        }
        assert forall|name: Seq<char>, val: Seq<char>|
            (exists|i: int|
                0 <= i < pat.len() && seg_is_param(#[trigger] pat[i]) && param_name(pat[i]) == name
                    && path[i] == val) implies bound_params(pat, path).contains((name, val)) by {
            let i = choose|i: int|
                0 <= i < pat.len() && seg_is_param(#[trigger] pat[i]) && param_name(pat[i]) == name
                    && path[i] == val;
            let b = bound_params(pat, path);
            if i == 0 {
                assert(b[0] == (name, val));
            } else {
                assert(pat.drop_first()[i - 1] == pat[i]);
                assert(path.drop_first()[i - 1] == path[i]);
                assert(rest.contains((name, val)));
                let k = choose|k: int| 0 <= k < rest.len() && rest[k] == (name, val);
                if seg_is_param(pat[0]) {
                    assert(b[k + 1] == (name, val));
                } else {
                    assert(b[k] == (name, val));
                }
            }
        }
    }
}

} // verus!
