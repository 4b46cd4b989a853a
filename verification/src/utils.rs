//! The build cache: a project's sources are filtered by extension,
//! brought into a stable sorted order, hashed as one stream, and the
//! 16-character prefix of the hash names the build artefacts. The same
//! source set always yields the same artefact names.
use vstd::prelude::*;
use vstd::string::StrSliceExecFns;

use crate::strutil::{chars_eq, chars_lex_le, from_chars, lex_le, to_chars};

verus! {

broadcast use crate::strutil::lemma_vec_char_deep_view;

/// The hexadecimal text of the BLAKE3 hash of `data`.
pub uninterp spec fn blake3_hex_of(data: Seq<u8>) -> Seq<char>;

/// Relies on `blake3::hash` and its hash's hexadecimal display: the text
/// is 64 lowercase hexadecimal characters and depends on the bytes alone.
#[verifier::external_body]
fn blake3_hex(data: &Vec<u8>) -> (r: String)
    ensures
        r@ == blake3_hex_of(data@),
        r@.len() == 64,
        forall|i: int|
            0 <= i < 64 ==> (48 <= (#[trigger] r@[i]) as u32 <= 57 || 97 <= r@[i] as u32 <= 102),
{
    blake3::hash(data.as_slice()).to_string()
}

/// The concatenation of a list of byte strings, in order.
pub open spec fn concat_bytes(files: Seq<Seq<u8>>) -> Seq<u8>
    decreases files.len(),
{
    if files.len() == 0 {
        Seq::empty()
    } else {
        files[0] + concat_bytes(files.drop_first())
    }
}

pub proof fn lemma_concat_bytes_snoc(files: Seq<Seq<u8>>, x: Seq<u8>)
    ensures
        concat_bytes(files.push(x)) == concat_bytes(files) + x,
    decreases files.len(),
{
    if files.len() == 0 {
        let p = files.push(x);
        assert(p[0] == x);
        assert(p.drop_first() =~= Seq::<Seq<u8>>::empty());
        assert(concat_bytes(Seq::<Seq<u8>>::empty()) == Seq::<u8>::empty());
        assert(concat_bytes(p) =~= concat_bytes(files) + x);
    } else {
        assert(files.push(x)[0] == files[0]);
        assert(files.push(x).drop_first() =~= files.drop_first().push(x));
        lemma_concat_bytes_snoc(files.drop_first(), x);
        assert(concat_bytes(files.push(x)) =~= concat_bytes(files) + x);
    }
}

/// Concatenates file contents into one stream, in the given order.
fn concat_files(files: &Vec<Vec<u8>>) -> (out: Vec<u8>)
    ensures
        out@ == concat_bytes(files.deep_view()),
{
    let ghost fv = files.deep_view();
    let mut out: Vec<u8> = Vec::new();
    let mut i: usize = 0;
    proof {
        assert(fv.take(0) =~= Seq::<Seq<u8>>::empty());
        assert(out@ =~= concat_bytes(fv.take(0)));
    }
    while i < files.len()
        invariant
            i <= fv.len(),
            fv == files.deep_view(),
            fv.len() == files@.len(),
            out@ == concat_bytes(fv.take(i as int)),
        decreases fv.len() - i,
    {
        proof {
            assert(fv[i as int] == files@[i as int].deep_view());
            assert(files@[i as int].deep_view() =~= files@[i as int]@);
        }
        let mut chunk = files[i].clone();
        out.append(&mut chunk);
        proof {
            assert(fv.take(i + 1) =~= fv.take(i as int).push(fv[i as int]));
            lemma_concat_bytes_snoc(fv.take(i as int), fv[i as int]);
        }
        i += 1;
    }
    proof {
        assert(fv.take(fv.len() as int) =~= fv);
    }
    out
}

/// The project hash text of a source set: the BLAKE3 hash of the
/// concatenated contents, truncated to `expect_len` characters.
pub open spec fn hash_of_files(files: Seq<Seq<u8>>, expect_len: int) -> Seq<char> {
    blake3_hex_of(concat_bytes(files)).take(expect_len)
}

/// Hashes the given file contents, in order, and truncates the
/// hexadecimal text to `expect_len` characters.
pub fn calc_hash_for_files(files: &Vec<Vec<u8>>, expect_len: usize) -> (r: String)
    requires
        expect_len <= 64,
    ensures
        r@ == hash_of_files(files.deep_view(), expect_len as int),
{
    let data = concat_files(files);
    let full = blake3_hex(&data);
    let prefix = full.as_str().substring_char(0, expect_len);
    prefix.to_owned()
}

/// The number of hash characters in a project hash.
pub open spec fn project_hash_len() -> int {
    16
}

/// The project hash of a source set: the 16-character prefix of the
/// BLAKE3 hash of the sorted, concatenated file contents.
pub fn calc_project_hash(files: &Vec<Vec<u8>>) -> (r: String)
    ensures
        r@ == hash_of_files(files.deep_view(), project_hash_len()),
{
    calc_hash_for_files(files, 16)
}

/// Whether path `p` ends in `.` followed by extension `e`.
pub open spec fn has_ext(p: Seq<char>, e: Seq<char>) -> bool {
    p.len() > e.len() && p.skip(p.len() - e.len()) == e && p[p.len() - e.len() - 1] == '.'
}

/// Whether `p` ends in one of the given extensions.
pub open spec fn has_any_ext(p: Seq<char>, exts: Seq<Seq<char>>) -> bool {
    exists|k: int| 0 <= k < exts.len() && has_ext(p, #[trigger] exts[k])
}

/// Whether path `p` ends in `.` followed by `e`.
fn has_ext_exec(p: &Vec<char>, e: &Vec<char>) -> (r: bool)
    ensures
        r == has_ext(p@, e@),
{
    if p.len() <= e.len() {
        return false;
    }
    let start = p.len() - e.len();
    if p[start - 1] != '.' {
        return false;
    }
    let mut k: usize = 0;
    while k < e.len()
        invariant
            p@.len() > e@.len(),
            start == p@.len() - e@.len(),
            k <= e@.len(),
            p@[start - 1] == '.',
            p@.len() <= usize::MAX,
            forall|j: int| 0 <= j < k ==> p@[start + j] == e@[j],
        decreases e@.len() - k,
    {
        assert(start + k < p@.len());
        if p[start + k] != e[k] {
            assert(p@.skip(p@.len() - e@.len())[k as int] != e@[k as int]);
            return false;
        }
        k += 1;
    }
    proof {
        assert(p@.skip(p@.len() - e@.len()) =~= e@);
    }
    true
}

/// Strict lexicographic order.
pub open spec fn lex_lt(a: Seq<char>, b: Seq<char>) -> bool {
    lex_le(a, b) && a != b
}

pub proof fn lemma_lex_le_total(a: Seq<char>, b: Seq<char>)
    ensures
        lex_le(a, b) || lex_le(b, a),
    decreases a.len(),
{
    if a.len() > 0 && b.len() > 0 && a[0] as u32 == b[0] as u32 {
        lemma_lex_le_total(a.drop_first(), b.drop_first());
    }
}

pub proof fn lemma_lex_le_antisym(a: Seq<char>, b: Seq<char>)
    requires
        lex_le(a, b),
        lex_le(b, a),
    ensures
        a == b,
    decreases a.len(),
{
    broadcast use vstd::utf8::char_u32_cast;

    if a.len() == 0 {
        assert(b.len() == 0);
        assert(a =~= b);
    } else {
        assert(b.len() > 0);
        assert(a[0] as u32 == b[0] as u32);
        vstd::utf8::char_u32_cast(a[0], a[0] as u32);
        vstd::utf8::char_u32_cast(b[0], b[0] as u32);
        lemma_lex_le_antisym(a.drop_first(), b.drop_first());
        assert forall|i: int| 0 <= i < a.len() implies a[i] == b[i] by {
            if i > 0 {
                assert(a.drop_first()[i - 1] == a[i]);
                assert(b.drop_first()[i - 1] == b[i]);
            }
        }
        assert(a =~= b);
    }
}

pub proof fn lemma_lex_le_trans(a: Seq<char>, b: Seq<char>, c: Seq<char>)
    requires
        lex_le(a, b),
        lex_le(b, c),
    ensures
        lex_le(a, c),
    decreases a.len(),
{
    if a.len() > 0 && b.len() > 0 && c.len() > 0 {
        if a[0] as u32 == b[0] as u32 && b[0] as u32 == c[0] as u32 {
            lemma_lex_le_trans(a.drop_first(), b.drop_first(), c.drop_first());
        }
    }
}

/// A sorted list of unique paths: strictly ascending in lexicographic
/// order.
pub open spec fn sorted_unique(out: Seq<Seq<char>>) -> bool {
    forall|i: int, j: int| 0 <= i < j < out.len() ==> lex_lt(#[trigger] out[i], #[trigger] out[j])
}

/// Filters `paths` down to those carrying one of `exts`, in stable sorted
/// order without duplicates: the set the build cache hashes over.
pub fn get_files_with_exts(paths: &Vec<String>, exts: &Vec<String>) -> (out: Vec<String>)
    ensures
        sorted_unique(out.deep_view()),
        forall|i: int|
            0 <= i < out.deep_view().len() ==> has_any_ext(
                #[trigger] out.deep_view()[i],
                exts.deep_view(),
            ) && (exists|j: int|
                0 <= j < paths.deep_view().len() && paths.deep_view()[j] == out.deep_view()[i]),
        forall|j: int|
            0 <= j < paths.deep_view().len() && has_any_ext(
                #[trigger] paths.deep_view()[j],
                exts.deep_view(),
            ) ==> exists|i: int|
                0 <= i < out.deep_view().len() && out.deep_view()[i] == paths.deep_view()[j],
{
    let ghost pv = paths.deep_view();
    let ghost ev = exts.deep_view();
    let mut out: Vec<String> = Vec::new();
    let mut i: usize = 0;
    while i < paths.len()
        invariant
            i <= pv.len(),
            pv == paths.deep_view(),
            ev == exts.deep_view(),
            pv.len() == paths@.len(),
            sorted_unique(out.deep_view()),
            forall|k: int|
                0 <= k < out.deep_view().len() ==> has_any_ext(
                    #[trigger] out.deep_view()[k],
                    ev,
                ) && (exists|j: int| 0 <= j < i && pv[j] == out.deep_view()[k]),
            forall|j: int|
                0 <= j < i && has_any_ext(#[trigger] pv[j], ev) ==> exists|k: int|
                    0 <= k < out.deep_view().len() && out.deep_view()[k] == pv[j],
        decreases pv.len() - i,
    {
        let pc = to_chars(paths[i].as_str());
        let mut matched = false;
        let mut e: usize = 0;
        while e < exts.len()
            invariant
                e <= ev.len(),
                ev == exts.deep_view(),
                ev.len() == exts@.len(),
                pc@ == pv[i as int],
                i < pv.len(),
                pv == paths.deep_view(),
                pv.len() == paths@.len(),
                matched ==> has_any_ext(pv[i as int], ev),
                !matched ==> forall|k: int| 0 <= k < e ==> !has_ext(pv[i as int], #[trigger] ev[k]),
            decreases ev.len() - e,
        {
            let ec = to_chars(exts[e].as_str());
            proof {
                assert(ec@ == ev[e as int]);
            }
            if has_ext_exec(&pc, &ec) {
                matched = true;
            }
            e += 1;
        }
        if matched {
            let ghost before = out.deep_view();
            insert_sorted(&mut out, &paths[i]);
            proof {
                let nv = out.deep_view();
                let sv = pv[i as int];
                assert forall|k: int| 0 <= k < nv.len() implies has_any_ext(
                    #[trigger] nv[k],
                    ev,
                ) && (exists|j: int| 0 <= j < i + 1 && pv[j] == nv[k]) by {
                    if nv[k] == sv {
                        assert(pv[i as int] == nv[k]);
                    } else {
                        let j0 = choose|j0: int| 0 <= j0 < before.len() && before[j0] == nv[k];
                        let j1 = choose|j1: int| 0 <= j1 < i && pv[j1] == before[j0];
                        assert(pv[j1] == nv[k]);
                    }
                }
                assert forall|j: int|
                    0 <= j < i + 1 && has_any_ext(#[trigger] pv[j], ev) implies exists|k: int|
                    0 <= k < nv.len() && nv[k] == pv[j] by {
                    if j == i {
                        let k0 = choose|k0: int| 0 <= k0 < nv.len() && nv[k0] == sv;
                        assert(nv[k0] == pv[j]);
                    } else {
                        let k0 = choose|k0: int| 0 <= k0 < before.len() && before[k0] == pv[j];
                        let k1 = choose|k1: int| 0 <= k1 < nv.len() && nv[k1] == before[k0];
                        assert(nv[k1] == pv[j]);
                    }
                }
            }
        } else {
            proof {
                assert forall|j: int|
                    0 <= j < i + 1 && has_any_ext(#[trigger] pv[j], ev) implies exists|k: int|
                    0 <= k < out.deep_view().len() && out.deep_view()[k] == pv[j] by {
                    assert(j < i);
                }
            }
        }
        i += 1;
    }
    proof {
        let nv = out.deep_view();
        assert forall|k: int| 0 <= k < nv.len() implies has_any_ext(#[trigger] nv[k], ev) && (
        exists|j: int| 0 <= j < pv.len() && pv[j] == nv[k]) by {
            let j0 = choose|j0: int| 0 <= j0 < i && pv[j0] == nv[k];
            assert(0 <= j0 < pv.len() && pv[j0] == nv[k]);
        }
    }
    out
}

/// Inserts `s` into a strictly sorted list, keeping it strictly sorted;
/// an already-present path is left alone.
fn insert_sorted(out: &mut Vec<String>, s: &String)
    requires
        sorted_unique(old(out).deep_view()),
    ensures
        sorted_unique(final(out).deep_view()),
        forall|k: int|
            0 <= k < final(out).deep_view().len() ==> (#[trigger] final(out).deep_view()[k]) == s@
                || (exists|j: int|
                0 <= j < old(out).deep_view().len() && old(out).deep_view()[j] == final(
                out).deep_view()[k]),
        exists|k: int|
            0 <= k < final(out).deep_view().len() && (#[trigger] final(out).deep_view()[k]) == s@,
        forall|j: int|
            0 <= j < old(out).deep_view().len() ==> exists|k: int|
                0 <= k < final(out).deep_view().len() && final(out).deep_view()[k] == (
                #[trigger] old(out).deep_view()[j]),
{
    let sc = to_chars(s.as_str());
    let mut pos: usize = 0;
    let mut stop = false;
    let ghost ov = out.deep_view();
    while pos < out.len() && !stop
        invariant
            pos <= ov.len(),
            ov == out.deep_view(),
            ov.len() == out@.len(),
            sc@ == s@,
            sorted_unique(ov),
            forall|j: int| 0 <= j < pos ==> lex_lt(#[trigger] ov[j], s@),
            stop ==> pos < ov.len() && lex_le(s@, ov[pos as int]) && s@ != ov[pos as int],
        decreases ov.len() - pos, (if stop { 0int } else { 1int }),
    {
        let oc = to_chars(out[pos].as_str());
        proof {
            assert(oc@ == ov[pos as int]);
        }
        if chars_eq(&oc, &sc) {
            return;
        }
        if !chars_lex_le(&oc, &sc) {
            proof {
                lemma_lex_le_total(ov[pos as int], s@);
            }
            stop = true;
        } else {
            proof {
                assert(lex_lt(ov[pos as int], s@));
            }
            pos += 1;
        }
    }
    proof {
        if pos < ov.len() {
            assert(stop);
            assert(lex_le(s@, ov[pos as int]));
            assert(s@ != ov[pos as int]);
        }
    }
    let ghost old_ov = out.deep_view();
    out.insert(pos, s.clone());
    proof {
        let nv = out.deep_view();
        assert(nv =~~= old_ov.take(pos as int).push(s@) + old_ov.skip(pos as int));
        assert forall|a: int, b: int| 0 <= a < b < nv.len() implies lex_lt(
            #[trigger] nv[a],
            #[trigger] nv[b],
        ) by {
            if a < pos && b < pos {
                assert(nv[a] == old_ov[a] && nv[b] == old_ov[b]);
            } else if a < pos && b == pos {
                assert(nv[a] == old_ov[a] && nv[b] == s@);
            } else if a < pos && b > pos {
                assert(nv[a] == old_ov[a] && nv[b] == old_ov[b - 1]);
            } else if a == pos && b > pos {
                assert(nv[a] == s@ && nv[b] == old_ov[b - 1]);
                assert(lex_le(s@, old_ov[pos as int]));
                if b - 1 > pos {
                    assert(lex_lt(old_ov[pos as int], old_ov[b - 1]));
                    lemma_lex_le_trans(s@, old_ov[pos as int], old_ov[b - 1]);
                    if s@ == old_ov[b - 1] {
                        lemma_lex_le_antisym(s@, old_ov[pos as int]);
                    }
                }
            } else {
                assert(a > pos && b > pos);
                assert(nv[a] == old_ov[a - 1] && nv[b] == old_ov[b - 1]);
            }
        }
        assert(nv[pos as int] == s@);
        assert forall|k: int| 0 <= k < nv.len() implies (#[trigger] nv[k]) == s@ || (exists|j: int|
            0 <= j < old_ov.len() && old_ov[j] == nv[k]) by {
            if k < pos {
                assert(nv[k] == old_ov[k]);
            } else if k > pos {
                assert(nv[k] == old_ov[k - 1]);
            }
        }
        assert forall|j: int| 0 <= j < old_ov.len() implies exists|k: int|
            0 <= k < nv.len() && nv[k] == (#[trigger] old_ov[j]) by {
            if j < pos {
                assert(nv[j] == old_ov[j]);
            } else {
                assert(nv[j + 1] == old_ov[j]);
            }
        }
    }
}

/// Whether a path's final component is `config.yml`: the whole path, or a
/// `/config.yml` suffix.
pub open spec fn is_config_yml(p: Seq<char>) -> bool {
    &&& p.len() >= 10
    &&& p.skip(p.len() - 10) == seq!['c', 'o', 'n', 'f', 'i', 'g', '.', 'y', 'm', 'l']
    &&& (p.len() == 10 || p[p.len() - 11] == '/')
}

/// Whether any changed path calls for a rebuild: a `config.yml` file, or a
/// source with extension `ts` or `js`.
pub open spec fn rebuild_trigger(p: Seq<char>) -> bool {
    ||| has_ext(p, seq!['t', 's'])
    ||| has_ext(p, seq!['j', 's'])
    ||| is_config_yml(p)
}

/// Whether any of the changed paths calls for a rebuild and swap.
pub fn should_rebuild(paths: &Vec<String>) -> (r: bool)
    ensures
        r == exists|j: int|
            0 <= j < paths.deep_view().len() && rebuild_trigger(#[trigger] paths.deep_view()[j]),
{
    let ts: Vec<char> = vec!['t', 's'];
    let js: Vec<char> = vec!['j', 's'];
    let cfg: Vec<char> = vec!['c', 'o', 'n', 'f', 'i', 'g', '.', 'y', 'm', 'l'];
    proof {
        assert(ts@ =~= seq!['t', 's']);
        assert(js@ =~= seq!['j', 's']);
        assert(cfg@ =~= seq!['c', 'o', 'n', 'f', 'i', 'g', '.', 'y', 'm', 'l']);
    }
    let ghost pv = paths.deep_view();
    let mut j: usize = 0;
    while j < paths.len()
        invariant
            j <= pv.len(),
            pv == paths.deep_view(),
            pv.len() == paths@.len(),
            ts@ == seq!['t', 's'],
            js@ == seq!['j', 's'],
            cfg@ == seq!['c', 'o', 'n', 'f', 'i', 'g', '.', 'y', 'm', 'l'],
            forall|k: int| 0 <= k < j ==> !rebuild_trigger(#[trigger] pv[k]),
        decreases pv.len() - j,
    {
        let pc = to_chars(paths[j].as_str());
        proof {
            assert(pc@ == pv[j as int]);
        }
        if has_ext_exec(&pc, &ts) || has_ext_exec(&pc, &js) {
            return true;
        }
        if pc.len() >= 10 && (pc.len() == 10 || pc[pc.len() - 11] == '/') {
            let mut k: usize = 0;
            let start = pc.len() - 10;
            let mut suffix_eq = true;
            while k < 10
                invariant
                    k <= 10,
                    pc@.len() >= 10,
                    start == pc@.len() - 10,
                    pc@.len() <= usize::MAX,
                    cfg@ == seq!['c', 'o', 'n', 'f', 'i', 'g', '.', 'y', 'm', 'l'],
                    cfg@.len() == 10,
                    suffix_eq ==> forall|t: int| 0 <= t < k ==> pc@[start + t] == cfg@[t],
                    !suffix_eq ==> pc@.skip(pc@.len() - 10) != cfg@,
                decreases 10 - k,
            {
                if pc[start + k] != cfg[k] {
                    proof {
                        assert(pc@.skip(pc@.len() - 10)[k as int] != cfg@[k as int]);
                    }
                    suffix_eq = false;
                }
                k += 1;
            }
            if suffix_eq {
                proof {
                    assert(pc@.skip(pc@.len() - 10) =~= cfg@);
                }
                return true;
            }
        }
        j += 1;
    }
    false
}

/// The name of the build directory.
pub open spec fn build_dir_chars() -> Seq<char> {
    seq!['.', 'b', 'u', 'i', 'l', 'd']
}

/// The artefact paths of a source set: `.build/<hash>.mjs` for the bundle
/// and `.build/<hash>.yml` for the copied config, where `<hash>` is the
/// 16-character prefix of the BLAKE3 hash of the concatenated sorted file
/// contents. The same source set always names the same artefacts.
pub fn build_cache_paths(files: &Vec<Vec<u8>>) -> (r: (String, String))
    ensures
        r.0@ == build_dir_chars() + seq!['/'] + hash_of_files(files.deep_view(), 16) + seq![
            '.',
            'm',
            'j',
            's',
        ],
        r.1@ == build_dir_chars() + seq!['/'] + hash_of_files(files.deep_view(), 16) + seq![
            '.',
            'y',
            'm',
            'l',
        ],
{
    let hash = calc_project_hash(files);
    let mut base: Vec<char> = vec!['.', 'b', 'u', 'i', 'l', 'd', '/'];
    proof {
        assert(base@ =~= build_dir_chars() + seq!['/']);
    }
    let hv = to_chars(hash.as_str());
    let mut mjs = base.clone();
    let mut k: usize = 0;
    proof {
        assert(mjs@ =~= base@ + hv@.take(0));
    }
    while k < hv.len()
        invariant
            k <= hv@.len(),
            mjs@ == base@ + hv@.take(k as int),
        decreases hv@.len() - k,
    {
        mjs.push(hv[k]);
        k += 1;
        proof {
            assert(mjs@ =~= base@ + hv@.take(k as int));
        }
    }
    proof {
        assert(hv@.take(hv@.len() as int) =~= hv@);
    }
    let mut yml = mjs.clone();
    mjs.push('.');
    mjs.push('m');
    mjs.push('j');
    mjs.push('s');
    yml.push('.');
    yml.push('y');
    yml.push('m');
    yml.push('l');
    proof {
        assert(mjs@ =~= build_dir_chars() + seq!['/'] + hash@ + seq!['.', 'm', 'j', 's']);
        assert(yml@ =~= build_dir_chars() + seq!['/'] + hash@ + seq!['.', 'y', 'm', 'l']);
    }
    (from_chars(&mjs), from_chars(&yml))
}

} // verus!
