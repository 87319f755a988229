//! The result reducer: the raw path list of a run, sorted
//! lexicographically and with duplicates removed, so that the output
//! does not depend on traversal order and re-running yields the same
//! sequence.

use vstd::prelude::*;

verus! {

/// Lexicographic order on character sequences: compare by the first
/// differing character's scalar value; a proper prefix comes first.
pub open spec fn lex_le(a: Seq<char>, b: Seq<char>) -> bool
    decreases a.len(),
{
    if a.len() == 0 {
        true
    } else if b.len() == 0 {
        false
    } else if (a[0] as u32) < (b[0] as u32) {
        true
    } else if a[0] == b[0] {
        lex_le(a.skip(1), b.skip(1))
    } else {
        false
    }
}

pub proof fn lemma_lex_refl(a: Seq<char>)
    ensures
        lex_le(a, a),
    decreases a.len(),
{
    if a.len() > 0 {
        lemma_lex_refl(a.skip(1));
    }
}

pub proof fn lemma_lex_total(a: Seq<char>, b: Seq<char>)
    ensures
        lex_le(a, b) || lex_le(b, a),
    decreases a.len(),
{
    if a.len() == 0 {
    } else if b.len() == 0 {
    } else if (a[0] as u32) < (b[0] as u32) {
    } else if (b[0] as u32) < (a[0] as u32) {
    } else {
        vstd::utf8::char_u32_cast(a[0], a[0] as u32);
        vstd::utf8::char_u32_cast(b[0], b[0] as u32);
        assert(a[0] == b[0]);
        lemma_lex_total(a.skip(1), b.skip(1));
    }
}

pub proof fn lemma_lex_antisym(a: Seq<char>, b: Seq<char>)
    requires
        lex_le(a, b),
        lex_le(b, a),
    ensures
        a == b,
    decreases a.len(),
{
    if a.len() == 0 {
        assert(b.len() == 0);
        assert(a =~= b);
    } else {
        assert(b.len() > 0);
        assert(a[0] == b[0]);
        lemma_lex_antisym(a.skip(1), b.skip(1));
        assert forall|i: int| 0 <= i < a.len() implies a[i] == b[i] by {
            if i > 0 {
                assert(a[i] == a.skip(1)[i - 1]);
                assert(b[i] == b.skip(1)[i - 1]);
            }
        }
        assert(a =~= b);
    }
}

pub proof fn lemma_lex_trans(a: Seq<char>, b: Seq<char>, c: Seq<char>)
    requires
        lex_le(a, b),
        lex_le(b, c),
    ensures
        lex_le(a, c),
    decreases a.len(),
{
    if a.len() > 0 && b.len() > 0 && c.len() > 0 {
        if a[0] == b[0] && b[0] == c[0] {
            lemma_lex_trans(a.skip(1), b.skip(1), c.skip(1));
        }
    }
}

/// Whether `a` comes at or before `b` in lexicographic order.
pub fn str_le(a: &str, b: &str) -> (r: bool)
    ensures
        r == lex_le(a@, b@),
{
    let na = a.unicode_len();
    let nb = b.unicode_len();
    let mut i: usize = 0;
    proof {
        assert(a@.skip(0) =~= a@);
        assert(b@.skip(0) =~= b@);
    }
    while i < na && i < nb
        invariant
            i <= na,
            i <= nb,
            na == a@.len(),
            nb == b@.len(),
            lex_le(a@, b@) == lex_le(a@.skip(i as int), b@.skip(i as int)),
        decreases na - i,
    {
        let ca = a.get_char(i);
        let cb = b.get_char(i);
        proof {
            assert(a@.skip(i as int)[0] == a@[i as int]);
            assert(b@.skip(i as int)[0] == b@[i as int]);
        }
        if (ca as u32) < (cb as u32) {
            return true;
        }
        if (ca as u32) > (cb as u32) {
            return false;
        }
        proof {
            assert(ca == cb);
            assert(a@.skip(i as int).skip(1) =~= a@.skip(i as int + 1));
            assert(b@.skip(i as int).skip(1) =~= b@.skip(i as int + 1));
        }
        i = i + 1;
    }
    if i == na {
        proof {
            assert(a@.skip(na as int).len() == 0);
        }
        true
    } else {
        proof {
            assert(i == nb);
            assert(b@.skip(nb as int).len() == 0);
            assert(a@.skip(i as int).len() > 0);
        }
        false
    }
}

/// Whether `a` comes strictly before `b` in lexicographic order.
pub fn str_lt(a: &str, b: &str) -> (r: bool)
    ensures
        r == (lex_le(a@, b@) && a@ != b@),
{
    let le_ab = str_le(a, b);
    if !le_ab {
        return false;
    }
    let le_ba = str_le(b, a);
    proof {
        if a@ == b@ {
            lemma_lex_refl(a@);
        }
        if !le_ba {
        } else {
            lemma_lex_antisym(a@, b@);
        }
    }
    !le_ba
}

/// Strictly increasing in lexicographic order: sorted, and no two
/// entries equal.
pub open spec fn strict_sorted(v: Seq<Seq<char>>) -> bool {
    forall|i: int, j: int|
        0 <= i < j < v.len() ==> lex_le(v[i], v[j]) && v[i] != v[j]
}

/// Put `x` where it belongs in the strictly sorted `out`, unless an
/// equal entry is already there.
fn insert_unique(out: &mut Vec<String>, x: String)
    requires
        strict_sorted(old(out).deep_view()),
    ensures
        strict_sorted(final(out).deep_view()),
        forall|s: Seq<char>|
            final(out).deep_view().contains(s) <==> (old(out).deep_view().contains(s) || s
                == x@),
{
    let ghost dv = out.deep_view();
    let n = out.len();
    let mut i: usize = 0;
    while i < n && str_lt(out[i].as_str(), x.as_str())
        invariant
            i <= n,
            n == out@.len(),
            out.deep_view() == dv,
            forall|j: int| 0 <= j < i ==> lex_le(dv[j], x@) && dv[j] != x@,
        decreases n - i,
    {
        i = i + 1;
    }
    if i < n && out[i].eq(&x) {
        proof {
            assert(dv[i as int] == x@);
            assert(dv.contains(x@));
        }
        return ;
    }
    proof {
        if i < n {
            lemma_lex_total(dv[i as int], x@);
            if lex_le(dv[i as int], x@) && dv[i as int] != x@ {
                assert(false);
            }
            assert(lex_le(x@, dv[i as int]));
            assert(x@ != dv[i as int]);
        }
    }
    let ghost pre = out@;
    out.insert(i, x);
    proof {
        let fin = out.deep_view();
        assert(out@ == pre.insert(i as int, x));
        assert forall|k: int| 0 <= k < fin.len() implies fin[k] == (
            if k < i {
                dv[k]
            } else if k == i {
                x@
            } else {
                dv[k - 1]
            }) by {
            assert(fin[k] == out@[k]@);
        }
        assert forall|q: int| i < q < fin.len() implies lex_le(x@, fin[q]) && x@ != fin[q] by {
            assert(fin[q] == dv[q - 1]);
            if q - 1 > i {
                assert(lex_le(dv[i as int], dv[q - 1]) && dv[i as int] != dv[q - 1]);
                lemma_lex_trans(x@, dv[i as int], dv[q - 1]);
                if x@ == dv[q - 1] {
                    lemma_lex_antisym(dv[i as int], x@);
                }
            }
        }
        assert forall|p: int, q: int| 0 <= p < q < fin.len() implies lex_le(fin[p], fin[q])
            && fin[p] != fin[q] by {
            if q < i {
                assert(fin[p] == dv[p]);
                assert(fin[q] == dv[q]);
                assert(lex_le(dv[p], dv[q]) && dv[p] != dv[q]);
            } else if p < i && q == i {
                assert(fin[p] == dv[p]);
                assert(fin[q] == x@);
                assert(lex_le(dv[p], x@) && dv[p] != x@);
            } else if p == i {
                assert(fin[p] == x@);
                assert(lex_le(x@, fin[q]) && x@ != fin[q]);
            } else if p < i && q > i {
                assert(fin[p] == dv[p]);
                assert(lex_le(dv[p], x@) && dv[p] != x@);
                assert(lex_le(x@, fin[q]) && x@ != fin[q]);
                lemma_lex_trans(dv[p], x@, fin[q]);
                if fin[p] == fin[q] {
                    lemma_lex_antisym(x@, fin[q]);
                }
            } else {
                assert(fin[p] == dv[p - 1]);
                assert(fin[q] == dv[q - 1]);
                assert(lex_le(dv[p - 1], dv[q - 1]) && dv[p - 1] != dv[q - 1]);
            }
        }
        assert forall|s: Seq<char>|
            fin.contains(s) <==> (dv.contains(s) || s == x@) by {
            if fin.contains(s) {
                let k = choose|k: int| 0 <= k < fin.len() && fin[k] == s;
                if k < i {
                    assert(dv[k] == s);
                    assert(dv.contains(s));
                } else if k > i {
                    assert(dv[k - 1] == s);
                    assert(dv.contains(s));
                }
            }
            if dv.contains(s) {
                let j = choose|j: int| 0 <= j < dv.len() && dv[j] == s;
                if j < i {
                    assert(fin[j] == s);
                } else {
                    assert(fin[j + 1] == s);
                }
                assert(fin.contains(s));
            }
            if s == x@ {
                assert(fin[i as int] == s);
                assert(fin.contains(s));
            }
        }
    }
}

/// The raw output of a run, sorted lexicographically with duplicates
/// removed: the result is strictly increasing — so it is
/// non-decreasing and holds no two equal paths — and it holds exactly
/// the paths of the raw list.
pub fn reduce(raw: Vec<String>) -> (out: Vec<String>)
    ensures
        strict_sorted(out.deep_view()),
        forall|s: Seq<char>|
            out.deep_view().contains(s) <==> raw.deep_view().contains(s),
{
    let ghost rv = raw.deep_view();
    let mut out: Vec<String> = Vec::new();
    let n = raw.len();
    let mut i: usize = 0;
    proof {
        assert(out.deep_view() =~= Seq::<Seq<char>>::empty());
        assert(forall|s: Seq<char>|
            out.deep_view().contains(s) <==> rv.take(0).contains(s));
    }
    while i < n
        invariant
            i <= n,
            n == raw@.len(),
            rv == raw.deep_view(),
            strict_sorted(out.deep_view()),
            forall|s: Seq<char>|
                out.deep_view().contains(s) <==> rv.take(i as int).contains(s),
        decreases n - i,
    {
        let ghost out_pre = out.deep_view();
        let x = raw[i].clone();
        proof {
            assert(x@ == rv[i as int]);
        }
        insert_unique(&mut out, x);
        proof {
            let t1 = rv.take(i as int + 1);
            assert forall|s: Seq<char>|
                out.deep_view().contains(s) <==> t1.contains(s) by {
                if out.deep_view().contains(s) {
                    if s == rv[i as int] {
                        assert(t1[i as int] == s);
                        assert(t1.contains(s));
                    } else {
                        assert(rv.take(i as int).contains(s));
                        let j = choose|j: int|
                            0 <= j < i && rv.take(i as int)[j] == s;
                        assert(t1[j] == s);
                        assert(t1.contains(s));
                    }
                }
                if t1.contains(s) {
                    let j = choose|j: int| 0 <= j < t1.len() && t1[j] == s;
                    if j < i {
                        assert(rv.take(i as int)[j] == s);
                        assert(rv.take(i as int).contains(s));
                    } else {
                        assert(s == rv[i as int]);
                    }
                }
            }
        }
        i = i + 1;
    }
    proof {
        assert(rv.take(n as int) =~= rv);
    }
    out
}

proof fn lemma_strict_sorted_skip(v: Seq<Seq<char>>)
    requires
        strict_sorted(v),
        v.len() > 0,
    ensures
        strict_sorted(v.skip(1)),
{
    let v1 = v.skip(1);
    assert forall|i: int, j: int|
        0 <= i < j < v1.len() implies lex_le(v1[i], v1[j]) && v1[i] != v1[j] by {
        assert(v1[i] == v[i + 1]);
        assert(v1[j] == v[j + 1]);
        assert(lex_le(v[i + 1], v[j + 1]) && v[i + 1] != v[j + 1]);
    }
}

proof fn contains_index(v: Seq<Seq<char>>, s: Seq<char>) -> (k: int)
    requires
        v.contains(s),
    ensures
        0 <= k < v.len(),
        v[k] == s,
{
    choose|k: int| 0 <= k < v.len() && v[k] == s
}

proof fn lemma_sorted_first_le(b: Seq<Seq<char>>, k: int)
    requires
        strict_sorted(b),
        0 <= k < b.len(),
    ensures
        lex_le(b[0], b[k]),
{
    if k > 0 {
        assert(lex_le(b[0], b[k]) && b[0] != b[k]);
    } else {
        lemma_lex_refl(b[0]);
    }
}

proof fn lemma_sorted_head_eq(a: Seq<Seq<char>>, b: Seq<Seq<char>>)
    requires
        strict_sorted(a),
        strict_sorted(b),
        forall|s: Seq<char>| a.contains(s) <==> b.contains(s),
        a.len() > 0,
    ensures
        b.len() > 0,
        a[0] == b[0],
{
    assert(a.contains(a[0]));
    assert(b.contains(a[0]));
    let k = contains_index(b, a[0]);
    assert(b.contains(b[0]));
    assert(a.contains(b[0]));
    let l = contains_index(a, b[0]);
    lemma_sorted_first_le(b, k);
    lemma_sorted_first_le(a, l);
    lemma_lex_antisym(a[0], b[0]);
}

proof fn lemma_tail_contains(a: Seq<Seq<char>>, b: Seq<Seq<char>>, s: Seq<char>)
    requires
        strict_sorted(a),
        strict_sorted(b),
        forall|t: Seq<char>| a.contains(t) <==> b.contains(t),
        a.len() > 0,
        b.len() > 0,
        a[0] == b[0],
        a.skip(1).contains(s),
    ensures
        b.skip(1).contains(s),
{
    let a1 = a.skip(1);
    let b1 = b.skip(1);
    let m = contains_index(a1, s);
    assert(a[m + 1] == s);
    assert(a.contains(s));
    assert(lex_le(a[0], a[m + 1]) && a[0] != a[m + 1]);
    assert(b.contains(s));
    let m2 = contains_index(b, s);
    if m2 == 0 {
        assert(s == b[0]);
        assert(false);
    } else {
        assert(b1[m2 - 1] == s);
        assert(b1.contains(s));
    }
}

/// Two strictly sorted sequences that hold the same paths are the same
/// sequence.
pub proof fn lemma_sorted_unique(a: Seq<Seq<char>>, b: Seq<Seq<char>>)
    requires
        strict_sorted(a),
        strict_sorted(b),
        forall|s: Seq<char>| a.contains(s) <==> b.contains(s),
    ensures
        a == b,
    decreases a.len(),
{
    if a.len() == 0 {
        if b.len() > 0 {
            assert(b.contains(b[0]));
        }
        assert(a =~= b);
    } else {
        lemma_sorted_head_eq(a, b);
        let a1 = a.skip(1);
        let b1 = b.skip(1);
        lemma_strict_sorted_skip(a);
        lemma_strict_sorted_skip(b);
        assert forall|s: Seq<char>| a1.contains(s) <==> b1.contains(s) by {
            if a1.contains(s) {
                lemma_tail_contains(a, b, s);
            }
            if b1.contains(s) {
                lemma_sorted_head_eq(b, a);
                lemma_tail_contains(b, a, s);
            }
        }
        lemma_sorted_unique(a1, b1);
        assert forall|i: int| 0 <= i < a.len() implies a[i] == b[i] by {
            if i > 0 {
                assert(a[i] == a1[i - 1]);
                assert(b[i] == b1[i - 1]);
            }
        }
        assert(a =~= b);
    }
}

/// The reduced output is a function of the raw path set alone: two
/// runs whose raw lists hold the same paths — in particular, a run
/// repeated against an unchanged filesystem, or one whose manifests
/// declare their resources in another order — reduce to the same
/// sequence.
pub proof fn lemma_reduce_deterministic(
    raw1: Seq<Seq<char>>,
    raw2: Seq<Seq<char>>,
    out1: Seq<Seq<char>>,
    out2: Seq<Seq<char>>,
)
    requires
        forall|s: Seq<char>| raw1.contains(s) <==> raw2.contains(s),
        strict_sorted(out1),
        strict_sorted(out2),
        forall|s: Seq<char>| out1.contains(s) <==> raw1.contains(s),
        forall|s: Seq<char>| out2.contains(s) <==> raw2.contains(s),
    ensures
        out1 == out2,
{
    lemma_sorted_unique(out1, out2);
}

} // verus!
