//! Lexicographic order on strings and a stable sort of indices by string keys.

use vstd::prelude::*;

verus! {

/// `a` comes no later than `b` in lexicographic order of code points (the
/// order of `String`'s `Ord`, which compares the UTF-8 bytes).
pub open spec fn lex_le(a: Seq<char>, b: Seq<char>) -> bool
    decreases a.len(),
{
    if a.len() == 0 {
        true
    } else if b.len() == 0 {
        false
    } else if (a[0] as u32) < (b[0] as u32) {
        true
    } else if a[0] == b[0] {
        lex_le(a.drop_first(), b.drop_first())
    } else {
        false
    }
}

/// Every string comes no later than itself.
pub proof fn lemma_lex_refl(a: Seq<char>)
    ensures
        lex_le(a, a),
    decreases a.len(),
{
    if a.len() > 0 {
        lemma_lex_refl(a.drop_first());
    }
}

/// Any two strings are ordered one way or the other.
pub proof fn lemma_lex_total(a: Seq<char>, b: Seq<char>)
    ensures
        lex_le(a, b) || lex_le(b, a),
    decreases a.len(),
{
    if a.len() > 0 && b.len() > 0 {
        if a[0] == b[0] {
            lemma_lex_total(a.drop_first(), b.drop_first());
        } else {
            vstd::utf8::char_u32_cast(a[0], a[0] as u32);
            vstd::utf8::char_u32_cast(b[0], b[0] as u32);
        }
    }
}

/// Two strings ordered both ways are equal.
pub proof fn lemma_lex_antisym(a: Seq<char>, b: Seq<char>)
    requires
        lex_le(a, b),
        lex_le(b, a),
    ensures
        a == b,
    decreases a.len(),
{
    if a.len() == 0 {
        assert(b.len() == 0);
        assert(a =~= b);
    } else {
        assert(b.len() > 0);
        assert(a[0] == b[0]);
        lemma_lex_antisym(a.drop_first(), b.drop_first());
        assert(a =~= seq![a[0]] + a.drop_first());
        assert(b =~= seq![b[0]] + b.drop_first());
    }
}

/// The order is transitive.
pub proof fn lemma_lex_trans(a: Seq<char>, b: Seq<char>, c: Seq<char>)
    requires
        lex_le(a, b),
        lex_le(b, c),
    ensures
        lex_le(a, c),
    decreases a.len(),
{
    if a.len() > 0 && b.len() > 0 && c.len() > 0 && a[0] == b[0] && b[0] == c[0] {
        lemma_lex_trans(a.drop_first(), b.drop_first(), c.drop_first());
    }
}

/// Whether `a` comes no later than `b` in lexicographic order.
pub fn lex_le_exec(a: &[char], b: &[char]) -> (r: bool)
    ensures
        r == lex_le(a@, b@),
{
    let mut i: usize = 0;
    assert(a@.skip(0) =~= a@);
    assert(b@.skip(0) =~= b@);
    while i < a.len() && i < b.len() && a[i] == b[i]
        invariant
            i <= a@.len(),
            i <= b@.len(),
            lex_le(a@, b@) == lex_le(a@.skip(i as int), b@.skip(i as int)),
        decreases a@.len() - i,
    {
        let ghost sa = a@.skip(i as int);
        let ghost sb = b@.skip(i as int);
        assert(sa.drop_first() =~= a@.skip(i + 1));
        assert(sb.drop_first() =~= b@.skip(i + 1));
        assert(sa[0] == a@[i as int]);
        assert(sb[0] == b@[i as int]);
        i = i + 1;
    }
    let ghost sa = a@.skip(i as int);
    let ghost sb = b@.skip(i as int);
    if i == a.len() {
        assert(sa.len() == 0);
        true
    } else if i == b.len() {
        assert(sb.len() == 0);
        false
    } else {
        assert(sa[0] == a@[i as int]);
        assert(sb[0] == b@[i as int]);
        (a[i] as u32) < (b[i] as u32)
    }
}

/// Index `x` comes no later than index `y` when ordered by `keys`,
/// ascending or descending.
pub open spec fn key_le(keys: Seq<Seq<char>>, x: usize, y: usize, asc: bool) -> bool {
    if asc {
        lex_le(keys[x as int], keys[y as int])
    } else {
        lex_le(keys[y as int], keys[x as int])
    }
}

/// `out` is ordered by `keys`.
pub open spec fn key_sorted(out: Seq<usize>, keys: Seq<Seq<char>>, asc: bool) -> bool {
    forall|i: int, j: int| 0 <= i < j < out.len() ==> key_le(keys, #[trigger] out[i], #[trigger] out[j], asc)
}

/// Indices with equal keys keep their relative (increasing) order.
pub open spec fn key_stable(out: Seq<usize>, keys: Seq<Seq<char>>) -> bool {
    forall|i: int, j: int|
        0 <= i < j < out.len() && keys[#[trigger] out[i] as int] == keys[#[trigger] out[j] as int] ==> out[i] < out[j]
}

/// `out` holds the same indices as `inp`, each once.
pub open spec fn same_indices(out: Seq<usize>, inp: Seq<usize>) -> bool {
    &&& out.len() == inp.len()
    &&& out.no_duplicates()
    &&& forall|x: usize| out.contains(x) <==> inp.contains(x)
}

/// `inp` is strictly increasing and indexes `keys`.
pub open spec fn sortable(inp: Seq<usize>, keys: Seq<Seq<char>>) -> bool {
    &&& forall|i: int, j: int| 0 <= i < j < inp.len() ==> #[trigger] inp[i] < #[trigger] inp[j]
    &&& forall|i: int| 0 <= i < inp.len() ==> (#[trigger] inp[i] as int) < keys.len()
}

/// `out` is the stable sort of `inp` by `keys`.
pub open spec fn stable_sorted(out: Seq<usize>, inp: Seq<usize>, keys: Seq<Seq<char>>, asc: bool) -> bool {
    &&& same_indices(out, inp)
    &&& key_sorted(out, keys, asc)
    &&& key_stable(out, keys)
}

proof fn lemma_key_total(keys: Seq<Seq<char>>, x: usize, y: usize, asc: bool)
    ensures
        key_le(keys, x, y, asc) || key_le(keys, y, x, asc),
{
    lemma_lex_total(keys[x as int], keys[y as int]);
}

proof fn lemma_key_trans(keys: Seq<Seq<char>>, x: usize, y: usize, z: usize, asc: bool)
    requires
        key_le(keys, x, y, asc),
        key_le(keys, y, z, asc),
    ensures
        key_le(keys, x, z, asc),
{
    if asc {
        lemma_lex_trans(keys[x as int], keys[y as int], keys[z as int]);
    } else {
        lemma_lex_trans(keys[z as int], keys[y as int], keys[x as int]);
    }
}

proof fn lemma_key_eq(keys: Seq<Seq<char>>, x: usize, y: usize, asc: bool)
    requires
        keys[x as int] == keys[y as int],
    ensures
        key_le(keys, y, x, asc),
{
    lemma_lex_refl(keys[x as int]);
}

/// Sort the indices `inp` by their keys, ascending or descending, keeping
/// indices with equal keys in the order they came in.
pub fn stable_sort(inp: &Vec<usize>, keys: &Vec<Vec<char>>, asc: bool) -> (out: Vec<usize>)
    requires
        sortable(inp@, keys@.map_values(|k: Vec<char>| k@)),
    ensures
        stable_sorted(out@, inp@, keys@.map_values(|k: Vec<char>| k@), asc),
{
    let ghost km = keys@.map_values(|k: Vec<char>| k@);
    let mut res: Vec<usize> = Vec::new();
    let mut k: usize = 0;
    while k < inp.len()
        invariant
            km == keys@.map_values(|k: Vec<char>| k@),
            sortable(inp@, km),
            k <= inp@.len(),
            same_indices(res@, inp@.take(k as int)),
            key_sorted(res@, km, asc),
            key_stable(res@, km),
        decreases inp@.len() - k,
    {
        let x = inp[k];
        assert forall|q: int| 0 <= q < res@.len() implies #[trigger] res@[q] < x by {
            assert(inp@.take(k as int).contains(res@[q]));
            let m = choose|m: int| 0 <= m < k && inp@.take(k as int)[m] == res@[q];
            assert(inp@[m] < inp@[k as int]);
        }
        let mut p: usize = res.len();
        while p > 0 && !lex_le_exec_key(keys, res[p - 1], x, asc)
            invariant
                km == keys@.map_values(|k: Vec<char>| k@),
                sortable(inp@, km),
                p <= res@.len(),
                forall|q: int| 0 <= q < res@.len() ==> (#[trigger] res@[q] as int) < km.len(),
                (x as int) < km.len(),
                forall|q: int| p <= q < res@.len() ==> !key_le(km, #[trigger] res@[q], x, asc),
            decreases p,
        {
            p = p - 1;
        }
        let ghost old_res = res@;
        res.insert(p, x);
        assert(res@ == old_res.take(p as int) + seq![x] + old_res.skip(p as int));
        assert forall|i: int, j: int| 0 <= i < j < res@.len() implies key_le(km, #[trigger] res@[i], #[trigger] res@[j], asc) by {
            if j < p {
                assert(res@[i] == old_res[i] && res@[j] == old_res[j]);
            } else if j == p {
                assert(res@[i] == old_res[i]);
                assert(key_le(km, old_res[p - 1], x, asc));
                if i < p - 1 {
                    assert(key_le(km, old_res[i], old_res[p - 1], asc));
                    lemma_key_trans(km, old_res[i], old_res[p - 1], x, asc);
                }
            } else if i == p {
                assert(res@[j] == old_res[j - 1]);
                lemma_key_total(km, old_res[j - 1], x, asc);
            } else if i < p {
                assert(res@[i] == old_res[i] && res@[j] == old_res[j - 1]);
            } else {
                assert(res@[i] == old_res[i - 1] && res@[j] == old_res[j - 1]);
            }
        }
        assert forall|i: int, j: int|
            0 <= i < j < res@.len() && km[#[trigger] res@[i] as int] == km[#[trigger] res@[j] as int] implies res@[i] < res@[j] by {
            if j < p {
                assert(res@[i] == old_res[i] && res@[j] == old_res[j]);
            } else if j == p {
                assert(res@[i] == old_res[i]);
            } else if i == p {
                assert(res@[j] == old_res[j - 1]);
                lemma_key_eq(km, x, old_res[j - 1], asc);
            } else if i < p {
                assert(res@[i] == old_res[i] && res@[j] == old_res[j - 1]);
            } else {
                assert(res@[i] == old_res[i - 1] && res@[j] == old_res[j - 1]);
            }
        }
        assert(inp@.take(k + 1) == inp@.take(k as int).push(x));
        assert forall|y: usize| res@.contains(y) <==> inp@.take(k + 1).contains(y) by {
            if res@.contains(y) {
                let m = choose|m: int| 0 <= m < res@.len() && res@[m] == y;
                if m < p {
                    assert(old_res[m] == y);
                    assert(old_res.contains(y));
                } else if m > p {
                    assert(old_res[m - 1] == y);
                    assert(old_res.contains(y));
                }
                assert(inp@.take(k + 1)[k as int] == x);
            }
            if inp@.take(k + 1).contains(y) {
                let m = choose|m: int| 0 <= m < k + 1 && #[trigger] inp@.take(k + 1)[m] == y;
                if m == k {
                    assert(res@[p as int] == y);
                } else {
                    assert(inp@.take(k as int)[m] == y);
                    assert(old_res.contains(y));
                    let q = choose|q: int| 0 <= q < old_res.len() && old_res[q] == y;
                    if q < p {
                        assert(res@[q] == y);
                    } else {
                        assert(res@[q + 1] == y);
                    }
                }
            }
        }
        assert(res@.no_duplicates()) by {
            assert forall|i: int, j: int| 0 <= i < res@.len() && 0 <= j < res@.len() && i != j implies res@[i] != res@[j] by {
                if i == p {
                    if j < p { assert(res@[j] == old_res[j]); } else { assert(res@[j] == old_res[j - 1]); }
                } else if j == p {
                    if i < p { assert(res@[i] == old_res[i]); } else { assert(res@[i] == old_res[i - 1]); }
                } else {
                    let oi = if i < p { i } else { i - 1 };
                    let oj = if j < p { j } else { j - 1 };
                    assert(res@[i] == old_res[oi]);
                    assert(res@[j] == old_res[oj]);
                }
            }
        }
        k = k + 1;
    }
    assert(inp@.take(inp@.len() as int) =~= inp@);
    res
}

/// Whether index `x` comes no later than index `y` by `keys`.
fn lex_le_exec_key(keys: &Vec<Vec<char>>, x: usize, y: usize, asc: bool) -> (r: bool)
    requires
        (x as int) < keys@.len(),
        (y as int) < keys@.len(),
    ensures
        r == key_le(keys@.map_values(|k: Vec<char>| k@), x, y, asc),
{
    if asc {
        lex_le_exec(keys[x].as_slice(), keys[y].as_slice())
    } else {
        lex_le_exec(keys[y].as_slice(), keys[x].as_slice())
    }
}

} // verus!
