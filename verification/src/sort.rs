//! A stable sort by keys compared lexicographically (the order of `str` and
//! of tuples of integers), returning the sorted order of positions.
use vstd::prelude::*;
use vstd::relations::{sorted_by, total_ordering};

verus! {

broadcast use {vstd::seq_lib::group_to_multiset_ensures, vstd::multiset::group_multiset_axioms};

/// Lexicographic order on sequences of numbers: a proper prefix comes first,
/// otherwise the first differing element decides.
pub open spec fn lex_le(a: Seq<u32>, b: Seq<u32>) -> bool
    decreases a.len(),
{
    if a.len() == 0 {
        true
    } else if b.len() == 0 {
        false
    } else if a[0] != b[0] {
        a[0] < b[0]
    } else {
        lex_le(a.drop_first(), b.drop_first())
    }
}

pub proof fn lemma_lex_refl(a: Seq<u32>)
    ensures
        lex_le(a, a),
    decreases a.len(),
{
    if a.len() > 0 {
        lemma_lex_refl(a.drop_first());
    }
}

pub proof fn lemma_lex_antisym(a: Seq<u32>, b: Seq<u32>)
    requires
        lex_le(a, b),
        lex_le(b, a),
    ensures
        a == b,
    decreases a.len(),
{
    if a.len() > 0 && b.len() > 0 {
        lemma_lex_antisym(a.drop_first(), b.drop_first());
        assert(a =~= seq![a[0]] + a.drop_first());
        assert(b =~= seq![b[0]] + b.drop_first());
    } else {
        assert(a =~= b);
    }
}

pub proof fn lemma_lex_trans(a: Seq<u32>, b: Seq<u32>, c: Seq<u32>)
    requires
        lex_le(a, b),
        lex_le(b, c),
    ensures
        lex_le(a, c),
    decreases a.len(),
{
    if a.len() > 0 && b.len() > 0 && c.len() > 0 {
        if a[0] == b[0] && b[0] == c[0] {
            lemma_lex_trans(a.drop_first(), b.drop_first(), c.drop_first());
        }
    }
}

pub proof fn lemma_lex_total(a: Seq<u32>, b: Seq<u32>)
    ensures
        lex_le(a, b) || lex_le(b, a),
    decreases a.len(),
{
    if a.len() > 0 && b.len() > 0 && a[0] == b[0] {
        lemma_lex_total(a.drop_first(), b.drop_first());
    }
}

/// A key paired with its position; equal keys keep their positions' order.
pub open spec fn key_le(x: (Seq<u32>, int), y: (Seq<u32>, int)) -> bool {
    if x.0 == y.0 {
        x.1 <= y.1
    } else {
        lex_le(x.0, y.0)
    }
}

pub open spec fn key_le_f() -> spec_fn((Seq<u32>, int), (Seq<u32>, int)) -> bool {
    |x: (Seq<u32>, int), y: (Seq<u32>, int)| key_le(x, y)
}

pub proof fn lemma_key_total_ordering()
    ensures
        total_ordering(key_le_f()),
{
    let f = key_le_f();
    assert forall|x: (Seq<u32>, int)| #[trigger] f(x, x) by {
        lemma_lex_refl(x.0);
    }
    assert forall|x: (Seq<u32>, int), y: (Seq<u32>, int)| #[trigger] f(x, y) && #[trigger] f(y, x) implies x
        == y by {
        if x.0 != y.0 {
            lemma_lex_antisym(x.0, y.0);
        }
    }
    assert forall|x: (Seq<u32>, int), y: (Seq<u32>, int), z: (Seq<u32>, int)| #[trigger] f(x, y)
        && #[trigger] f(y, z) implies f(x, z) by {
        if x.0 != y.0 && y.0 != z.0 {
            lemma_lex_trans(x.0, y.0, z.0);
            if x.0 == z.0 {
                lemma_lex_antisym(x.0, y.0);
            }
        }
    }
    assert forall|x: (Seq<u32>, int), y: (Seq<u32>, int)| #[trigger] f(x, y) || #[trigger] f(y, x) by {
        lemma_lex_total(x.0, y.0);
    }
}

/// Each key with its position.
pub open spec fn keyed(keys: Seq<Seq<u32>>) -> Seq<(Seq<u32>, int)> {
    Seq::new(keys.len(), |i: int| (keys[i], i))
}

/// The positions of `keys` in stably sorted order.
pub open spec fn sorted_order(keys: Seq<Seq<u32>>) -> Seq<int> {
    keyed(keys).sort_by(key_le_f()).map_values(|p: (Seq<u32>, int)| p.1)
}

/// The views of a list of keys.
pub open spec fn kviews(keys: Seq<Vec<u32>>) -> Seq<Seq<u32>> {
    keys.map_values(|k: Vec<u32>| k@)
}

/// A list of positions seen as (key, position) pairs.
pub open spec fn pv(keys: Seq<Seq<u32>>, p: Seq<usize>) -> Seq<(Seq<u32>, int)> {
    p.map_values(|j: usize| (keys[j as int], j as int))
}

/// Compare two keys: `lex_le`.
pub fn lex_le_exec(a: &Vec<u32>, b: &Vec<u32>) -> (r: bool)
    ensures
        r == lex_le(a@, b@),
{
    let mut i: usize = 0;
    assert(a@.skip(0) =~= a@);
    assert(b@.skip(0) =~= b@);
    while i < a.len() && i < b.len()
        invariant
            i <= a@.len(),
            i <= b@.len(),
            lex_le(a@, b@) == lex_le(a@.skip(i as int), b@.skip(i as int)),
        decreases a@.len() - i,
    {
        if a[i] != b[i] {
            return a[i] < b[i];
        }
        proof {
            assert(a@.skip(i as int).drop_first() =~= a@.skip(i + 1));
            assert(b@.skip(i as int).drop_first() =~= b@.skip(i + 1));
        }
        i = i + 1;
    }
    i == a.len()
}

fn keys_eq(a: &Vec<u32>, b: &Vec<u32>) -> (r: bool)
    ensures
        r == (a@ == b@),
{
    if a.len() != b.len() {
        return false;
    }
    let mut i: usize = 0;
    while i < a.len()
        invariant
            a@.len() == b@.len(),
            i <= a@.len(),
            forall|j: int| 0 <= j < i ==> a@[j] == b@[j],
        decreases a@.len() - i,
    {
        if a[i] != b[i] {
            return false;
        }
        i = i + 1;
    }
    assert(a@ =~= b@);
    true
}

fn not_after(keys: &Vec<Vec<u32>>, j: usize, i: usize) -> (r: bool)
    requires
        j < keys@.len(),
        i < keys@.len(),
    ensures
        r == (keys@[j as int]@ == keys@[i as int]@ || lex_le(keys@[j as int]@, keys@[i as int]@)),
{
    keys_eq(&keys[j], &keys[i]) || lex_le_exec(&keys[j], &keys[i])
}

/// The positions of `keys` in stably sorted order: by key, lexicographically,
/// and equal keys in their original order.
pub fn sort_order(keys: &Vec<Vec<u32>>) -> (r: Vec<usize>)
    ensures
        r@.map_values(|i: usize| i as int) == sorted_order(kviews(keys@)),
        r@.len() == keys@.len(),
        forall|k: int| 0 <= k < r@.len() ==> (#[trigger] r@[k]) < keys@.len(),
{
    let ghost ks = kviews(keys@);
    let ghost f = key_le_f();
    proof {
        lemma_key_total_ordering();
    }
    let n = keys.len();
    let mut out: Vec<usize> = Vec::new();
    let mut i: usize = 0;
    while i < n
        invariant
            i <= n,
            n == keys@.len(),
            ks == kviews(keys@),
            f == key_le_f(),
            total_ordering(f),
            out@.len() == i,
            forall|k: int| 0 <= k < out@.len() ==> (#[trigger] out@[k]) < i,
            sorted_by(pv(ks, out@), f),
            pv(ks, out@).to_multiset() == keyed(ks).take(i as int).to_multiset(),
        decreases n - i,
    {
        let ghost x: (Seq<u32>, int) = (ks[i as int], i as int);
        let mut pos: usize = 0;
        while pos < out.len() && not_after(keys, out[pos], i)
            invariant
                pos <= out@.len(),
                n == keys@.len(),
                i < n,
                ks == kviews(keys@),
                forall|k: int| 0 <= k < out@.len() ==> (#[trigger] out@[k]) < i,
                x == (ks[i as int], i as int),
                forall|k: int| 0 <= k < pos ==> key_le(#[trigger] pv(ks, out@)[k], x),
            decreases out@.len() - pos,
        {
            pos = pos + 1;
        }
        proof {
            let s = pv(ks, out@);
            if pos < out@.len() {
                let y = s[pos as int];
                assert(y == (ks[out@[pos as int] as int], out@[pos as int] as int));
                assert(!key_le(y, x));
                lemma_lex_total(x.0, y.0);
                assert(key_le(x, y));
            }
        }
        let ghost old_out = out@;
        out.insert(pos, i);
        proof {
            let s = pv(ks, old_out);
            let s2 = pv(ks, out@);
            assert(s2 =~= s.insert(pos as int, x));
            assert forall|k: int| 0 <= k < pos implies f(#[trigger] s[k], x) by {
                assert(key_le(s[k], x));
            }
            if pos < s.len() {
                assert(f(x, s[pos as int]));
            }
            assert forall|a: int, b: int| 0 <= a < b < s2.len() implies #[trigger] f(s2[a], s2[b]) by {
                if b < pos {
                    assert(s2[a] == s[a] && s2[b] == s[b]);
                } else if b == pos {
                    assert(s2[a] == s[a]);
                } else if a == pos {
                    assert(s2[b] == s[b - 1]);
                    if b - 1 > pos {
                        assert(f(s[pos as int], s[b - 1]));
                    }
                } else if a < pos {
                    assert(s2[a] == s[a] && s2[b] == s[b - 1]);
                } else {
                    assert(s2[a] == s[a - 1] && s2[b] == s[b - 1]);
                }
            }
            vstd::seq_lib::to_multiset_insert(s, pos as int, x);
            assert(keyed(ks).take(i + 1) =~= keyed(ks).take(i as int).push(x));
            vstd::seq_lib::to_multiset_build(keyed(ks).take(i as int), x);
            assert forall|k: int| 0 <= k < out@.len() implies (#[trigger] out@[k]) < i + 1 by {
                if k < pos {
                    assert(out@[k] == old_out[k]);
                } else if k > pos {
                    assert(out@[k] == old_out[k - 1]);
                }
            }
        }
        i = i + 1;
    }
    proof {
        assert(keyed(ks).take(n as int) =~= keyed(ks));
        keyed(ks).lemma_sort_by_ensures(f);
        vstd::seq_lib::lemma_sorted_unique(pv(ks, out@), keyed(ks).sort_by(f), f);
        assert(out@.map_values(|i: usize| i as int) =~= sorted_order(ks));
    }
    out
}

/// A string as the numbers of its characters, ordered as `str` orders.
pub open spec fn skey(s: Seq<char>) -> Seq<u32> {
    s.map_values(|c: char| c as u32)
}

/// The sort key of a string.
pub fn str_key(s: &str) -> (k: Vec<u32>)
    ensures
        k@ == skey(s@),
{
    let mut k: Vec<u32> = Vec::new();
    for c in it: s.chars()
        invariant
            it.seq() == s@,
            k@ == skey(it.seq().take(it.index() as int)),
    {
        proof {
            assert(skey(it.seq().take(it.index() + 1)) =~= skey(it.seq().take(it.index() as int)).push(c as u32));
        }
        k.push(c as u32);
    }
    proof {
        assert(s@.take(s@.len() as int) =~= s@);
    }
    k
}

/// The strings in `str` order, equal ones in their original order.
pub open spec fn sorted_strs(v: Seq<Seq<char>>) -> Seq<Seq<char>> {
    sorted_order(v.map_values(|s: Seq<char>| skey(s))).map_values(|i: int| v[i])
}

/// Sort strings in `str` order (stable).
pub fn sort_strings(v: &Vec<String>) -> (r: Vec<String>)
    ensures
        r@.map_values(|s: String| s@) == sorted_strs(v@.map_values(|s: String| s@)),
{
    let ghost sv = v@.map_values(|s: String| s@);
    let mut keys: Vec<Vec<u32>> = Vec::new();
    let mut i: usize = 0;
    while i < v.len()
        invariant
            i <= v@.len(),
            sv == v@.map_values(|s: String| s@),
            keys@.len() == i,
            forall|k: int| 0 <= k < i ==> #[trigger] keys@[k]@ == skey(sv[k]),
        decreases v@.len() - i,
    {
        keys.push(str_key(v[i].as_str()));
        i = i + 1;
    }
    proof {
        assert(kviews(keys@) =~= sv.map_values(|s: Seq<char>| skey(s)));
    }
    let order = sort_order(&keys);
    let ghost so = sorted_order(kviews(keys@));
    let mut out: Vec<String> = Vec::new();
    let mut j: usize = 0;
    while j < order.len()
        invariant
            j <= order@.len(),
            order@.len() == v@.len(),
            sv == v@.map_values(|s: String| s@),
            forall|k: int| 0 <= k < order@.len() ==> (#[trigger] order@[k]) < v@.len(),
            out@.len() == j,
            forall|k: int| 0 <= k < j ==> #[trigger] out@[k]@ == sv[order@[k] as int],
        decreases order@.len() - j,
    {
        out.push(v[order[j]].clone());
        j = j + 1;
    }
    proof {
        assert(order@.map_values(|i: usize| i as int) == so);
        assert(out@.map_values(|s: String| s@) =~= sorted_strs(sv)) by {
            assert forall|k: int| 0 <= k < out@.len() implies out@.map_values(|s: String| s@)[k] == sorted_strs(sv)[k] by {
                assert(so[k] == order@[k] as int);
            }
        }
    }
    out
}


/// The stable sort orders by key: positions earlier in `sorted_order` never
/// have a greater key, and every position is one of the input's.
pub proof fn law_sorted_order_sorted(keys: Seq<Seq<u32>>)
    ensures
        sorted_order(keys).len() == keys.len(),
        forall|k: int| 0 <= k < sorted_order(keys).len() ==> 0 <= #[trigger] sorted_order(keys)[k] < keys.len(),
        forall|i: int, j: int|
            0 <= i < j < sorted_order(keys).len() ==> lex_le(
                keys[#[trigger] sorted_order(keys)[i]],
                keys[#[trigger] sorted_order(keys)[j]],
            ),
{
    let f = key_le_f();
    lemma_key_total_ordering();
    let kd = keyed(keys);
    let sk = kd.sort_by(f);
    kd.lemma_sort_by_ensures(f);
    assert(sk.len() == kd.len()) by {
        kd.to_multiset_ensures();
        sk.to_multiset_ensures();
    }
    assert forall|k: int| 0 <= k < sk.len() implies sk[k] == (keys[sk[k].1], sk[k].1) && 0 <= sk[k].1 < keys.len() by {
        assert(sk.contains(sk[k]));
        assert(kd.contains(sk[k]));
        let x = choose|x: int| 0 <= x < kd.len() && kd[x] == sk[k];
    }
    assert forall|i: int, j: int| 0 <= i < j < sk.len() implies lex_le(
        keys[#[trigger] sorted_order(keys)[i]],
        keys[#[trigger] sorted_order(keys)[j]],
    ) by {
        assert(f(sk[i], sk[j]));
        assert(sorted_order(keys)[i] == sk[i].1);
        assert(sorted_order(keys)[j] == sk[j].1);
        if sk[i].0 == sk[j].0 {
            lemma_lex_refl(sk[i].0);
        }
    }
}

/// Every input position appears in `sorted_order`.
pub proof fn lemma_sorted_order_onto(keys: Seq<Seq<u32>>, i: int)
    requires
        0 <= i < keys.len(),
    ensures
        sorted_order(keys).contains(i),
{
    let f = key_le_f();
    lemma_key_total_ordering();
    let kd = keyed(keys);
    let sk = kd.sort_by(f);
    kd.lemma_sort_by_ensures(f);
    kd.to_multiset_ensures();
    sk.to_multiset_ensures();
    assert(kd[i] == (keys[i], i));
    assert(kd.contains((keys[i], i)));
    assert(kd.to_multiset().count((keys[i], i)) > 0);
    assert(sk.to_multiset().count((keys[i], i)) > 0);
    assert(sk.contains((keys[i], i)));
    let k = choose|k: int| 0 <= k < sk.len() && sk[k] == (keys[i], i);
    assert(sorted_order(keys)[k] == i);
}

/// No input position appears twice in `sorted_order`.
pub proof fn lemma_sorted_order_distinct(keys: Seq<Seq<u32>>)
    ensures
        forall|i: int, j: int|
            0 <= i < j < sorted_order(keys).len() ==> sorted_order(keys)[i] != sorted_order(keys)[j],
{
    let f = key_le_f();
    lemma_key_total_ordering();
    let kd = keyed(keys);
    let sk = kd.sort_by(f);
    kd.lemma_sort_by_ensures(f);
    assert(kd.no_duplicates());
    kd.lemma_multiset_has_no_duplicates();
    assert forall|x: (Seq<u32>, int)| sk.to_multiset().contains(x) implies sk.to_multiset().count(x) == 1 by {
        assert(kd.to_multiset().contains(x));
    }
    sk.lemma_multiset_has_no_duplicates_conv();
    kd.to_multiset_ensures();
    sk.to_multiset_ensures();
    assert forall|i: int, j: int| 0 <= i < j < sorted_order(keys).len() implies sorted_order(keys)[i]
        != sorted_order(keys)[j] by {
        assert(sk.contains(sk[i]));
        assert(sk.contains(sk[j]));
        assert(kd.contains(sk[i]));
        assert(kd.contains(sk[j]));
        let a = choose|a: int| 0 <= a < kd.len() && kd[a] == sk[i];
        let b = choose|b: int| 0 <= b < kd.len() && kd[b] == sk[j];
        assert(sorted_order(keys)[i] == sk[i].1);
        assert(sorted_order(keys)[j] == sk[j].1);
    }
}

} // verus!
