//! Lexicographic order of strings, as `str`'s `Ord` compares them, and a
//! stable sort by string keys.

use vstd::prelude::*;
use vstd::string::*;
use vstd::set_lib::{lemma_int_range, lemma_len_subset, lemma_subset_equality, set_int_range};

verus! {

/// `a` sorts before or together with `b`: character by character, a
/// missing character first. For UTF-8 this is the order `str::cmp` gives.
pub open spec fn lex_le(a: Seq<char>, b: Seq<char>) -> bool
    decreases a.len(),
{
    if a.len() == 0 {
        true
    } else if b.len() == 0 {
        false
    } else if (a[0] as int) < (b[0] as int) {
        true
    } else if (a[0] as int) > (b[0] as int) {
        false
    } else {
        lex_le(a.drop_first(), b.drop_first())
    }
}

/// `a` sorts strictly before `b`.
pub open spec fn lex_lt(a: Seq<char>, b: Seq<char>) -> bool {
    lex_le(a, b) && a != b
}

pub proof fn lemma_lex_le_reflexive(a: Seq<char>)
    ensures
        lex_le(a, a),
    decreases a.len(),
{
    if a.len() > 0 {
        lemma_lex_le_reflexive(a.drop_first());
    }
}

pub proof fn lemma_lex_le_total(a: Seq<char>, b: Seq<char>)
    ensures
        lex_le(a, b) || lex_le(b, a),
    decreases a.len(),
{
    if a.len() > 0 && b.len() > 0 && a[0] as int == b[0] as int {
        lemma_lex_le_total(a.drop_first(), b.drop_first());
    }
}

pub proof fn lemma_lex_le_antisymmetric(a: Seq<char>, b: Seq<char>)
    requires
        lex_le(a, b),
        lex_le(b, a),
    ensures
        a == b,
    decreases a.len(),
{
    if a.len() > 0 {
        lemma_lex_le_antisymmetric(a.drop_first(), b.drop_first());
        assert(a[0] == b[0]);
        assert(a =~= seq![a[0]] + a.drop_first());
        assert(b =~= seq![b[0]] + b.drop_first());
    } else {
        assert(b.len() == 0);
        assert(a =~= b);
    }
}

pub proof fn lemma_lex_le_transitive(a: Seq<char>, b: Seq<char>, c: Seq<char>)
    requires
        lex_le(a, b),
        lex_le(b, c),
    ensures
        lex_le(a, c),
    decreases a.len(),
{
    if a.len() > 0 && b.len() > 0 && c.len() > 0 {
        if a[0] as int == b[0] as int && b[0] as int == c[0] as int {
            lemma_lex_le_transitive(a.drop_first(), b.drop_first(), c.drop_first());
        }
    }
}

/// Whether `a` sorts before or together with `b`.
pub fn str_le(a: &str, b: &str) -> (r: bool)
    ensures
        r == lex_le(a@, b@),
{
    let n = a.unicode_len();
    let m = b.unicode_len();
    let mut i: usize = 0;
    assert(a@.skip(0) =~= a@);
    assert(b@.skip(0) =~= b@);
    while i < n && i < m
        invariant
            n == a@.len(),
            m == b@.len(),
            i <= n,
            i <= m,
            lex_le(a@, b@) == lex_le(a@.skip(i as int), b@.skip(i as int)),
        decreases n - i,
    {
        let ca = a.get_char(i);
        let cb = b.get_char(i);
        assert(a@.skip(i as int)[0] == ca);
        assert(b@.skip(i as int)[0] == cb);
        assert(a@.skip(i as int).drop_first() =~= a@.skip(i + 1));
        assert(b@.skip(i as int).drop_first() =~= b@.skip(i + 1));
        if (ca as u32) < (cb as u32) {
            assert((ca as int) < (cb as int));
            return true;
        }
        if (ca as u32) > (cb as u32) {
            assert((ca as int) > (cb as int));
            return false;
        }
        i = i + 1;
    }
    i == n
}

/// `order` lists each index of `keys` once and sorts them by key, keeping
/// equal keys in their original order.
pub open spec fn stably_sorted(keys: Seq<Seq<char>>, order: Seq<usize>) -> bool {
    &&& order.len() == keys.len()
    &&& order.no_duplicates()
    &&& forall|i: int| 0 <= i < order.len() ==> #[trigger] order[i] < keys.len()
    &&& forall|i: int, j: int|
        0 <= i < j < order.len() ==> lex_le(keys[#[trigger] order[i] as int], keys[#[trigger] order[j] as int])
    &&& forall|i: int, j: int|
        0 <= i < j < order.len() && keys[#[trigger] order[i] as int] == keys[#[trigger] order[j] as int]
            ==> order[i] < order[j]
}

/// The indices of `keys` in the order a stable sort by key puts them.
pub fn stable_sort_indices(keys: &Vec<String>) -> (order: Vec<usize>)
    ensures
        stably_sorted(keys@.map_values(|s: String| s@), order@),
{
    let ghost ks = keys@.map_values(|s: String| s@);
    let n = keys.len();
    let mut order: Vec<usize> = Vec::new();
    let mut k: usize = 0;
    while k < n
        invariant
            n == keys@.len(),
            ks == keys@.map_values(|s: String| s@),
            k <= n,
            order@.len() == k,
            order@.no_duplicates(),
            forall|i: int| 0 <= i < order@.len() ==> #[trigger] order@[i] < k,
            forall|i: int, j: int|
                0 <= i < j < order@.len() ==> lex_le(ks[#[trigger] order@[i] as int], ks[#[trigger] order@[j] as int]),
            forall|i: int, j: int|
                0 <= i < j < order@.len() && ks[#[trigger] order@[i] as int] == ks[#[trigger] order@[j] as int]
                    ==> order@[i] < order@[j],
        decreases n - k,
    {
        // Find the first position whose key sorts strictly after key k.
        let mut p: usize = 0;
        while p < order.len() && str_le(keys[order[p]].as_str(), keys[k].as_str())
            invariant
                n == keys@.len(),
                ks == keys@.map_values(|s: String| s@),
                k < n,
                order@.len() == k,
                p <= order@.len(),
                forall|i: int| 0 <= i < order@.len() ==> #[trigger] order@[i] < k,
                forall|i: int| 0 <= i < p ==> lex_le(ks[#[trigger] order@[i] as int], ks[k as int]),
            decreases order@.len() - p,
        {
            p = p + 1;
        }
        let ghost old_order = order@;
        proof {
            if p < old_order.len() {
                assert(!lex_le(ks[old_order[p as int] as int], ks[k as int]));
                assert forall|i: int| p <= i < old_order.len() implies !lex_le(ks[#[trigger] old_order[i] as int], ks[k as int]) by {
                    if i > p {
                        if lex_le(ks[old_order[i] as int], ks[k as int]) {
                            lemma_lex_le_transitive(ks[old_order[p as int] as int], ks[old_order[i] as int], ks[k as int]);
                        }
                    }
                }
            }
        }
        order.insert(p, k);
        proof {
            let o = order@;
            assert(o == old_order.insert(p as int, k));
            assert forall|i: int| 0 <= i < o.len() implies #[trigger] o[i] < k + 1 by {
                if i < p {
                    assert(o[i] == old_order[i]);
                } else if i > p {
                    assert(o[i] == old_order[i - 1]);
                }
            }
            assert forall|i: int, j: int| 0 <= i < o.len() && 0 <= j < o.len() && i != j implies o[i] != o[j] by {
                if i != p && j != p {
                    let ii = if i < p { i } else { i - 1 };
                    let jj = if j < p { j } else { j - 1 };
                    assert(o[i] == old_order[ii]);
                    assert(o[j] == old_order[jj]);
                } else if i == p {
                    let jj = if j < p { j } else { j - 1 };
                    assert(o[j] == old_order[jj]);
                } else {
                    let ii = if i < p { i } else { i - 1 };
                    assert(o[i] == old_order[ii]);
                }
            }
            assert forall|i: int, j: int| 0 <= i < j < o.len() implies lex_le(ks[#[trigger] o[i] as int], ks[#[trigger] o[j] as int]) && (ks[o[i] as int] == ks[o[j] as int] ==> o[i] < o[j]) by {
                if j < p {
                    assert(o[i] == old_order[i] && o[j] == old_order[j]);
                } else if j == p {
                    assert(o[i] == old_order[i]);
                } else if i < p {
                    assert(o[i] == old_order[i] && o[j] == old_order[j - 1]);
                    lemma_lex_le_total(ks[old_order[j - 1] as int], ks[k as int]);
                    lemma_lex_le_transitive(ks[old_order[i] as int], ks[k as int], ks[old_order[j - 1] as int]);
                    if ks[o[i] as int] == ks[o[j] as int] {
                        assert(lex_le(ks[o[j] as int], ks[k as int]));
                    }
                } else if i == p {
                    assert(o[j] == old_order[j - 1]);
                    lemma_lex_le_total(ks[old_order[j - 1] as int], ks[k as int]);
                    if ks[k as int] == ks[o[j] as int] {
                        lemma_lex_le_reflexive(ks[k as int]);
                    }
                } else {
                    assert(o[i] == old_order[i - 1] && o[j] == old_order[j - 1]);
                }
            }
        }
        k = k + 1;
    }
    order
}

/// The order of a stable sort lists every index: it is a permutation.
pub proof fn lemma_stably_sorted_lists_every_index(keys: Seq<Seq<char>>, order: Seq<usize>, k: int)
    requires
        stably_sorted(keys, order),
        0 <= k < keys.len(),
    ensures
        exists|i: int| 0 <= i < order.len() && order[i] == k,
{
    let o = order.map_values(|i: usize| i as int);
    assert forall|i: int, j: int| 0 <= i < o.len() && 0 <= j < o.len() && i != j implies o[i] != o[j] by {
        assert(order[i] != order[j]);
    }
    assert(o.no_duplicates());
    o.unique_seq_to_set();
    let r = set_int_range(0, keys.len() as int);
    lemma_int_range(0, keys.len() as int);
    assert forall|x: int| o.to_set().contains(x) implies r.contains(x) by {
        let i = choose|i: int| 0 <= i < o.len() && o[i] == x;
        assert(order[i] < keys.len());
    }
    lemma_len_subset(o.to_set(), r);
    lemma_subset_equality(o.to_set(), r);
    assert(r.contains(k));
    assert(o.to_set().contains(k));
    let i = choose|i: int| 0 <= i < o.len() && o[i] == k;
    assert(order[i] == k);
}

} // verus!
