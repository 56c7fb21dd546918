//! Sets and maps of strings kept as vectors sorted by key, each key once:
//! what a `BTreeSet<String>` or `BTreeMap<String, String>` holds, in the
//! order it is walked.

use vstd::prelude::*;
use vstd::string::*;
use crate::dedup::names;
use crate::order::{
    lemma_lex_le_antisymmetric, lemma_lex_le_reflexive, lemma_lex_le_total, lemma_lex_le_transitive, lex_le,
    lex_lt, str_le,
};
use crate::text::str_eq;
use crate::whisperer::opt_view;

verus! {

/// Each key sorts strictly before the next, so none occurs twice.
pub open spec fn strictly_sorted(s: Seq<Seq<char>>) -> bool {
    forall|i: int, j: int| 0 <= i < j < s.len() ==> lex_lt(#[trigger] s[i], #[trigger] s[j])
}

/// Adds `x` to the sorted set `set`, keeping it sorted.
pub fn insert_name(set: &mut Vec<String>, x: String)
    requires
        strictly_sorted(names(old(set)@)),
    ensures
        strictly_sorted(names(final(set)@)),
        forall|y: Seq<char>| #[trigger] names(final(set)@).contains(y) <==> (names(old(set)@).contains(y) || y == x@),
{
    let ghost s = names(set@);
    let p = lower_bound(set, x.as_str());
    if p < set.len() && str_eq(set[p].as_str(), x.as_str()) {
        assert(s.contains(x@)) by {
            assert(s[p as int] == x@);
        }
        return;
    }
    proof {
        lemma_insert_keeps_sorted(s, p as int, x@);
    }
    set.insert(p, x);
    assert(names(set@) =~= s.insert(p as int, x@));
}

/// The first position of `set` whose key does not sort before `x`.
fn lower_bound(set: &Vec<String>, x: &str) -> (p: usize)
    requires
        strictly_sorted(names(set@)),
    ensures
        p <= set@.len(),
        forall|i: int| 0 <= i < p ==> lex_lt(#[trigger] names(set@)[i], x@),
        p < set@.len() ==> lex_le(x@, names(set@)[p as int]),
{
    let ghost s = names(set@);
    let mut p: usize = 0;
    while p < set.len() && !str_le(x, set[p].as_str())
        invariant
            s == names(set@),
            p <= set@.len(),
            forall|i: int| 0 <= i < p ==> lex_lt(#[trigger] s[i], x@),
        decreases set@.len() - p,
    {
        proof {
            lemma_lex_le_total(x@, s[p as int]);
            if s[p as int] == x@ {
                lemma_lex_le_reflexive(x@);
            }
        }
        p = p + 1;
    }
    p
}

/// Inserting `x` where it belongs keeps a strictly sorted sequence so.
proof fn lemma_insert_keeps_sorted(s: Seq<Seq<char>>, p: int, x: Seq<char>)
    requires
        strictly_sorted(s),
        0 <= p <= s.len(),
        forall|i: int| 0 <= i < p ==> lex_lt(#[trigger] s[i], x),
        p < s.len() ==> lex_le(x, s[p]) && s[p] != x,
    ensures
        strictly_sorted(s.insert(p, x)),
        forall|y: Seq<char>| #[trigger] s.insert(p, x).contains(y) <==> (s.contains(y) || y == x),
{
    let t = s.insert(p, x);
    assert forall|i: int| p < i < t.len() implies lex_lt(x, #[trigger] t[i]) by {
        assert(t[i] == s[i - 1]);
        if i - 1 > p {
            assert(lex_lt(s[p], s[i - 1]));
            lemma_lex_le_transitive(x, s[p], s[i - 1]);
            if x == s[i - 1] {
                lemma_lex_le_antisymmetric(s[p], s[i - 1]);
            }
        }
    }
    assert forall|i: int, j: int| 0 <= i < j < t.len() implies lex_lt(#[trigger] t[i], #[trigger] t[j]) by {
        if j < p {
            assert(t[i] == s[i] && t[j] == s[j]);
        } else if j == p {
            assert(t[i] == s[i]);
        } else if i < p {
            assert(t[i] == s[i] && t[j] == s[j - 1]);
            assert(lex_lt(x, t[j]));
            lemma_lex_le_transitive(s[i], x, s[j - 1]);
            if s[i] == s[j - 1] {
                lemma_lex_le_antisymmetric(s[i], x);
            }
        } else if i == p {
        } else {
            assert(t[i] == s[i - 1] && t[j] == s[j - 1]);
        }
    }
    assert forall|y: Seq<char>| #[trigger] t.contains(y) <==> (s.contains(y) || y == x) by {
        if t.contains(y) {
            let k = choose|k: int| 0 <= k < t.len() && t[k] == y;
            if k < p {
                assert(s[k] == y);
            } else if k > p {
                assert(s[k - 1] == y);
            }
        }
        if s.contains(y) {
            let k = choose|k: int| 0 <= k < s.len() && s[k] == y;
            if k < p {
                assert(t[k] == y);
            } else {
                assert(t[k + 1] == y);
            }
        }
        if y == x {
            assert(t[p] == y);
        }
    }
}

/// The keys and values of a map kept as pairs.
pub open spec fn pair_views(s: Seq<(String, String)>) -> Seq<(Seq<char>, Seq<char>)> {
    s.map_values(|p: (String, String)| (p.0@, p.1@))
}

pub open spec fn pair_keys(s: Seq<(Seq<char>, Seq<char>)>) -> Seq<Seq<char>> {
    s.map_values(|p: (Seq<char>, Seq<char>)| p.0)
}

/// `s`, sorted by key with each key once, holds exactly the map `m`.
pub open spec fn holds_map(s: Seq<(Seq<char>, Seq<char>)>, m: Map<Seq<char>, Seq<char>>) -> bool {
    &&& strictly_sorted(pair_keys(s))
    &&& forall|k: Seq<char>| #[trigger] m.dom().contains(k) <==> pair_keys(s).contains(k)
    &&& forall|i: int| 0 <= i < s.len() ==> m[#[trigger] s[i].0] == s[i].1
}

/// Sets `key` to `value` in the sorted map `map`, replacing any value the
/// key had.
pub fn insert_pair(map: &mut Vec<(String, String)>, key: String, value: String)
    requires
        strictly_sorted(pair_keys(pair_views(old(map)@))),
    ensures
        strictly_sorted(pair_keys(pair_views(final(map)@))),
        forall|m: Map<Seq<char>, Seq<char>>|
            holds_map(pair_views(old(map)@), m) ==> #[trigger] holds_map(
                pair_views(final(map)@),
                m.insert(key@, value@),
            ),
{
    let ghost s = pair_views(map@);
    let ghost ks = pair_keys(s);
    let mut p: usize = 0;
    while p < map.len() && !str_le(key.as_str(), map[p].0.as_str())
        invariant
            s == pair_views(map@),
            ks == pair_keys(s),
            strictly_sorted(ks),
            p <= map@.len(),
            forall|i: int| 0 <= i < p ==> lex_lt(#[trigger] ks[i], key@),
        decreases map@.len() - p,
    {
        proof {
            assert(ks[p as int] == map@[p as int].0@);
            lemma_lex_le_total(key@, ks[p as int]);
            if ks[p as int] == key@ {
                lemma_lex_le_reflexive(key@);
            }
        }
        p = p + 1;
    }
    if p < map.len() && str_eq(map[p].0.as_str(), key.as_str()) {
        let ghost q = p as int;
        map.set(p, (key, value));
        proof {
            let t = pair_views(map@);
            assert(t =~= s.update(q, (key@, value@)));
            assert(pair_keys(t) =~= ks);
            assert forall|m: Map<Seq<char>, Seq<char>>| holds_map(s, m) implies #[trigger] holds_map(
                t,
                m.insert(key@, value@),
            ) by {
                assert forall|i: int| 0 <= i < t.len() implies m.insert(key@, value@)[#[trigger] t[i].0]
                    == t[i].1 by {
                    if i != q {
                        assert(t[i] == s[i]);
                        assert(lex_lt(ks[i], ks[q]) || lex_lt(ks[q], ks[i]));
                    }
                }
                assert forall|k: Seq<char>| #[trigger] m.insert(key@, value@).dom().contains(k) <==> pair_keys(
                    t,
                ).contains(k) by {
                    if k == key@ {
                        assert(pair_keys(t)[q] == k);
                    }
                }
            }
        }
        return;
    }
    proof {
        if p < map@.len() {
            assert(ks[p as int] == map@[p as int].0@);
        }
        lemma_insert_keeps_sorted(ks, p as int, key@);
    }
    let ghost q = p as int;
    map.insert(p, (key, value));
    proof {
        let t = pair_views(map@);
        assert(t =~= s.insert(q, (key@, value@)));
        assert(pair_keys(t) =~= ks.insert(q, key@));
        assert forall|m: Map<Seq<char>, Seq<char>>| holds_map(s, m) implies #[trigger] holds_map(
            t,
            m.insert(key@, value@),
        ) by {
            assert forall|i: int| 0 <= i < t.len() implies m.insert(key@, value@)[#[trigger] t[i].0] == t[i].1 by {
                if i < q {
                    assert(t[i] == s[i]);
                    assert(pair_keys(t)[i] != key@) by {
                        assert(lex_lt(pair_keys(t)[i], pair_keys(t)[q]));
                    }
                } else if i > q {
                    assert(t[i] == s[i - 1]);
                    assert(pair_keys(t)[i] != key@) by {
                        assert(lex_lt(pair_keys(t)[q], pair_keys(t)[i]));
                    }
                }
            }
        }
    }
}

/// The value of the first pair whose key is `k`.
pub open spec fn lookup(s: Seq<(Seq<char>, Seq<char>)>, k: Seq<char>) -> Option<Seq<char>>
    decreases s.len(),
{
    if s.len() == 0 {
        None
    } else if s[0].0 == k {
        Some(s[0].1)
    } else {
        lookup(s.drop_first(), k)
    }
}

/// A key has a value exactly when some pair holds it.
pub proof fn lemma_lookup_some(s: Seq<(Seq<char>, Seq<char>)>, k: Seq<char>)
    ensures
        lookup(s, k) is Some <==> pair_keys(s).contains(k),
    decreases s.len(),
{
    if s.len() > 0 {
        lemma_lookup_some(s.drop_first(), k);
        assert(pair_keys(s.drop_first()) =~= pair_keys(s).drop_first());
        if pair_keys(s).contains(k) && s[0].0 != k {
            let i = choose|i: int| 0 <= i < pair_keys(s).len() && pair_keys(s)[i] == k;
            assert(pair_keys(s.drop_first())[i - 1] == k);
        }
        if pair_keys(s.drop_first()).contains(k) {
            let i = choose|i: int| 0 <= i < pair_keys(s.drop_first()).len() && pair_keys(s.drop_first())[i] == k;
            assert(pair_keys(s)[i + 1] == k);
        }
        if s[0].0 == k {
            assert(pair_keys(s)[0] == k);
        }
    }
}

/// In a map held sorted, the value a key looks up is the map's.
pub proof fn lemma_lookup_holds(s: Seq<(Seq<char>, Seq<char>)>, m: Map<Seq<char>, Seq<char>>, k: Seq<char>)
    requires
        holds_map(s, m),
    ensures
        lookup(s, k) == (if m.dom().contains(k) { Some(m[k]) } else { None::<Seq<char>> }),
{
    lemma_lookup_some(s, k);
    if pair_keys(s).contains(k) {
        let i = choose|i: int| 0 <= i < pair_keys(s).len() && pair_keys(s)[i] == k;
        lemma_lookup_at(s, i);
        assert(m[s[i].0] == s[i].1);
    }
}

/// With keys each once, the pair at `i` is the one its key looks up.
proof fn lemma_lookup_at(s: Seq<(Seq<char>, Seq<char>)>, i: int)
    requires
        strictly_sorted(pair_keys(s)),
        0 <= i < s.len(),
    ensures
        lookup(s, s[i].0) == Some(s[i].1),
    decreases i,
{
    if i > 0 {
        let t = s.drop_first();
        assert(pair_keys(t) =~= pair_keys(s).drop_first());
        assert(lex_lt(pair_keys(s)[0], pair_keys(s)[i]));
        lemma_lookup_at(t, i - 1);
    }
}

/// The value `map` gives `key`.
pub fn get_value(map: &Vec<(String, String)>, key: &str) -> (r: Option<String>)
    ensures
        opt_view(r) == lookup(pair_views(map@), key@),
{
    let ghost s = pair_views(map@);
    let mut i: usize = 0;
    assert(s.skip(0) =~= s);
    while i < map.len()
        invariant
            s == pair_views(map@),
            i <= map@.len(),
            lookup(s, key@) == lookup(s.skip(i as int), key@),
        decreases map@.len() - i,
    {
        assert(s.skip(i as int)[0] == s[i as int]);
        assert(s.skip(i as int).drop_first() =~= s.skip(i + 1));
        if str_eq(map[i].0.as_str(), key) {
            return Some(map[i].1.clone());
        }
        i = i + 1;
    }
    None
}

} // verus!
