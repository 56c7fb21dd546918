//! Collecting names once each, in the order they are first seen.

use vstd::prelude::*;
use vstd::string::*;
use crate::text::str_eq;

verus! {

/// The characters of each string.
pub open spec fn names(v: Seq<String>) -> Seq<Seq<char>> {
    v.map_values(|s: String| s@)
}

/// `acc` with `name` added at the end, unless it is empty or already there.
pub open spec fn add_unique(acc: Seq<Seq<char>>, name: Seq<char>) -> Seq<Seq<char>> {
    if name.len() == 0 || acc.contains(name) {
        acc
    } else {
        acc.push(name)
    }
}

/// `acc` with each of `s` added in turn, as `add_unique` adds one.
pub open spec fn add_all_unique(acc: Seq<Seq<char>>, s: Seq<Seq<char>>) -> Seq<Seq<char>>
    decreases s.len(),
{
    if s.len() == 0 {
        acc
    } else {
        add_unique(add_all_unique(acc, s.drop_last()), s.last())
    }
}

/// Adding two runs of names one after the other is adding their concatenation.
pub proof fn lemma_add_all_unique_concat(acc: Seq<Seq<char>>, s1: Seq<Seq<char>>, s2: Seq<Seq<char>>)
    ensures
        add_all_unique(acc, s1 + s2) == add_all_unique(add_all_unique(acc, s1), s2),
    decreases s2.len(),
{
    if s2.len() == 0 {
        assert(s1 + s2 =~= s1);
    } else {
        assert((s1 + s2).drop_last() =~= s1 + s2.drop_last());
        assert((s1 + s2).last() == s2.last());
        lemma_add_all_unique_concat(acc, s1, s2.drop_last());
    }
}

/// One more name at the end of the run.
pub proof fn lemma_add_all_unique_push(acc: Seq<Seq<char>>, s: Seq<Seq<char>>, x: Seq<char>)
    ensures
        add_all_unique(acc, s.push(x)) == add_unique(add_all_unique(acc, s), x),
{
    assert(s.push(x).drop_last() =~= s);
}

/// Starting from distinct non-empty names, the result holds each non-empty
/// name of `acc` and `s` exactly once, and nothing else.
pub proof fn lemma_add_all_unique_contents(acc: Seq<Seq<char>>, s: Seq<Seq<char>>)
    requires
        acc.no_duplicates(),
        forall|i: int| 0 <= i < acc.len() ==> #[trigger] acc[i].len() > 0,
    ensures
        add_all_unique(acc, s).no_duplicates(),
        forall|i: int| 0 <= i < add_all_unique(acc, s).len() ==> #[trigger] add_all_unique(acc, s)[i].len() > 0,
        forall|x: Seq<char>|
            #[trigger] add_all_unique(acc, s).contains(x) <==> (acc.contains(x) || (s.contains(x) && x.len()
                > 0)),
    decreases s.len(),
{
    if s.len() > 0 {
        let init = s.drop_last();
        lemma_add_all_unique_contents(acc, init);
        let r0 = add_all_unique(acc, init);
        let r = add_all_unique(acc, s);
        let y = s.last();
        assert forall|x: Seq<char>| #[trigger] r.contains(x) <==> (acc.contains(x) || (s.contains(x) && x.len() > 0)) by {
            if s.contains(x) && x.len() > 0 && !acc.contains(x) {
                let i = choose|i: int| 0 <= i < s.len() && s[i] == x;
                if i < s.len() - 1 {
                    assert(init[i] == x);
                    assert(r0.contains(x));
                    if !(y.len() == 0 || r0.contains(y)) {
                        let j = choose|j: int| 0 <= j < r0.len() && r0[j] == x;
                        assert(r[j] == x);
                    }
                } else {
                    if !(y.len() == 0 || r0.contains(y)) {
                        assert(r[r0.len() as int] == x);
                    }
                }
            }
            if acc.contains(x) {
                assert(r0.contains(x));
                if !(y.len() == 0 || r0.contains(y)) {
                    let j = choose|j: int| 0 <= j < r0.len() && r0[j] == x;
                    assert(r[j] == x);
                }
            }
            if r.contains(x) {
                let j = choose|j: int| 0 <= j < r.len() && r[j] == x;
                if j < r0.len() {
                    assert(r0[j] == x);
                    assert(r0.contains(x));
                    if !acc.contains(x) {
                        let i = choose|i: int| 0 <= i < init.len() && init[i] == x;
                        assert(s[i] == x);
                    }
                } else {
                    assert(x == y);
                    assert(s[s.len() - 1] == x);
                }
            }
        }
        if !(y.len() == 0 || r0.contains(y)) {
            assert forall|i: int, j: int| 0 <= i < r.len() && 0 <= j < r.len() && i != j implies r[i] != r[j] by {
                if i < r0.len() && j < r0.len() {
                    assert(r0[i] != r0[j]);
                } else if i < r0.len() {
                    assert(r0.contains(r0[i]));
                } else {
                    assert(r0.contains(r0[j]));
                }
            }
            assert forall|i: int| 0 <= i < r.len() implies #[trigger] r[i].len() > 0 by {
                if i < r0.len() {
                    assert(r[i] == r0[i]);
                }
            }
        }
    }
}

/// Adds `name` to `names`, unless it is empty or already there.
pub fn push_unique(devices: &mut Vec<String>, dev: String)
    ensures
        names(final(devices)@) == add_unique(names(old(devices)@), dev@),
{
    if dev.as_str().unicode_len() == 0 {
        return;
    }
    let ghost before = names(devices@);
    let mut i: usize = 0;
    while i < devices.len()
        invariant
            before == names(devices@),
            i <= devices@.len(),
            forall|j: int| 0 <= j < i ==> #[trigger] devices@[j]@ != dev@,
        decreases devices@.len() - i,
    {
        if str_eq(devices[i].as_str(), dev.as_str()) {
            assert(before[i as int] == dev@);
            return;
        }
        i = i + 1;
    }
    assert(!before.contains(dev@)) by {
        if before.contains(dev@) {
            let j = choose|j: int| 0 <= j < before.len() && before[j] == dev@;
            assert(devices@[j]@ == dev@);
        }
    }
    devices.push(dev);
    assert(names(devices@) =~= before.push(dev@));
}

} // verus!
