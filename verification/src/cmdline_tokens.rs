//! The space-separated tokens of a written-out command line, and the
//! parameter each of them comes from.

use vstd::prelude::*;
use crate::kernel_params::{
    join_params, lacks, lemma_split_single, nonempty_pieces, param_text, parse_params, parse_token, ParamView,
};
use crate::text::{first_index_of, lemma_first_index_of, split_on};

verus! {

/// The tokens of a command line: its pieces between single spaces.
pub open spec fn cmdline_tokens(s: Seq<char>) -> Seq<Seq<char>> {
    split_on(s, ' ')
}

/// The key a token is read with: its text before the first `=`.
pub open spec fn token_key(t: Seq<char>) -> Seq<char> {
    parse_token(t).0
}

/// A key that neither a space nor an `=` cuts short.
pub open spec fn bare_key(k: Seq<char>) -> bool {
    lacks(k, ' ') && lacks(k, '=')
}

/// Every parameter's key is bare.
pub open spec fn bare_keys(ps: Seq<ParamView>) -> bool {
    forall|i: int| 0 <= i < ps.len() ==> bare_key(#[trigger] ps[i].0)
}

/// The token a parameter's text begins with: its key, then its value up to
/// the value's first space.
pub open spec fn first_token(p: ParamView) -> Seq<char> {
    if p.1.len() == 0 {
        p.0
    } else {
        p.0 + seq!['='] + split_on(p.1, ' ')[0]
    }
}

/// The further tokens a parameter's value makes where it holds spaces.
pub open spec fn value_tokens(p: ParamView) -> Seq<Seq<char>> {
    split_on(p.1, ' ').drop_first()
}

/// No token that a parameter's value makes has the key `key`.
pub open spec fn no_value_token_keyed(ps: Seq<ParamView>, key: Seq<char>) -> bool {
    forall|i: int, t: Seq<char>|
        0 <= i < ps.len() && #[trigger] value_tokens(ps[i]).contains(t) ==> token_key(t) != key
}

proof fn lemma_split_len(s: Seq<char>, sep: char)
    ensures
        split_on(s, sep).len() >= 1,
    decreases s.len(),
{
    if s.len() > 0 {
        lemma_split_len(s.drop_last(), sep);
    }
}

/// Splitting two texts joined by a separator gives the pieces of each.
pub(crate) proof fn lemma_split_concat(x: Seq<char>, y: Seq<char>, sep: char)
    ensures
        split_on(x + seq![sep] + y, sep) == split_on(x, sep) + split_on(y, sep),
    decreases y.len(),
{
    let s = x + seq![sep] + y;
    let a = split_on(x, sep);
    if y.len() == 0 {
        assert(s.drop_last() =~= x);
        assert(a.push(Seq::<char>::empty()) =~= a + split_on(y, sep));
    } else {
        let y0 = y.drop_last();
        lemma_split_concat(x, y0, sep);
        lemma_split_len(y0, sep);
        assert(s.drop_last() =~= x + seq![sep] + y0);
        assert(s.last() == y.last());
        let b = split_on(y0, sep);
        if y.last() == sep {
            assert((a + b).push(Seq::<char>::empty()) =~= a + b.push(Seq::<char>::empty()));
        } else {
            assert((a + b).last() == b.last());
            assert((a + b).update((a + b).len() - 1, (a + b).last().push(y.last())) =~= a + b.update(
                b.len() - 1,
                b.last().push(y.last()),
            ));
        }
    }
}

/// Text without the separator in front of a string joins its first piece.
proof fn lemma_split_prefix(a: Seq<char>, b: Seq<char>, sep: char)
    requires
        lacks(a, sep),
    ensures
        split_on(a + b, sep) == split_on(b, sep).update(0, a + split_on(b, sep)[0]),
    decreases b.len(),
{
    lemma_split_len(b, sep);
    if b.len() == 0 {
        lemma_split_single(a, sep);
        assert(a + b =~= a);
        assert(a + Seq::<char>::empty() =~= a);
        assert(seq![Seq::<char>::empty()].update(0, a) =~= seq![a]);
    } else {
        let b0 = b.drop_last();
        let c = b.last();
        lemma_split_prefix(a, b0, sep);
        lemma_split_len(b0, sep);
        assert((a + b).drop_last() =~= a + b0);
        assert((a + b).last() == c);
        let q = split_on(b0, sep);
        let p = q.update(0, a + q[0]);
        if c == sep {
            assert(p.push(Seq::<char>::empty()) =~= q.push(Seq::<char>::empty()).update(0, a + q[0]));
        } else {
            let qb = q.update(q.len() - 1, q.last().push(c));
            if q.len() == 1 {
                assert((a + q[0]).push(c) =~= a + q[0].push(c));
                assert(p.update(p.len() - 1, p.last().push(c)) =~= qb.update(0, a + qb[0]));
            } else {
                assert(p.update(p.len() - 1, p.last().push(c)) =~= qb.update(0, a + qb[0]));
            }
        }
    }
}

/// The tokens of one parameter's text: its first token, then the further
/// tokens of its value.
proof fn lemma_param_tokens(p: ParamView)
    requires
        bare_key(p.0),
    ensures
        cmdline_tokens(param_text(p)) == seq![first_token(p)] + value_tokens(p),
{
    if p.1.len() == 0 {
        lemma_split_single(p.0, ' ');
        assert(p.1 =~= Seq::<char>::empty());
        assert(seq![first_token(p)] + value_tokens(p) =~= seq![p.0]);
    } else {
        let a = p.0 + seq!['='];
        assert forall|i: int| 0 <= i < a.len() implies a[i] != ' ' by {
            if i < p.0.len() {
                assert(a[i] == p.0[i]);
            }
        }
        assert(param_text(p) =~= a + p.1);
        lemma_split_prefix(a, p.1, ' ');
        lemma_split_len(p.1, ' ');
        let q = split_on(p.1, ' ');
        assert(a + q[0] =~= first_token(p));
        assert(q.update(0, a + q[0]) =~= seq![first_token(p)] + value_tokens(p));
    }
}

/// A parameter's first token is read with the parameter's key.
pub proof fn lemma_first_token_key(p: ParamView)
    requires
        bare_key(p.0),
    ensures
        token_key(first_token(p)) == p.0,
{
    let t = first_token(p);
    if p.1.len() == 0 {
        assert(!(exists|i: int| 0 <= i < t.len() && t[i] == '='));
    } else {
        let k = p.0.len() as int;
        assert(t[k] == '=');
        assert forall|j: int| 0 <= j < k implies t[j] != '=' by {
            assert(t[j] == p.0[j]);
        }
        lemma_first_index_of(t, '=', k);
        assert(t.take(k) =~= p.0);
    }
}

/// Every token of a written-out list is the first token of one of its
/// parameters or a further token of one's value, and the first token of
/// each parameter is among them.
pub proof fn lemma_cmdline_token_origin(ps: Seq<ParamView>)
    requires
        ps.len() > 0,
        bare_keys(ps),
    ensures
        forall|t: Seq<char>|
            #[trigger] cmdline_tokens(join_params(ps)).contains(t) ==> exists|i: int|
                0 <= i < ps.len() && (t == first_token(ps[i]) || value_tokens(ps[i]).contains(t)),
        forall|i: int| 0 <= i < ps.len() ==> cmdline_tokens(join_params(ps)).contains(#[trigger] first_token(ps[i])),
    decreases ps.len(),
{
    let p = ps.last();
    let last = ps.len() - 1;
    assert(bare_key(ps[last].0));
    lemma_param_tokens(p);
    let b = cmdline_tokens(param_text(p));
    assert(b[0] == first_token(p));
    if ps.len() == 1 {
        assert(join_params(ps) == param_text(p));
        assert forall|t: Seq<char>| #[trigger] cmdline_tokens(join_params(ps)).contains(t) implies exists|i: int|
            0 <= i < ps.len() && (t == first_token(ps[i]) || value_tokens(ps[i]).contains(t)) by {
            let k = choose|k: int| 0 <= k < b.len() && b[k] == t;
            if k > 0 {
                assert(value_tokens(p)[k - 1] == t);
            }
            assert(ps[0] == p);
        }
        assert forall|i: int| 0 <= i < ps.len() implies cmdline_tokens(join_params(ps)).contains(
            #[trigger] first_token(ps[i]),
        ) by {
            assert(ps[i] == p);
        }
    } else {
        let init = ps.drop_last();
        assert forall|i: int| 0 <= i < init.len() implies bare_key(#[trigger] init[i].0) by {
            assert(init[i] == ps[i]);
        }
        lemma_cmdline_token_origin(init);
        lemma_split_concat(join_params(init), param_text(p), ' ');
        let a = cmdline_tokens(join_params(init));
        assert(cmdline_tokens(join_params(ps)) == a + b);
        assert forall|t: Seq<char>| #[trigger] cmdline_tokens(join_params(ps)).contains(t) implies exists|i: int|
            0 <= i < ps.len() && (t == first_token(ps[i]) || value_tokens(ps[i]).contains(t)) by {
            let k = choose|k: int| 0 <= k < (a + b).len() && (a + b)[k] == t;
            if k < a.len() {
                assert(a[k] == t);
                assert(a.contains(t));
                let i = choose|i: int|
                    0 <= i < init.len() && (t == first_token(init[i]) || value_tokens(init[i]).contains(t));
                assert(ps[i] == init[i]);
            } else {
                let j = k - a.len();
                assert(b[j] == t);
                if j > 0 {
                    assert(value_tokens(p)[j - 1] == t);
                }
                assert(ps[last] == p);
            }
        }
        assert forall|i: int| 0 <= i < ps.len() implies cmdline_tokens(join_params(ps)).contains(
            #[trigger] first_token(ps[i]),
        ) by {
            if i < init.len() {
                assert(ps[i] == init[i]);
                assert(a.contains(first_token(init[i])));
                let k = choose|k: int| 0 <= k < a.len() && a[k] == first_token(init[i]);
                assert((a + b)[k] == first_token(ps[i]));
            } else {
                assert((a + b)[a.len() as int] == first_token(ps[i]));
            }
        }
    }
}

proof fn lemma_split_pieces_lack(s: Seq<char>, sep: char)
    ensures
        forall|k: int| 0 <= k < split_on(s, sep).len() ==> lacks(#[trigger] split_on(s, sep)[k], sep),
    decreases s.len(),
{
    if s.len() > 0 {
        let s0 = s.drop_last();
        lemma_split_pieces_lack(s0, sep);
        lemma_split_len(s0, sep);
        let q = split_on(s0, sep);
        if s.last() != sep {
            let l = q.last().push(s.last());
            assert(lacks(q[q.len() - 1], sep));
            assert forall|i: int| 0 <= i < l.len() implies l[i] != sep by {
                if i < q.last().len() {
                    assert(l[i] == q.last()[i]);
                }
            }
            assert forall|k: int| 0 <= k < split_on(s, sep).len() implies lacks(#[trigger] split_on(s, sep)[k], sep) by {
                if k < q.len() - 1 {
                    assert(split_on(s, sep)[k] == q[k]);
                }
            }
        } else {
            assert forall|k: int| 0 <= k < split_on(s, sep).len() implies lacks(#[trigger] split_on(s, sep)[k], sep) by {
                if k < q.len() {
                    assert(split_on(s, sep)[k] == q[k]);
                }
            }
        }
    }
}

proof fn lemma_nonempty_pieces_lack(ps: Seq<Seq<char>>, sep: char)
    requires
        forall|k: int| 0 <= k < ps.len() ==> lacks(#[trigger] ps[k], sep),
    ensures
        forall|k: int| 0 <= k < nonempty_pieces(ps).len() ==> lacks(#[trigger] nonempty_pieces(ps)[k], sep),
    decreases ps.len(),
{
    if ps.len() > 0 {
        let init = ps.drop_last();
        assert forall|k: int| 0 <= k < init.len() implies lacks(#[trigger] init[k], sep) by {
            assert(init[k] == ps[k]);
        }
        lemma_nonempty_pieces_lack(init, sep);
        assert(lacks(ps[ps.len() - 1], sep));
        let r = nonempty_pieces(init);
        assert forall|k: int| 0 <= k < nonempty_pieces(ps).len() implies lacks(#[trigger] nonempty_pieces(ps)[k], sep) by {
            if k < r.len() {
                assert(nonempty_pieces(ps)[k] == r[k]);
            }
        }
    }
}

/// What `first_index_of` gives: the first occurrence, or none when the
/// character does not occur.
proof fn lemma_first_index_props(t: Seq<char>, c: char)
    ensures
        match first_index_of(t, c) {
            Some(i) => 0 <= i < t.len() && t[i] == c && forall|j: int| 0 <= j < i ==> t[j] != c,
            None => lacks(t, c),
        },
    decreases t.len(),
{
    if exists|i: int| 0 <= i < t.len() && t[i] == c {
        let t0 = t.drop_last();
        lemma_first_index_props(t0, c);
        match first_index_of(t0, c) {
            Some(i) => {
                assert forall|j: int| 0 <= j < i implies t[j] != c by {
                    assert(t0[j] == t[j]);
                }
                assert(t[i] == t0[i]);
                lemma_first_index_of(t, c, i);
            },
            None => {
                let w = choose|i: int| 0 <= i < t.len() && t[i] == c;
                if w < t.len() - 1 {
                    assert(t0[w] == t[w]);
                }
                assert forall|j: int| 0 <= j < t.len() - 1 implies t[j] != c by {
                    assert(t0[j] == t[j]);
                }
                lemma_first_index_of(t, c, t.len() - 1);
            },
        }
    }
}

/// A token without spaces is read as a bare key and a value without spaces.
proof fn lemma_token_parts(t: Seq<char>)
    requires
        lacks(t, ' '),
    ensures
        bare_key(parse_token(t).0),
        lacks(parse_token(t).1, ' '),
{
    lemma_first_index_props(t, '=');
    match first_index_of(t, '=') {
        Some(i) => {
            let k = t.take(i);
            let v = t.skip(i + 1);
            assert forall|j: int| 0 <= j < k.len() implies k[j] != ' ' && k[j] != '=' by {
                assert(k[j] == t[j]);
            }
            assert forall|j: int| 0 <= j < v.len() implies v[j] != ' ' by {
                assert(v[j] == t[j + i + 1]);
            }
        },
        None => {},
    }
}

/// The parameters read from any string have bare keys and values without
/// spaces.
pub proof fn lemma_parsed_keys_bare(s: Seq<char>)
    ensures
        bare_keys(parse_params(s)),
        forall|i: int| 0 <= i < parse_params(s).len() ==> lacks(#[trigger] parse_params(s)[i].1, ' '),
{
    lemma_split_pieces_lack(s, ' ');
    lemma_nonempty_pieces_lack(split_on(s, ' '), ' ');
    let ts = nonempty_pieces(split_on(s, ' '));
    assert forall|i: int| 0 <= i < parse_params(s).len() implies bare_key(#[trigger] parse_params(s)[i].0) && lacks(
        parse_params(s)[i].1,
        ' ',
    ) by {
        assert(lacks(ts[i], ' '));
        lemma_token_parts(ts[i]);
    }
    assert forall|i: int| 0 <= i < parse_params(s).len() implies lacks(#[trigger] parse_params(s)[i].1, ' ') by {
        assert(lacks(ts[i], ' '));
        lemma_token_parts(ts[i]);
    }
}

} // verus!
