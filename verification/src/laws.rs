//! Laws that relate the model's operations across calls: every option
//! token leaves its key in the map, the last occurrence of a key fixes the
//! stored value, and adding a pattern twice leaves it present exactly once.

use vstd::prelude::*;
use crate::model::{add_pat, distinct, is_opt_token, opt_value, parse_opts};

verus! {

/// Once a key is in the accumulated map, the rest of the pass keeps it.
proof fn lemma_parse_opts_preserves_key(
    args: Seq<Seq<char>>,
    i: int,
    m: Map<char, Seq<char>>,
    k: char,
)
    requires
        m.contains_key(k),
    ensures
        parse_opts(args, i, m).contains_key(k),
    decreases args.len() - i,
{
    if i < args.len() {
        if is_opt_token(args[i]) {
            lemma_parse_opts_preserves_key(
                args,
                i + 1,
                m.insert(args[i][1], opt_value(args, i)),
                k,
            );
        } else {
            lemma_parse_opts_preserves_key(args, i + 1, m, k);
        }
    }
}

/// An option token within the remaining pass puts its key in the map.
proof fn lemma_parse_opts_key_in(args: Seq<Seq<char>>, i: int, m: Map<char, Seq<char>>, j: int)
    requires
        i <= j < args.len(),
        is_opt_token(args[j]),
    ensures
        parse_opts(args, i, m).contains_key(args[j][1]),
    decreases j - i,
{
    if i == j {
        lemma_parse_opts_preserves_key(
            args,
            i + 1,
            m.insert(args[i][1], opt_value(args, i)),
            args[j][1],
        );
    } else if is_opt_token(args[i]) {
        lemma_parse_opts_key_in(args, i + 1, m.insert(args[i][1], opt_value(args, i)), j);
    } else {
        lemma_parse_opts_key_in(args, i + 1, m, j);
    }
}

/// A key that no option token of the remaining pass carries keeps its
/// presence and value from the accumulated map.
proof fn lemma_parse_opts_unchanged_key(
    args: Seq<Seq<char>>,
    i: int,
    m: Map<char, Seq<char>>,
    k: char,
)
    requires
        forall|j: int| i <= j < args.len() && is_opt_token(args[j]) ==> args[j][1] != k,
    ensures
        parse_opts(args, i, m).contains_key(k) == m.contains_key(k),
        m.contains_key(k) ==> parse_opts(args, i, m)[k] == m[k],
    decreases args.len() - i,
{
    if i < args.len() {
        if is_opt_token(args[i]) {
            lemma_parse_opts_unchanged_key(
                args,
                i + 1,
                m.insert(args[i][1], opt_value(args, i)),
                k,
            );
        } else {
            lemma_parse_opts_unchanged_key(args, i + 1, m, k);
        }
    }
}

/// Every option token's key character is present in the map a full pass
/// produces, whatever the token sequence and the starting map.
pub proof fn lemma_opt_key_present(args: Seq<Seq<char>>, m0: Map<char, Seq<char>>, j: int)
    requires
        1 <= j < args.len(),
        is_opt_token(args[j]),
    ensures
        parse_opts(args, 1, m0).contains_key(args[j][1]),
{
    lemma_parse_opts_key_in(args, 1, m0, j);
}

/// Helper for the stored-value law: from any position at or before the
/// last occurrence of the key, the pass stores that occurrence's value.
proof fn lemma_parse_opts_value_aux(args: Seq<Seq<char>>, i: int, m: Map<char, Seq<char>>, j: int)
    requires
        i <= j < args.len(),
        is_opt_token(args[j]),
        forall|j2: int|
            j < j2 < args.len() && is_opt_token(args[j2]) ==> args[j2][1] != args[j][1],
    ensures
        parse_opts(args, i, m)[args[j][1]] == opt_value(args, j),
    decreases j - i,
{
    if i == j {
        let m2 = m.insert(args[j][1], opt_value(args, j));
        lemma_parse_opts_unchanged_key(args, j + 1, m2, args[j][1]);
    } else if is_opt_token(args[i]) {
        lemma_parse_opts_value_aux(args, i + 1, m.insert(args[i][1], opt_value(args, i)), j);
    } else {
        lemma_parse_opts_value_aux(args, i + 1, m, j);
    }
}

/// For an option token whose key recurs in no later option token, the map
/// stores the immediately following token's literal text when that token
/// exists and is not itself an option token, and the literal `"true"`
/// otherwise.
pub proof fn lemma_opt_value_stored(args: Seq<Seq<char>>, m0: Map<char, Seq<char>>, j: int)
    requires
        1 <= j < args.len(),
        is_opt_token(args[j]),
        forall|j2: int|
            j < j2 < args.len() && is_opt_token(args[j2]) ==> args[j2][1] != args[j][1],
    ensures
        parse_opts(args, 1, m0).contains_key(args[j][1]),
        parse_opts(args, 1, m0)[args[j][1]] == opt_value(args, j),
{
    lemma_parse_opts_key_in(args, 1, m0, j);
    lemma_parse_opts_value_aux(args, 1, m0, j);
}

/// Adding a pattern to a duplicate-free list, once or twice, leaves a
/// duplicate-free list that holds the pattern at exactly one position;
/// the second addition changes nothing.
pub proof fn lemma_add_pattern_once(ps: Seq<Seq<char>>, p: Seq<char>)
    requires
        distinct(ps),
    ensures
        add_pat(ps, p).contains(p),
        distinct(add_pat(ps, p)),
        add_pat(add_pat(ps, p), p) == add_pat(ps, p),
        exists|i: int|
            0 <= i < add_pat(ps, p).len() && add_pat(ps, p)[i] == p && forall|j: int|
                0 <= j < add_pat(ps, p).len() && add_pat(ps, p)[j] == p ==> j == i,
{
    let q = add_pat(ps, p);
    if ps.contains(p) {
        assert(q == ps);
    } else {
        assert(q[ps.len() as int] == p);
        assert(forall|j: int| 0 <= j < ps.len() ==> q[j] == ps[j]);
        assert(distinct(q));
        assert(q.contains(p));
    }
    let w = choose|i: int| 0 <= i < q.len() && q[i] == p;
    assert(forall|j: int| 0 <= j < q.len() && q[j] == p ==> j == w);
}

} // verus!
