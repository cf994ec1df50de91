//! The mathematical model of the parser: what counts as an option token,
//! what an option's value is, how a whole token sequence folds into an
//! option map, how a comma-separated value splits into pattern segments,
//! and how segments accumulate into a duplicate-free pattern list.

use vstd::prelude::*;

verus! {

/// A token is an option token iff it has at least two characters and its
/// first character is the flag prefix `/`. (A shorter token never crashes
/// the parser; it is treated as a plain value token.)
pub open spec fn is_opt_token(t: Seq<char>) -> bool {
    t.len() >= 2 && t[0] == '/'
}

/// The value assigned to the option token at position `i`: the following
/// token's text when one exists and is not itself an option token,
/// otherwise the literal `"true"`.
pub open spec fn opt_value(args: Seq<Seq<char>>, i: int) -> Seq<char> {
    if i + 1 < args.len() && !is_opt_token(args[i + 1]) {
        args[i + 1]
    } else {
        "true"@
    }
}

/// One left-to-right pass over `args` from position `i`, folded into the
/// accumulated option map `m`: each option token inserts its key character
/// (the character after the prefix) with its value; other tokens change
/// nothing. Later occurrences of a key overwrite earlier ones.
pub open spec fn parse_opts(args: Seq<Seq<char>>, i: int, m: Map<char, Seq<char>>) -> Map<
    char,
    Seq<char>,
>
    decreases args.len() - i,
{
    if i >= args.len() {
        m
    } else if is_opt_token(args[i]) {
        parse_opts(args, i + 1, m.insert(args[i][1], opt_value(args, i)))
    } else {
        parse_opts(args, i + 1, m)
    }
}

/// The segments of `s` split on `,`. Always non-empty; adjacent, leading
/// and trailing commas yield empty segments.
pub open spec fn split_commas(s: Seq<char>) -> Seq<Seq<char>>
    decreases s.len(),
{
    if s.len() == 0 {
        seq![Seq::<char>::empty()]
    } else if s[0] == ',' {
        seq![Seq::<char>::empty()] + split_commas(s.skip(1))
    } else {
        let rest = split_commas(s.skip(1));
        seq![seq![s[0]] + rest[0]] + rest.skip(1)
    }
}

/// The views of a sequence of strings.
pub open spec fn views_of(ss: Seq<String>) -> Seq<Seq<char>> {
    ss.map_values(|s: String| s@)
}

/// Appending one pattern: a pattern already present is ignored.
pub open spec fn add_pat(ps: Seq<Seq<char>>, p: Seq<char>) -> Seq<Seq<char>> {
    if ps.contains(p) {
        ps
    } else {
        ps.push(p)
    }
}

/// Appending many patterns in order, each with the duplicate rule.
pub open spec fn add_pats(ps: Seq<Seq<char>>, new_ps: Seq<Seq<char>>) -> Seq<Seq<char>>
    decreases new_ps.len(),
{
    if new_ps.len() == 0 {
        ps
    } else {
        add_pats(add_pat(ps, new_ps[0]), new_ps.skip(1))
    }
}

/// No two entries of the pattern list are equal.
pub open spec fn distinct(ps: Seq<Seq<char>>) -> bool {
    forall|i: int, j: int| 0 <= i < j < ps.len() ==> ps[i] != ps[j]
}

/// Directory separators normalized: every backslash becomes a forward
/// slash.
pub open spec fn replace_sep_chars(s: Seq<char>) -> Seq<char> {
    s.map_values(|c: char| if c == '\\' { '/' } else { c })
}

/// Whether a normalized path still carries the extended-length prefix
/// (`\\?\` before normalization, `//?/` after).
pub open spec fn has_ext_prefix(s: Seq<char>) -> bool {
    s.len() >= 4 && s[0] == '/' && s[1] == '/' && s[2] == '?' && s[3] == '/'
}

/// A normalized path with the extended-length prefix removed when
/// present.
pub open spec fn strip_ext_prefix(s: Seq<char>) -> Seq<char> {
    if has_ext_prefix(s) {
        s.skip(4)
    } else {
        s
    }
}

/// The clean form of a resolved path: separators normalized, prefix
/// decoration stripped.
pub open spec fn abs_path_of(resolved: Seq<char>) -> Seq<char> {
    strip_ext_prefix(replace_sep_chars(resolved))
}

/// Appending patterns one more at a time: the batch form agrees with one
/// further single addition.
pub proof fn lemma_add_pats_snoc(ps: Seq<Seq<char>>, new_ps: Seq<Seq<char>>, x: Seq<char>)
    ensures
        add_pats(ps, new_ps.push(x)) == add_pat(add_pats(ps, new_ps), x),
    decreases new_ps.len(),
{
    let e = new_ps.push(x);
    if new_ps.len() == 0 {
        assert(e[0] == x);
        assert(e.skip(1) =~= Seq::<Seq<char>>::empty());
        assert(add_pats(ps, e) == add_pats(add_pat(ps, x), e.skip(1)));
        assert(add_pats(add_pat(ps, x), e.skip(1)) == add_pat(ps, x));
        assert(add_pats(ps, new_ps) == ps);
    } else {
        assert(e[0] == new_ps[0]);
        assert(e.skip(1) =~= new_ps.skip(1).push(x));
        assert(add_pats(ps, e) == add_pats(add_pat(ps, new_ps[0]), e.skip(1)));
        lemma_add_pats_snoc(add_pat(ps, new_ps[0]), new_ps.skip(1), x);
        assert(add_pats(ps, new_ps) == add_pats(add_pat(ps, new_ps[0]), new_ps.skip(1)));
    }
}

/// The option map that an association list denotes: later entries would
/// win, and with unique keys every entry is authoritative.
pub open spec fn map_of(es: Seq<(char, String)>) -> Map<char, Seq<char>>
    decreases es.len(),
{
    if es.len() == 0 {
        Map::empty()
    } else {
        map_of(es.drop_last()).insert(es.last().0, es.last().1@)
    }
}

/// No two entries of the association list share a key.
pub open spec fn entry_keys_unique(es: Seq<(char, String)>) -> bool {
    forall|i: int, j: int| 0 <= i < j < es.len() ==> es[i].0 != es[j].0
}

/// A key is in the denoted map exactly when some entry holds it.
pub proof fn lemma_map_of_contains(es: Seq<(char, String)>, k: char)
    ensures
        map_of(es).contains_key(k) <==> exists|i: int| 0 <= i < es.len() && es[i].0 == k,
    decreases es.len(),
{
    if es.len() > 0 {
        lemma_map_of_contains(es.drop_last(), k);
        if es.last().0 == k {
            assert(es[es.len() - 1].0 == k);
        } else if exists|i: int| 0 <= i < es.len() && es[i].0 == k {
            let i = choose|i: int| 0 <= i < es.len() && es[i].0 == k;
            assert(es.drop_last()[i] == es[i]);
        }
    }
}

/// With unique keys, the entry holding a key gives the map's value at it.
pub proof fn lemma_map_of_index(es: Seq<(char, String)>, i: int)
    requires
        entry_keys_unique(es),
        0 <= i < es.len(),
    ensures
        map_of(es).contains_key(es[i].0),
        map_of(es)[es[i].0] == es[i].1@,
    decreases es.len(),
{
    if i == es.len() - 1 {
        lemma_map_of_contains(es, es[i].0);
    } else {
        assert(es.drop_last()[i] == es[i]);
        lemma_map_of_index(es.drop_last(), i);
    }
}

/// Overwriting the entry that holds a key denotes a plain map insert.
pub proof fn lemma_map_of_update(es: Seq<(char, String)>, i: int, v: String)
    requires
        entry_keys_unique(es),
        0 <= i < es.len(),
    ensures
        map_of(es.update(i, (es[i].0, v))) == map_of(es).insert(es[i].0, v@),
    decreases es.len(),
{
    let k = es[i].0;
    let es2 = es.update(i, (k, v));
    if i == es.len() - 1 {
        assert(es2.drop_last() =~= es.drop_last());
        assert(map_of(es2) =~= map_of(es).insert(k, v@));
    } else {
        assert(es2.drop_last() =~= es.drop_last().update(i, (k, v)));
        assert(es.drop_last()[i] == es[i]);
        lemma_map_of_update(es.drop_last(), i, v);
        assert(es2.last() == es.last());
        assert(es.last().0 != k);
        assert(map_of(es2) =~= map_of(es).insert(k, v@));
    }
}

/// Appending an entry with a fresh key denotes a plain map insert.
pub proof fn lemma_map_of_push(es: Seq<(char, String)>, k: char, v: String)
    ensures
        map_of(es.push((k, v))) == map_of(es).insert(k, v@),
{
    assert(es.push((k, v)).drop_last() =~= es);
}

} // verus!
