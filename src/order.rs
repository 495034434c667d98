//! The lexicographic order of strings, by code point.

use vstd::prelude::*;
use vstd::string::*;

verus! {

/// `a` comes strictly before `b`: at the first position where they differ
/// `a` holds the smaller code point, or `a` is a proper prefix of `b`.
pub open spec fn lex_less(a: Seq<char>, b: Seq<char>) -> bool
    decreases a.len(),
{
    if b.len() == 0 {
        false
    } else if a.len() == 0 {
        true
    } else if a[0] != b[0] {
        (a[0] as int) < (b[0] as int)
    } else {
        lex_less(a.drop_first(), b.drop_first())
    }
}

/// No string comes before itself.
pub proof fn lemma_lex_irreflexive(a: Seq<char>)
    ensures
        !lex_less(a, a),
    decreases a.len(),
{
    if a.len() > 0 {
        lemma_lex_irreflexive(a.drop_first());
    }
}

/// Of two different strings, one comes before the other.
pub proof fn lemma_lex_total(a: Seq<char>, b: Seq<char>)
    requires
        a != b,
    ensures
        lex_less(a, b) || lex_less(b, a),
    decreases a.len(),
{
    if a.len() == 0 {
        assert(b.len() > 0) by {
            if b.len() == 0 {
                assert(a =~= b);
            }
        }
    } else if b.len() > 0 && a[0] == b[0] {
        if a.drop_first() == b.drop_first() {
            assert(a =~= seq![a[0]] + a.drop_first());
            assert(b =~= seq![b[0]] + b.drop_first());
        }
        lemma_lex_total(a.drop_first(), b.drop_first());
    } else if b.len() > 0 {
        assert((a[0] as int) != (b[0] as int));
    }
}

/// The order is transitive.
pub proof fn lemma_lex_transitive(a: Seq<char>, b: Seq<char>, c: Seq<char>)
    requires
        lex_less(a, b),
        lex_less(b, c),
    ensures
        lex_less(a, c),
    decreases a.len(),
{
    if a.len() > 0 && a[0] == b[0] && b[0] == c[0] {
        lemma_lex_transitive(a.drop_first(), b.drop_first(), c.drop_first());
    }
}

/// Whether `a` comes strictly before `b`.
pub fn str_less(a: &String, b: &String) -> (r: bool)
    ensures
        r == lex_less(a@, b@),
{
    let sa = a.as_str();
    let sb = b.as_str();
    let na = sa.unicode_len();
    let nb = sb.unicode_len();
    let mut i: usize = 0;
    assert(a@.skip(0) =~= a@);
    assert(b@.skip(0) =~= b@);
    while i < na && i < nb
        invariant
            na == a@.len(),
            nb == b@.len(),
            sa@ == a@,
            sb@ == b@,
            i <= na,
            i <= nb,
            lex_less(a@, b@) == lex_less(a@.skip(i as int), b@.skip(i as int)),
        decreases na - i,
    {
        let ca = sa.get_char(i);
        let cb = sb.get_char(i);
        if ca != cb {
            return (ca as u32) < (cb as u32);
        }
        assert(a@.skip(i as int).drop_first() =~= a@.skip(i + 1));
        assert(b@.skip(i as int).drop_first() =~= b@.skip(i + 1));
        i = i + 1;
    }
    i < nb
}

} // verus!
