//! The order of strings: by code points, a prefix first (std's `Ord` for `String`).
use vstd::prelude::*;
use vstd::relations::total_ordering;
use crate::text::chars_of;

verus! {

/// `a` comes before `b`, or equals it, in code point order.
pub open spec fn lex_le(a: Seq<char>, b: Seq<char>) -> bool
    decreases a.len(),
{
    if a.len() == 0 {
        true
    } else if b.len() == 0 {
        false
    } else if a[0] == b[0] {
        lex_le(a.drop_first(), b.drop_first())
    } else {
        (a[0] as int) < (b[0] as int)
    }
}

/// Pairs of strings, ordered by their first string, then by their second.
pub open spec fn pair_le(a: (Seq<char>, Seq<char>), b: (Seq<char>, Seq<char>)) -> bool {
    if a.0 == b.0 {
        lex_le(a.1, b.1)
    } else {
        lex_le(a.0, b.0)
    }
}

pub proof fn lemma_lex_refl(a: Seq<char>)
    ensures
        lex_le(a, a),
    decreases a.len(),
{
    if a.len() > 0 {
        lemma_lex_refl(a.drop_first());
    }
}

pub proof fn lemma_lex_antisym(a: Seq<char>, b: Seq<char>)
    requires
        lex_le(a, b),
        lex_le(b, a),
    ensures
        a == b,
    decreases a.len(),
{
    if a.len() > 0 && b.len() > 0 {
        lemma_lex_antisym(a.drop_first(), b.drop_first());
        assert(a =~= seq![a[0]] + a.drop_first());
        assert(b =~= seq![b[0]] + b.drop_first());
    } else {
        assert(a =~= b);
    }
}

pub proof fn lemma_lex_trans(a: Seq<char>, b: Seq<char>, c: Seq<char>)
    requires
        lex_le(a, b),
        lex_le(b, c),
    ensures
        lex_le(a, c),
    decreases a.len(),
{
    if a.len() > 0 && b.len() > 0 && c.len() > 0 {
        if a[0] == b[0] && b[0] == c[0] {
            lemma_lex_trans(a.drop_first(), b.drop_first(), c.drop_first());
        }
    }
}

pub proof fn lemma_lex_total(a: Seq<char>, b: Seq<char>)
    ensures
        lex_le(a, b) || lex_le(b, a),
    decreases a.len(),
{
    if a.len() > 0 && b.len() > 0 {
        if a[0] == b[0] {
            lemma_lex_total(a.drop_first(), b.drop_first());
        } else {
            assert(a[0] as int != b[0] as int);
        }
    }
}

/// [`pair_le`] as a relation.
pub open spec fn pair_order() -> spec_fn((Seq<char>, Seq<char>), (Seq<char>, Seq<char>)) -> bool {
    |a: (Seq<char>, Seq<char>), b: (Seq<char>, Seq<char>)| pair_le(a, b)
}

/// Ordering pairs of strings is a total order.
pub proof fn lemma_pair_total_ordering()
    ensures
        total_ordering(pair_order()),
{
    assert forall|a: (Seq<char>, Seq<char>)| #[trigger] pair_order()(a, a) by {
        lemma_lex_refl(a.1);
    }
    assert forall|a: (Seq<char>, Seq<char>), b: (Seq<char>, Seq<char>)|
        #[trigger] pair_order()(a, b) && #[trigger] pair_order()(b, a) implies a == b by {
        if a.0 == b.0 {
            lemma_lex_antisym(a.1, b.1);
        } else {
            lemma_lex_antisym(a.0, b.0);
        }
    }
    assert forall|a: (Seq<char>, Seq<char>), b: (Seq<char>, Seq<char>), c: (Seq<char>, Seq<char>)|
        #[trigger] pair_order()(a, b) && #[trigger] pair_order()(b, c) implies pair_order()(a, c) by {
        if a.0 == b.0 && b.0 == c.0 {
            lemma_lex_trans(a.1, b.1, c.1);
        } else if a.0 == b.0 {
            assert(lex_le(a.0, c.0));
        } else if b.0 == c.0 {
            assert(lex_le(a.0, c.0));
        } else {
            lemma_lex_trans(a.0, b.0, c.0);
            if a.0 == c.0 {
                lemma_lex_antisym(a.0, b.0);
            }
        }
    }
    assert forall|a: (Seq<char>, Seq<char>), b: (Seq<char>, Seq<char>)|
        #[trigger] pair_order()(a, b) || #[trigger] pair_order()(b, a) by {
        lemma_lex_total(a.0, b.0);
        lemma_lex_total(a.1, b.1);
    }
}

/// Whether `a` comes before `b` or equals it (see [`lex_le`]).
pub fn lex_before(a: &str, b: &str) -> (r: bool)
    ensures
        r == lex_le(a@, b@),
{
    let x = chars_of(a);
    let y = chars_of(b);
    let mut i: usize = 0;
    assert(x@.skip(0) =~= x@);
    assert(y@.skip(0) =~= y@);
    while i < x.len() && i < y.len()
        invariant
            x@ == a@,
            y@ == b@,
            i <= x@.len(),
            i <= y@.len(),
            lex_le(a@, b@) == lex_le(x@.skip(i as int), y@.skip(i as int)),
        decreases x@.len() - i,
    {
        if x[i] != y[i] {
            return x[i] < y[i];
        }
        assert(x@.skip(i as int).drop_first() =~= x@.skip(i + 1));
        assert(y@.skip(i as int).drop_first() =~= y@.skip(i + 1));
        i += 1;
    }
    x.len() <= y.len()
}

/// Whether pair `a` comes before pair `b` or equals it (see [`pair_le`]).
pub fn pair_before(a: (&str, &str), b: (&str, &str)) -> (r: bool)
    ensures
        r == pair_le((a.0@, a.1@), (b.0@, b.1@)),
{
    if crate::text::str_eq(a.0, b.0) {
        lex_before(a.1, b.1)
    } else {
        lex_before(a.0, b.0)
    }
}

} // verus!
