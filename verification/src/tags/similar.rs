//! Ordering tags by word-by-word similarity.
use vstd::prelude::*;
use vstd::relations::{sorted_by, total_ordering};
use crate::text::{chars_of, views};

verus! {

broadcast use vstd::seq_lib::group_to_multiset_ensures;

/// How characters compare when tags are compared: the space, which separates words, comes
/// before every other character, and the others come in code point order.
pub open spec fn lighter_than(x: char, y: char) -> bool {
    if y == ' ' {
        false
    } else if x == ' ' {
        true
    } else {
        (x as int) < (y as int)
    }
}

/// `a` sorts before `b`, or is equal to it: the words of `a` and `b` are compared one by one,
/// each word by its characters, a word that is a prefix of the other sorting first, and a tag
/// whose words are all leading words of the other sorting first. Comparing characters with
/// the space weighed lightest is the same thing.
pub open spec fn similar_le(a: Seq<char>, b: Seq<char>) -> bool
    decreases a.len(),
{
    if a.len() == 0 {
        true
    } else if b.len() == 0 {
        false
    } else if a[0] == b[0] {
        similar_le(a.drop_first(), b.drop_first())
    } else {
        lighter_than(a[0], b[0])
    }
}

/// [`similar_le`] as a relation.
pub open spec fn similar_order() -> spec_fn(Seq<char>, Seq<char>) -> bool {
    |a: Seq<char>, b: Seq<char>| similar_le(a, b)
}

proof fn lemma_similar_refl(a: Seq<char>)
    ensures
        similar_le(a, a),
    decreases a.len(),
{
    if a.len() > 0 {
        lemma_similar_refl(a.drop_first());
    }
}

proof fn lemma_similar_antisym(a: Seq<char>, b: Seq<char>)
    requires
        similar_le(a, b),
        similar_le(b, a),
    ensures
        a == b,
    decreases a.len(),
{
    if a.len() > 0 && b.len() > 0 {
        lemma_similar_antisym(a.drop_first(), b.drop_first());
        assert(a =~= seq![a[0]] + a.drop_first());
        assert(b =~= seq![b[0]] + b.drop_first());
    } else {
        assert(a =~= b);
    }
}

proof fn lemma_similar_trans(a: Seq<char>, b: Seq<char>, c: Seq<char>)
    requires
        similar_le(a, b),
        similar_le(b, c),
    ensures
        similar_le(a, c),
    decreases a.len(),
{
    if a.len() > 0 && b.len() > 0 && c.len() > 0 {
        if a[0] == b[0] && b[0] == c[0] {
            lemma_similar_trans(a.drop_first(), b.drop_first(), c.drop_first());
        }
    }
}

proof fn lemma_similar_total(a: Seq<char>, b: Seq<char>)
    ensures
        similar_le(a, b) || similar_le(b, a),
    decreases a.len(),
{
    if a.len() > 0 && b.len() > 0 {
        if a[0] == b[0] {
            lemma_similar_total(a.drop_first(), b.drop_first());
        } else {
            assert(a[0] as int != b[0] as int);
        }
    }
}

/// Comparing tags by similarity is a total order.
pub proof fn lemma_similar_total_ordering()
    ensures
        total_ordering(similar_order()),
{
    assert forall|a: Seq<char>| #[trigger] similar_order()(a, a) by {
        lemma_similar_refl(a);
    }
    assert forall|a: Seq<char>, b: Seq<char>|
        #[trigger] similar_order()(a, b) && #[trigger] similar_order()(b, a) implies a == b by {
        lemma_similar_antisym(a, b);
    }
    assert forall|a: Seq<char>, b: Seq<char>, c: Seq<char>|
        #[trigger] similar_order()(a, b) && #[trigger] similar_order()(b, c) implies similar_order()(a, c) by {
        lemma_similar_trans(a, b, c);
    }
    assert forall|a: Seq<char>, b: Seq<char>|
        #[trigger] similar_order()(a, b) || #[trigger] similar_order()(b, a) by {
        lemma_similar_total(a, b);
    }
}

/// Whether `x` comes before `y` (see [`lighter_than`]).
fn lighter(x: char, y: char) -> (r: bool)
    ensures
        r == lighter_than(x, y),
{
    if y == ' ' {
        false
    } else if x == ' ' {
        true
    } else {
        (x as u32) < (y as u32)
    }
}

proof fn lemma_similar_skip(a: Seq<char>, b: Seq<char>, i: int)
    requires
        0 <= i < a.len(),
        i < b.len(),
        a[i] == b[i],
    ensures
        similar_le(a.skip(i), b.skip(i)) == similar_le(a.skip(i + 1), b.skip(i + 1)),
{
    assert(a.skip(i).drop_first() =~= a.skip(i + 1));
    assert(b.skip(i).drop_first() =~= b.skip(i + 1));
}

/// Whether tag `a` sorts before tag `b` or equals it (see [`similar_le`]).
pub fn similar_before(a: &str, b: &str) -> (r: bool)
    ensures
        r == similar_le(a@, b@),
{
    let x = chars_of(a);
    let y = chars_of(b);
    let mut i: usize = 0;
    assert(x@.skip(0) =~= x@);
    assert(y@.skip(0) =~= y@);
    while i < x.len() && i < y.len()
        invariant
            x@ == a@,
            y@ == b@,
            i <= x@.len(),
            i <= y@.len(),
            similar_le(a@, b@) == similar_le(x@.skip(i as int), y@.skip(i as int)),
        decreases x@.len() - i,
    {
        if x[i] != y[i] {
            return lighter(x[i], y[i]);
        }
        proof { lemma_similar_skip(x@, y@, i as int); }
        i += 1;
    }
    x.len() <= y.len()
}

/// Sorts tags by word-by-word similarity, so that tags sharing their leading words stay
/// together and a tag made of leading words only comes before the longer ones.
pub fn sort_tags_by_similar(tags: &mut Vec<String>)
    ensures
        views(final(tags)@) == views(old(tags)@).sort_by(similar_order()),
{
    let ghost s = views(tags@);
    let mut out: Vec<String> = Vec::new();
    let mut i: usize = 0;
    assert(s.take(0) =~= Seq::<Seq<char>>::empty());
    while i < tags.len()
        invariant
            s == views(tags@),
            i <= tags@.len(),
            sorted_by(views(out@), similar_order()),
            views(out@).to_multiset() == s.take(i as int).to_multiset(),
        decreases tags@.len() - i,
    {
        let x = tags[i].clone();
        let mut p: usize = 0;
        while p < out.len() && similar_before(out[p].as_str(), x.as_str())
            invariant
                p <= out@.len(),
                forall|k: int| 0 <= k < p ==> similar_le(#[trigger] out@[k]@, x@),
            decreases out@.len() - p,
        {
            p += 1;
        }
        proof {
            lemma_similar_total_ordering();
            if p < out@.len() {
                assert(!similar_le(out@[p as int]@, x@));
                assert forall|k: int| p <= k < out@.len() implies !similar_le(#[trigger] out@[k]@, x@) by {
                    if k > p {
                        assert(similar_order()(views(out@)[p as int], views(out@)[k]));
                        if similar_le(out@[k]@, x@) {
                            lemma_similar_trans(out@[p as int]@, out@[k]@, x@);
                        }
                    }
                }
            }
        }
        let ghost before = views(out@);
        out.insert(p, x);
        proof {
            assert(views(out@) =~= before.insert(p as int, s[i as int]));
            assert(s.take(i + 1) =~= s.take(i as int).push(s[i as int]));
            assert forall|a: int, b: int| 0 <= a < b < views(out@).len()
                implies #[trigger] similar_order()(views(out@)[a], views(out@)[b]) by {
                if a < p && b < p {
                    assert(similar_order()(before[a], before[b]));
                } else if a < p && b == p {
                } else if a < p && b > p {
                    assert(similar_order()(before[a], before[b - 1]));
                } else if a == p {
                    lemma_similar_total(before[b - 1], s[i as int]);
                } else {
                    assert(similar_order()(before[a - 1], before[b - 1]));
                }
            }
        }
        i += 1;
    }
    proof {
        assert(s.take(s.len() as int) =~= s);
        lemma_similar_total_ordering();
        s.lemma_sort_by_ensures(similar_order());
        vstd::seq_lib::lemma_sorted_unique(views(out@), s.sort_by(similar_order()), similar_order());
    }
    *tags = out;
}

} // verus!
