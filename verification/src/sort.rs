//! Stable sorting by an integer key.
use vstd::prelude::*;
use crate::seqs::{first_index, lemma_first_index};

verus! {

broadcast use vstd::seq_lib::group_seq_properties;

/// Every element of `s` has a key no larger than the keys of the elements after it.
pub open spec fn sorted_by<T>(s: Seq<T>, key: spec_fn(T) -> int) -> bool {
    forall|a: int, b: int| 0 <= a < b < s.len() ==> key(s[a]) <= key(s[b])
}

/// The elements of `s` whose key is `k`, in their order in `s`.
pub open spec fn with_key<T>(s: Seq<T>, key: spec_fn(T) -> int, k: int) -> Seq<T> {
    s.filter(key_is(key, k))
}

/// Whether an element has key `k`.
pub open spec fn key_is<T>(key: spec_fn(T) -> int, k: int) -> spec_fn(T) -> bool {
    |x: T| key(x) == k
}

/// `r` is `s` sorted stably by `key`: sorted, and for each key value the elements with that key
/// come in the same order as in `s`.
pub open spec fn stably_sorted<T>(r: Seq<T>, s: Seq<T>, key: spec_fn(T) -> int) -> bool {
    &&& sorted_by(r, key)
    &&& forall|k: int| #[trigger] with_key(r, key, k) == with_key(s, key, k)
}

/// An element whose key is above that of `x`.
pub open spec fn key_above<T>(key: spec_fn(T) -> int, x: T) -> spec_fn(T) -> bool {
    |y: T| key(y) > key(x)
}

/// `s` sorted by insertion: each element in turn goes before the first element already placed
/// whose key is above its own.
pub open spec fn insertion_sorted<T>(s: Seq<T>, key: spec_fn(T) -> int) -> Seq<T>
    decreases s.len(),
{
    if s.len() == 0 {
        s
    } else {
        let p = insertion_sorted(s.drop_last(), key);
        p.insert(first_index(p, key_above(key, s.last())), s.last())
    }
}

proof fn lemma_filter_insert<T>(p: Seq<T>, j: int, x: T, pred: spec_fn(T) -> bool)
    requires
        0 <= j <= p.len(),
        forall|m: int| j <= m < p.len() ==> !pred(p[m]),
    ensures
        p.insert(j, x).filter(pred) == (if pred(x) { p.filter(pred).push(x) } else { p.filter(pred) }),
{
    let a = p.take(j);
    let b = p.skip(j);
    assert(p =~= a + b);
    assert(p.insert(j, x) =~= a + seq![x] + b);
    Seq::filter_distributes_over_add(a, b, pred);
    Seq::filter_distributes_over_add(a + seq![x], b, pred);
    Seq::filter_distributes_over_add(a, seq![x], pred);
    assert(b.filter(pred) =~= Seq::<T>::empty()) by {
        b.lemma_all_neg_filter_empty(pred);
    }
    reveal_with_fuel(Seq::filter, 2);
    assert(seq![x].drop_last() =~= Seq::<T>::empty());
}

proof fn lemma_filter_insert_other<T>(p: Seq<T>, j: int, x: T, pred: spec_fn(T) -> bool)
    requires
        0 <= j <= p.len(),
        !pred(x),
    ensures
        p.insert(j, x).filter(pred) == p.filter(pred),
{
    let a = p.take(j);
    let b = p.skip(j);
    assert(p =~= a + b);
    assert(p.insert(j, x) =~= a + seq![x] + b);
    Seq::filter_distributes_over_add(a, b, pred);
    Seq::filter_distributes_over_add(a + seq![x], b, pred);
    Seq::filter_distributes_over_add(a, seq![x], pred);
    reveal_with_fuel(Seq::filter, 2);
    assert(seq![x].drop_last() =~= Seq::<T>::empty());
    assert(seq![x].filter(pred) =~= Seq::<T>::empty());
}

proof fn lemma_insert_step<T>(prefix: Seq<T>, s: Seq<T>, i: int, j: int, x: T, key: spec_fn(T) -> int)
    requires
        0 <= j <= i < s.len(),
        prefix.len() == i,
        x == s[i],
        sorted_by(prefix, key),
        forall|k: int| #[trigger] with_key(prefix, key, k) == with_key(s.take(i), key, k),
        forall|m: int| j <= m < i ==> key(prefix[m]) > key(x),
        j > 0 ==> key(prefix[j - 1]) <= key(x),
    ensures
        sorted_by(prefix.insert(j, x), key),
        forall|k: int| #[trigger] with_key(prefix.insert(j, x), key, k) == with_key(s.take(i + 1), key, k),
{
    let newp = prefix.insert(j, x);
    let kx = key(x);
    assert(s.take(i + 1) =~= s.take(i).push(s[i]));
    assert forall|a: int, b: int| 0 <= a < b < newp.len() implies key(newp[a]) <= key(newp[b]) by {
        if b < j {
        } else if b == j {
            if a < j - 1 {
                assert(key(prefix[a]) <= key(prefix[j - 1]));
            }
        } else if a < j {
            assert(key(prefix[a]) <= key(prefix[j - 1]));
        } else if a == j {
        } else {
        }
    }
    assert forall|k: int| #[trigger] with_key(newp, key, k) == with_key(s.take(i + 1), key, k) by {
        let pred = key_is(key, k);
        assert(with_key(prefix, key, k) == with_key(s.take(i), key, k));
        if k == kx {
            lemma_filter_insert(prefix, j, x, pred);
        } else {
            lemma_filter_insert_other(prefix, j, x, pred);
        }
        s.take(i).lemma_filter_push(s[i], pred);
    }
}

/// Sorts `v` stably by the key that `key_of` computes (an insertion sort).
pub fn stable_sort_by_key<T, F: Fn(&T) -> usize>(v: &mut Vec<T>, key_of: F, Ghost(key): Ghost<spec_fn(T) -> int>)
    requires
        forall|x: &T| #[trigger] key_of.requires((x,)),
        forall|x: &T, r: usize| key_of.ensures((x,), r) ==> r == key(*x),
    ensures
        stably_sorted(final(v)@, old(v)@, key),
        final(v)@ == insertion_sorted(old(v)@, key),
        final(v)@.len() == old(v)@.len(),
{
    let ghost s = v@;
    let n = v.len();
    let mut i: usize = 0;
    while i < n
        invariant
            forall|x: &T| #[trigger] key_of.requires((x,)),
            forall|x: &T, r: usize| key_of.ensures((x,), r) ==> r == key(*x),
            n == s.len(),
            v@.len() == n,
            i <= n,
            sorted_by(v@.take(i as int), key),
            v@.take(i as int) == insertion_sorted(s.take(i as int), key),
            v@.skip(i as int) == s.skip(i as int),
            forall|k: int| #[trigger] with_key(v@.take(i as int), key, k) == with_key(s.take(i as int), key, k),
        decreases n - i,
    {
        let ghost prefix = v@.take(i as int);
        assert(v@[i as int] == s[i as int]) by {
            assert(v@.skip(i as int)[0] == s.skip(i as int)[0]);
        }
        let x = v.remove(i);
        let kx = key_of(&x);
        let mut j = i;
        while j > 0
            invariant
                forall|x: &T| #[trigger] key_of.requires((x,)),
                forall|x: &T, r: usize| key_of.ensures((x,), r) ==> r == key(*x),
                v@.len() == n - 1,
                j <= i < n,
                v@.take(i as int) == prefix,
                kx == key(x),
                forall|m: int| j <= m < i ==> key(v@[m]) > kx,
            ensures
                v@.len() == n - 1,
                j <= i < n,
                v@.take(i as int) == prefix,
                forall|m: int| j <= m < i ==> key(v@[m]) > kx,
                j > 0 ==> key(v@[j - 1]) <= kx,
            decreases j,
        {
            let kj = key_of(&v[j - 1]);
            if kj <= kx {
                break;
            }
            j -= 1;
        }
        proof {
            assert(forall|m: int| j <= m < i ==> key(prefix[m]) > kx);
            assert(j > 0 ==> key(prefix[j - 1]) <= kx);
            lemma_insert_step(prefix, s, i as int, j as int, x, key);
            assert forall|m: int| 0 <= m < j implies !key_above(key, x)(#[trigger] prefix[m]) by {
                assert(key(prefix[m]) <= key(prefix[j - 1]));
            }
            lemma_first_index(prefix, key_above(key, x), j as int);
            assert(s.take(i + 1).drop_last() =~= s.take(i as int));
            assert(s.take(i + 1).last() == x);
        }
        let ghost before = v@;
        v.insert(j, x);
        proof {
            assert(v@.take(i + 1) =~= prefix.insert(j as int, x));
            assert(v@.skip(i + 1) =~= before.skip(i as int));
            assert(before.skip(i as int) =~= s.skip(i + 1));
        }
        i += 1;
    }
    assert(v@.take(n as int) =~= v@);
    assert(s.take(n as int) =~= s);
}

} // verus!
