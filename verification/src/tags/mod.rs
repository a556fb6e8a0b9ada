//! Tags: ordering, redundancy removal, merging and lookups in the tag bank.
pub mod data;
pub mod localization;
pub mod merge;
pub mod bank;
pub mod similar;

use vstd::prelude::*;
use crate::sort::{insertion_sorted, key_above, stable_sort_by_key, stably_sorted};
use crate::seqs::first_index;
use crate::text::{split_on, split_sep, str_eq, str_views, views};
pub use self::data::TAG_ORDER;
pub use self::similar::sort_tags_by_similar;
pub use self::bank::{find_short_pos_or_default, find_tag_in_bank, get_tag_bank_as_tag_info};
pub use self::localization::{has_locale, localize_tag, localize_tag_info};
pub use self::merge::{merge_case_tags, merge_person_tags, merge_verb_form_tags};

verus! {

broadcast use vstd::seq_lib::group_seq_properties;

/// Separator of merged tags (`genitive/dative`).
pub const TAG_SEP: &'static str = "/";

/// Tags that are blacklisted if they happen at *some* expanded form.
pub const BLACKLISTED_FORM_TAGS: [&'static str; 14] = [
    "inflection-template",
    "table-tags",
    "canonical",
    "class",
    "error-unknown-tag",
    "error-unrecognized-form",
    "includes-article",
    "obsolete",
    "archaic",
    "used-in-the-form",
    "romanization",
    "dated",
    "auxiliary",
    "multiword-construction",
];

/// Tags that are blacklisted if they happen at *every* expanded form.
pub const IDENTITY_FORM_TAGS: [&'static str; 3] = ["nominative", "singular", "infinitive"];

/// Tags that are just removed from forms.
pub const REDUNDANT_FORM_TAGS: [&'static str; 1] = ["combined-form"];

/// The position of `w` in `order`, or `order.len()` when `w` is not there.
pub open spec fn rank_in(order: Seq<Seq<char>>, w: Seq<char>) -> int
    decreases order.len(),
{
    if order.len() == 0 {
        0
    } else if order[0] == w {
        0
    } else {
        1 + rank_in(order.drop_first(), w)
    }
}

proof fn lemma_rank_in(order: Seq<Seq<char>>, w: Seq<char>, i: int)
    requires
        0 <= i <= order.len(),
        forall|j: int| 0 <= j < i ==> order[j] != w,
        i < order.len() ==> order[i] == w,
    ensures
        rank_in(order, w) == i,
    decreases order.len(),
{
    if order.len() > 0 && order[0] != w {
        lemma_rank_in(order.drop_first(), w, i - 1);
    }
}

/// The part of a tag before the first `/` (the whole tag when there is none).
pub open spec fn before_sep(t: Seq<char>) -> Seq<char> {
    split_sep(t, '/')[0]
}

/// The rank that orders a tag: the position in `TAG_ORDER` of its part before `/`,
/// and after every known tag when it is not there.
pub open spec fn tag_rank(t: Seq<char>) -> int {
    rank_in(str_views(TAG_ORDER@), before_sep(t))
}

/// Position of `w` in `order`, `order.len()` when absent.
pub fn position_in(order: &[&str], w: &str) -> (r: usize)
    ensures
        r == rank_in(str_views(order@), w@),
{
    let mut i: usize = 0;
    while i < order.len()
        invariant
            i <= order@.len(),
            forall|j: int| 0 <= j < i ==> str_views(order@)[j] != w@,
        decreases order@.len() - i,
    {
        if str_eq(order[i], w) {
            proof { lemma_rank_in(str_views(order@), w@, i as int); }
            return i;
        }
        i += 1;
    }
    proof { lemma_rank_in(str_views(order@), w@, i as int); }
    i
}

/// The rank of a tag (see [`tag_rank`]).
pub fn rank_of_tag(t: &str) -> (r: usize)
    ensures
        r == tag_rank(t@),
{
    let parts = split_on(t, '/');
    proof { crate::text::lemma_split_sep_nonempty(t@, '/'); }
    let order: &[&str] = &TAG_ORDER;
    position_in(order, parts[0].as_str())
}

/// Sorts tags (each one word, possibly merged with `/`) by their position in `TAG_ORDER`;
/// a merged tag sorts by its part before the first `/`. Unknown tags go last, and tags of equal
/// rank keep their order.
pub fn sort_tags(tags: &mut Vec<&str>)
    ensures
        stably_sorted(final(tags)@, old(tags)@, |t: &str| tag_rank(t@)),
        str_views(final(tags)@) == insertion_sorted(str_views(old(tags)@), rank_key()),
{
    let ghost before = tags@;
    let key_of = |t: &&str| -> (r: usize)
        ensures r == tag_rank(t@),
        { rank_of_tag(*t) };
    stable_sort_by_key(tags, key_of, Ghost(|t: &str| tag_rank(t@)));
    proof { lemma_sorted_views(before); }
}

/// The rank of a tag as a function (see [`tag_rank`]).
pub open spec fn rank_key() -> spec_fn(Seq<char>) -> int {
    |t: Seq<char>| tag_rank(t)
}

/// Sorting string slices by the rank of their text sorts their texts.
proof fn lemma_sorted_views(ws: Seq<&str>)
    ensures
        str_views(insertion_sorted(ws, |t: &str| tag_rank(t@))) == insertion_sorted(str_views(ws), rank_key()),
    decreases ws.len(),
{
    if ws.len() > 0 {
        let key = |t: &str| tag_rank(t@);
        lemma_sorted_views(ws.drop_last());
        assert(str_views(ws).drop_last() =~= str_views(ws.drop_last()));
        let p = insertion_sorted(ws.drop_last(), key);
        let x = ws.last();
        crate::seqs::lemma_first_index_map(p, |t: &str| t@, key_above(rank_key(), x@), key_above(key, x));
        crate::seqs::lemma_first_index_bound(p, key_above(key, x));
        let j = first_index(p, key_above(key, x));
        assert(str_views(p.insert(j, x)) =~= str_views(p).insert(j, x@));
    }
}

/// Every word of `a` is a word of `b` (words being what lies between spaces).
pub open spec fn word_subset(a: Seq<char>, b: Seq<char>) -> bool {
    forall|w: Seq<char>| split_sep(a, ' ').contains(w) ==> split_sep(b, ' ').contains(w)
}

/// Whether every word of `a` is a word of `b`: "foo bar" is a subset of "bar foo baz".
pub fn tags_are_subset(a: &str, b: &str) -> (r: bool)
    ensures
        r == word_subset(a@, b@),
{
    let aw = split_on(a, ' ');
    let bw = split_on(b, ' ');
    let mut i: usize = 0;
    while i < aw.len()
        invariant
            views(aw@) == split_sep(a@, ' '),
            views(bw@) == split_sep(b@, ' '),
            i <= aw@.len(),
            forall|k: int| 0 <= k < i ==> split_sep(b@, ' ').contains(#[trigger] views(aw@)[k]),
        decreases aw@.len() - i,
    {
        let mut found = false;
        let mut j: usize = 0;
        while j < bw.len()
            invariant
                views(bw@) == split_sep(b@, ' '),
                i < aw@.len(),
                j <= bw@.len(),
                found ==> split_sep(b@, ' ').contains(views(aw@)[i as int]),
                !found ==> forall|m: int| 0 <= m < j ==> views(bw@)[m] != views(aw@)[i as int],
            decreases bw@.len() - j,
        {
            if aw[i] == bw[j] {
                found = true;
                assert(views(bw@)[j as int] == views(aw@)[i as int]);
            }
            j += 1;
        }
        if !found {
            proof {
                let w = views(aw@)[i as int];
                assert(split_sep(a@, ' ').contains(w));
                assert(!split_sep(b@, ' ').contains(w));
            }
            return false;
        }
        i += 1;
    }
    proof {
        assert forall|w: Seq<char>| split_sep(a@, ' ').contains(w) implies split_sep(b@, ' ').contains(w) by {
            let k = choose|k: int| 0 <= k < split_sep(a@, ' ').len() && split_sep(a@, ' ')[k] == w;
            assert(views(aw@)[k] == w);
        }
    }
    true
}

/// Tag `i` of `s` is redundant: some other tag has all of its words, and either has words
/// that `i` lacks or (having exactly the same words) comes later.
pub open spec fn redundant_at(s: Seq<Seq<char>>, i: int) -> bool {
    exists|j: int|
        0 <= j < s.len() && j != i && #[trigger] word_subset(s[i], s[j]) && (!word_subset(s[j], s[i]) || j > i)
}

/// The elements of `s` at the positions where `keep` holds, in order.
pub open spec fn keep_where<A>(s: Seq<A>, keep: spec_fn(int) -> bool) -> Seq<A>
    decreases s.len(),
{
    if s.len() == 0 {
        Seq::<A>::empty()
    } else if keep(s.len() - 1) {
        keep_where(s.drop_last(), keep).push(s.last())
    } else {
        keep_where(s.drop_last(), keep)
    }
}

/// The predicate "tag `i` of `s` is not redundant".
pub open spec fn not_redundant_at(s: Seq<Seq<char>>) -> spec_fn(int) -> bool {
    |i: int| !redundant_at(s, i)
}

/// The tags of `s` that are not redundant.
pub open spec fn non_redundant(s: Seq<Seq<char>>) -> Seq<Seq<char>> {
    keep_where(s, not_redundant_at(s))
}

proof fn lemma_subset_refl(a: Seq<char>)
    ensures
        word_subset(a, a),
{
}

proof fn lemma_subset_trans(a: Seq<char>, b: Seq<char>, c: Seq<char>)
    requires
        word_subset(a, b),
        word_subset(b, c),
    ensures
        word_subset(a, c),
{
}

/// The positions of tags strictly above tag `i` (all its words and more).
spec fn strictly_above(s: Seq<Seq<char>>, i: int) -> Set<int> {
    Set::new(|m: int| 0 <= m < s.len() && word_subset(s[i], s[m]) && !word_subset(s[m], s[i]))
}

proof fn lemma_strictly_above_finite(s: Seq<Seq<char>>, i: int)
    ensures
        strictly_above(s, i).finite(),
        strictly_above(s, i).len() <= s.len(),
{
    let r = vstd::set_lib::set_int_range(0, s.len() as int);
    vstd::set_lib::lemma_int_range(0, s.len() as int);
    assert(strictly_above(s, i).subset_of(r));
    vstd::set_lib::lemma_len_subset(strictly_above(s, i), r);
}

/// Above every tag there is a tag that is not redundant.
proof fn lemma_non_redundant_above(s: Seq<Seq<char>>, i: int)
    requires
        0 <= i < s.len(),
    ensures
        exists|m: int| 0 <= m < s.len() && !redundant_at(s, m) && word_subset(s[i], s[m]),
    decreases strictly_above(s, i).len(), s.len() - i,
{
    lemma_subset_refl(s[i]);
    if !redundant_at(s, i) {
        assert(word_subset(s[i], s[i]));
    } else {
        let j = choose|j: int|
            0 <= j < s.len() && j != i && #[trigger] word_subset(s[i], s[j]) && (!word_subset(s[j], s[i]) || j > i);
        lemma_strictly_above_finite(s, i);
        lemma_strictly_above_finite(s, j);
        if !word_subset(s[j], s[i]) {
            assert forall|m: int| strictly_above(s, j).contains(m) implies strictly_above(s, i).remove(j).contains(m) by {
                lemma_subset_trans(s[i], s[j], s[m]);
                if word_subset(s[m], s[i]) {
                    lemma_subset_trans(s[m], s[i], s[j]);
                }
            }
            assert(strictly_above(s, i).contains(j));
            vstd::set_lib::lemma_len_subset(strictly_above(s, j), strictly_above(s, i).remove(j));
            lemma_non_redundant_above(s, j);
        } else {
            assert forall|m: int| strictly_above(s, j).contains(m) <==> strictly_above(s, i).contains(m) by {
                if 0 <= m < s.len() {
                    if word_subset(s[i], s[m]) {
                        lemma_subset_trans(s[j], s[i], s[m]);
                    }
                    if word_subset(s[j], s[m]) {
                        lemma_subset_trans(s[i], s[j], s[m]);
                    }
                    if word_subset(s[m], s[i]) {
                        lemma_subset_trans(s[m], s[i], s[j]);
                    }
                    if word_subset(s[m], s[j]) {
                        lemma_subset_trans(s[m], s[j], s[i]);
                    }
                }
            }
            assert(strictly_above(s, j) =~= strictly_above(s, i));
            lemma_non_redundant_above(s, j);
        }
        let m = choose|m: int| 0 <= m < s.len() && !redundant_at(s, m) && word_subset(s[j], s[m]);
        lemma_subset_trans(s[i], s[j], s[m]);
    }
}

pub proof fn lemma_keep_where_take<A>(s: Seq<A>, keep: spec_fn(int) -> bool, k: int)
    requires
        0 <= k < s.len(),
    ensures
        keep_where(s.take(k + 1), keep) == (if keep(k) {
            keep_where(s.take(k), keep).push(s[k])
        } else {
            keep_where(s.take(k), keep)
        }),
{
    assert(s.take(k + 1).drop_last() =~= s.take(k));
}

/// Every element kept comes from a kept position.
proof fn lemma_keep_where_from<A>(s: Seq<A>, keep: spec_fn(int) -> bool, a: int)
    requires
        0 <= a < keep_where(s, keep).len(),
    ensures
        exists|m: int| 0 <= m < s.len() && keep(m) && keep_where(s, keep)[a] == s[m],
    decreases s.len(),
{
    let prev = keep_where(s.drop_last(), keep);
    if keep(s.len() - 1) && a == prev.len() {
        assert(keep_where(s, keep)[a] == s[s.len() - 1]);
    } else {
        lemma_keep_where_from(s.drop_last(), keep, a);
        let m = choose|m: int| 0 <= m < s.drop_last().len() && keep(m) && prev[a] == s.drop_last()[m];
        assert(s.drop_last()[m] == s[m]);
    }
}

/// Two elements kept come from kept positions in the same order.
proof fn lemma_keep_where_pair<A>(s: Seq<A>, keep: spec_fn(int) -> bool, a: int, b: int)
    requires
        0 <= a < b < keep_where(s, keep).len(),
    ensures
        exists|m1: int, m2: int|
            0 <= m1 < m2 < s.len() && keep(m1) && keep(m2) && keep_where(s, keep)[a] == s[m1]
                && keep_where(s, keep)[b] == s[m2],
    decreases s.len(),
{
    let prev = keep_where(s.drop_last(), keep);
    let r = keep_where(s, keep);
    if keep(s.len() - 1) && b == prev.len() {
        lemma_keep_where_from(s.drop_last(), keep, a);
        let m1 = choose|m: int| 0 <= m < s.drop_last().len() && keep(m) && prev[a] == s.drop_last()[m];
        assert(s.drop_last()[m1] == s[m1]);
        assert(r[a] == prev[a]);
        assert(r[b] == s[s.len() - 1]);
        assert(0 <= m1 < s.len() - 1 < s.len() && keep(m1) && keep(s.len() - 1) && r[a] == s[m1] && r[b] == s[s.len() - 1]);
    } else {
        lemma_keep_where_pair(s.drop_last(), keep, a, b);
        let (m1, m2) = choose|m1: int, m2: int|
            0 <= m1 < m2 < s.drop_last().len() && keep(m1) && keep(m2) && prev[a] == s.drop_last()[m1]
                && prev[b] == s.drop_last()[m2];
        assert(s.drop_last()[m1] == s[m1] && s.drop_last()[m2] == s[m2]);
        assert(r[a] == prev[a] && r[b] == prev[b]);
    }
}

/// Every kept position gives an element kept.
proof fn lemma_keep_where_contains<A>(s: Seq<A>, keep: spec_fn(int) -> bool, m: int)
    requires
        0 <= m < s.len(),
        keep(m),
    ensures
        exists|k: int| 0 <= k < keep_where(s, keep).len() && keep_where(s, keep)[k] == s[m],
    decreases s.len(),
{
    let prev = keep_where(s.drop_last(), keep);
    if m == s.len() - 1 {
        assert(keep_where(s, keep)[prev.len() as int] == s[m]);
    } else {
        lemma_keep_where_contains(s.drop_last(), keep, m);
        let k = choose|k: int| 0 <= k < prev.len() && prev[k] == s.drop_last()[m];
        assert(keep_where(s, keep)[k] == prev[k]);
    }
}

/// No tag that removing redundant tags keeps has all the words of another tag it keeps (so no
/// tag is kept twice).
pub proof fn lemma_non_redundant_incomparable(s: Seq<Seq<char>>)
    ensures
        forall|a: int, b: int|
            0 <= a < b < non_redundant(s).len() ==> !word_subset(#[trigger] non_redundant(s)[a], #[trigger] non_redundant(s)[b])
                && !word_subset(non_redundant(s)[b], non_redundant(s)[a]),
{
    let r = non_redundant(s);
    assert forall|a: int, b: int| 0 <= a < b < r.len() implies !word_subset(#[trigger] r[a], #[trigger] r[b])
        && !word_subset(r[b], r[a]) by {
        lemma_keep_where_pair(s, not_redundant_at(s), a, b);
        let (m1, m2) = choose|m1: int, m2: int|
            0 <= m1 < m2 < s.len() && not_redundant_at(s)(m1) && not_redundant_at(s)(m2) && r[a] == s[m1] && r[b] == s[m2];
        if word_subset(s[m1], s[m2]) {
            assert(redundant_at(s, m1));
        }
        if word_subset(s[m2], s[m1]) {
            assert(redundant_at(s, m2));
        }
    }
}

/// Removing redundant tags loses no word: every tag has all its words in a tag that is kept.
pub proof fn lemma_non_redundant_covers(s: Seq<Seq<char>>, i: int)
    requires
        0 <= i < s.len(),
    ensures
        exists|k: int| 0 <= k < non_redundant(s).len() && word_subset(s[i], #[trigger] non_redundant(s)[k]),
{
    lemma_non_redundant_above(s, i);
    let m = choose|m: int| 0 <= m < s.len() && !redundant_at(s, m) && word_subset(s[i], s[m]);
    lemma_keep_where_contains(s, not_redundant_at(s), m);
    let k = choose|k: int| 0 <= k < non_redundant(s).len() && non_redundant(s)[k] == s[m];
    assert(word_subset(s[i], non_redundant(s)[k]));
}

/// Removes every redundant tag (see [`redundant_at`]): a tag is dropped when another tag has all
/// of its words, so that among tags with the same words only the last one stays.
///
/// `["a b", "b a"]` becomes `["b a"]`; `["s no ne", "ne s no", "ne", "no"]` becomes `["ne s no"]`.
pub fn remove_redundant_tags(tags: &mut Vec<String>)
    ensures
        views(final(tags)@) == non_redundant(views(old(tags)@)),
{
    let ghost s = views(tags@);
    let n = tags.len();
    let mut keep: Vec<bool> = Vec::new();
    let mut k: usize = 0;
    while k < n
        invariant
            k <= n,
            keep@.len() == k,
            forall|m: int| 0 <= m < k ==> keep@[m],
        decreases n - k,
    {
        keep.push(true);
        k += 1;
    }
    let mut i: usize = 0;
    while i < n
        invariant
            n == s.len(),
            s == views(tags@),
            keep@.len() == n,
            i <= n,
            forall|m: int| 0 <= m < i ==> keep@[m] == !redundant_at(s, m),
            forall|m: int| 0 <= m < n && !redundant_at(s, m) ==> keep@[m],
            forall|mx: int, j: int|
                0 <= mx < i && i <= j < n && !redundant_at(s, mx) && #[trigger] word_subset(s[j], s[mx])
                    && !word_subset(s[mx], s[j]) ==> !keep@[j],
        decreases n - i,
    {
        if keep[i] {
            let mut j = i + 1;
            let mut removed = false;
            while j < n
                invariant
                    n == s.len(),
                    s == views(tags@),
                    keep@.len() == n,
                    i < n,
                    i + 1 <= j <= n,
                    !removed ==> keep@[i as int],
                    removed ==> !keep@[i as int] && redundant_at(s, i as int),
                    forall|m: int| 0 <= m < i ==> keep@[m] == !redundant_at(s, m),
                    forall|m: int| 0 <= m < n && !redundant_at(s, m) ==> keep@[m],
                    forall|mx: int, jj: int|
                        0 <= mx < i && i <= jj < n && !redundant_at(s, mx) && #[trigger] word_subset(s[jj], s[mx])
                            && !word_subset(s[mx], s[jj]) ==> !keep@[jj],
                    !removed ==> forall|jj: int| i < jj < j && keep@[jj] ==> !#[trigger] word_subset(s[i as int], s[jj]),
                    !removed ==> forall|jj: int|
                        i < jj < j && #[trigger] word_subset(s[jj], s[i as int]) && !word_subset(s[i as int], s[jj])
                            ==> !keep@[jj],
                ensures
                    n == s.len(),
                    s == views(tags@),
                    keep@.len() == n,
                    !removed ==> keep@[i as int] && j == n,
                    removed ==> !keep@[i as int] && redundant_at(s, i as int),
                    forall|m: int| 0 <= m < i ==> keep@[m] == !redundant_at(s, m),
                    forall|m: int| 0 <= m < n && !redundant_at(s, m) ==> keep@[m],
                    forall|mx: int, jj: int|
                        0 <= mx < i && i <= jj < n && !redundant_at(s, mx) && #[trigger] word_subset(s[jj], s[mx])
                            && !word_subset(s[mx], s[jj]) ==> !keep@[jj],
                    !removed ==> forall|jj: int| i < jj < n && keep@[jj] ==> !#[trigger] word_subset(s[i as int], s[jj]),
                    !removed ==> forall|jj: int|
                        i < jj < n && #[trigger] word_subset(s[jj], s[i as int]) && !word_subset(s[i as int], s[jj])
                            ==> !keep@[jj],
                decreases n - j,
            {
                if keep[j] {
                    if tags_are_subset(&tags[i], &tags[j]) {
                        assert(redundant_at(s, i as int)) by {
                            assert(word_subset(s[i as int], s[j as int]));
                        }
                        keep.set(i, false);
                        removed = true;
                        break;
                    } else if tags_are_subset(&tags[j], &tags[i]) {
                        assert(redundant_at(s, j as int)) by {
                            assert(word_subset(s[j as int], s[i as int]));
                        }
                        keep.set(j, false);
                    }
                }
                j += 1;
            }
            proof {
                if !removed && redundant_at(s, i as int) {
                    lemma_non_redundant_above(s, i as int);
                    let m = choose|m: int| 0 <= m < s.len() && !redundant_at(s, m) && word_subset(s[i as int], s[m]);
                    assert(m != i);
                    if m > i {
                        assert(keep@[m]);
                        assert(false);
                    } else if word_subset(s[m], s[i as int]) {
                        assert(redundant_at(s, m));
                        assert(false);
                    } else {
                        assert(!keep@[i as int]);
                        assert(false);
                    }
                }
            }
        } else {
            proof {
                if !redundant_at(s, i as int) {
                    assert(keep@[i as int]);
                }
            }
        }
        i += 1;
    }
    let mut out: Vec<String> = Vec::new();
    let mut k: usize = 0;
    assert(s.take(0) =~= Seq::<Seq<char>>::empty());
    while k < n
        invariant
            n == s.len(),
            s == views(tags@),
            keep@.len() == n,
            k <= n,
            forall|m: int| 0 <= m < n ==> keep@[m] == !redundant_at(s, m),
            views(out@) == keep_where(s.take(k as int), not_redundant_at(s)),
        decreases n - k,
    {
        proof { lemma_keep_where_take(s, not_redundant_at(s), k as int); }
        if keep[k] {
            out.push(tags[k].clone());
            assert(views(out@) =~= keep_where(s.take(k as int), not_redundant_at(s)).push(s[k as int]));
        }
        k += 1;
    }
    assert(s.take(n as int) =~= s);
    *tags = out;
}

} // verus!
