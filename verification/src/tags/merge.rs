//! Merging tags that differ in one word of a category: `first-person singular` and
//! `third-person singular` become `singular first/third-person`.
use vstd::prelude::*;
use crate::seqs::{first_index, lemma_first_index, lemma_filter_take};
use crate::text::{chars_of, clone_strings, concat, join, split_on, split_sep, join_sep, str_eq, str_views, string_of_range, views};
use super::TAG_SEP;

verus! {

/// The person tags, in the order merged tags list them.
pub const PERSON_TAGS: [&'static str; 3] = ["first-person", "second-person", "third-person"];

/// The case tags that are merged, in the order merged tags list them.
pub const CASE_TAGS: [&'static str; 8] = [
    "nominative",
    "genitive",
    "dative",
    "accusative",
    "vocative",
    "ablative",
    "locative",
    "partitive",
];

/// The verb form tags that are merged, in the order merged tags list them.
pub const VERB_FORM_TAGS: [&'static str; 11] = [
    "imperative",
    "gerund",
    "imperfective",
    "perfective",
    "active",
    "passive",
    "participle",
    "subjunctive",
    "indicative",
    "hortative",
    "interrogative",
];

/// A word of the category.
pub open spec fn in_category(cats: Seq<Seq<char>>) -> spec_fn(Seq<char>) -> bool {
    |w: Seq<char>| cats.contains(w)
}

/// A word outside the category.
pub open spec fn not_in_category(cats: Seq<Seq<char>>) -> spec_fn(Seq<char>) -> bool {
    |w: Seq<char>| !cats.contains(w)
}

/// The words of a tag (separated by spaces) that belong to the category.
pub open spec fn category_words(cats: Seq<Seq<char>>, t: Seq<char>) -> Seq<Seq<char>> {
    split_sep(t, ' ').filter(in_category(cats))
}

/// The other words of a tag.
pub open spec fn other_words(cats: Seq<Seq<char>>, t: Seq<char>) -> Seq<Seq<char>> {
    split_sep(t, ' ').filter(not_in_category(cats))
}

/// A tag that is not merged: it has no word of the category, or more than one.
pub open spec fn not_mergeable(cats: Seq<Seq<char>>) -> spec_fn(Seq<char>) -> bool {
    |t: Seq<char>| category_words(cats, t).len() != 1
}

/// A group of tags to merge: their other words, and their words of the category in order.
pub type TagGroup = (Seq<Seq<char>>, Seq<Seq<char>>);

/// The group with these other words.
pub open spec fn group_with_key(key: Seq<Seq<char>>) -> spec_fn(TagGroup) -> bool {
    |g: TagGroup| g.0 == key
}

/// The tags with exactly one word of the category, grouped by their other words; the groups in
/// the order of their first tag.
pub open spec fn grouped(cats: Seq<Seq<char>>, tags: Seq<Seq<char>>) -> Seq<TagGroup>
    decreases tags.len(),
{
    if tags.len() == 0 {
        Seq::<TagGroup>::empty()
    } else {
        let prev = grouped(cats, tags.drop_last());
        let t = tags.last();
        if category_words(cats, t).len() == 1 {
            let key = other_words(cats, t);
            let w = category_words(cats, t)[0];
            let k = first_index(prev, group_with_key(key));
            if k < prev.len() {
                prev.update(k, (key, prev[k].1.push(w)))
            } else {
                prev.push((key, seq![w]))
            }
        } else {
            prev
        }
    }
}

/// A word equal to `c`.
pub open spec fn equals(c: Seq<char>) -> spec_fn(Seq<char>) -> bool {
    |w: Seq<char>| w == c
}

/// The words of `ms` in the order of the category (each as often as it occurs).
pub open spec fn category_sorted(cats: Seq<Seq<char>>, ms: Seq<Seq<char>>) -> Seq<Seq<char>>
    decreases cats.len(),
{
    if cats.len() == 0 {
        Seq::<Seq<char>>::empty()
    } else {
        category_sorted(cats.drop_last(), ms) + ms.filter(equals(cats.last()))
    }
}

/// A person tag without its `-person` ending.
pub open spec fn person_stem() -> spec_fn(Seq<char>) -> Seq<char> {
    |w: Seq<char>| w.take(w.len() - 7)
}

/// The merged word of a group of the category: its words in order, separated by `/`; person
/// tags share one `-person` ending (`first/third-person`).
pub open spec fn merged_word(cats: Seq<Seq<char>>, person: bool, ms: Seq<Seq<char>>) -> Seq<char> {
    if person {
        join_sep(category_sorted(cats, ms).map_values(person_stem()), TAG_SEP@) + "-person"@
    } else {
        join_sep(category_sorted(cats, ms), TAG_SEP@)
    }
}

/// The tag of a group: its other words, then the merged word, separated by spaces.
pub open spec fn group_tag(cats: Seq<Seq<char>>, person: bool) -> spec_fn(TagGroup) -> Seq<char> {
    |g: TagGroup| join_sep(g.0.push(merged_word(cats, person, g.1)), " "@)
}

/// The tags after merging: those not merged, in order, then one tag per group.
pub open spec fn merged_tags(cats: Seq<Seq<char>>, person: bool, tags: Seq<Seq<char>>) -> Seq<Seq<char>> {
    tags.filter(not_mergeable(cats)) + grouped(cats, tags).map_values(group_tag(cats, person))
}

/// Tags that differ only in their word of the category go to one group: the groups have
/// distinct other words, and every tag with one word of the category has the group of its
/// other words.
pub proof fn lemma_grouped_keys(cats: Seq<Seq<char>>, tags: Seq<Seq<char>>)
    ensures
        forall|i: int, j: int|
            0 <= i < j < grouped(cats, tags).len() ==> #[trigger] grouped(cats, tags)[i].0 != #[trigger] grouped(cats, tags)[j].0,
        forall|t: int|
            0 <= t < tags.len() && category_words(cats, #[trigger] tags[t]).len() == 1 ==> exists|g: int|
                0 <= g < grouped(cats, tags).len() && #[trigger] grouped(cats, tags)[g].0 == other_words(cats, tags[t]),
    decreases tags.len(),
{
    if tags.len() > 0 {
        let prev = grouped(cats, tags.drop_last());
        let cur = grouped(cats, tags);
        let last = tags.last();
        lemma_grouped_keys(cats, tags.drop_last());
        if category_words(cats, last).len() == 1 {
            let key = other_words(cats, last);
            crate::seqs::lemma_first_index_spec(prev, group_with_key(key));
            let k = first_index(prev, group_with_key(key));
            if k < prev.len() {
                assert(forall|i: int| 0 <= i < prev.len() ==> #[trigger] cur[i].0 == prev[i].0);
            } else {
                assert(forall|i: int| 0 <= i < prev.len() ==> #[trigger] cur[i].0 == prev[i].0);
                assert(cur[prev.len() as int].0 == key);
                assert forall|i: int, j: int| 0 <= i < j < cur.len() implies #[trigger] cur[i].0 != #[trigger] cur[j].0 by {
                    if j == prev.len() {
                        assert(!group_with_key(key)(prev[i]));
                    }
                }
            }
            assert forall|t: int| 0 <= t < tags.len() && category_words(cats, #[trigger] tags[t]).len() == 1 implies exists|g: int|
                0 <= g < cur.len() && #[trigger] cur[g].0 == other_words(cats, tags[t]) by {
                if t < tags.len() - 1 {
                    assert(tags[t] == tags.drop_last()[t]);
                    let g = choose|g: int| 0 <= g < prev.len() && #[trigger] prev[g].0 == other_words(cats, tags.drop_last()[t]);
                    assert(cur[g].0 == prev[g].0);
                } else if k < prev.len() {
                    assert(cur[k].0 == key);
                } else {
                    assert(cur[prev.len() as int].0 == key);
                }
            }
        } else {
            assert forall|t: int| 0 <= t < tags.len() && category_words(cats, #[trigger] tags[t]).len() == 1 implies exists|g: int|
                0 <= g < cur.len() && #[trigger] cur[g].0 == other_words(cats, tags[t]) by {
                assert(t < tags.len() - 1);
                assert(tags[t] == tags.drop_last()[t]);
            }
        }
    }
}

/// Whether two lists of strings are equal.
fn strings_eq(a: &Vec<String>, b: &Vec<String>) -> (r: bool)
    ensures
        r == (views(a@) == views(b@)),
{
    if a.len() != b.len() {
        return false;
    }
    let mut i: usize = 0;
    while i < a.len()
        invariant
            a@.len() == b@.len(),
            i <= a@.len(),
            forall|j: int| 0 <= j < i ==> a@[j]@ == b@[j]@,
        decreases a@.len() - i,
    {
        if !str_eq(a[i].as_str(), b[i].as_str()) {
            assert(views(a@)[i as int] != views(b@)[i as int]);
            return false;
        }
        i += 1;
    }
    assert(views(a@) =~= views(b@));
    true
}

/// The words of `words` in and out of the category.
fn split_by_category(words: &Vec<String>, cats: &[&str]) -> (r: (Vec<String>, Vec<String>))
    ensures
        views(r.0@) == views(words@).filter(in_category(str_views(cats@))),
        views(r.1@) == views(words@).filter(not_in_category(str_views(cats@))),
{
    let ghost ws = views(words@);
    let ghost c = str_views(cats@);
    let mut ins: Vec<String> = Vec::new();
    let mut outs: Vec<String> = Vec::new();
    let mut i: usize = 0;
    assert(ws.take(0).filter(in_category(c)) =~= Seq::<Seq<char>>::empty());
    assert(ws.take(0).filter(not_in_category(c)) =~= Seq::<Seq<char>>::empty());
    while i < words.len()
        invariant
            ws == views(words@),
            c == str_views(cats@),
            i <= words@.len(),
            views(ins@) == ws.take(i as int).filter(in_category(c)),
            views(outs@) == ws.take(i as int).filter(not_in_category(c)),
        decreases words@.len() - i,
    {
        proof {
            lemma_filter_take(ws, in_category(c), i as int);
            lemma_filter_take(ws, not_in_category(c), i as int);
        }
        let w = words[i].as_str();
        if crate::text::str_in(cats, w) {
            let ghost before = views(ins@);
            ins.push(crate::text::owned(w));
            assert(views(ins@) =~= before.push(w@));
        } else {
            let ghost before = views(outs@);
            outs.push(crate::text::owned(w));
            assert(views(outs@) =~= before.push(w@));
        }
        i += 1;
    }
    assert(ws.take(words@.len() as int) =~= ws);
    (ins, outs)
}

/// The tags not merged, and the groups (see [`grouped`]).
fn group_tags(tags: &Vec<String>, cats: &[&str]) -> (r: (Vec<String>, Vec<Vec<String>>, Vec<Vec<String>>))
    ensures
        views(r.0@) == views(tags@).filter(not_mergeable(str_views(cats@))),
        r.1@.len() == grouped(str_views(cats@), views(tags@)).len(),
        r.2@.len() == r.1@.len(),
        forall|k: int| 0 <= k < r.1@.len() ==> (views(#[trigger] r.1@[k]@), views(r.2@[k]@)) == grouped(
            str_views(cats@),
            views(tags@),
        )[k],
{
    let ghost c = str_views(cats@);
    let ghost ts = views(tags@);
    let mut kept: Vec<String> = Vec::new();
    let mut keys: Vec<Vec<String>> = Vec::new();
    let mut vals: Vec<Vec<String>> = Vec::new();
    let mut i: usize = 0;
    assert(ts.take(0).filter(not_mergeable(c)) =~= Seq::<Seq<char>>::empty());
    while i < tags.len()
        invariant
            c == str_views(cats@),
            ts == views(tags@),
            i <= tags@.len(),
            views(kept@) == ts.take(i as int).filter(not_mergeable(c)),
            keys@.len() == grouped(c, ts.take(i as int)).len(),
            vals@.len() == keys@.len(),
            forall|k: int| 0 <= k < keys@.len() ==> (views(#[trigger] keys@[k]@), views(vals@[k]@)) == grouped(
                c,
                ts.take(i as int),
            )[k],
        decreases tags@.len() - i,
    {
        let t = tags[i].as_str();
        proof {
            lemma_filter_take(ts, not_mergeable(c), i as int);
            assert(ts.take(i + 1).drop_last() =~= ts.take(i as int));
            assert(ts.take(i + 1).last() == t@);
        }
        let ghost prev = grouped(c, ts.take(i as int));
        let words = split_on(t, ' ');
        let (ins, outs) = split_by_category(&words, cats);
        if ins.len() == 1 {
            let mut k: usize = 0;
            while k < keys.len() && !strings_eq(&keys[k], &outs)
                invariant
                    k <= keys@.len(),
                    vals@.len() == keys@.len(),
                    prev.len() == keys@.len(),
                    forall|j: int| 0 <= j < keys@.len() ==> (views(#[trigger] keys@[j]@), views(vals@[j]@)) == prev[j],
                    forall|j: int| 0 <= j < k ==> !group_with_key(views(outs@))(#[trigger] prev[j]),
                decreases keys@.len() - k,
            {
                k += 1;
            }
            proof { lemma_first_index(prev, group_with_key(views(outs@)), k as int); }
            let w = crate::text::owned(ins[0].as_str());
            if k < keys.len() {
                let mut v = clone_strings(&vals[k]);
                v.push(w);
                let ghost before = vals@;
                vals.set(k, v);
                assert forall|j: int| 0 <= j < keys@.len() implies (views(#[trigger] keys@[j]@), views(vals@[j]@))
                    == grouped(c, ts.take(i + 1))[j] by {
                    if j == k {
                        assert(views(vals@[j]@) =~= views(before[j]@).push(w@));
                    }
                }
            } else {
                let mut one: Vec<String> = Vec::new();
                one.push(w);
                keys.push(outs);
                vals.push(one);
                assert forall|j: int| 0 <= j < keys@.len() implies (views(#[trigger] keys@[j]@), views(vals@[j]@))
                    == grouped(c, ts.take(i + 1))[j] by {
                    if j == k {
                        assert(views(vals@[j]@) =~= seq![w@]);
                    }
                }
            }
        } else {
            let ghost before = views(kept@);
            kept.push(crate::text::owned(t));
            assert(views(kept@) =~= before.push(t@));
        }
        i += 1;
    }
    assert(ts.take(tags@.len() as int) =~= ts);
    (kept, keys, vals)
}

/// The words of `ms` in the order of the category (see [`category_sorted`]).
fn sort_by_category(ms: &Vec<String>, cats: &[&str]) -> (r: Vec<String>)
    ensures
        views(r@) == category_sorted(str_views(cats@), views(ms@)),
{
    let ghost c = str_views(cats@);
    let ghost m = views(ms@);
    let mut r: Vec<String> = Vec::new();
    let mut j: usize = 0;
    assert(c.take(0) =~= Seq::<Seq<char>>::empty());
    while j < cats.len()
        invariant
            c == str_views(cats@),
            m == views(ms@),
            j <= cats@.len(),
            views(r@) == category_sorted(c.take(j as int), m),
        decreases cats@.len() - j,
    {
        let cat = cats[j];
        assert(c.take(j + 1).drop_last() =~= c.take(j as int));
        assert(c.take(j + 1).last() == cat@);
        let ghost base = views(r@);
        let mut k: usize = 0;
        assert(m.take(0).filter(equals(cat@)) =~= Seq::<Seq<char>>::empty());
        while k < ms.len()
            invariant
                m == views(ms@),
                k <= ms@.len(),
                views(r@) == base + m.take(k as int).filter(equals(cat@)),
            decreases ms@.len() - k,
        {
            proof { lemma_filter_take(m, equals(cat@), k as int); }
            if str_eq(ms[k].as_str(), cat) {
                let ghost before = views(r@);
                r.push(crate::text::owned(cat));
                assert(views(r@) =~= before.push(m[k as int]));
            }
            k += 1;
        }
        assert(m.take(ms@.len() as int) =~= m);
        j += 1;
    }
    assert(c.take(cats@.len() as int) =~= c);
    r
}

/// The person words without their `-person` ending.
fn person_stems(ms: &Vec<String>) -> (r: Vec<String>)
    requires
        forall|i: int| 0 <= i < ms@.len() ==> (#[trigger] ms@[i])@.len() >= 7,
    ensures
        views(r@) == views(ms@).map_values(person_stem()),
{
    let mut r: Vec<String> = Vec::new();
    let mut i: usize = 0;
    while i < ms.len()
        invariant
            i <= ms@.len(),
            forall|j: int| 0 <= j < ms@.len() ==> (#[trigger] ms@[j])@.len() >= 7,
            views(r@) == views(ms@).take(i as int).map_values(person_stem()),
        decreases ms@.len() - i,
    {
        let cs = chars_of(ms[i].as_str());
        assert(cs@.len() >= 7);
        let stem = string_of_range(&cs, 0, cs.len() - 7);
        let ghost before = views(r@);
        r.push(stem);
        assert(stem@ =~= person_stem()(ms@[i as int]@));
        assert(views(r@) =~= before.push(person_stem()(ms@[i as int]@)));
        assert(views(ms@).take(i + 1).map_values(person_stem()) =~= views(ms@).take(i as int).map_values(
            person_stem(),
        ).push(person_stem()(views(ms@)[i as int])));
        i += 1;
    }
    assert(views(ms@).take(ms@.len() as int) =~= views(ms@));
    r
}

/// Merges the tags of `tags` that differ in one word of the category (see [`merged_tags`]).
fn merge_by_category(tags: &mut Vec<String>, cats: &[&str], person: bool)
    requires
        person ==> forall|i: int| 0 <= i < cats@.len() ==> (#[trigger] cats@[i])@.len() >= 7,
    ensures
        views(final(tags)@) == merged_tags(str_views(cats@), person, views(old(tags)@)),
{
    let ghost c = str_views(cats@);
    let ghost ts = views(tags@);
    let (kept, keys, vals) = group_tags(tags, cats);
    let ghost gs = grouped(c, ts);
    let mut r = kept;
    let ghost base = views(r@);
    let mut k: usize = 0;
    while k < keys.len()
        invariant
            c == str_views(cats@),
            person ==> forall|i: int| 0 <= i < cats@.len() ==> (#[trigger] cats@[i])@.len() >= 7,
            gs == grouped(c, ts),
            keys@.len() == gs.len(),
            vals@.len() == keys@.len(),
            forall|j: int| 0 <= j < keys@.len() ==> (views(#[trigger] keys@[j]@), views(vals@[j]@)) == gs[j],
            k <= keys@.len(),
            views(r@) == base + gs.take(k as int).map_values(group_tag(c, person)),
        decreases keys@.len() - k,
    {
        assert((views(keys@[k as int]@), views(vals@[k as int]@)) == gs[k as int]);
        let sorted = sort_by_category(&vals[k], cats);
        let merged = if person {
            proof {
                assert forall|i: int| 0 <= i < sorted@.len() implies (#[trigger] sorted@[i])@.len() >= 7 by {
                    lemma_category_sorted_members(c, views(vals@[k as int]@), i);
                    let j = choose|j: int| 0 <= j < c.len() && c[j] == views(sorted@)[i];
                    assert(cats@[j]@.len() >= 7);
                }
            }
            let stems = person_stems(&sorted);
            let m = concat(join(&stems, TAG_SEP).as_str(), "-person");
            assert(m@ == join_sep(views(sorted@).map_values(person_stem()), TAG_SEP@) + "-person"@);
            m
        } else {
            join(&sorted, TAG_SEP)
        };
        assert((views(keys@[k as int]@), views(vals@[k as int]@)) == gs[k as int]);
        assert(merged@ == merged_word(c, person, gs[k as int].1));
        let mut parts = clone_strings(&keys[k]);
        parts.push(merged);
        assert(views(parts@) =~= gs[k as int].0.push(merged_word(c, person, gs[k as int].1)));
        let t = join(&parts, " ");
        let ghost before = views(r@);
        r.push(t);
        assert(views(r@) =~= before.push(group_tag(c, person)(gs[k as int])));
        assert(gs.take(k + 1).map_values(group_tag(c, person)) =~= gs.take(k as int).map_values(
            group_tag(c, person),
        ).push(group_tag(c, person)(gs[k as int])));
        k += 1;
    }
    assert(gs.take(keys@.len() as int) =~= gs);
    *tags = r;
}

/// Every word of [`category_sorted`] is a word of the category.
proof fn lemma_category_sorted_members(cats: Seq<Seq<char>>, ms: Seq<Seq<char>>, i: int)
    requires
        0 <= i < category_sorted(cats, ms).len(),
    ensures
        exists|j: int| 0 <= j < cats.len() && cats[j] == category_sorted(cats, ms)[i],
    decreases cats.len(),
{
    if cats.len() > 0 {
        let prev = category_sorted(cats.drop_last(), ms);
        if i < prev.len() {
            lemma_category_sorted_members(cats.drop_last(), ms, i);
            let j = choose|j: int| 0 <= j < cats.drop_last().len() && cats.drop_last()[j] == prev[i];
            assert(cats[j] == cats.drop_last()[j]);
        } else {
            let f = ms.filter(equals(cats.last()));
            assert(category_sorted(cats, ms)[i] == f[i - prev.len()]);
            ms.lemma_filter_pred(equals(cats.last()), i - prev.len());
            assert(cats[cats.len() - 1] == cats.last());
        }
    }
}

/// Merges tags that differ only in the person: `first-person singular` and `third-person
/// singular` become `singular first/third-person` (see [`merged_tags`]). The merged tags come
/// after the others.
pub fn merge_person_tags(tags: &mut Vec<String>)
    ensures
        views(final(tags)@) == merged_tags(str_views(PERSON_TAGS@), true, views(old(tags)@)),
{
    proof {
        reveal_strlit("first-person");
        reveal_strlit("second-person");
        reveal_strlit("third-person");
    }
    assert(forall|i: int| 0 <= i < PERSON_TAGS@.len() ==> (#[trigger] PERSON_TAGS@[i])@.len() >= 7);
    merge_by_category(tags, &PERSON_TAGS, true);
}

/// Merges tags that differ only in the case: `nominative plural` and `accusative plural`
/// become `plural nominative/accusative` (see [`merged_tags`]).
pub fn merge_case_tags(tags: &mut Vec<String>)
    ensures
        views(final(tags)@) == merged_tags(str_views(CASE_TAGS@), false, views(old(tags)@)),
{
    merge_by_category(tags, &CASE_TAGS, false);
}

/// Merges tags that differ only in the verb form (see [`merged_tags`]).
pub fn merge_verb_form_tags(tags: &mut Vec<String>)
    ensures
        views(final(tags)@) == merged_tags(str_views(VERB_FORM_TAGS@), false, views(old(tags)@)),
{
    merge_by_category(tags, &VERB_FORM_TAGS, false);
}

} // verus!
