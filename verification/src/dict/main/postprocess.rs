//! Tidying the forms once every entry has been read: redundant tags dropped, tags that differ
//! in one word merged, the words of each tag and the tags themselves put in order.
use vstd::prelude::*;
use crate::sort::insertion_sorted;
use crate::tags::merge::{
    CASE_TAGS, PERSON_TAGS, VERB_FORM_TAGS, merge_case_tags, merge_person_tags, merge_verb_form_tags, merged_tags,
};
use crate::tags::similar::similar_order;
use crate::tags::{non_redundant, rank_key, remove_redundant_tags, sort_tags, sort_tags_by_similar};
use crate::text::{join_sep, join_strs, split_on, split_sep, str_views, views};
use super::ir::{FormEntryView, FormMap, Tidy, form_map_view};

verus! {

/// A tag with its words (separated by spaces) in the order of the tag order.
pub open spec fn words_sorted(t: Seq<char>) -> Seq<char> {
    join_sep(insertion_sorted(split_sep(t, ' '), rank_key()), " "@)
}

/// [`words_sorted`] as a function.
pub open spec fn words_sorted_fn() -> spec_fn(Seq<char>) -> Seq<char> {
    |t: Seq<char>| words_sorted(t)
}

/// The tags of a form, tidied: redundant tags dropped (see [`non_redundant`]); tags that differ
/// only in the person, then in the case, then in the verb form merged (see [`merged_tags`]);
/// the words of each tag sorted (see [`words_sorted`]); the tags sorted by similarity.
pub open spec fn form_tags_tidied(tags: Seq<Seq<char>>) -> Seq<Seq<char>> {
    let by_person = merged_tags(str_views(PERSON_TAGS@), true, non_redundant(tags));
    let by_case = merged_tags(str_views(CASE_TAGS@), false, by_person);
    let by_verb_form = merged_tags(str_views(VERB_FORM_TAGS@), false, by_case);
    by_verb_form.map_values(words_sorted_fn()).sort_by(similar_order())
}

/// A form entry with its tags tidied.
pub open spec fn entry_tidied() -> spec_fn(FormEntryView) -> FormEntryView {
    |e: FormEntryView| (e.0, (e.1.0, form_tags_tidied(e.1.1)))
}

/// A tag with its words sorted (see [`words_sorted`]).
fn sorted_words(t: &str) -> (r: String)
    ensures
        r@ == words_sorted(t@),
{
    let parts = split_on(t, ' ');
    let mut words: Vec<&str> = Vec::new();
    let mut i: usize = 0;
    while i < parts.len()
        invariant
            i <= parts@.len(),
            str_views(words@) == views(parts@).take(i as int),
        decreases parts@.len() - i,
    {
        let ghost before = str_views(words@);
        words.push(parts[i].as_str());
        assert(str_views(words@) =~= before.push(parts@[i as int]@));
        assert(views(parts@).take(i + 1) =~= views(parts@).take(i as int).push(parts@[i as int]@));
        i += 1;
    }
    assert(views(parts@).take(parts@.len() as int) =~= views(parts@));
    sort_tags(&mut words);
    join_strs(&words, " ")
}

/// Tidies the tags of one form (see [`form_tags_tidied`]).
pub fn tidy_form_tags(tags: &mut Vec<String>)
    ensures
        views(final(tags)@) == form_tags_tidied(views(old(tags)@)),
{
    remove_redundant_tags(tags);
    merge_person_tags(tags);
    merge_case_tags(tags);
    merge_verb_form_tags(tags);
    let ghost merged = views(tags@);
    let mut sorted: Vec<String> = Vec::new();
    let mut i: usize = 0;
    while i < tags.len()
        invariant
            merged == views(tags@),
            i <= tags@.len(),
            views(sorted@) == merged.take(i as int).map_values(words_sorted_fn()),
        decreases tags@.len() - i,
    {
        let ghost before = views(sorted@);
        sorted.push(sorted_words(tags[i].as_str()));
        assert(views(sorted@) =~= before.push(words_sorted(merged[i as int])));
        assert(merged.take(i + 1).map_values(words_sorted_fn()) =~= merged.take(i as int).map_values(
            words_sorted_fn(),
        ).push(words_sorted_fn()(merged[i as int])));
        i += 1;
    }
    assert(merged.take(tags@.len() as int) =~= merged);
    sort_tags_by_similar(&mut sorted);
    *tags = sorted;
}

/// Tidies the tags of every form (see [`form_tags_tidied`]); keys and order stay.
pub fn postprocess_forms(form_map: &mut FormMap)
    ensures
        form_map_view(*final(form_map)) == form_map_view(*old(form_map)).map_values(entry_tidied()),
{
    let ghost m0 = form_map_view(*form_map);
    let mut i: usize = 0;
    while i < form_map.0.len()
        invariant
            i <= form_map.0@.len(),
            m0 == form_map_view(*old(form_map)),
            form_map_view(*form_map).len() == m0.len(),
            forall|j: int| 0 <= j < i ==> #[trigger] form_map_view(*form_map)[j] == entry_tidied()(m0[j]),
            forall|j: int| i <= j < m0.len() ==> #[trigger] form_map_view(*form_map)[j] == m0[j],
        decreases form_map.0@.len() - i,
    {
        let ghost before = form_map_view(*form_map);
        tidy_form_tags(&mut form_map.0[i].1.1);
        assert(forall|j: int| 0 <= j < before.len() && j != i ==> #[trigger] form_map_view(*form_map)[j] == before[j]);
        assert(form_map_view(*form_map)[i as int] == entry_tidied()(before[i as int]));
        i += 1;
    }
    assert(form_map_view(*form_map) =~= m0.map_values(entry_tidied()));
}

/// Tidies the intermediate representation once every entry has been read: the forms (see
/// [`postprocess_forms`]); the lemmas stay.
pub fn postprocess_main(irs: &mut Tidy)
    ensures
        form_map_view(final(irs).form_map) == form_map_view(old(irs).form_map).map_values(entry_tidied()),
        final(irs).lemma_map == old(irs).lemma_map,
{
    postprocess_forms(&mut irs.form_map);
}

} // verus!
