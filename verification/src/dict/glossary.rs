//! Glossary dictionaries: the translations of words from one language into another, as the
//! translation tables of an edition give them.
use vstd::prelude::*;
use crate::dict::common::Langs;
use crate::dict::main::ir::{dedup, get_reading, reading_of};
use crate::dict::main::yomitan::push_node;
use crate::lang::{Edition, Lang, lang_iso};
use crate::models::kaikki::{Translation, WordEntry, derefs, non_empty_translation};
use crate::models::yomitan::{
    DefinitionView, DetailedDefinition, NTag, Node, NodeView, TagInfo, TermInfo, definition_view, definition_views,
    node_view, node_views, wrap, wrap_view,
};
use crate::seqs::{first_index, lemma_first_index, lemma_filter_take};
use crate::tags::bank::{bank_entry_info, bank_entry_of, find_short_pos_or_default, find_tag_entry, localized_bank_info_is, short_pos_of};
use crate::tags::localization::localize_tag_info;
use crate::text::{clone_strings, owned, str_eq, string_in, views};

verus! {

/// A translation into the language of `code`.
pub open spec fn in_lang(code: Seq<char>) -> spec_fn(Translation) -> bool {
    |t: Translation| t.lang_code@ == code
}

/// A translation as (sense, word).
pub open spec fn sense_word() -> spec_fn(Translation) -> (Seq<char>, Seq<char>) {
    |t: Translation| (t.sense@, t.word@)
}

/// A group with the key `k`.
pub open spec fn group_key(k: Seq<char>) -> spec_fn((Seq<char>, Seq<Seq<char>>)) -> bool {
    |g: (Seq<char>, Seq<Seq<char>>)| g.0 == k
}

/// The groups with `v` added under the key `k`: at the end of the group of `k`, or in a new
/// group at the end.
pub open spec fn group_insert(gs: Seq<(Seq<char>, Seq<Seq<char>>)>, k: Seq<char>, v: Seq<char>) -> Seq<(Seq<char>, Seq<Seq<char>>)> {
    let i = first_index(gs, group_key(k));
    if i < gs.len() {
        gs.update(i, (k, gs[i].1.push(v)))
    } else {
        gs.push((k, seq![v]))
    }
}

/// Pairs grouped by their key, the groups in the order of their first pair.
pub open spec fn grouped_pairs(ps: Seq<(Seq<char>, Seq<char>)>) -> Seq<(Seq<char>, Seq<Seq<char>>)>
    decreases ps.len(),
{
    if ps.len() == 0 {
        Seq::<(Seq<char>, Seq<Seq<char>>)>::empty()
    } else {
        group_insert(grouped_pairs(ps.drop_last()), ps.last().0, ps.last().1)
    }
}

/// The translations of an entry into the language of `code` (those with a word), grouped by sense.
pub open spec fn translation_groups(e: WordEntry, code: Seq<char>) -> Seq<(Seq<char>, Seq<Seq<char>>)> {
    grouped_pairs(e.translations@.filter(non_empty_translation()).filter(in_lang(code)).map_values(sense_word()))
}

/// A translation as a text definition.
pub open spec fn text_definition() -> spec_fn(Seq<char>) -> DefinitionView {
    |w: Seq<char>| DefinitionView::Text(w)
}

/// A translation as an item of a list.
pub open spec fn list_item() -> spec_fn(Seq<char>) -> NodeView {
    |w: Seq<char>| wrap_view(NTag::Li, ""@, NodeView::Text(w))
}

/// The definitions of a group of translations: without a sense, each translation as a text;
/// with one, the sense followed by the list of translations.
pub open spec fn group_definitions(g: (Seq<char>, Seq<Seq<char>>)) -> Seq<DefinitionView> {
    if g.0.len() == 0 {
        g.1.map_values(text_definition())
    } else {
        seq![
            DefinitionView::Structured(
                wrap_view(
                    NTag::Div,
                    ""@,
                    NodeView::Array(seq![
                        wrap_view(NTag::Span, ""@, NodeView::Text(g.0)),
                        wrap_view(NTag::Ul, ""@, NodeView::Array(g.1.map_values(list_item()))),
                    ]),
                ),
            ),
        ]
    }
}

/// The definitions of all groups, one group after the other.
pub open spec fn all_definitions(gs: Seq<(Seq<char>, Seq<Seq<char>>)>) -> Seq<DefinitionView>
    decreases gs.len(),
{
    if gs.len() == 0 {
        Seq::<DefinitionView>::empty()
    } else {
        all_definitions(gs.drop_last()) + group_definitions(gs.last())
    }
}

/// A (sense, word) pair with the sense `k`.
pub open spec fn pair_sense_is(k: Seq<char>) -> spec_fn((Seq<char>, Seq<char>)) -> bool {
    |p: (Seq<char>, Seq<char>)| p.0 == k
}

/// The word of a (sense, word) pair.
pub open spec fn pair_word() -> spec_fn((Seq<char>, Seq<char>)) -> Seq<char> {
    |p: (Seq<char>, Seq<char>)| p.1
}

proof fn lemma_filter_none<T>(s: Seq<T>, p: spec_fn(T) -> bool)
    requires
        forall|i: int| 0 <= i < s.len() ==> !p(s[i]),
    ensures
        s.filter(p) == Seq::<T>::empty(),
    decreases s.len(),
{
    reveal(Seq::filter);
    if s.len() > 0 {
        lemma_filter_none(s.drop_last(), p);
    }
}

/// Grouping pairs by sense gives each sense one group, holding the words of exactly the pairs
/// with that sense, in order; and every pair's sense has a group.
proof fn lemma_grouped_pairs(ps: Seq<(Seq<char>, Seq<char>)>)
    ensures
        forall|i: int, j: int| 0 <= i < j < grouped_pairs(ps).len() ==> grouped_pairs(ps)[i].0 != grouped_pairs(ps)[j].0,
        forall|i: int| 0 <= i < grouped_pairs(ps).len() ==> (#[trigger] grouped_pairs(ps)[i]).1
            == ps.filter(pair_sense_is(grouped_pairs(ps)[i].0)).map_values(pair_word()),
        forall|k: int| 0 <= k < ps.len() ==> exists|i: int| 0 <= i < grouped_pairs(ps).len() && (#[trigger] grouped_pairs(ps)[i]).0 == (#[trigger] ps[k]).0,
    decreases ps.len(),
{
    if ps.len() > 0 {
        let prev = ps.drop_last();
        let x = ps.last();
        lemma_grouped_pairs(prev);
        let gs = grouped_pairs(prev);
        let r = grouped_pairs(ps);
        assert(ps == prev.push(x));
        let i = first_index(gs, group_key(x.0));
        crate::seqs::lemma_first_index_spec(gs, group_key(x.0));
        assert forall|k: Seq<char>| #[trigger] ps.filter(pair_sense_is(k)) == (if x.0 == k {
            prev.filter(pair_sense_is(k)).push(x)
        } else {
            prev.filter(pair_sense_is(k))
        }) by {
            crate::seqs::lemma_filter_take_push(prev, x, pair_sense_is(k));
        }
        if i < gs.len() {
            assert(r == gs.update(i, (x.0, gs[i].1.push(x.1))));
            assert forall|a: int| 0 <= a < r.len() implies (#[trigger] r[a]).1
                == ps.filter(pair_sense_is(r[a].0)).map_values(pair_word()) by {
                if a == i {
                    assert(prev.filter(pair_sense_is(x.0)).push(x).map_values(pair_word())
                        =~= prev.filter(pair_sense_is(x.0)).map_values(pair_word()).push(x.1));
                } else {
                    assert(r[a] == gs[a]);
                    assert(gs[a].0 != x.0);
                }
            }
            assert forall|k: int| 0 <= k < ps.len() implies exists|a: int| 0 <= a < r.len() && (#[trigger] r[a]).0 == (#[trigger] ps[k]).0 by {
                if k < prev.len() {
                    assert(ps[k] == prev[k]);
                    let a = choose|a: int| 0 <= a < gs.len() && (#[trigger] gs[a]).0 == (#[trigger] prev[k]).0;
                    assert(r[a].0 == gs[a].0);
                } else {
                    assert(r[i].0 == ps[k].0);
                }
            }
        } else {
            assert(r == gs.push((x.0, seq![x.1])));
            assert forall|k: int| 0 <= k < prev.len() implies !pair_sense_is(x.0)(prev[k]) by {
                let a = choose|a: int| 0 <= a < gs.len() && (#[trigger] gs[a]).0 == (#[trigger] prev[k]).0;
                assert(!group_key(x.0)(gs[a]));
            }
            lemma_filter_none(prev, pair_sense_is(x.0));
            assert forall|a: int| 0 <= a < r.len() implies (#[trigger] r[a]).1
                == ps.filter(pair_sense_is(r[a].0)).map_values(pair_word()) by {
                if a == gs.len() {
                    assert(Seq::<(Seq<char>, Seq<char>)>::empty().push(x).map_values(pair_word()) =~= seq![x.1]);
                } else {
                    assert(r[a] == gs[a]);
                    assert(!group_key(x.0)(gs[a]));
                }
            }
            assert forall|a: int, b: int| 0 <= a < b < r.len() implies r[a].0 != r[b].0 by {
                if b == gs.len() {
                    assert(!group_key(x.0)(gs[a]));
                }
            }
            assert forall|k: int| 0 <= k < ps.len() implies exists|a: int| 0 <= a < r.len() && (#[trigger] r[a]).0 == (#[trigger] ps[k]).0 by {
                if k < prev.len() {
                    assert(ps[k] == prev[k]);
                    let a = choose|a: int| 0 <= a < gs.len() && (#[trigger] gs[a]).0 == (#[trigger] prev[k]).0;
                    assert(r[a] == gs[a]);
                } else {
                    assert(r[gs.len() as int].0 == ps[k].0);
                }
            }
        }
    }
}

/// Each group's definitions are among the definitions of all groups.
proof fn lemma_all_definitions_has(gs: Seq<(Seq<char>, Seq<Seq<char>>)>, i: int, j: int)
    requires
        0 <= i < gs.len(),
        0 <= j < group_definitions(gs[i]).len(),
    ensures
        all_definitions(gs).contains(group_definitions(gs[i])[j]),
    decreases gs.len(),
{
    let prev = all_definitions(gs.drop_last());
    let last = group_definitions(gs.last());
    if i < gs.len() - 1 {
        assert(gs.drop_last()[i] == gs[i]);
        lemma_all_definitions_has(gs.drop_last(), i, j);
        let k = choose|k: int| 0 <= k < prev.len() && prev[k] == group_definitions(gs[i])[j];
        assert((prev + last)[k] == prev[k]);
    } else {
        assert((prev + last)[prev.len() + j] == last[j]);
    }
}

/// A structured definition: the sense in a span, then a list of items.
pub open spec fn sense_list(sense: Seq<char>, items: Seq<NodeView>) -> DefinitionView {
    DefinitionView::Structured(
        wrap_view(
            NTag::Div,
            ""@,
            NodeView::Array(seq![
                wrap_view(NTag::Span, ""@, NodeView::Text(sense)),
                wrap_view(NTag::Ul, ""@, NodeView::Array(items)),
            ]),
        ),
    )
}

/// Every translation of an entry into the target language with a word and a sense is listed
/// under that sense: among the glossary definitions is one that shows the sense followed by a
/// list holding the translation's word, and that list has one item for each translation of
/// the sense, none lost.
pub proof fn lemma_glossary_lists_every_translation(e: WordEntry, code: Seq<char>, k: int)
    requires
        0 <= k < e.translations@.filter(non_empty_translation()).filter(in_lang(code)).map_values(sense_word()).len(),
        e.translations@.filter(non_empty_translation()).filter(in_lang(code)).map_values(sense_word())[k].0.len() > 0,
    ensures
        ({
            let ps = e.translations@.filter(non_empty_translation()).filter(in_lang(code)).map_values(sense_word());
            let (sense, word) = ps[k];
            exists|items: Seq<NodeView>|
                #[trigger] all_definitions(translation_groups(e, code)).contains(sense_list(sense, items))
                && items.len() == ps.filter(|p: (Seq<char>, Seq<char>)| p.0 == sense).len()
                && items.contains(wrap_view(NTag::Li, ""@, NodeView::Text(word)))
        }),
{
    let ps = e.translations@.filter(non_empty_translation()).filter(in_lang(code)).map_values(sense_word());
    let (sense, word) = ps[k];
    let gs = grouped_pairs(ps);
    lemma_grouped_pairs(ps);
    let i = choose|i: int| 0 <= i < gs.len() && (#[trigger] gs[i]).0 == (#[trigger] ps[k]).0;
    let words = gs[i].1;
    assert(words == ps.filter(pair_sense_is(sense)).map_values(pair_word()));
    assert(pair_sense_is(sense) == (|p: (Seq<char>, Seq<char>)| p.0 == sense));
    let items = words.map_values(list_item());
    lemma_all_definitions_has(gs, i, 0);
    assert(group_definitions(gs[i])[0] == sense_list(sense, items));
    ps.lemma_filter_contains(pair_sense_is(sense), k);
    let f = ps.filter(pair_sense_is(sense));
    let m = choose|m: int| 0 <= m < f.len() && f[m] == ps[k];
    assert(items[m] == list_item()(words[m]));
    assert(words[m] == word);
    assert(items.contains(wrap_view(NTag::Li, ""@, NodeView::Text(word))));
    assert(translation_groups(e, code) == gs);
    assert(all_definitions(translation_groups(e, code)).contains(sense_list(sense, items)));
    assert(f =~= ps.filter(|p: (Seq<char>, Seq<char>)| p.0 == sense));
    assert(items.len() == ps.filter(|p: (Seq<char>, Seq<char>)| p.0 == sense).len());
}

/// The definition tags of a part of speech: its bank tag, localized in `target`, if the bank
/// lists it.
pub open spec fn pos_tags_are(tags: Seq<TagInfo>, pos: Seq<char>, target: Lang) -> bool {
    match bank_entry_of(pos) {
        Some(e) => tags.len() == 1 && localized_bank_info_is(tags[0], e, target),
        None => tags.len() == 0,
    }
}

/// The reading of a glossary term: the one the entry gives (read as if `target` were the
/// language of the entry), else none.
pub open spec fn glossary_reading(edition: Edition, target: Lang, e: WordEntry) -> Seq<char> {
    match reading_of(edition, target, e) {
        Some(r) => r,
        None => Seq::<char>::empty(),
    }
}

/// `t` is the glossary term of the entry: its word and reading, the tag of its part of speech,
/// the short part of speech as rule, and the definitions of its translations into `target`.
pub open spec fn glossary_term_is(t: TermInfo, edition: Edition, target: Lang, e: WordEntry) -> bool {
    &&& t.term@ == e.word@
    &&& t.reading@ == glossary_reading(edition, target, e)
    &&& pos_tags_are(t.definition_tags@, e.pos@, target)
    &&& t.rules@ == short_pos_of(e.pos@)
    &&& definition_views(t.definitions@) == all_definitions(translation_groups(e, lang_iso(target)))
}

/// The definition tags of a part of speech (see [`pos_tags_are`]).
pub fn pos_tags(pos: &str, target: Lang) -> (r: Vec<TagInfo>)
    ensures
        pos_tags_are(r@, pos@, target),
{
    let mut r: Vec<TagInfo> = Vec::new();
    match find_tag_entry(pos) {
        Some(e) => {
            let mut info = bank_entry_info(e);
            localize_tag_info(target, &mut info);
            r.push(info);
        },
        None => {},
    }
    r
}

/// Adds `v` under the key `k` (see [`group_insert`]).
fn group_push(keys: &mut Vec<String>, vals: &mut Vec<Vec<String>>, k: &str, v: &str, Ghost(gs): Ghost<Seq<(Seq<char>, Seq<Seq<char>>)>>)
    requires
        old(keys)@.len() == gs.len(),
        old(vals)@.len() == gs.len(),
        forall|j: int| 0 <= j < gs.len() ==> (#[trigger] old(keys)@[j]@, views(old(vals)@[j]@)) == gs[j],
    ensures
        final(keys)@.len() == group_insert(gs, k@, v@).len(),
        final(vals)@.len() == final(keys)@.len(),
        forall|j: int| 0 <= j < final(keys)@.len() ==> (#[trigger] final(keys)@[j]@, views(final(vals)@[j]@))
            == group_insert(gs, k@, v@)[j],
{
    let mut i: usize = 0;
    while i < keys.len() && !str_eq(keys[i].as_str(), k)
        invariant
            i <= keys@.len(),
            keys@.len() == gs.len(),
            vals@.len() == gs.len(),
            forall|j: int| 0 <= j < gs.len() ==> (#[trigger] keys@[j]@, views(vals@[j]@)) == gs[j],
            forall|j: int| 0 <= j < i ==> !group_key(k@)(#[trigger] gs[j]),
        decreases keys@.len() - i,
    {
        i += 1;
    }
    proof { lemma_first_index(gs, group_key(k@), i as int); }
    if i < keys.len() {
        let mut w = clone_strings(&vals[i]);
        w.push(owned(v));
        let ghost before = vals@;
        vals.set(i, w);
        assert forall|j: int| 0 <= j < keys@.len() implies (#[trigger] keys@[j]@, views(vals@[j]@)) == group_insert(
            gs,
            k@,
            v@,
        )[j] by {
            if j == i {
                assert(views(vals@[j]@) =~= views(before[j]@).push(v@));
            }
        }
    } else {
        let mut w: Vec<String> = Vec::new();
        w.push(owned(v));
        keys.push(owned(k));
        vals.push(w);
        assert forall|j: int| 0 <= j < keys@.len() implies (#[trigger] keys@[j]@, views(vals@[j]@)) == group_insert(
            gs,
            k@,
            v@,
        )[j] by {
            if j == i {
                assert(views(vals@[j]@) =~= seq![v@]);
            }
        }
    }
}

/// The translations of an entry into `code`, grouped by sense (see [`translation_groups`]).
fn group_translations(entry: &WordEntry, code: &str) -> (r: (Vec<String>, Vec<Vec<String>>))
    ensures
        r.0@.len() == translation_groups(*entry, code@).len(),
        r.1@.len() == r.0@.len(),
        forall|j: int| 0 <= j < r.0@.len() ==> (#[trigger] r.0@[j]@, views(r.1@[j]@)) == translation_groups(*entry, code@)[j],
{
    let ts = entry.non_trivial_translations();
    let ghost f = derefs(ts@);
    let ghost p = in_lang(code@);
    let mut keys: Vec<String> = Vec::new();
    let mut vals: Vec<Vec<String>> = Vec::new();
    let mut i: usize = 0;
    assert(f.take(0).filter(p).map_values(sense_word()) =~= Seq::<(Seq<char>, Seq<char>)>::empty());
    while i < ts.len()
        invariant
            f == derefs(ts@),
            f == entry.translations@.filter(non_empty_translation()),
            p == in_lang(code@),
            i <= ts@.len(),
            keys@.len() == grouped_pairs(f.take(i as int).filter(p).map_values(sense_word())).len(),
            vals@.len() == keys@.len(),
            forall|j: int| 0 <= j < keys@.len() ==> (#[trigger] keys@[j]@, views(vals@[j]@)) == grouped_pairs(
                f.take(i as int).filter(p).map_values(sense_word()),
            )[j],
        decreases ts@.len() - i,
    {
        let t = ts[i];
        assert(*t == f[i as int]);
        proof { lemma_filter_take(f, p, i as int); }
        let ghost prev = f.take(i as int).filter(p).map_values(sense_word());
        if str_eq(t.lang_code.as_str(), code) {
            assert(f.take(i + 1).filter(p).map_values(sense_word()) =~= prev.push((t.sense@, t.word@)));
            assert(prev.push((t.sense@, t.word@)).drop_last() =~= prev);
            group_push(&mut keys, &mut vals, t.sense.as_str(), t.word.as_str(), Ghost(grouped_pairs(prev)));
        } else {
            assert(f.take(i + 1).filter(p) == f.take(i as int).filter(p));
        }
        i += 1;
    }
    assert(f.take(ts@.len() as int) =~= f);
    (keys, vals)
}

/// The definitions of one group of translations (see [`group_definitions`]).
fn push_group_definitions(defs: &mut Vec<DetailedDefinition>, sense: &String, words: &Vec<String>)
    ensures
        definition_views(final(defs)@) == definition_views(old(defs)@) + group_definitions((sense@, views(words@))),
{
    let ghost d0 = definition_views(defs@);
    if sense.as_str().is_empty() {
        let mut k: usize = 0;
        while k < words.len()
            invariant
                k <= words@.len(),
                definition_views(defs@) == d0 + views(words@).take(k as int).map_values(text_definition()),
            decreases words@.len() - k,
        {
            let ghost before = defs@;
            defs.push(DetailedDefinition::Text(owned(words[k].as_str())));
            assert(definition_views(defs@) =~= definition_views(before).push(DefinitionView::Text(words@[k as int]@)));
            assert(views(words@).take(k + 1).map_values(text_definition()) =~= views(words@).take(k as int).map_values(
                text_definition(),
            ).push(text_definition()(views(words@)[k as int])));
            k += 1;
        }
        assert(views(words@).take(words@.len() as int) =~= views(words@));
    } else {
        let mut items: Vec<Node> = Vec::new();
        assert(node_views(items@) =~= Seq::<NodeView>::empty());
        let mut k: usize = 0;
        while k < words.len()
            invariant
                k <= words@.len(),
                node_views(items@) == views(words@).take(k as int).map_values(list_item()),
            decreases words@.len() - k,
        {
            push_node(&mut items, wrap(NTag::Li, "", Node::Text(owned(words[k].as_str()))));
            assert(views(words@).take(k + 1).map_values(list_item()) =~= views(words@).take(k as int).map_values(
                list_item(),
            ).push(list_item()(views(words@)[k as int])));
            k += 1;
        }
        assert(views(words@).take(words@.len() as int) =~= views(words@));
        let mut parts: Vec<Node> = Vec::new();
        assert(node_views(parts@) =~= Seq::<NodeView>::empty());
        push_node(&mut parts, wrap(NTag::Span, "", Node::Text(owned(sense.as_str()))));
        push_node(&mut parts, wrap(NTag::Ul, "", Node::Array(items)));
        assert(node_views(parts@) =~= seq![
            wrap_view(NTag::Span, ""@, NodeView::Text(sense@)),
            wrap_view(NTag::Ul, ""@, NodeView::Array(views(words@).map_values(list_item()))),
        ]);
        let div = wrap(NTag::Div, "", Node::Array(parts));
        let d = DetailedDefinition::structured(div);
        assert(sense@.len() != 0);
        assert(definition_view(d) == group_definitions((sense@, views(words@)))[0]);
        let ghost before = defs@;
        defs.push(d);
        assert(definition_views(defs@) =~= definition_views(before).push(group_definitions((sense@, views(words@)))[0]));
    }
}

/// Adds the glossary term of an entry: its translations into `target`, grouped by sense (see
/// [`glossary_term_is`]); nothing for an entry without such translations. The word must differ
/// from the reading of the term.
pub fn process_glossary(edition: Edition, target: Lang, entry: &WordEntry, irs: &mut Vec<TermInfo>)
    requires
        translation_groups(*entry, lang_iso(target)).len() > 0 ==> entry.word@ != glossary_reading(edition, target, *entry),
    ensures
        translation_groups(*entry, lang_iso(target)).len() == 0 ==> final(irs)@ == old(irs)@,
        translation_groups(*entry, lang_iso(target)).len() > 0 ==> {
            &&& final(irs)@.len() == old(irs)@.len() + 1
            &&& final(irs)@.take(old(irs)@.len() as int) == old(irs)@
            &&& glossary_term_is(final(irs)@.last(), edition, target, *entry)
        },
{
    let code = target.iso();
    let (keys, vals) = group_translations(entry, code);
    let ghost gs = translation_groups(*entry, code@);
    if keys.len() == 0 {
        return;
    }
    let mut defs: Vec<DetailedDefinition> = Vec::new();
    let mut i: usize = 0;
    assert(definition_views(defs@) =~= Seq::<DefinitionView>::empty());
    assert(gs.take(0) =~= Seq::<(Seq<char>, Seq<Seq<char>>)>::empty());
    while i < keys.len()
        invariant
            gs == translation_groups(*entry, code@),
            keys@.len() == gs.len(),
            vals@.len() == gs.len(),
            forall|j: int| 0 <= j < gs.len() ==> (#[trigger] keys@[j]@, views(vals@[j]@)) == gs[j],
            i <= keys@.len(),
            definition_views(defs@) == all_definitions(gs.take(i as int)),
        decreases keys@.len() - i,
    {
        assert((keys@[i as int]@, views(vals@[i as int]@)) == gs[i as int]);
        push_group_definitions(&mut defs, &keys[i], &vals[i]);
        assert(gs.take(i + 1).drop_last() =~= gs.take(i as int));
        i += 1;
    }
    assert(gs.take(keys@.len() as int) =~= gs);
    let reading = match get_reading(edition, target, entry) {
        Some(r) => r,
        None => String::new(),
    };
    let tags = pos_tags(entry.pos.as_str(), target);
    let rules = owned(find_short_pos_or_default(entry.pos.as_str()));
    let t = TermInfo::new(owned(entry.word.as_str()), reading, tags, rules, defs);
    let ghost before = irs@;
    irs.push(t);
    assert(irs@.take(before.len() as int) =~= before);
}

/// Whether the glossary term of an entry can be made: an entry with translations into `target`
/// must have a word other than its reading (see [`process_glossary`]).
pub fn glossary_entry_ok(edition: Edition, target: Lang, entry: &WordEntry) -> (r: bool)
    ensures
        r == (translation_groups(*entry, lang_iso(target)).len() > 0 ==> entry.word@ != glossary_reading(
            edition,
            target,
            *entry,
        )),
{
    let code = target.iso();
    let groups = group_translations(entry, code);
    assert(groups.0@.len() == translation_groups(*entry, lang_iso(target)).len());
    if groups.0.len() == 0 {
        return true;
    }
    let reading = match get_reading(edition, target, entry) {
        Some(reading) => reading,
        None => String::new(),
    };
    assert(reading@ == glossary_reading(edition, target, *entry));
    !str_eq(reading.as_str(), entry.word.as_str())
}

/// A row of the extended glossary: a word of the source language, the part of speech of the
/// entry it was found in, its edition, and its translations into the target language.
pub type GlossaryExtendedRow = (String, String, Edition, Vec<String>);

/// A row as character sequences.
pub type RowView = (Seq<char>, Seq<char>, Edition, Seq<Seq<char>>);

/// The view of a row.
pub open spec fn row_view(r: GlossaryExtendedRow) -> RowView {
    (r.0@, r.1@, r.2, views(r.3@))
}

/// The views of rows.
pub open spec fn row_views(s: Seq<GlossaryExtendedRow>) -> Seq<RowView> {
    s.map_values(|r: GlossaryExtendedRow| row_view(r))
}

/// A sense with the translations into the target and into the source language.
pub type SenseTranslations = (Seq<char>, (Seq<Seq<char>>, Seq<Seq<char>>));

/// The sense group with the key `k`.
pub open spec fn pair_key(k: Seq<char>) -> spec_fn(SenseTranslations) -> bool {
    |g: SenseTranslations| g.0 == k
}

/// The groups with `w` added to the target (or source) translations of the sense `k`; a new
/// group at the end when `k` has none.
pub open spec fn pair_insert(gs: Seq<SenseTranslations>, k: Seq<char>, w: Seq<char>, to_target: bool) -> Seq<SenseTranslations> {
    let i = first_index(gs, pair_key(k));
    if i < gs.len() {
        if to_target {
            gs.update(i, (k, (gs[i].1.0.push(w), gs[i].1.1)))
        } else {
            gs.update(i, (k, (gs[i].1.0, gs[i].1.1.push(w))))
        }
    } else if to_target {
        gs.push((k, (seq![w], Seq::<Seq<char>>::empty())))
    } else {
        gs.push((k, (Seq::<Seq<char>>::empty(), seq![w])))
    }
}

/// The translations (those with a word) grouped by sense: a translation into the target adds
/// to the targets of its sense, then one into the source to the sources.
pub open spec fn sense_translations(ts: Seq<Translation>, source: Seq<char>, target: Seq<char>) -> Seq<SenseTranslations>
    decreases ts.len(),
{
    if ts.len() == 0 {
        Seq::<SenseTranslations>::empty()
    } else {
        let prev = sense_translations(ts.drop_last(), source, target);
        let t = ts.last();
        let g = if t.lang_code@ == target {
            pair_insert(prev, t.sense@, t.word@, true)
        } else {
            prev
        };
        if t.lang_code@ == source {
            pair_insert(g, t.sense@, t.word@, false)
        } else {
            g
        }
    }
}

/// A sense with translations into both languages.
pub open spec fn both_sides() -> spec_fn(SenseTranslations) -> bool {
    |g: SenseTranslations| g.1.0.len() > 0 && g.1.1.len() > 0
}

/// The row of a source word with its translations.
pub open spec fn row_of(pos: Seq<char>, edition: Edition, targets: Seq<Seq<char>>) -> spec_fn(Seq<char>) -> RowView {
    |lemma: Seq<char>| (lemma, pos, edition, targets)
}

/// The rows of the senses: for each sense with translations into both languages, one row per
/// source word, with all the target words as its translations.
pub open spec fn sense_rows(gs: Seq<SenseTranslations>, pos: Seq<char>, edition: Edition) -> Seq<RowView>
    decreases gs.len(),
{
    if gs.len() == 0 {
        Seq::<RowView>::empty()
    } else {
        let g = gs.last();
        sense_rows(gs.drop_last(), pos, edition) + g.1.1.map_values(row_of(pos, edition, g.1.0))
    }
}

/// The rows that an entry adds to the extended glossary (see [`sense_rows`]).
pub open spec fn extended_rows(edition: Edition, source: Lang, target: Lang, e: WordEntry) -> Seq<RowView> {
    sense_rows(
        sense_translations(e.translations@.filter(non_empty_translation()), lang_iso(source), lang_iso(target)).filter(
            both_sides(),
        ),
        e.pos@,
        edition,
    )
}

/// Adds `w` to the target (or source) translations of the sense `k` (see [`pair_insert`]).
fn pair_push(
    keys: &mut Vec<String>,
    tvals: &mut Vec<Vec<String>>,
    svals: &mut Vec<Vec<String>>,
    k: &str,
    w: &str,
    to_target: bool,
    Ghost(gs): Ghost<Seq<SenseTranslations>>,
)
    requires
        old(keys)@.len() == gs.len(),
        old(tvals)@.len() == gs.len(),
        old(svals)@.len() == gs.len(),
        forall|j: int| 0 <= j < gs.len() ==> (#[trigger] old(keys)@[j]@, (views(old(tvals)@[j]@), views(old(svals)@[j]@))) == gs[j],
    ensures
        final(keys)@.len() == pair_insert(gs, k@, w@, to_target).len(),
        final(tvals)@.len() == final(keys)@.len(),
        final(svals)@.len() == final(keys)@.len(),
        forall|j: int| 0 <= j < final(keys)@.len() ==> (#[trigger] final(keys)@[j]@, (views(final(tvals)@[j]@), views(final(svals)@[j]@)))
            == pair_insert(gs, k@, w@, to_target)[j],
{
    let mut i: usize = 0;
    while i < keys.len() && !str_eq(keys[i].as_str(), k)
        invariant
            i <= keys@.len(),
            keys@.len() == gs.len(),
            tvals@.len() == gs.len(),
            svals@.len() == gs.len(),
            forall|j: int| 0 <= j < gs.len() ==> (#[trigger] keys@[j]@, (views(tvals@[j]@), views(svals@[j]@))) == gs[j],
            forall|j: int| 0 <= j < i ==> !pair_key(k@)(#[trigger] gs[j]),
        decreases keys@.len() - i,
    {
        i += 1;
    }
    proof { lemma_first_index(gs, pair_key(k@), i as int); }
    let ghost new_gs = pair_insert(gs, k@, w@, to_target);
    if i < keys.len() {
        if to_target {
            let mut v = clone_strings(&tvals[i]);
            v.push(owned(w));
            let ghost before = tvals@;
            tvals.set(i, v);
            assert forall|j: int| 0 <= j < keys@.len() implies (#[trigger] keys@[j]@, (views(tvals@[j]@), views(svals@[j]@)))
                == new_gs[j] by {
                if j == i {
                    assert(views(tvals@[j]@) =~= views(before[j]@).push(w@));
                }
            }
        } else {
            let mut v = clone_strings(&svals[i]);
            v.push(owned(w));
            let ghost before = svals@;
            svals.set(i, v);
            assert forall|j: int| 0 <= j < keys@.len() implies (#[trigger] keys@[j]@, (views(tvals@[j]@), views(svals@[j]@)))
                == new_gs[j] by {
                if j == i {
                    assert(views(svals@[j]@) =~= views(before[j]@).push(w@));
                }
            }
        }
    } else {
        let mut one: Vec<String> = Vec::new();
        one.push(owned(w));
        keys.push(owned(k));
        if to_target {
            tvals.push(one);
            svals.push(Vec::new());
        } else {
            tvals.push(Vec::new());
            svals.push(one);
        }
        assert forall|j: int| 0 <= j < keys@.len() implies (#[trigger] keys@[j]@, (views(tvals@[j]@), views(svals@[j]@)))
            == new_gs[j] by {
            if j == i {
                assert(views(tvals@[j]@) =~= new_gs[j].1.0);
                assert(views(svals@[j]@) =~= new_gs[j].1.1);
            }
        }
    }
}

/// Adds the rows of an entry to the extended glossary (see [`extended_rows`]): a "semi"
/// cartesian product, each source word of a sense with all its target words.
pub fn process_glossary_extended(
    edition: Edition,
    source: Lang,
    target: Lang,
    entry: &WordEntry,
    irs: &mut Vec<GlossaryExtendedRow>,
)
    ensures
        row_views(final(irs)@) == row_views(old(irs)@) + extended_rows(edition, source, target, *entry),
{
    let tcode = target.iso();
    let scode = source.iso();
    let ts = entry.non_trivial_translations();
    let ghost f = derefs(ts@);
    let mut keys: Vec<String> = Vec::new();
    let mut tvals: Vec<Vec<String>> = Vec::new();
    let mut svals: Vec<Vec<String>> = Vec::new();
    let mut i: usize = 0;
    assert(f.take(0) =~= Seq::<Translation>::empty());
    while i < ts.len()
        invariant
            f == derefs(ts@),
            f == entry.translations@.filter(non_empty_translation()),
            i <= ts@.len(),
            keys@.len() == sense_translations(f.take(i as int), scode@, tcode@).len(),
            tvals@.len() == keys@.len(),
            svals@.len() == keys@.len(),
            forall|j: int| 0 <= j < keys@.len() ==> (#[trigger] keys@[j]@, (views(tvals@[j]@), views(svals@[j]@)))
                == sense_translations(f.take(i as int), scode@, tcode@)[j],
        decreases ts@.len() - i,
    {
        let t = ts[i];
        assert(*t == f[i as int]);
        assert(f.take(i + 1).drop_last() =~= f.take(i as int));
        let ghost prev = sense_translations(f.take(i as int), scode@, tcode@);
        let to_t = str_eq(t.lang_code.as_str(), tcode);
        if to_t {
            pair_push(&mut keys, &mut tvals, &mut svals, t.sense.as_str(), t.word.as_str(), true, Ghost(prev));
        }
        let ghost mid = if to_t { pair_insert(prev, t.sense@, t.word@, true) } else { prev };
        if str_eq(t.lang_code.as_str(), scode) {
            pair_push(&mut keys, &mut tvals, &mut svals, t.sense.as_str(), t.word.as_str(), false, Ghost(mid));
        }
        i += 1;
    }
    assert(f.take(ts@.len() as int) =~= f);
    let ghost gs = sense_translations(f, scode@, tcode@);
    let ghost base = row_views(irs@);
    let mut k: usize = 0;
    assert(gs.take(0).filter(both_sides()) =~= Seq::<SenseTranslations>::empty());
    while k < keys.len()
        invariant
            gs == sense_translations(f, scode@, tcode@),
            keys@.len() == gs.len(),
            tvals@.len() == gs.len(),
            svals@.len() == gs.len(),
            forall|j: int| 0 <= j < gs.len() ==> (#[trigger] keys@[j]@, (views(tvals@[j]@), views(svals@[j]@))) == gs[j],
            k <= keys@.len(),
            row_views(irs@) == base + sense_rows(gs.take(k as int).filter(both_sides()), entry.pos@, edition),
        decreases keys@.len() - k,
    {
        assert((keys@[k as int]@, (views(tvals@[k as int]@), views(svals@[k as int]@))) == gs[k as int]);
        proof { lemma_filter_take(gs, both_sides(), k as int); }
        let ghost g = gs[k as int];
        let ghost done = gs.take(k as int).filter(both_sides());
        if tvals[k].len() > 0 && svals[k].len() > 0 {
            assert(done.push(g).drop_last() =~= done);
            let ghost mid = row_views(irs@);
            let mut j: usize = 0;
            while j < svals[k].len()
                invariant
                    k < keys@.len(),
                    keys@.len() == gs.len(),
                    tvals@.len() == gs.len(),
                    svals@.len() == gs.len(),
                    g == gs[k as int],
                    g == (keys@[k as int]@, (views(tvals@[k as int]@), views(svals@[k as int]@))),
                    j <= svals@[k as int]@.len(),
                    row_views(irs@) == mid + g.1.1.take(j as int).map_values(row_of(entry.pos@, edition, g.1.0)),
                decreases svals@[k as int]@.len() - j,
            {
                let ghost before = row_views(irs@);
                irs.push((owned(svals[k][j].as_str()), owned(entry.pos.as_str()), edition, clone_strings(&tvals[k])));
                assert(row_views(irs@) =~= before.push(row_of(entry.pos@, edition, g.1.0)(g.1.1[j as int])));
                assert(g.1.1.take(j + 1).map_values(row_of(entry.pos@, edition, g.1.0)) =~= g.1.1.take(j as int).map_values(
                    row_of(entry.pos@, edition, g.1.0),
                ).push(row_of(entry.pos@, edition, g.1.0)(g.1.1[j as int])));
                j += 1;
            }
            assert(g.1.1.take(g.1.1.len() as int) =~= g.1.1);
        }
        k += 1;
    }
    assert(gs.take(keys@.len() as int) =~= gs);
}

/// The row of the lemma `l`.
pub open spec fn lemma_row(l: Seq<char>) -> spec_fn(RowView) -> bool {
    |r: RowView| r.0 == l
}

/// The rows merged by lemma, in the order of their first row: the part of speech and edition of
/// the first row, the translations of all rows one after the other.
pub open spec fn rows_merged(rows: Seq<RowView>) -> Seq<RowView>
    decreases rows.len(),
{
    if rows.len() == 0 {
        Seq::<RowView>::empty()
    } else {
        let prev = rows_merged(rows.drop_last());
        let r = rows.last();
        let i = first_index(prev, lemma_row(r.0));
        if i < prev.len() {
            prev.update(i, (prev[i].0, prev[i].1, prev[i].2, prev[i].3 + r.3))
        } else {
            prev.push(r)
        }
    }
}

/// A row with its translations each once, where they first occur.
pub open spec fn row_deduped() -> spec_fn(RowView) -> RowView {
    |r: RowView| (r.0, r.1, r.2, dedup(r.3))
}

/// Merges the rows of the same lemma (see [`rows_merged`]), each translation once.
pub fn postprocess_glossary_extended(irs: &mut Vec<GlossaryExtendedRow>)
    ensures
        row_views(final(irs)@) == rows_merged(row_views(old(irs)@)).map_values(row_deduped()),
{
    let ghost rv = row_views(irs@);
    let mut out: Vec<GlossaryExtendedRow> = Vec::new();
    let mut i: usize = 0;
    assert(rv.take(0) =~= Seq::<RowView>::empty());
    assert(row_views(out@) =~= Seq::<RowView>::empty());
    while i < irs.len()
        invariant
            rv == row_views(irs@),
            i <= irs@.len(),
            row_views(out@) == rows_merged(rv.take(i as int)),
        decreases irs@.len() - i,
    {
        let ghost prev = row_views(out@);
        assert(rv.take(i + 1).drop_last() =~= rv.take(i as int));
        assert(rv.take(i + 1).last() == row_view(irs@[i as int]));
        let lemma = irs[i].0.as_str();
        let mut k: usize = 0;
        while k < out.len() && !str_eq(out[k].0.as_str(), lemma)
            invariant
                k <= out@.len(),
                prev == row_views(out@),
                forall|j: int| 0 <= j < k ==> !lemma_row(lemma@)(#[trigger] prev[j]),
            decreases out@.len() - k,
        {
            assert(prev[k as int] == row_view(out@[k as int]));
            k += 1;
        }
        proof { lemma_first_index(prev, lemma_row(lemma@), k as int); }
        if k < out.len() {
            assert(prev[k as int] == row_view(out@[k as int]));
            let mut more = clone_strings(&irs[i].3);
            let ghost before = out@;
            out[k].3.append(&mut more);
            assert(row_views(out@) =~= prev.update(
                k as int,
                (prev[k as int].0, prev[k as int].1, prev[k as int].2, prev[k as int].3 + views(irs@[i as int].3@)),
            )) by {
                assert forall|j: int| 0 <= j < out@.len() implies #[trigger] row_views(out@)[j] == prev.update(
                    k as int,
                    (prev[k as int].0, prev[k as int].1, prev[k as int].2, prev[k as int].3 + views(irs@[i as int].3@)),
                )[j] by {
                    if j == k {
                        assert(views(out@[j].3@) =~= views(before[j].3@) + views(irs@[i as int].3@));
                    }
                }
            }
        } else {
            let row = (owned(lemma), owned(irs[i].1.as_str()), irs[i].2, clone_strings(&irs[i].3));
            out.push(row);
            assert(row_views(out@) =~= prev.push(row_view(irs@[i as int])));
        }
        i += 1;
    }
    assert(rv.take(irs@.len() as int) =~= rv);
    let ghost merged = row_views(out@);
    let mut k: usize = 0;
    while k < out.len()
        invariant
            k <= out@.len(),
            merged.len() == out@.len(),
            forall|j: int| 0 <= j < k ==> #[trigger] row_views(out@)[j] == row_deduped()(merged[j]),
            forall|j: int| k <= j < out@.len() ==> #[trigger] row_views(out@)[j] == merged[j],
        decreases out@.len() - k,
    {
        assert(row_views(out@)[k as int] == merged[k as int]);
        let d = crate::dict::main::terms::dedup_strings(&out[k].3);
        let ghost before = row_views(out@);
        out[k].3 = d;
        assert(forall|j: int| 0 <= j < out@.len() && j != k ==> #[trigger] row_views(out@)[j] == before[j]);
        k += 1;
    }
    assert(row_views(out@) =~= merged.map_values(row_deduped()));
    *irs = out;
}

/// `t` is the term of the row `r`: its lemma without reading, the tag of its part of speech
/// (localized in `target`), the short part of speech as rule, and one text definition per
/// translation.
pub open spec fn extended_term_is(t: TermInfo, target: Lang, r: RowView) -> bool {
    &&& t.term@ == r.0
    &&& t.reading@ == Seq::<char>::empty()
    &&& pos_tags_are(t.definition_tags@, r.1, target)
    &&& t.rules@ == short_pos_of(r.1)
    &&& definition_views(t.definitions@) == r.3.map_values(text_definition())
}

/// The terms of the extended glossary, one per row (see [`extended_term_is`]). No lemma is
/// empty (a translation always has a word).
pub fn to_yomitan_glossary_extended(target: Lang, irs: &Vec<GlossaryExtendedRow>) -> (r: Vec<TermInfo>)
    requires
        forall|i: int| 0 <= i < irs@.len() ==> (#[trigger] irs@[i]).0@.len() > 0,
    ensures
        r@.len() == irs@.len(),
        forall|i: int| 0 <= i < r@.len() ==> extended_term_is(#[trigger] r@[i], target, row_view(irs@[i])),
{
    let mut r: Vec<TermInfo> = Vec::new();
    let mut i: usize = 0;
    while i < irs.len()
        invariant
            i <= irs@.len(),
            forall|j: int| 0 <= j < irs@.len() ==> (#[trigger] irs@[j]).0@.len() > 0,
            r@.len() == i,
            forall|j: int| 0 <= j < i ==> extended_term_is(#[trigger] r@[j], target, row_view(irs@[j])),
        decreases irs@.len() - i,
    {
        let row = &irs[i];
        assert(row.0@.len() > 0);
        let mut defs: Vec<DetailedDefinition> = Vec::new();
        let mut k: usize = 0;
        assert(definition_views(defs@) =~= Seq::<DefinitionView>::empty());
        while k < row.3.len()
            invariant
                k <= row.3@.len(),
                definition_views(defs@) == views(row.3@).take(k as int).map_values(text_definition()),
            decreases row.3@.len() - k,
        {
            let ghost before = defs@;
            defs.push(DetailedDefinition::Text(owned(row.3[k].as_str())));
            assert(definition_views(defs@) =~= definition_views(before).push(DefinitionView::Text(row.3@[k as int]@)));
            assert(views(row.3@).take(k + 1).map_values(text_definition()) =~= views(row.3@).take(k as int).map_values(
                text_definition(),
            ).push(text_definition()(views(row.3@)[k as int])));
            k += 1;
        }
        assert(views(row.3@).take(row.3@.len() as int) =~= views(row.3@));
        let tags = pos_tags(row.1.as_str(), target);
        let rules = owned(find_short_pos_or_default(row.1.as_str()));
        let empty = String::new();
        let t = TermInfo::new(owned(row.0.as_str()), empty, tags, rules, defs);
        r.push(t);
        i += 1;
    }
    r
}

/// Whether no lemma of the rows is empty.
pub fn rows_renderable(irs: &Vec<GlossaryExtendedRow>) -> (r: bool)
    ensures
        r == forall|i: int| 0 <= i < irs@.len() ==> (#[trigger] irs@[i]).0@.len() > 0,
{
    let mut i: usize = 0;
    while i < irs.len()
        invariant
            i <= irs@.len(),
            forall|k: int| 0 <= k < i ==> (#[trigger] irs@[k]).0@.len() > 0,
        decreases irs@.len() - i,
    {
        if irs[i].0.as_str().is_empty() {
            return false;
        }
        i += 1;
    }
    true
}

/// The glossary dictionary: for each word, its translations into the target language.
#[derive(Debug, Clone, Copy)]
pub struct DGlossary;

/// The extended glossary dictionary: words of one language with their translations into
/// another, through the translation tables of a third.
#[derive(Debug, Clone, Copy)]
pub struct DGlossaryExtended;

impl DGlossary {
    /// Adds the term of an entry (see [`process_glossary`]).
    pub fn process(&self, langs: Langs, entry: &WordEntry, irs: &mut Vec<TermInfo>)
        requires
            translation_groups(*entry, lang_iso(langs.target)).len() > 0 ==> entry.word@ != glossary_reading(
                langs.edition,
                langs.target,
                *entry,
            ),
        ensures
            translation_groups(*entry, lang_iso(langs.target)).len() == 0 ==> final(irs)@ == old(irs)@,
            translation_groups(*entry, lang_iso(langs.target)).len() > 0 ==> {
                &&& final(irs)@.len() == old(irs)@.len() + 1
                &&& final(irs)@.take(old(irs)@.len() as int) == old(irs)@
                &&& glossary_term_is(final(irs)@.last(), langs.edition, langs.target, *entry)
            },
    {
        process_glossary(langs.edition, langs.target, entry, irs);
    }
}

impl DGlossaryExtended {
    /// Whether entries may be probed for their language before they are read: not here, since
    /// the translations of any entry may hold the source language.
    pub fn supports_probe(&self) -> (r: bool)
        ensures
            !r,
    {
        false
    }

    /// Adds the rows of an entry (see [`process_glossary_extended`]).
    pub fn process(&self, langs: Langs, entry: &WordEntry, irs: &mut Vec<GlossaryExtendedRow>)
        ensures
            row_views(final(irs)@) == row_views(old(irs)@) + extended_rows(langs.edition, langs.source, langs.target, *entry),
    {
        process_glossary_extended(langs.edition, langs.source, langs.target, entry, irs);
    }

    /// Merges the rows of each lemma (see [`postprocess_glossary_extended`]).
    pub fn postprocess(&self, irs: &mut Vec<GlossaryExtendedRow>)
        ensures
            row_views(final(irs)@) == rows_merged(row_views(old(irs)@)).map_values(row_deduped()),
    {
        postprocess_glossary_extended(irs);
    }

    /// The terms (see [`to_yomitan_glossary_extended`]).
    pub fn to_yomitan(&self, target: Lang, irs: &Vec<GlossaryExtendedRow>) -> (r: Vec<TermInfo>)
        requires
            forall|i: int| 0 <= i < irs@.len() ==> (#[trigger] irs@[i]).0@.len() > 0,
        ensures
            r@.len() == irs@.len(),
            forall|i: int| 0 <= i < r@.len() ==> extended_term_is(#[trigger] r@[i], target, row_view(irs@[i])),
    {
        to_yomitan_glossary_extended(target, irs)
    }
}

/// One step of merging: the rows so far keep their lemmas; a row of a new lemma comes last.
proof fn lemma_rows_merged_step(rows: Seq<RowView>)
    requires
        rows.len() > 0,
    ensures
        ({
            let prev = rows_merged(rows.drop_last());
            let cur = rows_merged(rows);
            let l = rows.last().0;
            &&& forall|i: int| 0 <= i < prev.len() ==> #[trigger] cur[i].0 == prev[i].0
            &&& (exists|i: int| 0 <= i < prev.len() && #[trigger] prev[i].0 == l) ==> cur.len() == prev.len()
            &&& !(exists|i: int| 0 <= i < prev.len() && #[trigger] prev[i].0 == l) ==> cur.len() == prev.len() + 1 && cur.last().0 == l
        }),
{
    let prev = rows_merged(rows.drop_last());
    let l = rows.last().0;
    crate::seqs::lemma_first_index_spec(prev, lemma_row(l));
    let k = first_index(prev, lemma_row(l));
    if exists|i: int| 0 <= i < prev.len() && #[trigger] prev[i].0 == l {
        let i = choose|i: int| 0 <= i < prev.len() && #[trigger] prev[i].0 == l;
        if k >= prev.len() {
            assert(!lemma_row(l)(prev[i]));
        }
    }
}

/// After merging, no two rows have the same lemma.
pub proof fn lemma_rows_merged_distinct(rows: Seq<RowView>)
    ensures
        forall|i: int, j: int|
            0 <= i < j < rows_merged(rows).len() ==> #[trigger] rows_merged(rows)[i].0 != #[trigger] rows_merged(rows)[j].0,
    decreases rows.len(),
{
    if rows.len() > 0 {
        lemma_rows_merged_distinct(rows.drop_last());
        lemma_rows_merged_step(rows);
        let prev = rows_merged(rows.drop_last());
        let cur = rows_merged(rows);
        assert forall|i: int, j: int| 0 <= i < j < cur.len() implies #[trigger] cur[i].0 != #[trigger] cur[j].0 by {
            if j < prev.len() {
                assert(cur[i].0 == prev[i].0 && cur[j].0 == prev[j].0);
            } else {
                assert(cur[i].0 == prev[i].0);
            }
        }
    }
}

/// Merging loses no lemma: every lemma of the input has a row.
pub proof fn lemma_rows_merged_covers(rows: Seq<RowView>)
    ensures
        forall|i: int| 0 <= i < rows.len() ==> exists|j: int| 0 <= j < rows_merged(rows).len() && #[trigger] rows_merged(rows)[j].0 == (#[trigger] rows[i]).0,
    decreases rows.len(),
{
    if rows.len() > 0 {
        let prev = rows_merged(rows.drop_last());
        let cur = rows_merged(rows);
        let l = rows.last().0;
        lemma_rows_merged_covers(rows.drop_last());
        lemma_rows_merged_step(rows);
        assert forall|i: int| 0 <= i < rows.len() implies exists|j: int| 0 <= j < cur.len() && #[trigger] cur[j].0 == (#[trigger] rows[i]).0 by {
            if i < rows.len() - 1 {
                assert(rows[i] == rows.drop_last()[i]);
                let j = choose|j: int| 0 <= j < prev.len() && #[trigger] prev[j].0 == (#[trigger] rows.drop_last()[i]).0;
                assert(cur[j].0 == prev[j].0);
            } else if exists|m: int| 0 <= m < prev.len() && #[trigger] prev[m].0 == l {
                let m = choose|m: int| 0 <= m < prev.len() && #[trigger] prev[m].0 == l;
                assert(cur[m].0 == l);
            } else {
                assert(cur[cur.len() - 1].0 == l);
            }
        }
    }
}

/// Merging makes no lemma up: every row has the lemma of a row of the input.
pub proof fn lemma_rows_merged_from(rows: Seq<RowView>)
    ensures
        forall|j: int| 0 <= j < rows_merged(rows).len() ==> exists|i: int| 0 <= i < rows.len() && (#[trigger] rows[i]).0 == #[trigger] rows_merged(rows)[j].0,
    decreases rows.len(),
{
    if rows.len() > 0 {
        let prev = rows_merged(rows.drop_last());
        let cur = rows_merged(rows);
        let l = rows.last().0;
        lemma_rows_merged_from(rows.drop_last());
        lemma_rows_merged_step(rows);
        assert forall|j: int| 0 <= j < cur.len() implies exists|i: int| 0 <= i < rows.len() && (#[trigger] rows[i]).0 == #[trigger] cur[j].0 by {
            if j < prev.len() {
                let i = choose|i: int| 0 <= i < rows.drop_last().len() && (#[trigger] rows.drop_last()[i]).0 == #[trigger] prev[j].0;
                assert(rows[i] == rows.drop_last()[i]);
                assert(cur[j].0 == prev[j].0);
            } else {
                assert(rows[rows.len() - 1].0 == l);
            }
        }
    }
}

} // verus!
