//! The Yomitan terms of the main dictionary: one per lemma entry, with its tags, rules and
//! structured definition, and one per form, pointing back to its lemma.
use vstd::prelude::*;
use crate::lang::Lang;
use crate::dict::main::ir::{
    FormEntryView, FormMap, GlossNode, GlossTree, LemmaInfo, LemmaKeyView, LemmaMap, dedup, form_map_view,
    gloss_node, gloss_nodes, lemma_gloss_nodes_index, lemma_map_view, normalize_orthography, orthography,
};
use crate::models::kaikki::Synonym;
use crate::models::yomitan::{
    DetailedDefinition, NodeView, TagInfo, TermInfo, TermInfoForm, node_view, node_views, opt_text,
};
use crate::seqs::lemma_filter_take;
use crate::tags::bank::{
    bank_entry_info, bank_entry_of, bank_info_is, find_short_pos_or_default, find_tag_entry,
    localized_bank_info_is, short_pos_of,
};
use crate::tags::data::{TAG_BANK_LEN, TAG_SHORT};
use crate::tags::localization::localize_tag_info;
use crate::text::{owned, str_eq, string_in, views};
use super::glosses::{glosses_ok, glosses_view, structured_glosses};
use super::yomitan::{
    backlink_view, in_bank, preamble_view, push_node, structured_backlink, structured_preamble,
    structured_synonyms, synonyms_view,
};

verus! {

/// A tag that every top-level gloss after the first has.
pub open spec fn in_all_others(nodes: Seq<GlossNode>) -> spec_fn(Seq<char>) -> bool {
    |t: Seq<char>| forall|i: int| 1 <= i < nodes.len() ==> #[trigger] nodes[i].tags.contains(t)
}

/// The tags that every top-level gloss has: those of the first gloss (each once, where it first
/// occurs) that all the others have too.
pub open spec fn common_tags(nodes: Seq<GlossNode>) -> Seq<Seq<char>> {
    dedup(nodes[0].tags).filter(in_all_others(nodes))
}

/// A tag is among [`dedup`] of a list exactly when it is in the list.
proof fn lemma_dedup_contains(s: Seq<Seq<char>>, t: Seq<char>)
    ensures
        dedup(s).contains(t) == s.contains(t),
    decreases s.len(),
{
    if s.len() > 0 {
        let p = s.drop_last();
        lemma_dedup_contains(p, t);
        assert(s == p.push(s.last()));
        if s.contains(t) && !p.contains(t) {
            assert(t == s.last());
        }
        if p.contains(t) {
            let k = choose|k: int| 0 <= k < p.len() && p[k] == t;
            assert(s[k] == t);
        }
        let d = dedup(p);
        if !d.contains(s.last()) {
            assert(d.push(s.last())[d.len() as int] == s.last());
            if d.contains(t) {
                let k = choose|k: int| 0 <= k < d.len() && d[k] == t;
                assert(d.push(s.last())[k] == t);
            }
            if d.push(s.last()).contains(t) && t != s.last() {
                let k = choose|k: int| 0 <= k < d.len() + 1 && d.push(s.last())[k] == t;
                assert(d[k] == t);
            }
        }
    }
}

/// The lemma-level tags taken from the glosses are exactly the tags that every top-level gloss
/// carries, from the first gloss to the last: a tag that one gloss lacks is not among them.
pub proof fn lemma_common_tags_in_every_gloss(nodes: Seq<GlossNode>)
    requires
        nodes.len() > 0,
    ensures
        forall|t: Seq<char>|
            common_tags(nodes).contains(t) <==> (forall|i: int| 0 <= i < nodes.len() ==> (#[trigger] nodes[i].tags).contains(t)),
{
    let d = dedup(nodes[0].tags);
    let p = in_all_others(nodes);
    assert forall|t: Seq<char>|
        common_tags(nodes).contains(t) <==> (forall|i: int| 0 <= i < nodes.len() ==> (#[trigger] nodes[i].tags).contains(t)) by {
        lemma_dedup_contains(nodes[0].tags, t);
        if common_tags(nodes).contains(t) {
            d.lemma_filter_contains_rev(p, t);
            let k = choose|k: int| 0 <= k < d.filter(p).len() && d.filter(p)[k] == t;
            d.lemma_filter_pred(p, k);
            assert forall|i: int| 0 <= i < nodes.len() implies (#[trigger] nodes[i].tags).contains(t) by {
                if i == 0 {
                } else {
                    assert(p(t));
                }
            }
        }
        if forall|i: int| 0 <= i < nodes.len() ==> (#[trigger] nodes[i].tags).contains(t) {
            assert(nodes[0].tags.contains(t));
            let k = choose|k: int| 0 <= k < d.len() && d[k] == t;
            assert(p(t)) by {
                assert forall|i: int| 1 <= i < nodes.len() implies #[trigger] nodes[i].tags.contains(t) by {
                    assert(nodes[i].tags.contains(t));
                }
            }
            d.lemma_filter_contains(p, k);
        }
    }
}

/// The bank entry of a listed tag.
pub open spec fn entry_of() -> spec_fn(Seq<char>) -> int {
    |t: Seq<char>| bank_entry_of(t)->0
}

/// The bank entries of the tags of a lemma, in order: its part of speech, its own tags, then
/// the tags common to its glosses (see [`common_tags`]); tags the bank does not list are left out.
pub open spec fn found_entries(pos: Seq<char>, tags: Seq<Seq<char>>, nodes: Seq<GlossNode>) -> Seq<int> {
    (seq![pos] + tags + common_tags(nodes)).filter(in_bank()).map_values(entry_of())
}

/// The short form of a bank entry.
pub open spec fn short_of() -> spec_fn(int) -> Seq<char> {
    |e: int| TAG_SHORT@[e]@
}

/// `v` without repetitions (see [`dedup`]).
pub(crate) fn dedup_strings(v: &Vec<String>) -> (r: Vec<String>)
    ensures
        views(r@) == dedup(views(v@)),
{
    let ghost s = views(v@);
    let mut r: Vec<String> = Vec::new();
    let mut k: usize = 0;
    assert(s.take(0) =~= Seq::<Seq<char>>::empty());
    while k < v.len()
        invariant
            s == views(v@),
            k <= v@.len(),
            views(r@) == dedup(s.take(k as int)),
        decreases v@.len() - k,
    {
        assert(s.take(k + 1).drop_last() =~= s.take(k as int));
        if !string_in(&r, v[k].as_str()) {
            let ghost before = views(r@);
            r.push(owned(v[k].as_str()));
            assert(views(r@) =~= before.push(s[k as int]));
        }
        k += 1;
    }
    assert(s.take(v@.len() as int) =~= s);
    r
}

/// Whether every top-level gloss after the first has the tag `t`.
fn in_all_other_glosses(tree: &GlossTree, t: &str) -> (r: bool)
    ensures
        r == in_all_others(gloss_nodes(tree.0@))(t@),
{
    let ghost gn = gloss_nodes(tree.0@);
    proof { lemma_gloss_nodes_index(tree.0@); }
    let mut i: usize = 1;
    while i < tree.0.len()
        invariant
            1 <= i,
            gn == gloss_nodes(tree.0@),
            gn.len() == tree.0@.len(),
            forall|j: int| 0 <= j < tree.0@.len() ==> #[trigger] gn[j] == gloss_node(tree.0@[j]),
            forall|j: int| 1 <= j < i && j < gn.len() ==> #[trigger] gn[j].tags.contains(t@),
        decreases tree.0@.len() - i,
    {
        assert(gn[i as int].tags == views(tree.0@[i as int].1.tags@));
        if !string_in(&tree.0[i].1.tags, t) {
            return false;
        }
        i += 1;
    }
    true
}

/// The tags that every top-level gloss has (see [`common_tags`]).
fn common_gloss_tags(tree: &GlossTree) -> (r: Vec<String>)
    requires
        tree.0@.len() > 0,
    ensures
        views(r@) == common_tags(gloss_nodes(tree.0@)),
{
    let ghost gn = gloss_nodes(tree.0@);
    proof { lemma_gloss_nodes_index(tree.0@); }
    let first = dedup_strings(&tree.0[0].1.tags);
    assert(gn[0].tags == views(tree.0@[0].1.tags@));
    let ghost d = views(first@);
    let ghost p = in_all_others(gn);
    let mut r: Vec<String> = Vec::new();
    let mut k: usize = 0;
    assert(d.take(0).filter(p) =~= Seq::<Seq<char>>::empty());
    while k < first.len()
        invariant
            d == views(first@),
            p == in_all_others(gloss_nodes(tree.0@)),
            k <= first@.len(),
            views(r@) == d.take(k as int).filter(p),
        decreases first@.len() - k,
    {
        proof { lemma_filter_take(d, p, k as int); }
        if in_all_other_glosses(tree, first[k].as_str()) {
            let ghost before = views(r@);
            r.push(owned(first[k].as_str()));
            assert(views(r@) =~= before.push(d[k as int]));
        }
        k += 1;
    }
    assert(d.take(first@.len() as int) =~= d);
    r
}

/// The bank tags of a lemma (see [`found_entries`]): its part of speech, its own tags (usually
/// how editions other than English give them), then the tags of all its glosses (usually how
/// the English edition gives them). The gloss tree must not be empty.
pub fn get_found_tags(pos: &str, info: &LemmaInfo) -> (r: Vec<TagInfo>)
    requires
        info.gloss_tree.0@.len() > 0,
    ensures
        r@.len() == found_entries(pos@, views(info.tags@), gloss_nodes(info.gloss_tree.0@)).len(),
        forall|i: int| 0 <= i < r@.len() ==> bank_info_is(
            #[trigger] r@[i],
            found_entries(pos@, views(info.tags@), gloss_nodes(info.gloss_tree.0@))[i],
        ),
{
    let common = common_gloss_tags(&info.gloss_tree);
    let mut all: Vec<String> = Vec::new();
    all.push(owned(pos));
    let mut j: usize = 0;
    while j < info.tags.len()
        invariant
            j <= info.tags@.len(),
            views(all@) == seq![pos@] + views(info.tags@).take(j as int),
        decreases info.tags@.len() - j,
    {
        let ghost before = views(all@);
        all.push(owned(info.tags[j].as_str()));
        assert(views(all@) =~= before.push(views(info.tags@)[j as int]));
        assert(views(info.tags@).take(j + 1) =~= views(info.tags@).take(j as int).push(views(info.tags@)[j as int]));
        j += 1;
    }
    assert(views(info.tags@).take(info.tags@.len() as int) =~= views(info.tags@));
    let mut j: usize = 0;
    while j < common.len()
        invariant
            j <= common@.len(),
            views(all@) == seq![pos@] + views(info.tags@) + views(common@).take(j as int),
        decreases common@.len() - j,
    {
        let ghost before = views(all@);
        all.push(owned(common[j].as_str()));
        assert(views(all@) =~= before.push(views(common@)[j as int]));
        assert(views(common@).take(j + 1) =~= views(common@).take(j as int).push(views(common@)[j as int]));
        j += 1;
    }
    assert(views(common@).take(common@.len() as int) =~= views(common@));
    let ghost a = views(all@);
    assert(a == seq![pos@] + views(info.tags@) + common_tags(gloss_nodes(info.gloss_tree.0@)));
    let mut r: Vec<TagInfo> = Vec::new();
    let mut k: usize = 0;
    assert(a.take(0).filter(in_bank()) =~= Seq::<Seq<char>>::empty());
    while k < all.len()
        invariant
            a == views(all@),
            k <= all@.len(),
            r@.len() == a.take(k as int).filter(in_bank()).len(),
            forall|i: int| 0 <= i < r@.len() ==> bank_info_is(
                #[trigger] r@[i],
                a.take(k as int).filter(in_bank()).map_values(entry_of())[i],
            ),
        decreases all@.len() - k,
    {
        proof { lemma_filter_take(a, in_bank(), k as int); }
        assert(a[k as int] == all@[k as int]@);
        match find_tag_entry(all[k].as_str()) {
            Some(e) => {
                let ghost prev = a.take(k as int).filter(in_bank());
                r.push(bank_entry_info(e));
                assert(a.take(k + 1).filter(in_bank()) == prev.push(a[k as int]));
                assert(prev.push(a[k as int]).map_values(entry_of()) =~= prev.map_values(entry_of()).push(e as int));
            },
            None => {},
        }
        k += 1;
    }
    assert(a.take(all@.len() as int) =~= a);
    r
}

/// The rules of a term: the short form of its part of speech (one rule for now).
pub fn get_rule_identifier(short_pos: &str) -> (r: String)
    ensures
        r@ == short_pos@,
{
    owned(short_pos)
}

/// A copy of an optional text.
fn clone_text(o: &Option<String>) -> (r: Option<String>)
    ensures
        opt_text(r) == opt_text(*o),
{
    match o {
        Some(s) => Some(owned(s.as_str())),
        None => None,
    }
}

/// The word of a synonym.
pub open spec fn synonym_words(s: Seq<Synonym>) -> Seq<Seq<char>> {
    s.map_values(|x: Synonym| x.word@)
}

/// The definition of a lemma: its preamble (grammar and etymology) if it has one, its glosses
/// (on which the tags of the lemma are not shown again), its synonyms if it has some, and the
/// links back to its pages.
pub open spec fn lemma_definition_view(target: Lang, pos: Seq<char>, info: LemmaInfo) -> NodeView {
    let nodes = gloss_nodes(info.gloss_tree.0@);
    let common = found_entries(pos, views(info.tags@), nodes).map_values(short_of());
    let et = opt_text(info.etymology_text);
    let ht = opt_text(info.head_info_text);
    let pre = if et is Some || ht is Some {
        seq![preamble_view(target, et, ht)]
    } else {
        Seq::<NodeView>::empty()
    };
    let syn = match synonyms_view(target, synonym_words(info.synonyms@)) {
        Some(v) => seq![v],
        None => Seq::<NodeView>::empty(),
    };
    NodeView::Array(
        pre + seq![glosses_view(target, nodes, common)] + syn + seq![
            backlink_view(info.link_wiktionary@, info.link_kaikki@),
        ],
    )
}

/// Yomitan discards a reading equal to its term: a lemma equal to its reading must not be
/// empty, since it then gets the empty reading.
pub open spec fn term_reading_ok(lemma: Seq<char>, reading: Seq<char>) -> bool {
    lemma.len() > 0 || reading != lemma
}

/// `t` is the term of the lemma `lemma` (read `reading`, part of speech `pos`) with `info`:
/// the empty reading when it equals the lemma; the bank tags of the lemma (see
/// [`found_entries`]) localized in `target`; the short part of speech as rule; one structured
/// definition (see [`lemma_definition_view`]).
pub open spec fn lemma_term_is(
    t: TermInfo,
    target: Lang,
    lemma: Seq<char>,
    reading: Seq<char>,
    pos: Seq<char>,
    info: LemmaInfo,
) -> bool {
    let found = found_entries(pos, views(info.tags@), gloss_nodes(info.gloss_tree.0@));
    &&& t.term@ == lemma
    &&& t.reading@ == (if reading == lemma { Seq::<char>::empty() } else { reading })
    &&& t.definition_tags@.len() == found.len()
    &&& forall|i: int| 0 <= i < found.len() ==> localized_bank_info_is(#[trigger] t.definition_tags@[i], found[i], target)
    &&& t.rules@ == short_pos_of(pos)
    &&& t.definitions@.len() == 1
    &&& t.definitions@[0] matches DetailedDefinition::StructuredContent(sc)
        && node_view(sc.content) == lemma_definition_view(target, pos, info)
}

/// The term of one lemma entry (see [`lemma_term_is`]). The gloss tree must not be empty.
pub fn to_yomitan_lemma(target: Lang, lemma: &str, reading: &str, pos: &str, info: &LemmaInfo) -> (r: TermInfo)
    requires
        term_reading_ok(lemma@, reading@),
        info.gloss_tree.0@.len() > 0,
        glosses_ok(gloss_nodes(info.gloss_tree.0@)),
    ensures
        lemma_term_is(r, target, lemma@, reading@, pos@, *info),
{
    let ghost nodes = gloss_nodes(info.gloss_tree.0@);
    let ghost found = found_entries(pos@, views(info.tags@), nodes);
    let short_pos = find_short_pos_or_default(pos);
    let yomitan_reading = if str_eq(reading, lemma) { String::new() } else { owned(reading) };
    let found_tags = get_found_tags(pos, info);
    let mut common: Vec<String> = Vec::new();
    let mut definition_tags: Vec<TagInfo> = Vec::new();
    let mut i: usize = 0;
    while i < found_tags.len()
        invariant
            i <= found_tags@.len(),
            found == found_entries(pos@, views(info.tags@), gloss_nodes(info.gloss_tree.0@)),
            found_tags@.len() == found.len(),
            forall|j: int| 0 <= j < found_tags@.len() ==> bank_info_is(#[trigger] found_tags@[j], found[j]),
            views(common@) == found.take(i as int).map_values(short_of()),
            definition_tags@.len() == i,
            forall|j: int| 0 <= j < i ==> localized_bank_info_is(#[trigger] definition_tags@[j], found[j], target),
        decreases found_tags@.len() - i,
    {
        assert(bank_info_is(found_tags@[i as int], found[i as int]));
        let ghost before = views(common@);
        common.push(owned(found_tags[i].short_tag.as_str()));
        assert(views(common@) =~= before.push(TAG_SHORT@[found[i as int]]@));
        assert(found.take(i + 1).map_values(short_of()) =~= found.take(i as int).map_values(short_of()).push(
            short_of()(found[i as int]),
        ));
        let mut t = TagInfo {
            short_tag: owned(found_tags[i].short_tag.as_str()),
            category: owned(found_tags[i].category.as_str()),
            sort_order: found_tags[i].sort_order,
            long_tag: owned(found_tags[i].long_tag.as_str()),
            popularity_score: found_tags[i].popularity_score,
        };
        localize_tag_info(target, &mut t);
        definition_tags.push(t);
        i += 1;
    }
    assert(found.take(found.len() as int) =~= found);
    let mut content: Vec<crate::models::yomitan::Node> = Vec::new();
    assert(node_views(content@) =~= Seq::<NodeView>::empty());
    if info.etymology_text.is_some() || info.head_info_text.is_some() {
        push_node(
            &mut content,
            structured_preamble(target, clone_text(&info.etymology_text), clone_text(&info.head_info_text)),
        );
    }
    push_node(&mut content, structured_glosses(target, &info.gloss_tree, &common));
    match structured_synonyms(target, &info.synonyms) {
        Some(n) => push_node(&mut content, n),
        None => {},
    }
    push_node(
        &mut content,
        structured_backlink(owned(info.link_wiktionary.as_str()), owned(info.link_kaikki.as_str())),
    );
    assert(node_views(content@) =~= lemma_definition_view(target, pos@, *info)->Array_0);
    let mut definitions: Vec<DetailedDefinition> = Vec::new();
    definitions.push(DetailedDefinition::structured(crate::models::yomitan::Node::Array(content)));
    TermInfo::new(owned(lemma), yomitan_reading, definition_tags, get_rule_identifier(short_pos), definitions)
}

/// A lemma entry paired with its key.
pub open spec fn with_key(key: LemmaKeyView) -> spec_fn(LemmaInfo) -> (LemmaKeyView, LemmaInfo) {
    |info: LemmaInfo| (key, info)
}

/// The lemma entries of the map, each with its key, in order.
pub open spec fn lemma_rows(m: Seq<(LemmaKeyView, Seq<LemmaInfo>)>) -> Seq<(LemmaKeyView, LemmaInfo)>
    decreases m.len(),
{
    if m.len() == 0 {
        Seq::<(LemmaKeyView, LemmaInfo)>::empty()
    } else {
        lemma_rows(m.drop_last()) + m.last().1.map_values(with_key(m.last().0))
    }
}

/// Every entry of the lemma map can be made a term: its gloss tree is not empty, its examples are
/// well formed, and its lemma and reading are not both empty.
pub open spec fn lemma_map_ok(m: Seq<(LemmaKeyView, Seq<LemmaInfo>)>) -> bool {
    forall|i: int, j: int| 0 <= i < m.len() && 0 <= j < m[i].1.len() ==> {
        &&& term_reading_ok(m[i].0.0, m[i].0.1)
        &&& (#[trigger] m[i].1[j]).gloss_tree.0@.len() > 0
        &&& glosses_ok(gloss_nodes(m[i].1[j].gloss_tree.0@))
    }
}

/// The terms of all lemma entries, in the order of the map (see [`lemma_term_is`]).
pub fn to_yomitan_lemmas(target: Lang, lemma_map: &LemmaMap) -> (r: Vec<TermInfo>)
    requires
        lemma_map_ok(lemma_map_view(*lemma_map)),
    ensures
        r@.len() == lemma_rows(lemma_map_view(*lemma_map)).len(),
        forall|k: int| 0 <= k < r@.len() ==> {
            let row = #[trigger] lemma_rows(lemma_map_view(*lemma_map))[k];
            lemma_term_is(r@[k], target, row.0.0, row.0.1, row.0.2, row.1)
        },
{
    let ghost m = lemma_map_view(*lemma_map);
    let mut r: Vec<TermInfo> = Vec::new();
    let mut i: usize = 0;
    assert(m.take(0) =~= Seq::<(LemmaKeyView, Seq<LemmaInfo>)>::empty());
    while i < lemma_map.0.len()
        invariant
            m == lemma_map_view(*lemma_map),
            lemma_map_ok(m),
            i <= lemma_map.0@.len(),
            r@.len() == lemma_rows(m.take(i as int)).len(),
            forall|k: int| 0 <= k < r@.len() ==> {
                let row = #[trigger] lemma_rows(m.take(i as int))[k];
                lemma_term_is(r@[k], target, row.0.0, row.0.1, row.0.2, row.1)
            },
        decreases lemma_map.0@.len() - i,
    {
        let key = &lemma_map.0[i].0;
        let infos = &lemma_map.0[i].1;
        let ghost kv = m[i as int].0;
        let ghost done = lemma_rows(m.take(i as int));
        assert(m.take(i + 1).drop_last() =~= m.take(i as int));
        assert(lemma_rows(m.take(i + 1)) == done + infos@.map_values(with_key(kv)));
        let mut j: usize = 0;
        while j < infos.len()
            invariant
                m == lemma_map_view(*lemma_map),
                lemma_map_ok(m),
                i < lemma_map.0@.len(),
                key == lemma_map.0@[i as int].0,
                infos == lemma_map.0@[i as int].1,
                kv == m[i as int].0,
                kv == (key.lemma@, key.reading@, key.pos@),
                j <= infos@.len(),
                r@.len() == done.len() + j,
                forall|k: int| 0 <= k < r@.len() ==> {
                    let row = #[trigger] (done + infos@.map_values(with_key(kv)))[k];
                    lemma_term_is(r@[k], target, row.0.0, row.0.1, row.0.2, row.1)
                },
            decreases infos@.len() - j,
        {
            assert(m[i as int].1[j as int] == infos@[j as int]);
            let t = to_yomitan_lemma(target, key.lemma.as_str(), key.reading.as_str(), key.pos.as_str(), &infos[j]);
            r.push(t);
            assert((done + infos@.map_values(with_key(kv)))[done.len() + j] == (kv, infos@[j as int]));
            j += 1;
        }
        i += 1;
    }
    assert(m.take(lemma_map.0@.len() as int) =~= m);
    r
}

/// `t` is the term of the form entry `e` of a `source` word: the form written as lemmas are
/// (see [`orthography`]), with the form itself as reading when that differs from it (else the
/// empty reading), the short part of speech as rule, and one inflection definition per tag,
/// each pointing to the lemma with that tag alone (Yomitan reads several tags of one
/// inflection as a chain of inflections).
pub open spec fn form_term_is(t: TermInfoForm, source: Lang, e: FormEntryView) -> bool {
    let un = e.0.0;
    let inf = e.0.1;
    let tags = e.1.1;
    let term = orthography(source, inf);
    &&& t.term@ == term
    &&& t.reading@ == (if term == inf { Seq::<char>::empty() } else { inf })
    &&& t.rules@ == short_pos_of(e.0.2)
    &&& t.definitions@.len() == tags.len()
    &&& forall|j: int| 0 <= j < tags.len() ==> (#[trigger] t.definitions@[j] matches DetailedDefinition::Inflection(d)
        && d.0@ == un && views(d.1@) == seq![tags[j]])
}

/// The terms of all forms, in the order of the map (see [`form_term_is`]). No form is empty (as
/// the map never holds one).
pub fn to_yomitan_forms(source: Lang, form_map: &FormMap) -> (r: Vec<TermInfoForm>)
    requires
        forall|i: int| 0 <= i < form_map_view(*form_map).len() ==> (#[trigger] form_map_view(*form_map)[i]).0.1.len() > 0,
    ensures
        r@.len() == form_map_view(*form_map).len(),
        forall|i: int| 0 <= i < r@.len() ==> form_term_is(#[trigger] r@[i], source, form_map_view(*form_map)[i]),
{
    let ghost m = form_map_view(*form_map);
    let mut r: Vec<TermInfoForm> = Vec::new();
    let mut i: usize = 0;
    while i < form_map.0.len()
        invariant
            m == form_map_view(*form_map),
            forall|k: int| 0 <= k < m.len() ==> (#[trigger] m[k]).0.1.len() > 0,
            i <= m.len(),
            r@.len() == i,
            forall|k: int| 0 <= k < i ==> form_term_is(#[trigger] r@[k], source, m[k]),
        decreases m.len() - i,
    {
        let key = &form_map.0[i].0;
        let tags = &form_map.0[i].1.1;
        let ghost e = m[i as int];
        assert(e.0.1.len() > 0);
        let mut definitions: Vec<DetailedDefinition> = Vec::new();
        let mut j: usize = 0;
        while j < tags.len()
            invariant
                tags == form_map.0@[i as int].1.1,
                e == m[i as int],
                m == form_map_view(*form_map),
                i < m.len(),
                key == form_map.0@[i as int].0,
                j <= tags@.len(),
                definitions@.len() == j,
                forall|k: int| 0 <= k < j ==> (#[trigger] definitions@[k] matches DetailedDefinition::Inflection(d)
                    && d.0@ == key.uninflected@ && views(d.1@) == seq![tags@[k]@]),
            decreases tags@.len() - j,
        {
            let mut one: Vec<String> = Vec::new();
            one.push(owned(tags[j].as_str()));
            assert(views(one@) =~= seq![tags@[j as int]@]);
            definitions.push(DetailedDefinition::Inflection((owned(key.uninflected.as_str()), one)));
            j += 1;
        }
        let normalized = normalize_orthography(source, key.inflected.as_str());
        let reading = if str_eq(normalized.as_str(), key.inflected.as_str()) {
            String::new()
        } else {
            owned(key.inflected.as_str())
        };
        let short_pos = find_short_pos_or_default(key.pos.as_str());
        let t = TermInfoForm::new(normalized, reading, get_rule_identifier(short_pos), definitions);
        r.push(t);
        i += 1;
    }
    r
}

/// Whether every entry of the lemma map can be made a term (see [`lemma_map_ok`]).
pub fn lemma_map_renderable(lemma_map: &LemmaMap) -> (r: bool)
    ensures
        r == lemma_map_ok(lemma_map_view(*lemma_map)),
{
    let ghost m = lemma_map_view(*lemma_map);
    let mut i: usize = 0;
    while i < lemma_map.0.len()
        invariant
            m == lemma_map_view(*lemma_map),
            i <= m.len(),
            forall|a: int, b: int| 0 <= a < i && 0 <= b < m[a].1.len() ==> {
                &&& term_reading_ok(m[a].0.0, m[a].0.1)
                &&& (#[trigger] m[a].1[b]).gloss_tree.0@.len() > 0
                &&& glosses_ok(gloss_nodes(m[a].1[b].gloss_tree.0@))
            },
        decreases m.len() - i,
    {
        let key = &lemma_map.0[i].0;
        let infos = &lemma_map.0[i].1;
        let key_ok = !key.lemma.as_str().is_empty() || !str_eq(key.reading.as_str(), key.lemma.as_str());
        let mut j: usize = 0;
        while j < infos.len()
            invariant
                m == lemma_map_view(*lemma_map),
                i < m.len(),
                infos == lemma_map.0@[i as int].1,
                m[i as int].1 == infos@,
                m[i as int].0 == (key.lemma@, key.reading@, key.pos@),
                key == lemma_map.0@[i as int].0,
                key_ok == term_reading_ok(m[i as int].0.0, m[i as int].0.1),
                j <= infos@.len(),
                forall|a: int, b: int| 0 <= a < i && 0 <= b < m[a].1.len() ==> {
                    &&& term_reading_ok(m[a].0.0, m[a].0.1)
                    &&& (#[trigger] m[a].1[b]).gloss_tree.0@.len() > 0
                    &&& glosses_ok(gloss_nodes(m[a].1[b].gloss_tree.0@))
                },
                forall|b: int| 0 <= b < j ==> {
                    &&& term_reading_ok(m[i as int].0.0, m[i as int].0.1)
                    &&& (#[trigger] m[i as int].1[b]).gloss_tree.0@.len() > 0
                    &&& glosses_ok(gloss_nodes(m[i as int].1[b].gloss_tree.0@))
                },
            decreases infos@.len() - j,
        {
            let info = &infos[j];
            if !key_ok || info.gloss_tree.0.len() == 0 || !super::glosses::glosses_renderable(&info.gloss_tree) {
                assert(m[i as int].1[j as int] == *info);
                return false;
            }
            j += 1;
        }
        i += 1;
    }
    true
}

/// Whether no form of the map is empty.
pub fn forms_renderable(form_map: &FormMap) -> (r: bool)
    ensures
        r == forall|i: int| 0 <= i < form_map_view(*form_map).len() ==> (#[trigger] form_map_view(*form_map)[i]).0.1.len() > 0,
{
    let ghost m = form_map_view(*form_map);
    let mut i: usize = 0;
    while i < form_map.0.len()
        invariant
            m == form_map_view(*form_map),
            i <= m.len(),
            forall|k: int| 0 <= k < i ==> (#[trigger] m[k]).0.1.len() > 0,
        decreases m.len() - i,
    {
        if form_map.0[i].0.inflected.as_str().is_empty() {
            assert(m[i as int].0.1.len() == 0);
            return false;
        }
        i += 1;
    }
    true
}

} // verus!
