//! From the intermediate representation of the main dictionary to Yomitan entries.
use vstd::prelude::*;
use crate::lang::Lang;
use crate::models::kaikki::{Example, Offset, Synonym};
use crate::dict::main::ir::{ExampleView, example_view};
use crate::models::yomitan::{
    BacklinkContent, BacklinkContentKind, NTag, Node, NodeView, lemma_node_views_push, node_view, node_views, wrap,
    wrap_view,
};
use crate::text::{chars_of, concat, owned, string_in, string_of_range, views};
use crate::models::yomitan::{GenericNode, NodeData, NodeDataKey};
use crate::seqs::{first_index, lemma_first_index};
use crate::tags::bank::{bank_entry_of, find_tag_entry};
use crate::tags::data::{TAG_BANK_LEN, TAG_CATEGORY, TAG_LONG, TAG_SHORT, TAG_SORT_ORDER};
use crate::tags::localization::{localize_tag, tag_localization};
use crate::dict::locale::{example_words, localize_examples_string};
use super::locale::{
    etymology_title, grammar_title, localize_etymology_string, localize_grammar_string, localize_synonyms_string,
    synonyms_title,
};

verus! {

/// What sanitizing keeps of `offsets` (taken in order): an offset ending past `upto` is
/// dropped; one that starts before the end of the last kept offset is merged into it (which
/// then ends at the later of the two ends); any other is kept.
pub open spec fn sanitized(offsets: Seq<Offset>, upto: usize) -> Seq<Offset>
    decreases offsets.len(),
{
    if offsets.len() == 0 {
        Seq::<Offset>::empty()
    } else {
        let prev = sanitized(offsets.drop_last(), upto);
        let (start, end) = offsets.last();
        if end > upto {
            prev
        } else if prev.len() > 0 && start < prev.last().1 {
            let last = prev.last();
            prev.update(prev.len() - 1, (last.0, if last.1 >= end { last.1 } else { end }))
        } else {
            prev.push((start, end))
        }
    }
}

/// Offsets sorted by start, each non-empty.
pub open spec fn sorted_proper(offsets: Seq<Offset>) -> bool {
    &&& forall|i: int| 0 <= i < offsets.len() ==> #[trigger] offsets[i].0 < offsets[i].1
    &&& forall|i: int, j: int| 0 <= i < j < offsets.len() ==> #[trigger] offsets[i].0 <= #[trigger] offsets[j].0
}

/// Offsets that are non-empty, in order, and do not overlap (one may end where the next starts).
pub open spec fn disjoint_in_order(offsets: Seq<Offset>) -> bool {
    &&& forall|i: int| 0 <= i < offsets.len() ==> #[trigger] offsets[i].0 < offsets[i].1
    &&& forall|i: int| 0 <= i < offsets.len() - 1 ==> #[trigger] offsets[i].1 <= offsets[i + 1].0
}

/// Every offset that sanitizing keeps ends within `upto`.
pub proof fn lemma_sanitized_within(offsets: Seq<Offset>, upto: usize)
    ensures
        forall|i: int| 0 <= i < sanitized(offsets, upto).len() ==> #[trigger] sanitized(offsets, upto)[i].1 <= upto,
    decreases offsets.len(),
{
    if offsets.len() > 0 {
        lemma_sanitized_within(offsets.drop_last(), upto);
        let prev = sanitized(offsets.drop_last(), upto);
        let r = sanitized(offsets, upto);
        assert forall|i: int| 0 <= i < r.len() implies #[trigger] r[i].1 <= upto by {
            if i < prev.len() {
                assert(prev[i].1 <= upto);
            }
        }
    }
}

/// Sanitizing sorted offsets keeps them disjoint and in order, and the last kept offset starts
/// no later than the last given one.
proof fn lemma_sanitized_starts(offsets: Seq<Offset>, upto: usize)
    requires
        sorted_proper(offsets),
    ensures
        disjoint_in_order(sanitized(offsets, upto)),
        sanitized(offsets, upto).len() > 0 ==> sanitized(offsets, upto).last().0 <= offsets.last().0,
    decreases offsets.len(),
{
    if offsets.len() > 0 {
        let init = offsets.drop_last();
        assert(sorted_proper(init));
        lemma_sanitized_starts(init, upto);
        let prev = sanitized(init, upto);
        if prev.len() > 0 && init.len() > 0 {
            assert(init.last().0 <= offsets.last().0);
        }
        if init.len() == 0 {
            assert(prev.len() == 0);
        }
    }
}

/// Sanitizing offsets sorted by start, each non-empty, gives offsets that are non-empty, in
/// order, do not overlap, and end within `upto`.
pub proof fn lemma_sanitized_disjoint(offsets: Seq<Offset>, upto: usize)
    requires
        sorted_proper(offsets),
    ensures
        disjoint_in_order(sanitized(offsets, upto)),
        forall|i: int| 0 <= i < sanitized(offsets, upto).len() ==> #[trigger] sanitized(offsets, upto)[i].1 <= upto,
{
    lemma_sanitized_starts(offsets, upto);
    lemma_sanitized_within(offsets, upto);
}

/// The offsets within `upto`, overlapping ones merged (see [`sanitized`]). Offsets are expected
/// sorted by start; then the result is made of non-overlapping offsets in order
/// ([`lemma_sanitized_disjoint`]).
pub fn sanitize_offsets(offsets: &[Offset], upto: usize) -> (r: Vec<Offset>)
    ensures
        r@ == sanitized(offsets@, upto),
        forall|i: int| 0 <= i < r@.len() ==> #[trigger] r@[i].1 <= upto,
        sorted_proper(offsets@) ==> disjoint_in_order(r@),
{
    let mut r: Vec<Offset> = Vec::new();
    let mut i: usize = 0;
    assert(offsets@.take(0) =~= Seq::<Offset>::empty());
    while i < offsets.len()
        invariant
            i <= offsets@.len(),
            r@ == sanitized(offsets@.take(i as int), upto),
        decreases offsets@.len() - i,
    {
        let (start, end) = offsets[i];
        assert(offsets@.take(i + 1).drop_last() =~= offsets@.take(i as int));
        if end <= upto {
            let n = r.len();
            if n > 0 && start < r[n - 1].1 {
                let prev = r[n - 1];
                let new_end = if prev.1 >= end { prev.1 } else { end };
                r.set(n - 1, (prev.0, new_end));
            } else {
                r.push((start, end));
            }
        }
        i += 1;
    }
    assert(offsets@.take(offsets@.len() as int) =~= offsets@);
    proof {
        lemma_sanitized_within(offsets@, upto);
        if sorted_proper(offsets@) {
            lemma_sanitized_disjoint(offsets@, upto);
        }
    }
    r
}

/// Appends a node to a vector of nodes, keeping track of the views.
pub(crate) fn push_node(v: &mut Vec<Node>, n: Node)
    ensures
        node_views(final(v)@) == node_views(old(v)@).push(node_view(n)),
{
    proof { lemma_node_views_push(v@, n); }
    v.push(n);
}

/// A details block: a summary with the localized title `ty_loc`, then the content, styled by
/// `ty`.
pub open spec fn details_view(ty: Seq<char>, ty_loc: Seq<char>, content: Seq<char>) -> NodeView {
    wrap_view(
        NTag::Details,
        "details-entry-"@ + ty,
        NodeView::Array(seq![
            wrap_view(NTag::Summary, "summary-entry"@, NodeView::Text(ty_loc)),
            wrap_view(NTag::Div, ty + "-content"@, NodeView::Text(content)),
        ]),
    )
}

/// A details block (see [`details_view`]).
pub fn build_details_entry(ty: &str, ty_loc: &str, content: String) -> (r: Node)
    ensures
        node_view(r) == details_view(ty@, ty_loc@, content@),
{
    let mut items: Vec<Node> = Vec::new();
    assert(node_views(items@) =~= Seq::<NodeView>::empty());
    push_node(&mut items, wrap(NTag::Summary, "summary-entry", Node::Text(owned(ty_loc))));
    let cty = concat(ty, "-content");
    push_node(&mut items, wrap(NTag::Div, cty.as_str(), Node::Text(content)));
    let dty = concat("details-entry-", ty);
    assert(node_views(items@) =~= seq![
        wrap_view(NTag::Summary, "summary-entry"@, NodeView::Text(ty_loc@)),
        wrap_view(NTag::Div, ty@ + "-content"@, NodeView::Text(content@)),
    ]);
    wrap(NTag::Details, dty.as_str(), Node::Array(items))
}

/// The preamble of a lemma: its grammar (head information), then its etymology, each in a
/// details block titled in `target`.
pub open spec fn preamble_view(target: Lang, etymology: Option<Seq<char>>, head_info: Option<Seq<char>>) -> NodeView {
    let items = (match head_info {
        Some(h) => seq![details_view("Grammar"@, grammar_title(target), h)],
        None => Seq::<NodeView>::empty(),
    }) + (match etymology {
        Some(e) => seq![details_view("Etymology"@, etymology_title(target), e)],
        None => Seq::<NodeView>::empty(),
    });
    wrap_view(NTag::Div, ""@, NodeView::Array(seq![wrap_view(NTag::Div, "preamble"@, NodeView::Array(items))]))
}

/// The preamble of a lemma (see [`preamble_view`]).
pub fn structured_preamble(target: Lang, etymology_text: Option<String>, head_info_text: Option<String>) -> (r: Node)
    ensures
        node_view(r) == preamble_view(
            target,
            crate::models::yomitan::opt_text(etymology_text),
            crate::models::yomitan::opt_text(head_info_text),
        ),
{
    let ghost et = crate::models::yomitan::opt_text(etymology_text);
    let ghost ht = crate::models::yomitan::opt_text(head_info_text);
    let mut items: Vec<Node> = Vec::new();
    assert(node_views(items@) =~= Seq::<NodeView>::empty());
    match head_info_text {
        Some(h) => push_node(&mut items, build_details_entry("Grammar", localize_grammar_string(target), h)),
        None => {},
    }
    match etymology_text {
        Some(e) => push_node(&mut items, build_details_entry("Etymology", localize_etymology_string(target), e)),
        None => {},
    }
    assert(node_views(items@) =~= (match ht {
        Some(h) => seq![details_view("Grammar"@, grammar_title(target), h)],
        None => Seq::<NodeView>::empty(),
    }) + (match et {
        Some(e) => seq![details_view("Etymology"@, etymology_title(target), e)],
        None => Seq::<NodeView>::empty(),
    }));
    let inner = wrap(NTag::Div, "preamble", Node::Array(items));
    wrap(NTag::Div, "", inner.into_array_node())
}

/// The links back to the Wiktionary and Kaikki pages of a lemma.
pub open spec fn backlink_view(wlink: Seq<char>, klink: Seq<char>) -> NodeView {
    wrap_view(
        NTag::Div,
        "backlink"@,
        NodeView::Array(seq![
            NodeView::Backlink(wlink, BacklinkContentKind::Wiktionary),
            NodeView::Text(" | "@),
            NodeView::Backlink(klink, BacklinkContentKind::Kaikki),
        ]),
    )
}

/// The links back to the pages of a lemma (see [`backlink_view`]).
pub fn structured_backlink(wlink: String, klink: String) -> (r: Node)
    ensures
        node_view(r) == backlink_view(wlink@, klink@),
{
    let mut items: Vec<Node> = Vec::new();
    assert(node_views(items@) =~= Seq::<NodeView>::empty());
    push_node(&mut items, Node::Backlink(BacklinkContent::new(wlink, BacklinkContentKind::Wiktionary)));
    push_node(&mut items, Node::Text(owned(" | ")));
    push_node(&mut items, Node::Backlink(BacklinkContent::new(klink, BacklinkContentKind::Kaikki)));
    assert(node_views(items@) =~= seq![
        NodeView::Backlink(wlink@, BacklinkContentKind::Wiktionary),
        NodeView::Text(" | "@),
        NodeView::Backlink(klink@, BacklinkContentKind::Kaikki),
    ]);
    wrap(NTag::Div, "backlink", Node::Array(items))
}

/// The synonyms of a lemma, with a title in `target`; none without synonyms.
pub open spec fn synonyms_view(target: Lang, words: Seq<Seq<char>>) -> Option<NodeView> {
    if words.len() == 0 {
        None
    } else {
        Some(wrap_view(
            NTag::Div,
            "synonyms"@,
            NodeView::Array(seq![
                wrap_view(NTag::Div, "synonyms-label"@, NodeView::Text(synonyms_title(target))),
                wrap_view(
                    NTag::Ul,
                    "synonyms-list"@,
                    NodeView::Array(words.map_values(|w: Seq<char>| wrap_view(NTag::Li, "synonym-item"@, NodeView::Text(w)))),
                ),
            ]),
        ))
    }
}

/// The synonyms of a lemma (see [`synonyms_view`]).
pub fn structured_synonyms(target: Lang, synonyms: &Vec<Synonym>) -> (r: Option<Node>)
    ensures
        match synonyms_view(target, synonyms@.map_values(|s: Synonym| s.word@)) {
            Some(v) => r is Some && node_view(r->0) == v,
            None => r is None,
        },
{
    let ghost words = synonyms@.map_values(|s: Synonym| s.word@);
    if synonyms.len() == 0 {
        return None;
    }
    let mut items: Vec<Node> = Vec::new();
    let mut i: usize = 0;
    assert(node_views(items@) =~= Seq::<NodeView>::empty());
    while i < synonyms.len()
        invariant
            i <= synonyms@.len(),
            words == synonyms@.map_values(|s: Synonym| s.word@),
            node_views(items@) == words.take(i as int).map_values(
                |w: Seq<char>| wrap_view(NTag::Li, "synonym-item"@, NodeView::Text(w)),
            ),
        decreases synonyms@.len() - i,
    {
        push_node(&mut items, wrap(NTag::Li, "synonym-item", Node::Text(synonyms[i].word.clone())));
        assert(words.take(i + 1) =~= words.take(i as int).push(words[i as int]));
        i += 1;
    }
    assert(words.take(synonyms@.len() as int) =~= words);
    let mut outer: Vec<Node> = Vec::new();
    assert(node_views(outer@) =~= Seq::<NodeView>::empty());
    push_node(&mut outer, wrap(NTag::Div, "synonyms-label", Node::Text(owned(localize_synonyms_string(target)))));
    push_node(&mut outer, wrap(NTag::Ul, "synonyms-list", Node::Array(items)));
    assert(node_views(outer@) =~= seq![
        wrap_view(NTag::Div, "synonyms-label"@, NodeView::Text(synonyms_title(target))),
        wrap_view(
            NTag::Ul,
            "synonyms-list"@,
            NodeView::Array(words.map_values(|w: Seq<char>| wrap_view(NTag::Li, "synonym-item"@, NodeView::Text(w)))),
        ),
    ]);
    Some(wrap(NTag::Div, "synonyms", Node::Array(outer)))
}

/// The pieces of an example's text around its bold ranges `o` (taken in order from `last` on):
/// the plain text before each range (when there is some), the range in bold, and the rest.
pub open spec fn bold_pieces(text: Seq<char>, o: Seq<Offset>, last: int) -> Seq<NodeView>
    decreases o.len(),
{
    if o.len() == 0 {
        if last < text.len() {
            seq![NodeView::Text(text.subrange(last, text.len() as int))]
        } else {
            Seq::<NodeView>::empty()
        }
    } else {
        let (start, end) = o[0];
        (if last < start {
            seq![NodeView::Text(text.subrange(last, start as int))]
        } else {
            Seq::<NodeView>::empty()
        }) + seq![wrap_view(NTag::Span, "bold-text"@, NodeView::Text(text.subrange(start as int, end as int)))] + bold_pieces(
            text,
            o.drop_first(),
            end as int,
        )
    }
}

/// The text of an example with its bold ranges (sanitized, see [`sanitized`]) in bold spans;
/// plain text when there are none.
pub open spec fn example_text_view(text: Seq<char>, offsets: Seq<Offset>) -> NodeView {
    let o = sanitized(offsets, text.len() as usize);
    if offsets.len() == 0 || o.len() == 0 {
        NodeView::Text(text)
    } else {
        NodeView::Array(bold_pieces(text, o, 0))
    }
}

/// Ranges whose start does not pass their end.
pub open spec fn ranges_ordered(offsets: Seq<Offset>) -> bool {
    forall|i: int| 0 <= i < offsets.len() ==> #[trigger] offsets[i].0 <= offsets[i].1
}

/// The text of an example with its bold ranges (see [`example_text_view`]). No range that
/// sanitizing keeps may start after it ends (there is no text to cut out for it).
pub fn structured_example_text(text: &str, offsets: &Vec<Offset>) -> (r: Node)
    requires
        ranges_ordered(sanitized(offsets@, text@.len() as usize)),
    ensures
        node_view(r) == example_text_view(text@, offsets@),
{
    if offsets.len() == 0 {
        return Node::Text(owned(text));
    }
    let chars = chars_of(text);
    let upto = chars.len();
    let o = sanitize_offsets(offsets.as_slice(), upto);
    if o.len() == 0 {
        return Node::Text(owned(text));
    }
    let mut content: Vec<Node> = Vec::new();
    let mut last: usize = 0;
    let mut k: usize = 0;
    assert(o@.skip(0) =~= o@);
    assert(node_views(content@) =~= Seq::<NodeView>::empty());
    assert(node_views(content@) + bold_pieces(text@, o@.skip(0), 0) =~= bold_pieces(text@, o@, 0));
    while k < o.len()
        invariant
            k <= o@.len(),
            chars@ == text@,
            upto == chars@.len(),
            o@ == sanitized(offsets@, upto),
            ranges_ordered(o@),
            forall|i: int| 0 <= i < o@.len() ==> #[trigger] o@[i].1 <= upto,
            last <= upto,
            node_views(content@) + bold_pieces(text@, o@.skip(k as int), last as int) == bold_pieces(text@, o@, 0),
        decreases o@.len() - k,
    {
        let (start, end) = o[k];
        assert(o@[k as int].0 <= o@[k as int].1);
        assert(o@.skip(k as int)[0] == o@[k as int]);
        assert(o@.skip(k as int).drop_first() =~= o@.skip(k + 1));
        let ghost before = node_views(content@);
        if last < start {
            push_node(&mut content, Node::Text(string_of_range(&chars, last, start)));
        }
        push_node(&mut content, wrap(NTag::Span, "bold-text", Node::Text(string_of_range(&chars, start, end))));
        proof {
            let pre = if (last as int) < (start as int) {
                seq![NodeView::Text(text@.subrange(last as int, start as int))]
            } else {
                Seq::<NodeView>::empty()
            };
            assert(node_views(content@) =~= before + pre + seq![wrap_view(
                NTag::Span,
                "bold-text"@,
                NodeView::Text(text@.subrange(start as int, end as int)),
            )]);
        }
        last = end;
        k += 1;
    }
    let ghost before = node_views(content@);
    if last < chars.len() {
        push_node(&mut content, Node::Text(string_of_range(&chars, last, chars.len())));
    }
    assert(node_views(content@) =~= before + bold_pieces(text@, o@.skip(k as int), last as int));
    Node::Array(content)
}

/// A reference without its final colon.
pub open spec fn without_final_colon(r: Seq<char>) -> Seq<char> {
    if r.len() > 0 && r.last() == ':' {
        r.drop_last()
    } else {
        r
    }
}

/// An example: its text, then its translation and its reference when it has them.
pub open spec fn example_node_view(e: ExampleView) -> NodeView {
    let a = seq![wrap_view(NTag::Div, "example-sentence-a"@, example_text_view(e.0, e.3))];
    let b = if e.1.len() > 0 {
        seq![wrap_view(NTag::Div, "example-sentence-b"@, example_text_view(e.1, e.4))]
    } else {
        Seq::<NodeView>::empty()
    };
    let c = if e.2.len() > 0 {
        seq![wrap_view(NTag::Div, "example-sentence-c"@, NodeView::Text(without_final_colon(e.2)))]
    } else {
        Seq::<NodeView>::empty()
    };
    wrap_view(NTag::Div, "extra-info"@, wrap_view(NTag::Div, "example-sentence"@, NodeView::Array(a + b + c)))
}

/// An example whose bold ranges (those kept by sanitizing, see [`sanitized`]) do not start after
/// they end, in its text and, when it has one, in its translation.
pub open spec fn example_ok(e: ExampleView) -> bool {
    &&& ranges_ordered(sanitized(e.3, e.0.len() as usize))
    &&& e.1.len() > 0 ==> ranges_ordered(sanitized(e.4, e.1.len() as usize))
}

/// Whether no range starts after it ends.
fn ordered_ranges(o: &Vec<Offset>) -> (r: bool)
    ensures
        r == ranges_ordered(o@),
{
    let mut i: usize = 0;
    while i < o.len()
        invariant
            i <= o@.len(),
            forall|j: int| 0 <= j < i ==> #[trigger] o@[j].0 <= o@[j].1,
        decreases o@.len() - i,
    {
        if o[i].0 > o[i].1 {
            return false;
        }
        i += 1;
    }
    true
}

/// Whether an example can be shown (see [`example_ok`]).
pub fn example_renderable(example: &Example) -> (r: bool)
    ensures
        r == example_ok(example_view(*example)),
{
    let text = chars_of(example.text.as_str());
    let o = sanitize_offsets(example.bold_text_offsets.as_slice(), text.len());
    if !ordered_ranges(&o) {
        return false;
    }
    let translation = chars_of(example.translation.as_str());
    if translation.len() == 0 {
        return true;
    }
    let t = sanitize_offsets(example.bold_translation_offsets.as_slice(), translation.len());
    ordered_ranges(&t)
}

/// An example (see [`example_node_view`]).
pub fn structured_example(example: &Example) -> (r: Node)
    requires
        example_ok(example_view(*example)),
    ensures
        node_view(r) == example_node_view(example_view(*example)),
{
    let ghost e = example_view(*example);
    let mut items: Vec<Node> = Vec::new();
    assert(node_views(items@) =~= Seq::<NodeView>::empty());
    push_node(&mut items, wrap(NTag::Div, "example-sentence-a", structured_example_text(example.text.as_str(), &example.bold_text_offsets)));
    if !example.translation.as_str().is_empty() {
        push_node(
            &mut items,
            wrap(NTag::Div, "example-sentence-b", structured_example_text(example.translation.as_str(), &example.bold_translation_offsets)),
        );
    }
    if !example.reference.as_str().is_empty() {
        let cs = chars_of(example.reference.as_str());
        let reference = if cs[cs.len() - 1] == ':' {
            string_of_range(&cs, 0, cs.len() - 1)
        } else {
            owned(example.reference.as_str())
        };
        assert(reference@ == without_final_colon(e.2));
        push_node(&mut items, wrap(NTag::Div, "example-sentence-c", Node::Text(reference)));
    }
    let ghost a = seq![wrap_view(NTag::Div, "example-sentence-a"@, example_text_view(e.0, e.3))];
    let ghost b = if e.1.len() > 0 {
        seq![wrap_view(NTag::Div, "example-sentence-b"@, example_text_view(e.1, e.4))]
    } else {
        Seq::<NodeView>::empty()
    };
    let ghost c = if e.2.len() > 0 {
        seq![wrap_view(NTag::Div, "example-sentence-c"@, NodeView::Text(without_final_colon(e.2)))]
    } else {
        Seq::<NodeView>::empty()
    };
    assert(node_views(items@) =~= a + b + c);
    let inner = wrap(NTag::Div, "example-sentence", Node::Array(items));
    wrap(NTag::Div, "extra-info", inner)
}

/// "1 example", "3 examples", in `target`.
pub open spec fn examples_label(target: Lang, n: nat) -> Seq<char> {
    crate::text::decimal(n) + seq![' '] + (if n == 1 {
        example_words(target).0
    } else {
        example_words(target).1
    })
}

/// The examples of a gloss, in a details block titled with their number.
pub open spec fn examples_view(target: Lang, exs: Seq<ExampleView>) -> NodeView {
    wrap_view(
        NTag::Details,
        "details-entry-examples"@,
        NodeView::Array(
            seq![wrap_view(NTag::Summary, "summary-entry"@, NodeView::Text(examples_label(target, exs.len())))]
                + exs.map_values(|e: ExampleView| example_node_view(e)),
        ),
    )
}

/// The examples of a gloss (see [`examples_view`]).
pub fn structured_examples(target: Lang, examples: &Vec<Example>) -> (r: Node)
    requires
        forall|i: int| 0 <= i < examples@.len() ==> example_ok(#[trigger] example_view(examples@[i])),
    ensures
        node_view(r) == examples_view(target, crate::dict::main::ir::example_views(examples@)),
{
    let ghost ev = crate::dict::main::ir::example_views(examples@);
    let mut items: Vec<Node> = Vec::new();
    assert(node_views(items@) =~= Seq::<NodeView>::empty());
    push_node(
        &mut items,
        wrap(NTag::Summary, "summary-entry", Node::Text(localize_examples_string(target, examples.len()))),
    );
    let ghost head = seq![wrap_view(NTag::Summary, "summary-entry"@, NodeView::Text(examples_label(target, ev.len())))];
    let mut i: usize = 0;
    while i < examples.len()
        invariant
            i <= examples@.len(),
            ev == crate::dict::main::ir::example_views(examples@),
            forall|j: int| 0 <= j < examples@.len() ==> example_ok(#[trigger] example_view(examples@[j])),
            node_views(items@) == head + ev.take(i as int).map_values(|e: ExampleView| example_node_view(e)),
        decreases examples@.len() - i,
    {
        assert(example_ok(example_view(examples@[i as int])));
        push_node(&mut items, structured_example(&examples[i]));
        assert(ev.take(i + 1) =~= ev.take(i as int).push(ev[i as int]));
        assert(ev.take(i + 1).map_values(|e: ExampleView| example_node_view(e)) =~= ev.take(i as int).map_values(
            |e: ExampleView| example_node_view(e),
        ).push(example_node_view(ev[i as int])));
        i += 1;
    }
    assert(ev.take(examples@.len() as int) =~= ev);
    wrap(NTag::Details, "details-entry-examples", Node::Array(items))
}

/// The sorting order of bank entry `e`.
pub open spec fn order_of(e: int) -> int {
    TAG_SORT_ORDER@[e] as int
}

/// An entry sorted after `x`.
pub open spec fn sorted_after(x: int) -> spec_fn(int) -> bool {
    |y: int| order_of(y) > order_of(x)
}

/// `s` with `x` inserted before the first entry sorted after it.
pub open spec fn insert_by_order(s: Seq<int>, x: int) -> Seq<int> {
    s.insert(first_index(s, sorted_after(x)), x)
}

/// Bank entries sorted by their sorting order, stably (an insertion sort).
pub open spec fn sort_by_order(es: Seq<int>) -> Seq<int>
    decreases es.len(),
{
    if es.len() == 0 {
        es
    } else {
        insert_by_order(sort_by_order(es.drop_last()), es.last())
    }
}

/// A tag listed in the bank.
pub open spec fn in_bank() -> spec_fn(Seq<char>) -> bool {
    |t: Seq<char>| bank_entry_of(t) is Some
}

/// An entry whose short form is not among `common`.
pub open spec fn not_common(common: Seq<Seq<char>>) -> spec_fn(int) -> bool {
    |e: int| !common.contains(TAG_SHORT@[e]@)
}

/// The bank entries of `tags` (those listed), without those whose short form is in `common`.
pub open spec fn tag_entries(tags: Seq<Seq<char>>, common: Seq<Seq<char>>) -> Seq<int> {
    tags.filter(in_bank()).map_values(|t: Seq<char>| bank_entry_of(t)->0).filter(not_common(common))
}

/// A tag as shown on a gloss: its short form (localized in `target` when there is a
/// localization), its long form as a title, and its category.
pub open spec fn tag_node_view(target: Lang, e: int) -> NodeView {
    let short = TAG_SHORT@[e]@;
    let forms = match tag_localization(target, short) {
        Some(p) => p,
        None => (short, TAG_LONG@[e]@),
    };
    NodeView::Generic(
        NTag::Span,
        Some(forms.1),
        Some(seq![(NodeDataKey::Content, "tag"@), (NodeDataKey::Category, TAG_CATEGORY@[e]@)]),
        Box::new(NodeView::Text(forms.0)),
    )
}

/// The tags of a gloss (see [`tag_entries`]), sorted by their order since Yomitan only sorts
/// top-level tags; none without tags.
pub open spec fn tags_view(target: Lang, tags: Seq<Seq<char>>, common: Seq<Seq<char>>) -> Option<NodeView> {
    let es = sort_by_order(tag_entries(tags, common));
    if es.len() == 0 {
        None
    } else {
        Some(wrap_view(NTag::Div, "tags"@, NodeView::Array(es.map_values(|e: int| tag_node_view(target, e)))))
    }
}

/// A tag as shown on a gloss (see [`tag_node_view`]).
fn tag_node(target: Lang, e: usize) -> (r: Node)
    requires
        e < TAG_BANK_LEN,
    ensures
        node_view(r) == tag_node_view(target, e as int),
{
    let (short, long) = match localize_tag(target, TAG_SHORT[e]) {
        Some((s, l)) => (owned(s), owned(l)),
        None => (owned(TAG_SHORT[e]), owned(TAG_LONG[e])),
    };
    let mut data: Vec<(NodeDataKey, String)> = Vec::new();
    data.push((NodeDataKey::Content, owned("tag")));
    data.push((NodeDataKey::Category, owned(TAG_CATEGORY[e])));
    let nd = NodeData(data);
    assert(crate::models::yomitan::data_view(Some(nd)) == Some(seq![(NodeDataKey::Content, "tag"@), (
        NodeDataKey::Category,
        TAG_CATEGORY@[e as int]@,
    )])) by {
        assert(nd.0@.map_values(|x: (NodeDataKey, String)| (x.0, x.1@)) =~= seq![(NodeDataKey::Content, "tag"@), (
            NodeDataKey::Category,
            TAG_CATEGORY@[e as int]@,
        )]);
    }
    let g = GenericNode { tag: NTag::Span, title: Some(long), data: Some(nd), content: Node::Text(short) };
    let ghost forms = match tag_localization(target, TAG_SHORT@[e as int]@) {
        Some(p) => p,
        None => (TAG_SHORT@[e as int]@, TAG_LONG@[e as int]@),
    };
    assert(short@ == forms.0 && long@ == forms.1);
    assert(crate::models::yomitan::opt_text(g.title) == Some(forms.1));
    assert(node_view(g.content) == NodeView::Text(forms.0));
    g.into_node()
}

/// The tags of a gloss (see [`tags_view`]).
pub fn structured_tags(target: Lang, tags: &Vec<String>, common: &Vec<String>) -> (r: Option<Node>)
    ensures
        match tags_view(target, views(tags@), views(common@)) {
            Some(v) => r is Some && node_view(r->0) == v,
            None => r is None,
        },
{
    let ghost tv = views(tags@);
    let mut sorted: Vec<usize> = Vec::new();
    let mut i: usize = 0;
    assert(tv.take(0).filter(in_bank()) =~= Seq::<Seq<char>>::empty());
    assert(tv.take(0).filter(in_bank()).map_values(|t: Seq<char>| bank_entry_of(t)->0).filter(not_common(views(common@)))
        =~= Seq::<int>::empty());
    while i < tags.len()
        invariant
            i <= tags@.len(),
            tv == views(tags@),
            forall|j: int| 0 <= j < sorted@.len() ==> #[trigger] sorted@[j] < TAG_BANK_LEN,
            sorted@.map_values(|e: usize| e as int) == sort_by_order(
                tv.take(i as int).filter(in_bank()).map_values(|t: Seq<char>| bank_entry_of(t)->0).filter(not_common(views(common@))),
            ),
        decreases tags@.len() - i,
    {
        let ghost prev = tv.take(i as int).filter(in_bank()).map_values(|t: Seq<char>| bank_entry_of(t)->0).filter(not_common(views(common@)));
        proof { crate::seqs::lemma_filter_take(tv, in_bank(), i as int); }
        match find_tag_entry(tags[i].as_str()) {
            Some(e) => {
                assert(tv[i as int] == tags@[i as int]@);
                assert(in_bank()(tv[i as int]));
                let ghost fi = tv.take(i + 1).filter(in_bank());
                assert(fi =~= tv.take(i as int).filter(in_bank()).push(tv[i as int]));
                let ghost mapped = fi.map_values(|t: Seq<char>| bank_entry_of(t)->0);
                assert(mapped =~= tv.take(i as int).filter(in_bank()).map_values(|t: Seq<char>| bank_entry_of(t)->0).push(e as int));
                proof {
                    crate::seqs::lemma_filter_take_push(
                        tv.take(i as int).filter(in_bank()).map_values(|t: Seq<char>| bank_entry_of(t)->0),
                        e as int,
                        not_common(views(common@)),
                    );
                }
                if !string_in(common, TAG_SHORT[e]) {
                    let ghost before = sorted@.map_values(|x: usize| x as int);
                    let mut p: usize = 0;
                    while p < sorted.len() && !(TAG_SORT_ORDER[sorted[p]] > TAG_SORT_ORDER[e])
                        invariant
                            p <= sorted@.len(),
                            e < TAG_BANK_LEN,
                            forall|j: int| 0 <= j < sorted@.len() ==> #[trigger] sorted@[j] < TAG_BANK_LEN,
                            before == sorted@.map_values(|x: usize| x as int),
                            forall|j: int| 0 <= j < p ==> !sorted_after(e as int)(#[trigger] before[j]),
                        decreases sorted@.len() - p,
                    {
                        p += 1;
                    }
                    proof { lemma_first_index(before, sorted_after(e as int), p as int); }
                    sorted.insert(p, e);
                    assert(sorted@.map_values(|x: usize| x as int) =~= before.insert(p as int, e as int));
                    assert(not_common(views(common@))(e as int));
                    assert(prev.push(e as int).drop_last() =~= prev);
                    assert(sort_by_order(prev.push(e as int)) == insert_by_order(sort_by_order(prev), e as int));
                } else {
                    assert(!not_common(views(common@))(e as int));
                }
            },
            None => {
                assert(tv.take(i + 1).filter(in_bank()) =~= tv.take(i as int).filter(in_bank()));
            },
        }
        i += 1;
    }
    assert(tv.take(tags@.len() as int) =~= tv);
    if sorted.len() == 0 {
        return None;
    }
    let mut items: Vec<Node> = Vec::new();
    let ghost es = sorted@.map_values(|e: usize| e as int);
    let mut k: usize = 0;
    assert(node_views(items@) =~= Seq::<NodeView>::empty());
    while k < sorted.len()
        invariant
            k <= sorted@.len(),
            es == sorted@.map_values(|e: usize| e as int),
            forall|j: int| 0 <= j < sorted@.len() ==> #[trigger] sorted@[j] < TAG_BANK_LEN,
            node_views(items@) == es.take(k as int).map_values(|e: int| tag_node_view(target, e)),
        decreases sorted@.len() - k,
    {
        push_node(&mut items, tag_node(target, sorted[k]));
        assert(es.take(k + 1).map_values(|e: int| tag_node_view(target, e)) =~= es.take(k as int).map_values(
            |e: int| tag_node_view(target, e),
        ).push(tag_node_view(target, es[k as int])));
        k += 1;
    }
    assert(es.take(sorted@.len() as int) =~= es);
    Some(wrap(NTag::Div, "tags", Node::Array(items)))
}

} // verus!
