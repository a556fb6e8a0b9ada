//! The glosses of a lemma as structured content: a list of glosses, each with the tags that
//! set it apart, its examples, and the more specific glosses under it.
use vstd::prelude::*;
use crate::lang::Lang;
use crate::dict::main::ir::{GlossInfo, GlossNode, GlossTree, gloss_node, gloss_nodes, lemma_gloss_nodes_index};
use crate::models::yomitan::{NTag, Node, NodeView, lemma_node_views_add, node_view, node_views, wrap, wrap_view};
use crate::seqs::lemma_filter_take;
use crate::text::{clone_strings, owned, string_in, views};
use super::yomitan::{example_ok, examples_view, push_node, structured_examples, structured_tags, tags_view};

verus! {

/// A tag that is not among `common`.
pub open spec fn not_among(common: Seq<Seq<char>>) -> spec_fn(Seq<char>) -> bool {
    |t: Seq<char>| !common.contains(t)
}

/// The tags and topics of a gloss that are not among `common` (those of the glosses above it,
/// and those that every gloss of the lemma has).
pub open spec fn minimal_tags(n: GlossNode, common: Seq<Seq<char>>) -> Seq<Seq<char>> {
    (n.tags + n.topics).filter(not_among(common))
}

/// The examples of every gloss of the tree are well formed (see [`example_ok`]).
pub open spec fn glosses_ok(nodes: Seq<GlossNode>) -> bool
    decreases nodes,
{
    if nodes.len() == 0 {
        true
    } else {
        glosses_ok(nodes.drop_last()) && gloss_ok(nodes.last())
    }
}

/// The examples of a gloss and of every gloss under it are well formed.
pub open spec fn gloss_ok(n: GlossNode) -> bool
    decreases n,
{
    &&& forall|j: int| 0 <= j < n.examples.len() ==> example_ok(#[trigger] n.examples[j])
    &&& glosses_ok(n.children)
}

/// What a gloss shows: its tags (see [`tags_view`]), the gloss, then its examples if it has any.
pub open spec fn gloss_content(target: Lang, n: GlossNode, common: Seq<Seq<char>>) -> Seq<NodeView> {
    let tags = match tags_view(target, minimal_tags(n, common), common) {
        Some(t) => seq![t],
        None => Seq::<NodeView>::empty(),
    };
    let examples = if n.examples.len() > 0 {
        seq![examples_view(target, n.examples)]
    } else {
        Seq::<NodeView>::empty()
    };
    tags + seq![NodeView::Text(n.gloss)] + examples
}

/// The nodes of one gloss: its content, in a `div` at the top level and in an `li` below it;
/// then, if it has children, a list of them, in which its own tags are not shown again.
pub open spec fn gloss_level_views(target: Lang, n: GlossNode, common: Seq<Seq<char>>, top: bool) -> Seq<NodeView>
    decreases n,
{
    let item = wrap_view(
        if top { NTag::Div } else { NTag::Li },
        ""@,
        NodeView::Array(gloss_content(target, n, common)),
    );
    if n.children.len() == 0 {
        seq![item]
    } else {
        seq![
            item,
            wrap_view(
                NTag::Ul,
                ""@,
                NodeView::Array(glosses_go_view(target, n.children, minimal_tags(n, common) + common, false)),
            ),
        ]
    }
}

/// The nodes of the glosses of one level, one gloss after the other.
pub open spec fn glosses_go_view(target: Lang, nodes: Seq<GlossNode>, common: Seq<Seq<char>>, top: bool) -> Seq<NodeView>
    decreases nodes,
{
    if nodes.len() == 0 {
        Seq::<NodeView>::empty()
    } else {
        glosses_go_view(target, nodes.drop_last(), common, top) + gloss_level_views(target, nodes.last(), common, top)
    }
}

/// A top-level gloss as an item of the list of glosses.
pub open spec fn top_item(target: Lang, common: Seq<Seq<char>>) -> spec_fn(GlossNode) -> NodeView {
    |n: GlossNode| wrap_view(NTag::Li, ""@, NodeView::Array(gloss_level_views(target, n, common, true)))
}

/// The glosses of a lemma: an ordered list with an item per top-level gloss.
pub open spec fn glosses_view(target: Lang, nodes: Seq<GlossNode>, common: Seq<Seq<char>>) -> NodeView {
    wrap_view(NTag::Ol, "glosses"@, NodeView::Array(nodes.map_values(top_item(target, common))))
}

proof fn lemma_glosses_ok_index(nodes: Seq<GlossNode>, i: int)
    requires
        glosses_ok(nodes),
        0 <= i < nodes.len(),
    ensures
        gloss_ok(nodes[i]),
    decreases nodes.len(),
{
    if i < nodes.len() - 1 {
        lemma_glosses_ok_index(nodes.drop_last(), i);
    }
}

proof fn lemma_glosses_ok_all(nodes: Seq<GlossNode>)
    requires
        forall|i: int| 0 <= i < nodes.len() ==> gloss_ok(#[trigger] nodes[i]),
    ensures
        glosses_ok(nodes),
    decreases nodes.len(),
{
    if nodes.len() > 0 {
        assert forall|i: int| 0 <= i < nodes.drop_last().len() implies gloss_ok(#[trigger] nodes.drop_last()[i]) by {
            assert(nodes.drop_last()[i] == nodes[i]);
        }
        lemma_glosses_ok_all(nodes.drop_last());
        assert(gloss_ok(nodes[nodes.len() - 1]));
    }
}

/// Whether one gloss and those under it can be shown (see [`gloss_ok`]).
fn gloss_renderable(entry: &(String, GlossInfo)) -> (r: bool)
    ensures
        r == gloss_ok(gloss_node(*entry)),
    decreases gloss_node(*entry),
{
    let ghost n = gloss_node(*entry);
    let info = &entry.1;
    assert(n.examples == crate::dict::main::ir::example_views(info.examples@));
    let mut j: usize = 0;
    while j < info.examples.len()
        invariant
            n == gloss_node(*entry),
            n.examples == crate::dict::main::ir::example_views(info.examples@),
            info == &entry.1,
            j <= info.examples@.len(),
            forall|k: int| 0 <= k < j ==> example_ok(#[trigger] n.examples[k]),
        decreases info.examples@.len() - j,
    {
        if !super::yomitan::example_renderable(&info.examples[j]) {
            assert(!example_ok(n.examples[j as int]));
            return false;
        }
        j += 1;
    }
    proof {
        assert(decreases_to!(n => n.children));
    }
    glosses_renderable(&info.children)
}

/// Whether the glosses of a tree can be shown: the bold ranges of their examples (see
/// [`glosses_ok`]).
pub fn glosses_renderable(tree: &GlossTree) -> (r: bool)
    ensures
        r == glosses_ok(gloss_nodes(tree.0@)),
    decreases gloss_nodes(tree.0@),
{
    let ghost gn = gloss_nodes(tree.0@);
    proof { lemma_gloss_nodes_index(tree.0@); }
    let mut i: usize = 0;
    while i < tree.0.len()
        invariant
            i <= tree.0@.len(),
            gn == gloss_nodes(tree.0@),
            gn.len() == tree.0@.len(),
            forall|j: int| 0 <= j < tree.0@.len() ==> #[trigger] gn[j] == gloss_node(tree.0@[j]),
            forall|j: int| 0 <= j < i ==> gloss_ok(#[trigger] gn[j]),
        decreases tree.0@.len() - i,
    {
        proof {
            assert(decreases_to!(gn => gn[i as int]));
        }
        if !gloss_renderable(&tree.0[i]) {
            proof {
                if glosses_ok(gn) {
                    lemma_glosses_ok_index(gn, i as int);
                }
            }
            return false;
        }
        i += 1;
    }
    proof { lemma_glosses_ok_all(gn); }
    true
}

/// The tags and topics of `info` that are not among `common` (see [`minimal_tags`]).
fn minimal_tags_of(info: &GlossInfo, common: &Vec<String>) -> (r: Vec<String>)
    ensures
        views(r@) == (views(info.tags@) + views(info.topics@)).filter(not_among(views(common@))),
{
    let ghost a = views(info.tags@);
    let ghost b = views(info.topics@);
    let ghost p = not_among(views(common@));
    let mut r: Vec<String> = Vec::new();
    let mut k: usize = 0;
    assert(a.take(0).filter(p) =~= Seq::<Seq<char>>::empty());
    while k < info.tags.len()
        invariant
            a == views(info.tags@),
            p == not_among(views(common@)),
            k <= info.tags@.len(),
            views(r@) == a.take(k as int).filter(p),
        decreases info.tags@.len() - k,
    {
        proof { lemma_filter_take(a, p, k as int); }
        let t = &info.tags[k];
        if !string_in(common, t.as_str()) {
            r.push(owned(t.as_str()));
            assert(views(r@) =~= a.take(k as int).filter(p).push(t@));
        }
        k += 1;
    }
    assert(a.take(info.tags@.len() as int) =~= a);
    let mut k: usize = 0;
    assert(b.take(0).filter(p) =~= Seq::<Seq<char>>::empty());
    while k < info.topics.len()
        invariant
            a == views(info.tags@),
            b == views(info.topics@),
            p == not_among(views(common@)),
            k <= info.topics@.len(),
            views(r@) == a.filter(p) + b.take(k as int).filter(p),
        decreases info.topics@.len() - k,
    {
        proof { lemma_filter_take(b, p, k as int); }
        let t = &info.topics[k];
        if !string_in(common, t.as_str()) {
            let ghost before = views(r@);
            r.push(owned(t.as_str()));
            assert(views(r@) =~= before.push(t@));
            assert(before.push(t@) =~= a.filter(p) + b.take(k as int).filter(p).push(t@));
        }
        k += 1;
    }
    assert(b.take(info.topics@.len() as int) =~= b);
    proof { Seq::filter_distributes_over_add(a, b, p); }
    r
}

/// The nodes of one gloss (see [`gloss_level_views`]); `level` is 0 at the top.
fn gloss_level(target: Lang, entry: &(String, GlossInfo), common: &Vec<String>, level: usize) -> (r: Vec<Node>)
    requires
        gloss_ok(gloss_node(*entry)),
    ensures
        node_views(r@) == gloss_level_views(target, gloss_node(*entry), views(common@), level == 0),
    decreases gloss_node(*entry),
{
    let ghost n = gloss_node(*entry);
    let ghost cv = views(common@);
    let info = &entry.1;
    proof { lemma_gloss_nodes_index(info.children.0@); }
    let minimal = minimal_tags_of(info, common);
    assert(views(minimal@) == minimal_tags(n, cv));
    let mut content: Vec<Node> = Vec::new();
    assert(node_views(content@) =~= Seq::<NodeView>::empty());
    let ghost tags = match tags_view(target, minimal_tags(n, cv), cv) {
        Some(t) => seq![t],
        None => Seq::<NodeView>::empty(),
    };
    match structured_tags(target, &minimal, common) {
        Some(t) => {
            push_node(&mut content, t);
        },
        None => {},
    }
    assert(node_views(content@) =~= tags);
    push_node(&mut content, Node::Text(owned(entry.0.as_str())));
    if info.examples.len() > 0 {
        assert forall|i: int| 0 <= i < info.examples@.len() implies example_ok(
            #[trigger] crate::dict::main::ir::example_view(info.examples@[i]),
        ) by {
            assert(n.examples[i] == crate::dict::main::ir::example_view(info.examples@[i]));
        }
        push_node(&mut content, structured_examples(target, &info.examples));
    }
    assert(node_views(content@) =~= gloss_content(target, n, cv));
    let mut nested: Vec<Node> = Vec::new();
    assert(node_views(nested@) =~= Seq::<NodeView>::empty());
    let tag = if level == 0 { NTag::Div } else { NTag::Li };
    push_node(&mut nested, wrap(tag, "", Node::Array(content)));
    if info.children.0.len() == 0 {
        assert(node_views(nested@) =~= gloss_level_views(target, n, cv, level == 0));
        return nested;
    }
    let mut new_common = minimal;
    let mut rest = clone_strings(common);
    new_common.append(&mut rest);
    assert(views(new_common@) =~= minimal_tags(n, cv) + cv);
    proof {
        assert(decreases_to!(n => n.children));
    }
    let children = structured_glosses_go(target, &info.children, &new_common, level.saturating_add(1));
    push_node(&mut nested, wrap(NTag::Ul, "", Node::Array(children)));
    assert(node_views(nested@) =~= gloss_level_views(target, n, cv, level == 0));
    nested
}

/// The nodes of the glosses of one level (see [`glosses_go_view`]); `level` is 0 at the top.
fn structured_glosses_go(target: Lang, tree: &GlossTree, common: &Vec<String>, level: usize) -> (r: Vec<Node>)
    requires
        glosses_ok(gloss_nodes(tree.0@)),
    ensures
        node_views(r@) == glosses_go_view(target, gloss_nodes(tree.0@), views(common@), level == 0),
    decreases gloss_nodes(tree.0@),
{
    let ghost gn = gloss_nodes(tree.0@);
    proof { lemma_gloss_nodes_index(tree.0@); }
    let mut nested: Vec<Node> = Vec::new();
    let mut i: usize = 0;
    assert(gn.take(0) =~= Seq::<GlossNode>::empty());
    assert(node_views(nested@) =~= Seq::<NodeView>::empty());
    while i < tree.0.len()
        invariant
            i <= tree.0@.len(),
            gn == gloss_nodes(tree.0@),
            gn.len() == tree.0@.len(),
            forall|j: int| 0 <= j < tree.0@.len() ==> #[trigger] gn[j] == gloss_node(tree.0@[j]),
            glosses_ok(gn),
            node_views(nested@) == glosses_go_view(target, gn.take(i as int), views(common@), level == 0),
        decreases tree.0@.len() - i,
    {
        proof {
            lemma_glosses_ok_index(gn, i as int);
            assert(decreases_to!(gn => gn[i as int]));
        }
        let mut part = gloss_level(target, &tree.0[i], common, level);
        proof { lemma_node_views_add(nested@, part@); }
        nested.append(&mut part);
        assert(gn.take(i + 1).drop_last() =~= gn.take(i as int));
        i += 1;
    }
    assert(gn.take(tree.0@.len() as int) =~= gn);
    nested
}

/// The glosses of a lemma (see [`glosses_view`]); tags in `common` are shown on none of them.
pub fn structured_glosses(target: Lang, gloss_tree: &GlossTree, common: &Vec<String>) -> (r: Node)
    requires
        glosses_ok(gloss_nodes(gloss_tree.0@)),
    ensures
        node_view(r) == glosses_view(target, gloss_nodes(gloss_tree.0@), views(common@)),
{
    let ghost gn = gloss_nodes(gloss_tree.0@);
    proof { lemma_gloss_nodes_index(gloss_tree.0@); }
    let mut items: Vec<Node> = Vec::new();
    let mut i: usize = 0;
    assert(node_views(items@) =~= Seq::<NodeView>::empty());
    while i < gloss_tree.0.len()
        invariant
            i <= gloss_tree.0@.len(),
            gn == gloss_nodes(gloss_tree.0@),
            gn.len() == gloss_tree.0@.len(),
            forall|j: int| 0 <= j < gloss_tree.0@.len() ==> #[trigger] gn[j] == gloss_node(gloss_tree.0@[j]),
            glosses_ok(gn),
            node_views(items@) == gn.take(i as int).map_values(top_item(target, views(common@))),
        decreases gloss_tree.0@.len() - i,
    {
        proof { lemma_glosses_ok_index(gn, i as int); }
        let part = gloss_level(target, &gloss_tree.0[i], common, 0);
        push_node(&mut items, wrap(NTag::Li, "", Node::Array(part)));
        assert(gn.take(i + 1).map_values(top_item(target, views(common@))) =~= gn.take(i as int).map_values(
            top_item(target, views(common@)),
        ).push(top_item(target, views(common@))(gn[i as int])));
        i += 1;
    }
    assert(gn.take(gloss_tree.0@.len() as int) =~= gn);
    wrap(NTag::Ol, "glosses", Node::Array(items))
}

} // verus!
