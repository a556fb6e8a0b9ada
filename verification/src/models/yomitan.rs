//! Yomitan data model.
//!
//! Most of the structs and enums are simplified and trimmed of unused fields.
//! See the Yomitan dictionary schemas:
//! <https://github.com/yomidevs/yomitan/tree/master/ext/data/schemas>
use vstd::prelude::*;
use crate::text::{owned, views};

verus! {

/// An entry of a Yomitan dictionary bank.
#[derive(Debug)]
pub enum YomitanEntry {
    TermInfo(TermInfo),
    TermInfoForm(TermInfoForm),
    TermMeta(TermMeta),
}

impl YomitanEntry {
    /// The prefix of the bank files that hold this kind of entry.
    pub fn file_prefix(&self) -> (r: &'static str)
        ensures
            r@ == (if self is TermMeta {
                "term_meta_bank"@
            } else {
                "term_bank"@
            }),
    {
        match self {
            YomitanEntry::TermInfo(_) | YomitanEntry::TermInfoForm(_) => "term_bank",
            YomitanEntry::TermMeta(_) => "term_meta_bank",
        }
    }

    /// The term that the entry is about.
    pub fn term(&self) -> (r: &str)
        ensures
            r@ == match self {
                YomitanEntry::TermInfo(t) => t.term@,
                YomitanEntry::TermInfoForm(t) => t.term@,
                YomitanEntry::TermMeta(TermMeta::TermPhoneticTranscription(t)) => t.term@,
            },
    {
        match self {
            YomitanEntry::TermInfo(t) => t.term.as_str(),
            YomitanEntry::TermInfoForm(t) => t.term.as_str(),
            YomitanEntry::TermMeta(TermMeta::TermPhoneticTranscription(t)) => t.term.as_str(),
        }
    }
}

/// A term: its reading, definition tags, rules and definitions. (Frequency, sequence and term
/// tags are written as constants.)
#[derive(Debug)]
pub struct TermInfo {
    pub term: String,
    pub reading: String,
    pub definition_tags: Vec<TagInfo>,
    /// Space-separated rules.
    pub rules: String,
    pub definitions: Vec<DetailedDefinition>,
}

impl TermInfo {
    /// A term. Yomitan discards a reading equal to the term, so it must differ (the empty
    /// reading stands for none).
    pub fn new(
        term: String,
        reading: String,
        definition_tags: Vec<TagInfo>,
        rules: String,
        definitions: Vec<DetailedDefinition>,
    ) -> (r: TermInfo)
        requires
            term@ != reading@,
        ensures
            r == (TermInfo { term, reading, definition_tags, rules, definitions }),
    {
        TermInfo { term, reading, definition_tags, rules, definitions }
    }
}

/// A term whose definition tags are the fixed `non-lemma`: used for forms.
#[derive(Debug)]
pub struct TermInfoForm {
    pub term: String,
    pub reading: String,
    /// Space-separated rules.
    pub rules: String,
    pub definitions: Vec<DetailedDefinition>,
}

impl TermInfoForm {
    /// A form. The reading must differ from the term.
    pub fn new(term: String, reading: String, rules: String, definitions: Vec<DetailedDefinition>) -> (r: TermInfoForm)
        requires
            term@ != reading@,
        ensures
            r == (TermInfoForm { term, reading, rules, definitions }),
    {
        TermInfoForm { term, reading, rules, definitions }
    }
}

/// A term meta entry (the only kind used: a phonetic transcription).
#[derive(Debug)]
pub enum TermMeta {
    TermPhoneticTranscription(TermPhoneticTranscription),
}

/// The transcriptions of a term.
#[derive(Debug)]
pub struct TermPhoneticTranscription {
    pub term: String,
    pub transcription: PhoneticTranscription,
}

impl TermPhoneticTranscription {
    pub fn new(term: String, transcription: PhoneticTranscription) -> (r: TermPhoneticTranscription)
        ensures
            r == (TermPhoneticTranscription { term, transcription }),
    {
        TermPhoneticTranscription { term, transcription }
    }
}

/// A reading and its IPA transcriptions.
#[derive(Debug, Default)]
pub struct PhoneticTranscription {
    pub reading: String,
    pub transcriptions: Vec<Ipa>,
}

/// One IPA transcription with its tags.
#[derive(Debug, Default)]
pub struct Ipa {
    pub ipa: String,
    pub tags: Vec<String>,
}

/// A structured content node.
#[derive(Debug)]
pub enum Node {
    Text(String),
    Array(Vec<Node>),
    Generic(Box<GenericNode>),
    Backlink(BacklinkContent),
}

impl Node {
    /// Appends a node to an array node (it must be one).
    pub fn push(&mut self, node: Node)
        requires
            *old(self) is Array,
        ensures
            *final(self) is Array,
            final(self)->Array_0@ == old(self)->Array_0@.push(node),
            node_view(*final(self)) == NodeView::Array(node_views(old(self)->Array_0@).push(node_view(node))),
    {
        proof { lemma_node_views_push(old(self)->Array_0@, node); }
        match self {
            Node::Array(v) => v.push(node),
            _ => {},
        }
    }

    /// An empty array node.
    pub fn new_array() -> (r: Node)
        ensures
            r is Array && r->Array_0@.len() == 0,
            node_view(r) == NodeView::Array(Seq::<NodeView>::empty()),
    {
        let r = Node::Array(Vec::new());
        assert(node_views(r->Array_0@) =~= Seq::<NodeView>::empty());
        r
    }

    /// An array node holding this node alone.
    pub fn into_array_node(self) -> (r: Node)
        ensures
            r is Array && r->Array_0@ == seq![self],
            node_view(r) == NodeView::Array(seq![node_view(self)]),
    {
        let ghost me = self;
        let mut v: Vec<Node> = Vec::new();
        v.push(self);
        proof { lemma_node_views_ext(v@, seq![node_view(me)]); }
        Node::Array(v)
    }
}

/// A key of the data attributes of a node.
#[derive(Debug, Clone, Copy, PartialEq, Eq, Structural, Hash)]
pub enum NodeDataKey {
    Content,
    Category,
}

/// The data attributes of a node, in insertion order.
#[derive(Debug)]
pub struct NodeData(pub Vec<(NodeDataKey, String)>);

/// The tag of a [`GenericNode`].
#[derive(Debug, Clone, Copy, PartialEq, Eq, Structural)]
pub enum NTag {
    Span,
    Div,
    Ol,
    Ul,
    Li,
    Details,
    Summary,
}

/// An element node: its tag, optional title and data attributes, and content.
#[derive(Debug)]
pub struct GenericNode {
    pub tag: NTag,
    pub title: Option<String>,
    pub data: Option<NodeData>,
    pub content: Node,
}

impl GenericNode {
    /// The node made of this element.
    pub fn into_node(self) -> (r: Node)
        ensures
            r == Node::Generic(Box::new(self)),
    {
        Node::Generic(Box::new(self))
    }
}

/// The site that a backlink leads to.
#[derive(Debug, Clone, Copy, PartialEq, Eq, Structural)]
pub enum BacklinkContentKind {
    Wiktionary,
    Kaikki,
}

/// A link back to the source of an entry.
#[derive(Debug)]
pub struct BacklinkContent {
    pub href: String,
    pub content: BacklinkContentKind,
}

impl BacklinkContent {
    pub fn new(href: String, content: BacklinkContentKind) -> (r: BacklinkContent)
        ensures
            r == (BacklinkContent { href, content }),
    {
        BacklinkContent { href, content }
    }
}

/// A definition: plain text, structured content, or an inflection (the lemma and the rules).
#[derive(Debug)]
pub enum DetailedDefinition {
    Text(String),
    StructuredContent(StructuredContent),
    Inflection((String, Vec<String>)),
}

impl DetailedDefinition {
    /// A definition made of structured content.
    pub fn structured(content: Node) -> (r: DetailedDefinition)
        ensures
            r == DetailedDefinition::StructuredContent(StructuredContent { content }),
    {
        DetailedDefinition::StructuredContent(StructuredContent { content })
    }
}

/// A definition, as character sequences and node views.
pub enum DefinitionView {
    Text(Seq<char>),
    Structured(NodeView),
    Inflection(Seq<char>, Seq<Seq<char>>),
}

/// The view of a definition.
pub open spec fn definition_view(d: DetailedDefinition) -> DefinitionView {
    match d {
        DetailedDefinition::Text(s) => DefinitionView::Text(s@),
        DetailedDefinition::StructuredContent(sc) => DefinitionView::Structured(node_view(sc.content)),
        DetailedDefinition::Inflection(p) => DefinitionView::Inflection(p.0@, views(p.1@)),
    }
}

/// The views of definitions.
pub open spec fn definition_views(s: Seq<DetailedDefinition>) -> Seq<DefinitionView> {
    s.map_values(|d: DetailedDefinition| definition_view(d))
}

/// Structured content (its type, `structured-content`, is written as a constant).
#[derive(Debug)]
pub struct StructuredContent {
    pub content: Node,
}

/// The data attributes that `wrap` gives a node of content type `content_ty`: none for the
/// empty type, else the one `content` attribute.
pub open spec fn wrap_data_matches(data: Option<NodeData>, content_ty: Seq<char>) -> bool {
    if content_ty.len() == 0 {
        data is None
    } else {
        data is Some && data.unwrap().0@.len() == 1 && data.unwrap().0@[0].0 == NodeDataKey::Content
            && data.unwrap().0@[0].1@ == content_ty
    }
}

/// An element node with `tag`, no title, and data `content: content_ty` unless `content_ty` is
/// empty, around `content`.
pub fn wrap(tag: NTag, content_ty: &str, content: Node) -> (r: Node)
    ensures
        r is Generic,
        r->Generic_0.tag == tag,
        r->Generic_0.title is None,
        wrap_data_matches(r->Generic_0.data, content_ty@),
        r->Generic_0.content == content,
        node_view(r) == wrap_view(tag, content_ty@, node_view(content)),
{
    let data = if content_ty.is_empty() {
        None
    } else {
        let mut v: Vec<(NodeDataKey, String)> = Vec::new();
        v.push((NodeDataKey::Content, owned(content_ty)));
        let d = NodeData(v);
        assert(data_view(Some(d)) == Some(seq![(NodeDataKey::Content, content_ty@)])) by {
            assert(d.0@.map_values(|e: (NodeDataKey, String)| (e.0, e.1@)) =~= seq![(NodeDataKey::Content, content_ty@)]);
        }
        Some(d)
    };
    GenericNode { tag, title: None, data, content }.into_node()
}

/// A tag of the tag bank: short form, category, sorting order, long form and popularity.
#[derive(Debug, Clone, PartialEq, Eq)]
pub struct TagInfo {
    pub short_tag: String,
    pub category: String,
    pub sort_order: i32,
    pub long_tag: String,
    pub popularity_score: i32,
}

/// `t` holds these values.
pub open spec fn tag_info_is(
    t: TagInfo,
    short_tag: Seq<char>,
    category: Seq<char>,
    sort_order: i32,
    long_tag: Seq<char>,
    popularity_score: i32,
) -> bool {
    &&& t.short_tag@ == short_tag
    &&& t.category@ == category
    &&& t.sort_order == sort_order
    &&& t.long_tag@ == long_tag
    &&& t.popularity_score == popularity_score
}

impl TagInfo {
    /// The tag of a bank entry (short, category, order, long forms, popularity); its long form
    /// is the first one. The short form cannot hold a space, which Yomitan splits on.
    pub fn new(entry: &(&str, &str, i32, &[&str], i32)) -> (r: TagInfo)
        requires
            entry.3@.len() > 0,
            !entry.0@.contains(' '),
        ensures
            tag_info_is(r, entry.0@, entry.1@, entry.2, entry.3@[0]@, entry.4),
    {
        TagInfo {
            short_tag: owned(entry.0),
            category: owned(entry.1),
            sort_order: entry.2,
            long_tag: owned(entry.3[0]),
            popularity_score: entry.4,
        }
    }
}

/// A node as a mathematical value: texts as character sequences.
pub enum NodeView {
    Text(Seq<char>),
    Array(Seq<NodeView>),
    Generic(NTag, Option<Seq<char>>, Option<Seq<(NodeDataKey, Seq<char>)>>, Box<NodeView>),
    Backlink(Seq<char>, BacklinkContentKind),
}

/// The view of data attributes.
pub open spec fn data_view(d: Option<NodeData>) -> Option<Seq<(NodeDataKey, Seq<char>)>> {
    match d {
        Some(nd) => Some(nd.0@.map_values(|e: (NodeDataKey, String)| (e.0, e.1@))),
        None => None,
    }
}

/// The view of an optional string.
pub open spec fn opt_text(o: Option<String>) -> Option<Seq<char>> {
    match o {
        Some(s) => Some(s@),
        None => None,
    }
}

/// The view of a node.
pub open spec fn node_view(n: Node) -> NodeView
    decreases n,
{
    match n {
        Node::Text(s) => NodeView::Text(s@),
        Node::Array(v) => NodeView::Array(node_views(v@)),
        Node::Generic(g) => NodeView::Generic(g.tag, opt_text(g.title), data_view(g.data), Box::new(node_view(g.content))),
        Node::Backlink(b) => NodeView::Backlink(b.href@, b.content),
    }
}

/// The views of nodes.
pub open spec fn node_views(v: Seq<Node>) -> Seq<NodeView>
    decreases v,
{
    if v.len() == 0 {
        Seq::<NodeView>::empty()
    } else {
        node_views(v.drop_last()).push(node_view(v.last()))
    }
}

/// The views of nodes are the views of each node.
pub proof fn lemma_node_views_index(v: Seq<Node>)
    ensures
        node_views(v).len() == v.len(),
        forall|i: int| 0 <= i < v.len() ==> #[trigger] node_views(v)[i] == node_view(v[i]),
    decreases v.len(),
{
    if v.len() > 0 {
        lemma_node_views_index(v.drop_last());
        assert forall|i: int| 0 <= i < v.len() implies #[trigger] node_views(v)[i] == node_view(v[i]) by {
            if i < v.len() - 1 {
                assert(node_views(v)[i] == node_views(v.drop_last())[i]);
            }
        }
    }
}

/// Nodes whose views are `n`, one by one, have the views `n`.
pub proof fn lemma_node_views_ext(v: Seq<Node>, n: Seq<NodeView>)
    requires
        n.len() == v.len(),
        forall|i: int| 0 <= i < v.len() ==> n[i] == node_view(#[trigger] v[i]),
    ensures
        node_views(v) == n,
{
    lemma_node_views_index(v);
    assert(node_views(v) =~= n);
}

/// Appending a node appends its view.
pub proof fn lemma_node_views_push(v: Seq<Node>, x: Node)
    ensures
        node_views(v.push(x)) == node_views(v).push(node_view(x)),
{
    assert(v.push(x).drop_last() =~= v);
}

/// The views of two sequences of nodes, one after the other.
pub proof fn lemma_node_views_add(a: Seq<Node>, b: Seq<Node>)
    ensures
        node_views(a + b) == node_views(a) + node_views(b),
{
    lemma_node_views_index(a);
    lemma_node_views_index(b);
    lemma_node_views_index(a + b);
    assert(node_views(a + b) =~= node_views(a) + node_views(b));
}

/// The element `wrap` makes: `tag`, no title, data `content: ty` unless `ty` is empty.
pub open spec fn wrap_view(tag: NTag, ty: Seq<char>, content: NodeView) -> NodeView {
    NodeView::Generic(
        tag,
        None,
        if ty.len() == 0 {
            None
        } else {
            Some(seq![(NodeDataKey::Content, ty)])
        },
        Box::new(content),
    )
}

} // verus!
