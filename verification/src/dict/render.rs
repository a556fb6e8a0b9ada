//! HTML renderings of Yomitan entries, as maud writes them: one close to the Yomitan popup, and
//! one for StarDict readers (mostly KOReader), which leaves out ruby, links and the folded
//! parts of an entry.
use vstd::prelude::*;
use crate::models::yomitan::{
    BacklinkContentKind, DetailedDefinition, NTag, Node, NodeDataKey, NodeView, PhoneticTranscription, TagInfo,
    TermInfo, TermInfoForm, TermMeta, YomitanEntry, lemma_node_views_index, node_view, node_views,
};
use crate::seqs::{first_index, lemma_first_index};
use crate::text::{join_sep, views};

verus! {

/// What maud's escaper writes for one character: `&`, `<`, `>` and `"` as entities, any other
/// character as itself.
pub open spec fn escaped_char(c: char) -> Seq<char> {
    if c == '&' {
        "&amp;"@
    } else if c == '<' {
        "&lt;"@
    } else if c == '>' {
        "&gt;"@
    } else if c == '"' {
        "&quot;"@
    } else {
        seq![c]
    }
}

/// A text escaped for HTML, character by character (see [`escaped_char`]).
pub open spec fn html_escaped(s: Seq<char>) -> Seq<char>
    decreases s.len(),
{
    if s.len() == 0 {
        Seq::<char>::empty()
    } else {
        html_escaped(s.drop_last()) + escaped_char(s.last())
    }
}

/// maud's `Escaper`: writes `s` with `&`, `<`, `>` and `"` escaped (see [`html_escaped`]; maud
/// works on bytes, and these four are the only bytes it changes, none of which occurs inside the
/// encoding of another character).
#[verifier::external_body]
fn escape(s: &str) -> (r: String)
    ensures
        r@ == html_escaped(s@),
{
    let mut r = String::new();
    let _ = std::fmt::Write::write_str(&mut maud::Escaper::new(&mut r), s);
    r
}

/// An attribute with its value escaped.
pub open spec fn attr(name: Seq<char>, value: Seq<char>) -> Seq<char> {
    " "@ + name + "=\""@ + html_escaped(value) + "\""@
}

/// An attribute that is left out without a value.
pub open spec fn opt_attr(name: Seq<char>, value: Option<Seq<char>>) -> Seq<char> {
    match value {
        Some(v) => attr(name, v),
        None => Seq::<char>::empty(),
    }
}

/// An element with its attributes and content.
pub open spec fn element(tag: Seq<char>, attrs: Seq<char>, content: Seq<char>) -> Seq<char> {
    "<"@ + tag + attrs + ">"@ + content + "</"@ + tag + ">"@
}

/// The name of a node tag.
pub open spec fn tag_name(t: NTag) -> Seq<char> {
    match t {
        NTag::Span => "span"@,
        NTag::Div => "div"@,
        NTag::Ol => "ol"@,
        NTag::Ul => "ul"@,
        NTag::Li => "li"@,
        NTag::Details => "details"@,
        NTag::Summary => "summary"@,
    }
}

/// A data attribute with the key `k`.
pub open spec fn data_key_is(k: NodeDataKey) -> spec_fn((NodeDataKey, Seq<char>)) -> bool {
    |e: (NodeDataKey, Seq<char>)| e.0 == k
}

/// The value of the first data attribute with the key `k`, if any.
pub open spec fn data_value(data: Option<Seq<(NodeDataKey, Seq<char>)>>, k: NodeDataKey) -> Option<Seq<char>> {
    match data {
        Some(d) => {
            let i = first_index(d, data_key_is(k));
            if i < d.len() {
                Some(d[i].1)
            } else {
                None
            }
        },
        None => None,
    }
}

/// A node that StarDict leaves out: a folded block, the preamble, a summary, an example.
pub open spec fn stardict_skips(tag: NTag, data: Option<Seq<(NodeDataKey, Seq<char>)>>) -> bool {
    tag == NTag::Details || match data_value(data, NodeDataKey::Content) {
        Some(c) => c == "preamble"@ || c == "summary-entry"@ || c == "example-sentence"@,
        None => false,
    }
}

/// The attributes of an element node: its class, its title (spans only), its data.
pub open spec fn generic_attrs(tag: NTag, title: Option<Seq<char>>, data: Option<Seq<(NodeDataKey, Seq<char>)>>) -> Seq<char> {
    attr("class"@, "gloss-sc-"@ + tag_name(tag)) + (if tag == NTag::Span {
        opt_attr("title"@, title)
    } else {
        Seq::<char>::empty()
    }) + opt_attr("data-sc-content"@, data_value(data, NodeDataKey::Content)) + opt_attr(
        "data-sc-category"@,
        data_value(data, NodeDataKey::Category),
    )
}

/// A node in HTML: a text escaped; an array as its nodes one after the other; an element as
/// an element of the same tag, classed by the tag, with its title (spans only) and its data as
/// `data-sc-` attributes; a backlink as a link. StarDict (`sd`) leaves out the nodes of
/// [`stardict_skips`] and the links.
pub open spec fn rendered_node(sd: bool, n: NodeView) -> Seq<char>
    decreases n,
{
    match n {
        NodeView::Text(t) => html_escaped(t),
        NodeView::Array(v) => rendered_nodes(sd, v),
        NodeView::Generic(tag, title, data, content) => {
            if sd && stardict_skips(tag, data) {
                Seq::<char>::empty()
            } else {
                element(tag_name(tag), generic_attrs(tag, title, data), rendered_node(sd, *content))
            }
        },
        NodeView::Backlink(href, kind) => {
            if sd {
                Seq::<char>::empty()
            } else {
                element(
                    "a"@,
                    attr("href"@, href) + attr("data-sc-content"@, "backlink"@),
                    if kind == BacklinkContentKind::Wiktionary {
                        "Wiktionary"@
                    } else {
                        "Kaikki"@
                    },
                )
            }
        },
    }
}

/// Nodes in HTML, one after the other.
pub open spec fn rendered_nodes(sd: bool, v: Seq<NodeView>) -> Seq<char>
    decreases v,
{
    if v.len() == 0 {
        Seq::<char>::empty()
    } else {
        rendered_nodes(sd, v.drop_last()) + rendered_node(sd, v.last())
    }
}

/// Appends `s` escaped.
fn push_escaped(out: &mut String, s: &str)
    ensures
        final(out)@ == old(out)@ + html_escaped(s@),
{
    let e = escape(s);
    out.append(e.as_str());
}

/// Appends an attribute (see [`attr`]).
fn push_attr(out: &mut String, name: &str, value: &str)
    ensures
        final(out)@ == old(out)@ + attr(name@, value@),
{
    proof {
        reveal_strlit(" ");
        reveal_strlit("=\"");
        reveal_strlit("\"");
    }
    out.append(" ");
    out.append(name);
    out.append("=\"");
    push_escaped(out, value);
    out.append("\"");
    assert(final(out)@ =~= old(out)@ + attr(name@, value@)) by {
        assert(out@ =~= old(out)@ + " "@ + name@ + "=\""@ + html_escaped(value@) + "\""@);
    }
}

/// The name of a node tag (see [`tag_name`]).
fn tag_str(t: NTag) -> (r: &'static str)
    ensures
        r@ == tag_name(t),
{
    match t {
        NTag::Span => "span",
        NTag::Div => "div",
        NTag::Ol => "ol",
        NTag::Ul => "ul",
        NTag::Li => "li",
        NTag::Details => "details",
        NTag::Summary => "summary",
    }
}

/// The value of the first data attribute with the key `k` (see [`data_value`]).
fn data_value_of(data: &Option<crate::models::yomitan::NodeData>, k: NodeDataKey) -> (r: Option<&str>)
    ensures
        match r {
            Some(v) => data_value(crate::models::yomitan::data_view(*data), k) == Some(v@),
            None => data_value(crate::models::yomitan::data_view(*data), k) is None,
        },
{
    match data {
        Some(d) => {
            let ghost dv = d.0@.map_values(|e: (NodeDataKey, String)| (e.0, e.1@));
            assert(crate::models::yomitan::data_view(*data)->0 =~= dv);
            assert(crate::models::yomitan::data_view(*data) == Some(dv));
            let mut i: usize = 0;
            while i < d.0.len()
                invariant
                    i <= d.0@.len(),
                    dv == d.0@.map_values(|e: (NodeDataKey, String)| (e.0, e.1@)),
                    crate::models::yomitan::data_view(*data) == Some(dv),
                    forall|j: int| 0 <= j < i ==> !data_key_is(k)(#[trigger] dv[j]),
                decreases d.0@.len() - i,
            {
                if d.0[i].0 == k {
                    proof { lemma_first_index(dv, data_key_is(k), i as int); }
                    assert(dv[i as int] == (d.0@[i as int].0, d.0@[i as int].1@));
                    assert(data_value(crate::models::yomitan::data_view(*data), k) == Some(dv[i as int].1));
                    return Some(d.0[i].1.as_str());
                }
                i += 1;
            }
            proof { lemma_first_index(dv, data_key_is(k), i as int); }
            None
        },
        None => None,
    }
}

/// Appends a node in HTML (see [`rendered_node`]).
pub fn render_node(sd: bool, n: &Node, out: &mut String)
    ensures
        final(out)@ == old(out)@ + rendered_node(sd, node_view(*n)),
    decreases n, 1nat,
{
    match n {
        Node::Text(t) => {
            push_escaped(out, t.as_str());
        },
        Node::Array(v) => {
            render_nodes(sd, v, out);
        },
        Node::Generic(g) => {
            render_generic(sd, g, out);
        },
        Node::Backlink(b) => {
            if sd {
                assert(out@ =~= old(out)@ + Seq::<char>::empty());
                return;
            }
            let ghost s0 = out@;
            open_tag(out, "a");
            let ghost s1 = out@;
            push_attr(out, "href", b.href.as_str());
            push_attr(out, "data-sc-content", "backlink");
            end_open(out);
            let label = match b.content {
                BacklinkContentKind::Wiktionary => "Wiktionary",
                BacklinkContentKind::Kaikki => "Kaikki",
            };
            out.append(label);
            close_tag(out, "a");
            proof {
                let attrs = attr("href"@, b.href@) + attr("data-sc-content"@, "backlink"@);
                lemma_append2(s1, attr("href"@, b.href@), attr("data-sc-content"@, "backlink"@));
                lemma_element(s0, "a"@, attrs, label@);
            }
        },
    }
}

/// Appends nodes in HTML, one after the other (see [`rendered_nodes`]).
fn render_nodes(sd: bool, v: &Vec<Node>, out: &mut String)
    ensures
        final(out)@ == old(out)@ + rendered_nodes(sd, node_views(v@)),
    decreases v, 0nat,
{
    let ghost nv = node_views(v@);
    let ghost base = out@;
    proof { lemma_node_views_index(v@); }
    let mut i: usize = 0;
    assert(nv.take(0) =~= Seq::<NodeView>::empty());
    while i < v.len()
        invariant
            i <= v@.len(),
            nv == node_views(v@),
            nv.len() == v@.len(),
            forall|j: int| 0 <= j < v@.len() ==> #[trigger] nv[j] == node_view(v@[j]),
            out@ == base + rendered_nodes(sd, nv.take(i as int)),
        decreases v@.len() - i,
    {
        proof {
            assert(decreases_to!(*v => v@));
            assert(decreases_to!(v@ => v@[i as int]));
        }
        render_node(sd, &v[i], out);
        assert(nv.take(i + 1).drop_last() =~= nv.take(i as int));
        assert(nv.take(i + 1).last() == node_view(v@[i as int]));
        assert(out@ =~= base + rendered_nodes(sd, nv.take(i + 1)));
        i += 1;
    }
    assert(nv.take(v@.len() as int) =~= nv);
}

/// Appends the attributes of an element node (see [`generic_attrs`]).
fn push_generic_attrs(g: &crate::models::yomitan::GenericNode, out: &mut String)
    ensures
        final(out)@ == old(out)@ + generic_attrs(
            g.tag,
            crate::models::yomitan::opt_text(g.title),
            crate::models::yomitan::data_view(g.data),
        ),
{
    let ghost before = out@;
    let name = tag_str(g.tag);
    let class = crate::text::concat("gloss-sc-", name);
    push_attr(out, "class", class.as_str());
    let ghost after_class = out@;
    if g.tag == NTag::Span {
        match &g.title {
            Some(t) => push_attr(out, "title", t.as_str()),
            None => {},
        }
    }
    let ghost after_title = out@;
    match data_value_of(&g.data, NodeDataKey::Content) {
        Some(c) => push_attr(out, "data-sc-content", c),
        None => {},
    }
    match data_value_of(&g.data, NodeDataKey::Category) {
        Some(c) => push_attr(out, "data-sc-category", c),
        None => {},
    }
    let ghost title_part = if g.tag == NTag::Span {
        opt_attr("title"@, crate::models::yomitan::opt_text(g.title))
    } else {
        Seq::<char>::empty()
    };
    assert(after_title =~= after_class + title_part);
    assert(out@ =~= before + generic_attrs(
        g.tag,
        crate::models::yomitan::opt_text(g.title),
        crate::models::yomitan::data_view(g.data),
    ));
}

/// Appends an element in HTML (see [`rendered_node`]).
#[verifier::rlimit(30)]
fn render_generic(sd: bool, g: &crate::models::yomitan::GenericNode, out: &mut String)
    ensures
        final(out)@ == old(out)@ + rendered_node(sd, node_view(Node::Generic(Box::new(*g)))),
    decreases g, 0nat,
{
    let ghost title = crate::models::yomitan::opt_text(g.title);
    let ghost data = crate::models::yomitan::data_view(g.data);
    assert(node_view(Node::Generic(Box::new(*g))) == NodeView::Generic(g.tag, title, data, Box::new(node_view(g.content))));
    let content_attr = data_value_of(&g.data, NodeDataKey::Content);
    let skip = sd && (g.tag == NTag::Details || match content_attr {
        Some(c) => crate::text::str_eq(c, "preamble") || crate::text::str_eq(c, "summary-entry")
            || crate::text::str_eq(c, "example-sentence"),
        None => false,
    });
    assert(skip == (sd && stardict_skips(g.tag, data)));
    if skip {
        assert(out@ =~= old(out)@ + Seq::<char>::empty());
        return;
    }
    let ghost s0 = out@;
    let name = tag_str(g.tag);
    open_tag(out, name);
    push_generic_attrs(g, out);
    end_open(out);
    proof {
        assert(decreases_to!(*g => g.content));
    }
    render_node(sd, &g.content, out);
    close_tag(out, name);
    proof {
        lemma_element(s0, name@, generic_attrs(g.tag, title, data), rendered_node(sd, node_view(g.content)));
    }
}

/// A definition tag in HTML: its short form in nested labels, its long form as title and
/// details, its category.
pub open spec fn rendered_tag(t: TagInfo) -> Seq<char> {
    element(
        "span"@,
        attr("class"@, "tag"@) + attr("title"@, t.long_tag@) + attr("data-details"@, t.long_tag@) + attr(
            "data-category"@,
            t.category@,
        ),
        element(
            "span"@,
            attr("class"@, "tag-label"@),
            element("span"@, attr("class"@, "tag-label-content"@), html_escaped(t.short_tag@)),
        ),
    )
}

/// Definition tags in HTML, one after the other.
pub open spec fn rendered_tag_list(tags: Seq<TagInfo>) -> Seq<char>
    decreases tags.len(),
{
    if tags.len() == 0 {
        Seq::<char>::empty()
    } else {
        rendered_tag_list(tags.drop_last()) + rendered_tag(tags.last())
    }
}

/// The long form of a tag, escaped.
pub open spec fn escaped_long() -> spec_fn(TagInfo) -> Seq<char> {
    |t: TagInfo| html_escaped(t.long_tag@)
}

/// The definition tags of a term: in a list of labels, or for StarDict their long forms in a
/// heading, separated by middle dots.
pub open spec fn rendered_tags(sd: bool, tags: Seq<TagInfo>) -> Seq<char> {
    if sd {
        element("h3"@, Seq::<char>::empty(), join_sep(tags.map_values(escaped_long()), " · "@))
    } else {
        element("div"@, attr("class"@, "definition-tag-list tag-list"@), rendered_tag_list(tags))
    }
}

/// A term with its reading: as ruby, or for StarDict the reading in brackets after the term.
pub open spec fn rendered_headword(sd: bool, term: Seq<char>, reading: Seq<char>) -> Seq<char> {
    if sd {
        html_escaped(term) + (if reading.len() > 0 {
            element("span"@, attr("class"@, "reading"@), " ["@ + html_escaped(reading) + "]"@)
        } else {
            Seq::<char>::empty()
        })
    } else {
        element(
            "ruby"@,
            Seq::<char>::empty(),
            html_escaped(term) + (if reading.len() > 0 {
                element("rt"@, Seq::<char>::empty(), html_escaped(reading))
            } else {
                Seq::<char>::empty()
            }),
        )
    }
}

/// A definition in HTML: a text escaped; structured content in a span; an inflection as the
/// lemma in bold, then its rules.
pub open spec fn rendered_definition(sd: bool, d: crate::models::yomitan::DefinitionView) -> Seq<char> {
    match d {
        crate::models::yomitan::DefinitionView::Text(t) => html_escaped(t),
        crate::models::yomitan::DefinitionView::Structured(n) => element(
            "span"@,
            attr("class"@, "gloss-content structured-content"@),
            rendered_node(sd, n),
        ),
        crate::models::yomitan::DefinitionView::Inflection(label, forms) => element(
            "b"@,
            Seq::<char>::empty(),
            html_escaped(label),
        ) + ": "@ + html_escaped(join_sep(forms, ", "@)),
    }
}

/// Definitions in HTML, each in a list item.
pub open spec fn rendered_items(sd: bool, defs: Seq<crate::models::yomitan::DefinitionView>) -> Seq<char>
    decreases defs.len(),
{
    if defs.len() == 0 {
        Seq::<char>::empty()
    } else {
        rendered_items(sd, defs.drop_last()) + element("li"@, Seq::<char>::empty(), rendered_definition(sd, defs.last()))
    }
}

/// A term in HTML: its headword, then its tags and its definitions (one alone as it is,
/// several in an ordered list).
pub open spec fn rendered_term(sd: bool, t: TermInfo) -> Seq<char> {
    let defs = crate::models::yomitan::definition_views(t.definitions@);
    element(
        "div"@,
        attr("class"@, "entry"@),
        element(
            "div"@,
            attr("class"@, "headword"@),
            element("span"@, attr("class"@, "headword-term"@), rendered_headword(sd, t.term@, t.reading@)),
        ) + element(
            "div"@,
            attr("class"@, "entry-body"@),
            rendered_tags(sd, t.definition_tags@) + rendered_definitions(sd, defs),
        ),
    )
}

/// A form in HTML: its term, its reading, and its definitions in a list.
pub open spec fn rendered_form(sd: bool, t: TermInfoForm) -> Seq<char> {
    element(
        "div"@,
        attr("class"@, "entry form"@),
        element("h2"@, Seq::<char>::empty(), html_escaped(t.term@)) + element(
            "div"@,
            attr("class"@, "reading"@),
            html_escaped(t.reading@),
        ) + element(
            "ul"@,
            Seq::<char>::empty(),
            rendered_items(sd, crate::models::yomitan::definition_views(t.definitions@)),
        ),
    )
}

/// Transcriptions in HTML: each in a list item, followed by its tags separated by `|`.
pub open spec fn rendered_transcriptions(ts: Seq<crate::models::yomitan::Ipa>) -> Seq<char>
    decreases ts.len(),
{
    if ts.len() == 0 {
        Seq::<char>::empty()
    } else {
        rendered_transcriptions(ts.drop_last()) + element(
            "li"@,
            Seq::<char>::empty(),
            html_escaped(ts.last().ipa@) + html_escaped(join_sep(views(ts.last().tags@), "|"@)),
        )
    }
}

/// A phonetic transcription entry in HTML: its term, then its reading in bold and its
/// transcriptions in a list.
pub open spec fn rendered_meta(m: TermMeta) -> Seq<char> {
    match m {
        TermMeta::TermPhoneticTranscription(tp) => element(
            "div"@,
            attr("class"@, "entry form"@),
            element("h2"@, Seq::<char>::empty(), html_escaped(tp.term@)) + element(
                "h3"@,
                Seq::<char>::empty(),
                element("b"@, Seq::<char>::empty(), html_escaped(tp.transcription.reading@)) + element(
                    "ul"@,
                    Seq::<char>::empty(),
                    rendered_transcriptions(tp.transcription.transcriptions@),
                ),
            ),
        ),
    }
}

/// An entry in HTML (see [`rendered_term`], [`rendered_form`], [`rendered_meta`]).
pub open spec fn rendered_entry(sd: bool, e: YomitanEntry) -> Seq<char> {
    match e {
        YomitanEntry::TermInfo(t) => rendered_term(sd, t),
        YomitanEntry::TermInfoForm(t) => rendered_form(sd, t),
        YomitanEntry::TermMeta(m) => rendered_meta(m),
    }
}

/// Appends `<tag` (an element left open for its attributes).
fn open_tag(out: &mut String, tag: &str)
    ensures
        final(out)@ == old(out)@ + "<"@ + tag@,
{
    out.append("<");
    out.append(tag);
}

/// Appends `</tag>`.
fn close_tag(out: &mut String, tag: &str)
    ensures
        final(out)@ == old(out)@ + "</"@ + tag@ + ">"@,
{
    out.append("</");
    out.append(tag);
    out.append(">");
}

/// Appends `>`.
fn end_open(out: &mut String)
    ensures
        final(out)@ == old(out)@ + ">"@,
{
    out.append(">");
}

/// An element written piece by piece is the element.
proof fn lemma_element(b: Seq<char>, tag: Seq<char>, attrs: Seq<char>, content: Seq<char>)
    ensures
        b + "<"@ + tag + attrs + ">"@ + content + "</"@ + tag + ">"@ == b + element(tag, attrs, content),
{
    assert(b + "<"@ + tag + attrs + ">"@ + content + "</"@ + tag + ">"@ =~= b + element(tag, attrs, content));
}

/// Appending two pieces one after the other appends them together.
proof fn lemma_append2(a: Seq<char>, x: Seq<char>, y: Seq<char>)
    ensures
        a + x + y == a + (x + y),
{
    assert(a + x + y =~= a + (x + y));
}

/// Appending three pieces one after the other appends them together.
proof fn lemma_append3(a: Seq<char>, x: Seq<char>, y: Seq<char>, z: Seq<char>)
    ensures
        a + x + y + z == a + (x + y + z),
{
    assert(a + x + y + z =~= a + (x + y + z));
}

/// Appends the attributes of a definition tag.
fn push_tag_attrs(t: &TagInfo, out: &mut String)
    ensures
        final(out)@ == old(out)@ + (attr("class"@, "tag"@) + attr("title"@, t.long_tag@) + attr(
            "data-details"@,
            t.long_tag@,
        ) + attr("data-category"@, t.category@)),
{
    let ghost s0 = out@;
    push_attr(out, "class", "tag");
    push_attr(out, "title", t.long_tag.as_str());
    push_attr(out, "data-details", t.long_tag.as_str());
    push_attr(out, "data-category", t.category.as_str());
    assert(out@ =~= s0 + (attr("class"@, "tag"@) + attr("title"@, t.long_tag@) + attr(
        "data-details"@,
        t.long_tag@,
    ) + attr("data-category"@, t.category@)));
}

/// Appends the label of a definition tag: its short form in two nested spans.
fn push_tag_label(short: &str, out: &mut String)
    ensures
        final(out)@ == old(out)@ + element(
            "span"@,
            attr("class"@, "tag-label"@),
            element("span"@, attr("class"@, "tag-label-content"@), html_escaped(short@)),
        ),
{
    let ghost s0 = out@;
    open_tag(out, "span");
    push_attr(out, "class", "tag-label");
    end_open(out);
    let ghost s1 = out@;
    open_tag(out, "span");
    push_attr(out, "class", "tag-label-content");
    end_open(out);
    push_escaped(out, short);
    close_tag(out, "span");
    proof {
        lemma_element(s1, "span"@, attr("class"@, "tag-label-content"@), html_escaped(short@));
    }
    let ghost inner = element("span"@, attr("class"@, "tag-label-content"@), html_escaped(short@));
    assert(out@ == s1 + inner);
    close_tag(out, "span");
    proof {
        lemma_element(s0, "span"@, attr("class"@, "tag-label"@), inner);
    }
}

/// Appends a definition tag (see [`rendered_tag`]).
fn render_tag(t: &TagInfo, out: &mut String)
    ensures
        final(out)@ == old(out)@ + rendered_tag(*t),
{
    let ghost s0 = out@;
    open_tag(out, "span");
    push_tag_attrs(t, out);
    end_open(out);
    push_tag_label(t.short_tag.as_str(), out);
    close_tag(out, "span");
    proof {
        lemma_element(
            s0,
            "span"@,
            attr("class"@, "tag"@) + attr("title"@, t.long_tag@) + attr("data-details"@, t.long_tag@) + attr(
                "data-category"@,
                t.category@,
            ),
            element(
                "span"@,
                attr("class"@, "tag-label"@),
                element("span"@, attr("class"@, "tag-label-content"@), html_escaped(t.short_tag@)),
            ),
        );
    }
}

/// Appends the long forms of tags, escaped, separated by middle dots.
fn push_long_tags(tags: &Vec<TagInfo>, out: &mut String)
    ensures
        final(out)@ == old(out)@ + join_sep(tags@.map_values(escaped_long()), " · "@),
{
    let ghost base = out@;
    let ghost longs = tags@.map_values(escaped_long());
    let mut i: usize = 0;
    while i < tags.len()
        invariant
            i <= tags@.len(),
            longs == tags@.map_values(escaped_long()),
            out@ == base + join_sep(longs.take(i as int), " · "@),
        decreases tags@.len() - i,
    {
        if i > 0 {
            out.append(" · ");
        }
        push_escaped(out, tags[i].long_tag.as_str());
        proof {
            assert(longs.take(i + 1).drop_last() =~= longs.take(i as int));
            assert(longs.take(i + 1).last() == html_escaped(tags@[i as int].long_tag@));
            if i == 0 {
                assert(longs.take(1) =~= seq![longs[0]]);
            }
        }
        assert(out@ =~= base + join_sep(longs.take(i + 1), " · "@));
        i += 1;
    }
    assert(longs.take(tags@.len() as int) =~= longs);
}

/// Appends tags, one after the other (see [`rendered_tag_list`]).
fn push_tag_list(tags: &Vec<TagInfo>, out: &mut String)
    ensures
        final(out)@ == old(out)@ + rendered_tag_list(tags@),
{
    let ghost base = out@;
    let mut i: usize = 0;
    assert(tags@.take(0) =~= Seq::<TagInfo>::empty());
    while i < tags.len()
        invariant
            i <= tags@.len(),
            out@ == base + rendered_tag_list(tags@.take(i as int)),
        decreases tags@.len() - i,
    {
        render_tag(&tags[i], out);
        assert(tags@.take(i + 1).drop_last() =~= tags@.take(i as int));
        assert(out@ =~= base + rendered_tag_list(tags@.take(i + 1)));
        i += 1;
    }
    assert(tags@.take(tags@.len() as int) =~= tags@);
}

/// Appends the definition tags of a term (see [`rendered_tags`]).
fn render_tags(sd: bool, tags: &Vec<TagInfo>, out: &mut String)
    ensures
        final(out)@ == old(out)@ + rendered_tags(sd, tags@),
{
    let ghost s0 = out@;
    if sd {
        open_bare(out, "h3");
        push_long_tags(tags, out);
        close_tag(out, "h3");
        proof {
            lemma_element(s0, "h3"@, Seq::<char>::empty(), join_sep(tags@.map_values(escaped_long()), " · "@));
        }
    } else {
        open_classed(out, "div", "definition-tag-list tag-list");
        push_tag_list(tags, out);
        close_tag(out, "div");
        proof {
            lemma_element(s0, "div"@, attr("class"@, "definition-tag-list tag-list"@), rendered_tag_list(tags@));
        }
    }
}

/// Appends `<tag>` (an element with no attributes, left open for its content).
fn open_bare(out: &mut String, tag: &str)
    ensures
        final(out)@ == old(out)@ + "<"@ + tag@ + Seq::<char>::empty() + ">"@,
{
    open_tag(out, tag);
    end_open(out);
    assert(out@ =~= old(out)@ + "<"@ + tag@ + Seq::<char>::empty() + ">"@);
}

/// Appends `<tag class="class">`.
fn open_classed(out: &mut String, tag: &str, class: &str)
    ensures
        final(out)@ == old(out)@ + "<"@ + tag@ + attr("class"@, class@) + ">"@,
{
    open_tag(out, tag);
    push_attr(out, "class", class);
    end_open(out);
}

/// Appends an element with no attributes around `text` escaped.
fn push_text_element(out: &mut String, tag: &str, text: &str)
    ensures
        final(out)@ == old(out)@ + element(tag@, Seq::<char>::empty(), html_escaped(text@)),
{
    let ghost s0 = out@;
    open_bare(out, tag);
    push_escaped(out, text);
    close_tag(out, tag);
    proof {
        lemma_element(s0, tag@, Seq::<char>::empty(), html_escaped(text@));
    }
}

/// Appends a term with its reading (see [`rendered_headword`]).
fn render_headword(sd: bool, term: &str, reading: &str, out: &mut String)
    ensures
        final(out)@ == old(out)@ + rendered_headword(sd, term@, reading@),
{
    let ghost s0 = out@;
    if sd {
        push_escaped(out, term);
        let ghost s1 = out@;
        if !reading.is_empty() {
            open_classed(out, "span", "reading");
            out.append(" [");
            push_escaped(out, reading);
            out.append("]");
            close_tag(out, "span");
            let ghost content = " ["@ + html_escaped(reading@) + "]"@;
            assert(out@ =~= s1 + "<"@ + "span"@ + attr("class"@, "reading"@) + ">"@ + content + ("</"@ + "span"@
                + ">"@));
            proof {
                lemma_element(s1, "span"@, attr("class"@, "reading"@), content);
            }
            assert(out@ =~= s0 + rendered_headword(sd, term@, reading@));
        } else {
            assert(out@ =~= s0 + rendered_headword(sd, term@, reading@));
        }
    } else {
        open_bare(out, "ruby");
        let ghost s1 = out@;
        push_escaped(out, term);
        if !reading.is_empty() {
            push_text_element(out, "rt", reading);
        }
        let ghost content = html_escaped(term@) + (if reading@.len() > 0 {
            element("rt"@, Seq::<char>::empty(), html_escaped(reading@))
        } else {
            Seq::<char>::empty()
        });
        assert(out@ =~= s1 + content);
        close_tag(out, "ruby");
        proof {
            lemma_element(s0, "ruby"@, Seq::<char>::empty(), content);
        }
    }
}

/// Appends a definition (see [`rendered_definition`]).
fn render_definition(sd: bool, d: &DetailedDefinition, out: &mut String)
    ensures
        final(out)@ == old(out)@ + rendered_definition(sd, crate::models::yomitan::definition_view(*d)),
{
    let ghost s0 = out@;
    match d {
        DetailedDefinition::Text(t) => {
            push_escaped(out, t.as_str());
        },
        DetailedDefinition::StructuredContent(sc) => {
            open_classed(out, "span", "gloss-content structured-content");
            render_node(sd, &sc.content, out);
            close_tag(out, "span");
            proof {
                lemma_element(
                    s0,
                    "span"@,
                    attr("class"@, "gloss-content structured-content"@),
                    rendered_node(sd, node_view(sc.content)),
                );
            }
        },
        DetailedDefinition::Inflection(p) => {
            push_text_element(out, "b", p.0.as_str());
            let ghost s1 = out@;
            out.append(": ");
            let forms = crate::text::join(&p.1, ", ");
            push_escaped(out, forms.as_str());
            assert(out@ =~= s1 + ": "@ + html_escaped(join_sep(views(p.1@), ", "@)));
        },
    }
}

/// Appends definitions, each in a list item (see [`rendered_items`]).
fn render_items(sd: bool, defs: &Vec<DetailedDefinition>, out: &mut String)
    ensures
        final(out)@ == old(out)@ + rendered_items(sd, crate::models::yomitan::definition_views(defs@)),
{
    let ghost dv = crate::models::yomitan::definition_views(defs@);
    let ghost base = out@;
    let mut i: usize = 0;
    assert(dv.take(0) =~= Seq::<crate::models::yomitan::DefinitionView>::empty());
    while i < defs.len()
        invariant
            i <= defs@.len(),
            dv == crate::models::yomitan::definition_views(defs@),
            out@ == base + rendered_items(sd, dv.take(i as int)),
        decreases defs@.len() - i,
    {
        let ghost s1 = out@;
        open_bare(out, "li");
        render_definition(sd, &defs[i], out);
        close_tag(out, "li");
        proof {
            let c = rendered_definition(sd, crate::models::yomitan::definition_view(defs@[i as int]));
            lemma_element(s1, "li"@, Seq::<char>::empty(), c);
            assert(dv.take(i + 1).drop_last() =~= dv.take(i as int));
            assert(dv.take(i + 1).last() == crate::models::yomitan::definition_view(defs@[i as int]));
        }
        i += 1;
    }
    assert(dv.take(defs@.len() as int) =~= dv);
}

/// Appends the headword block of a term.
fn render_headword_block(sd: bool, t: &TermInfo, out: &mut String)
    ensures
        final(out)@ == old(out)@ + element(
            "div"@,
            attr("class"@, "headword"@),
            element("span"@, attr("class"@, "headword-term"@), rendered_headword(sd, t.term@, t.reading@)),
        ),
{
    let ghost s0 = out@;
    open_classed(out, "div", "headword");
    let ghost s1 = out@;
    open_classed(out, "span", "headword-term");
    render_headword(sd, t.term.as_str(), t.reading.as_str(), out);
    close_tag(out, "span");
    proof {
        lemma_element(s1, "span"@, attr("class"@, "headword-term"@), rendered_headword(sd, t.term@, t.reading@));
    }
    close_tag(out, "div");
    proof {
        lemma_element(
            s0,
            "div"@,
            attr("class"@, "headword"@),
            element("span"@, attr("class"@, "headword-term"@), rendered_headword(sd, t.term@, t.reading@)),
        );
    }
}

/// The definitions part of a term's body: one definition alone as it is, several in an ordered
/// list.
pub open spec fn rendered_definitions(sd: bool, defs: Seq<crate::models::yomitan::DefinitionView>) -> Seq<char> {
    if defs.len() == 1 {
        rendered_definition(sd, defs[0])
    } else {
        element("ol"@, attr("class"@, "definition-list"@), rendered_items(sd, defs))
    }
}

/// Appends the definitions of a term (see [`rendered_definitions`]).
fn render_definitions(sd: bool, defs: &Vec<DetailedDefinition>, out: &mut String)
    ensures
        final(out)@ == old(out)@ + rendered_definitions(sd, crate::models::yomitan::definition_views(defs@)),
{
    let ghost s0 = out@;
    if defs.len() == 1 {
        render_definition(sd, &defs[0], out);
    } else {
        open_classed(out, "ol", "definition-list");
        render_items(sd, defs, out);
        close_tag(out, "ol");
        proof {
            lemma_element(
                s0,
                "ol"@,
                attr("class"@, "definition-list"@),
                rendered_items(sd, crate::models::yomitan::definition_views(defs@)),
            );
        }
    }
}

/// Appends a term (see [`rendered_term`]).
fn render_term(sd: bool, t: &TermInfo, out: &mut String)
    ensures
        final(out)@ == old(out)@ + rendered_term(sd, *t),
{
    let ghost s0 = out@;
    let ghost defs = crate::models::yomitan::definition_views(t.definitions@);
    open_classed(out, "div", "entry");
    let ghost s1 = out@;
    render_headword_block(sd, t, out);
    let ghost s2 = out@;
    open_classed(out, "div", "entry-body");
    let ghost s3 = out@;
    render_tags(sd, &t.definition_tags, out);
    render_definitions(sd, &t.definitions, out);
    let ghost body = rendered_tags(sd, t.definition_tags@) + rendered_definitions(sd, defs);
    proof {
        lemma_append2(s3, rendered_tags(sd, t.definition_tags@), rendered_definitions(sd, defs));
    }
    close_tag(out, "div");
    proof {
        lemma_element(s2, "div"@, attr("class"@, "entry-body"@), body);
    }
    let ghost head = element(
        "div"@,
        attr("class"@, "headword"@),
        element("span"@, attr("class"@, "headword-term"@), rendered_headword(sd, t.term@, t.reading@)),
    );
    let ghost inner = head + element("div"@, attr("class"@, "entry-body"@), body);
    proof {
        lemma_append2(s1, head, element("div"@, attr("class"@, "entry-body"@), body));
    }
    close_tag(out, "div");
    proof {
        lemma_element(s0, "div"@, attr("class"@, "entry"@), inner);
    }
}

/// Appends a form (see [`rendered_form`]).
fn render_form(sd: bool, t: &TermInfoForm, out: &mut String)
    ensures
        final(out)@ == old(out)@ + rendered_form(sd, *t),
{
    let ghost s0 = out@;
    open_classed(out, "div", "entry form");
    let ghost s1 = out@;
    push_text_element(out, "h2", t.term.as_str());
    let ghost s2 = out@;
    open_classed(out, "div", "reading");
    push_escaped(out, t.reading.as_str());
    close_tag(out, "div");
    proof {
        lemma_element(s2, "div"@, attr("class"@, "reading"@), html_escaped(t.reading@));
    }
    let ghost s3 = out@;
    open_bare(out, "ul");
    render_items(sd, &t.definitions, out);
    close_tag(out, "ul");
    let ghost items = rendered_items(sd, crate::models::yomitan::definition_views(t.definitions@));
    proof {
        lemma_element(s3, "ul"@, Seq::<char>::empty(), items);
    }
    let ghost inner = element("h2"@, Seq::<char>::empty(), html_escaped(t.term@)) + element(
        "div"@,
        attr("class"@, "reading"@),
        html_escaped(t.reading@),
    ) + element("ul"@, Seq::<char>::empty(), items);
    proof {
        lemma_append3(
            s1,
            element("h2"@, Seq::<char>::empty(), html_escaped(t.term@)),
            element("div"@, attr("class"@, "reading"@), html_escaped(t.reading@)),
            element("ul"@, Seq::<char>::empty(), items),
        );
    }
    close_tag(out, "div");
    proof {
        lemma_element(s0, "div"@, attr("class"@, "entry form"@), inner);
    }
}

/// Appends transcriptions, each in a list item (see [`rendered_transcriptions`]).
fn render_transcriptions(ts: &Vec<crate::models::yomitan::Ipa>, out: &mut String)
    ensures
        final(out)@ == old(out)@ + rendered_transcriptions(ts@),
{
    let ghost base = out@;
    let mut i: usize = 0;
    assert(ts@.take(0) =~= Seq::<crate::models::yomitan::Ipa>::empty());
    while i < ts.len()
        invariant
            i <= ts@.len(),
            out@ == base + rendered_transcriptions(ts@.take(i as int)),
        decreases ts@.len() - i,
    {
        let ghost s1 = out@;
        open_bare(out, "li");
        let ghost s2 = out@;
        push_escaped(out, ts[i].ipa.as_str());
        let tags = crate::text::join(&ts[i].tags, "|");
        push_escaped(out, tags.as_str());
        let ghost c = html_escaped(ts@[i as int].ipa@) + html_escaped(join_sep(views(ts@[i as int].tags@), "|"@));
        assert(out@ =~= s2 + c);
        close_tag(out, "li");
        proof {
            lemma_element(s1, "li"@, Seq::<char>::empty(), c);
            assert(ts@.take(i + 1).drop_last() =~= ts@.take(i as int));
        }
        i += 1;
    }
    assert(ts@.take(ts@.len() as int) =~= ts@);
}

/// Appends a phonetic transcription entry (see [`rendered_meta`]).
fn render_meta(m: &TermMeta, out: &mut String)
    ensures
        final(out)@ == old(out)@ + rendered_meta(*m),
{
    let ghost s0 = out@;
    match m {
        TermMeta::TermPhoneticTranscription(tp) => {
            open_classed(out, "div", "entry form");
            let ghost s1 = out@;
            push_text_element(out, "h2", tp.term.as_str());
            let ghost s2 = out@;
            open_bare(out, "h3");
            let ghost s3 = out@;
            push_text_element(out, "b", tp.transcription.reading.as_str());
            let ghost s4 = out@;
            open_bare(out, "ul");
            render_transcriptions(&tp.transcription.transcriptions, out);
            close_tag(out, "ul");
            let ghost list = rendered_transcriptions(tp.transcription.transcriptions@);
            proof {
                lemma_element(s4, "ul"@, Seq::<char>::empty(), list);
            }
            let ghost h3c = element("b"@, Seq::<char>::empty(), html_escaped(tp.transcription.reading@))
                + element("ul"@, Seq::<char>::empty(), list);
            proof {
                lemma_append2(
                    s3,
                    element("b"@, Seq::<char>::empty(), html_escaped(tp.transcription.reading@)),
                    element("ul"@, Seq::<char>::empty(), list),
                );
            }
            close_tag(out, "h3");
            proof {
                lemma_element(s2, "h3"@, Seq::<char>::empty(), h3c);
            }
            let ghost inner = element("h2"@, Seq::<char>::empty(), html_escaped(tp.term@)) + element(
                "h3"@,
                Seq::<char>::empty(),
                h3c,
            );
            proof {
                lemma_append2(
                    s1,
                    element("h2"@, Seq::<char>::empty(), html_escaped(tp.term@)),
                    element("h3"@, Seq::<char>::empty(), h3c),
                );
            }
            close_tag(out, "div");
            proof {
                lemma_element(s0, "div"@, attr("class"@, "entry form"@), inner);
            }
        },
    }
}

/// An entry in HTML (see [`rendered_entry`]).
fn render_entry_with(sd: bool, e: &YomitanEntry) -> (r: String)
    ensures
        r@ == rendered_entry(sd, *e),
{
    let mut out = String::new();
    match e {
        YomitanEntry::TermInfo(t) => render_term(sd, t, &mut out),
        YomitanEntry::TermInfoForm(t) => render_form(sd, t, &mut out),
        YomitanEntry::TermMeta(m) => render_meta(m, &mut out),
    }
    assert(out@ =~= rendered_entry(sd, *e));
    out
}

/// The rendering closest to the Yomitan popup.
pub struct HtmlRenderer;

impl HtmlRenderer {
    /// An entry in HTML (see [`rendered_entry`]).
    pub fn render_entry(entry: &YomitanEntry) -> (r: String)
        ensures
            r@ == rendered_entry(false, *entry),
    {
        render_entry_with(false, entry)
    }
}

/// The rendering for StarDict, which mostly targets KOReader: no ruby, no links, no folded
/// parts.
pub struct StardictRenderer;

impl StardictRenderer {
    /// An entry in HTML for StarDict (see [`rendered_entry`]).
    pub fn render_entry(entry: &YomitanEntry) -> (r: String)
        ensures
            r@ == rendered_entry(true, *entry),
    {
        render_entry_with(true, entry)
    }
}

} // verus!
