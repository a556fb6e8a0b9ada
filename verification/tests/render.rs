use wty::dict::render::{HtmlRenderer, StardictRenderer};
use wty::models::yomitan::{
    BacklinkContent, BacklinkContentKind, DetailedDefinition, GenericNode, Ipa, NTag, Node, NodeData,
    NodeDataKey, PhoneticTranscription, StructuredContent, TagInfo, TermInfo, TermInfoForm, TermMeta,
    TermPhoneticTranscription, YomitanEntry,
};

fn tag(short: &str, long: &str, category: &str) -> TagInfo {
    TagInfo {
        short_tag: short.to_string(),
        category: category.to_string(),
        sort_order: 0,
        long_tag: long.to_string(),
        popularity_score: 0,
    }
}

fn term(reading: &str, tags: Vec<TagInfo>, definitions: Vec<DetailedDefinition>) -> YomitanEntry {
    YomitanEntry::TermInfo(TermInfo {
        term: "cat".to_string(),
        reading: reading.to_string(),
        definition_tags: tags,
        rules: String::new(),
        definitions,
    })
}

#[test]
fn html_term_single_text_definition() {
    let e = term("kat", vec![tag("n", "noun", "partOfSpeech")], vec![DetailedDefinition::Text("a <pet> & \"friend\"".to_string())]);
    assert_eq!(
        HtmlRenderer::render_entry(&e),
        [
            "<div class=\"entry\"><div class=\"headword\"><span class=\"headword-term\">",
            "<ruby>cat<rt>kat</rt></ruby></span></div><div class=\"entry-body\">",
            "<div class=\"definition-tag-list tag-list\"><span class=\"tag\" title=\"noun\" data-details=\"noun\" ",
            "data-category=\"partOfSpeech\"><span class=\"tag-label\"><span class=\"tag-label-content\">n</span>",
            "</span></span></div>a &lt;pet&gt; &amp; &quot;friend&quot;</div></div>"
        ].concat()
    );
}

#[test]
fn stardict_term_headword_and_tags() {
    let e = term(
        "kat",
        vec![tag("n", "noun", "partOfSpeech"), tag("v", "verb", "partOfSpeech")],
        vec![DetailedDefinition::Text("one".to_string()), DetailedDefinition::Text("two".to_string())],
    );
    assert_eq!(
        StardictRenderer::render_entry(&e),
        [
            "<div class=\"entry\"><div class=\"headword\"><span class=\"headword-term\">",
            "cat<span class=\"reading\"> [kat]</span></span></div><div class=\"entry-body\">",
            "<h3>noun · verb</h3><ol class=\"definition-list\"><li>one</li><li>two</li></ol></div></div>"
        ].concat()
    );
}

#[test]
fn html_term_without_reading() {
    let e = term("", vec![], vec![DetailedDefinition::Text("x".to_string())]);
    let html = HtmlRenderer::render_entry(&e);
    assert!(html.contains("<ruby>cat</ruby>"));
    let sd = StardictRenderer::render_entry(&e);
    assert!(sd.contains("<span class=\"headword-term\">cat</span>"));
    assert!(sd.contains("<h3></h3>"));
}

fn structured() -> DetailedDefinition {
    let gloss = Node::Generic(Box::new(GenericNode {
        tag: NTag::Span,
        title: Some("t".to_string()),
        data: Some(NodeData(vec![(NodeDataKey::Content, "gloss".to_string())])),
        content: Node::Text("hi".to_string()),
    }));
    let example = Node::Generic(Box::new(GenericNode {
        tag: NTag::Div,
        title: None,
        data: Some(NodeData(vec![(NodeDataKey::Content, "example-sentence".to_string())])),
        content: Node::Text("ex".to_string()),
    }));
    let folded = Node::Generic(Box::new(GenericNode {
        tag: NTag::Details,
        title: None,
        data: None,
        content: Node::Text("more".to_string()),
    }));
    let link = Node::Backlink(BacklinkContent { href: "https://x/?a&b".to_string(), content: BacklinkContentKind::Wiktionary });
    DetailedDefinition::StructuredContent(StructuredContent { content: Node::Array(vec![gloss, example, folded, link]) })
}

#[test]
fn html_structured_content() {
    let e = YomitanEntry::TermInfoForm(TermInfoForm {
        term: "cats".to_string(),
        reading: "cats".to_string(),
        rules: String::new(),
        definitions: vec![structured()],
    });
    assert_eq!(
        HtmlRenderer::render_entry(&e),
        [
            "<div class=\"entry form\"><h2>cats</h2><div class=\"reading\">cats</div><ul><li>",
            "<span class=\"gloss-content structured-content\">",
            "<span class=\"gloss-sc-span\" title=\"t\" data-sc-content=\"gloss\">hi</span>",
            "<div class=\"gloss-sc-div\" data-sc-content=\"example-sentence\">ex</div>",
            "<details class=\"gloss-sc-details\">more</details>",
            "<a href=\"https://x/?a&amp;b\" data-sc-content=\"backlink\">Wiktionary</a>",
            "</span></li></ul></div>"
        ].concat()
    );
}

#[test]
fn stardict_skips_folded_examples_and_links() {
    let e = YomitanEntry::TermInfoForm(TermInfoForm {
        term: "cats".to_string(),
        reading: "cats".to_string(),
        rules: String::new(),
        definitions: vec![structured()],
    });
    assert_eq!(
        StardictRenderer::render_entry(&e),
        [
            "<div class=\"entry form\"><h2>cats</h2><div class=\"reading\">cats</div><ul><li>",
            "<span class=\"gloss-content structured-content\">",
            "<span class=\"gloss-sc-span\" title=\"t\" data-sc-content=\"gloss\">hi</span>",
            "</span></li></ul></div>"
        ].concat()
    );
}

#[test]
fn html_inflection_definition() {
    let e = term(
        "",
        vec![],
        vec![DetailedDefinition::Inflection(("cat".to_string(), vec!["plural".to_string(), "a<b".to_string()]))],
    );
    assert!(HtmlRenderer::render_entry(&e).contains("</div><b>cat</b>: plural, a&lt;b</div></div>"));
}

#[test]
fn html_phonetic_transcription() {
    let e = YomitanEntry::TermMeta(TermMeta::TermPhoneticTranscription(TermPhoneticTranscription {
        term: "cat".to_string(),
        transcription: PhoneticTranscription {
            reading: "cat".to_string(),
            transcriptions: vec![
                Ipa { ipa: "/kæt/".to_string(), tags: vec!["UK".to_string(), "US".to_string()] },
                Ipa { ipa: "[kʰæt]".to_string(), tags: vec![] },
            ],
        },
    }));
    let expected = [
        "<div class=\"entry form\"><h2>cat</h2><h3><b>cat</b><ul>",
        "<li>/kæt/UK|US</li><li>[kʰæt]</li></ul></h3></div>"
    ].concat();
    assert_eq!(HtmlRenderer::render_entry(&e), expected);
    assert_eq!(StardictRenderer::render_entry(&e), expected);
}
