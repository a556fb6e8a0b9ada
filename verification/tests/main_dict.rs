use wty::cli::Options;
use wty::dict::common::{EntryAction, Langs, entry_action, probe_skips};
use wty::dict::main::glosses::structured_glosses;
use wty::dict::main::ir::{FormSource, GlossInfo, GlossTree, Tidy};
use wty::dict::main::main_dict::DMain;
use wty::dict::main::postprocess::tidy_form_tags;
use wty::dict::writer::prettify_html;
use wty::dict::main::terms::{get_found_tags, get_rule_identifier};
use wty::lang::{Edition, Lang};
use wty::models::kaikki::{AltForm, Form, Sense, WordEntry};
use wty::models::yomitan::{DetailedDefinition, Node};

fn sense(glosses: &[&str]) -> Sense {
    Sense { glosses: glosses.iter().map(|g| g.to_string()).collect(), ..Default::default() }
}

fn entry(word: &str, pos: &str, senses: Vec<Sense>) -> WordEntry {
    let mut e = WordEntry::default();
    e.word = word.to_string();
    e.pos = pos.to_string();
    e.lang_code = "la".to_string();
    e.senses = senses;
    e
}

#[test]
fn skip_romanizations() {
    assert!(DMain.skip_if(&entry("toraware", "romanization", vec![])));
    assert!(!DMain.skip_if(&entry("word", "noun", vec![])));
}

#[test]
fn preprocess_drops_italian_empty_definitions() {
    let mut e = entry("cartoccio", "noun", vec![sense(&["definizione mancante; se vuoi, aggiungila tu", "cone"])]);
    let mut irs = Tidy::default();
    DMain.preprocess(Langs::new(Edition::It, Lang::It, Lang::It), &mut e, &Options::default(), &mut irs);
    assert_eq!(e.senses.len(), 1);
    assert_eq!(e.senses[0].glosses, vec!["cone".to_string()]);
}

#[test]
fn preprocess_adds_canonical_tags_to_senses() {
    let mut e = entry("fama", "noun", vec![sense(&["rumor"]), sense(&["fame"])]);
    e.senses[1].tags = vec!["feminine".to_string()];
    e.forms = vec![Form {
        form: "fāma".to_string(),
        tags: vec!["canonical".to_string(), "feminine".to_string()],
        ruby: vec![],
    }];
    let mut irs = Tidy::default();
    DMain.preprocess(Langs::new(Edition::En, Lang::La, Lang::En), &mut e, &Options::default(), &mut irs);
    assert_eq!(e.senses[0].tags, vec!["feminine".to_string()]);
    assert_eq!(e.senses[1].tags, vec!["feminine".to_string()]);
}

#[test]
fn preprocess_turns_alternative_forms_into_forms() {
    let mut alt = sense(&["alternative form of colour"]);
    alt.alt_of = vec![AltForm { word: "colour".to_string() }];
    let mut e = entry("color", "noun", vec![alt, sense(&["a hue"])]);
    let mut irs = Tidy::default();
    DMain.preprocess(Langs::new(Edition::En, Lang::En, Lang::En), &mut e, &Options::default(), &mut irs);
    assert_eq!(e.senses.len(), 1);
    assert_eq!(e.senses[0].glosses, vec!["a hue".to_string()]);
    assert_eq!(irs.form_map.0.len(), 1);
    let (key, (source, tags)) = &irs.form_map.0[0];
    assert_eq!(key.uninflected, "color");
    assert_eq!(key.inflected, "colour");
    assert_eq!(*source, FormSource::AltOfSense);
    assert_eq!(tags, &vec!["alt-of".to_string()]);
}

#[test]
fn process_then_terms() {
    let mut e = entry("aqua", "noun", vec![sense(&["water"]), sense(&["rain"])]);
    e.senses[0].tags = vec!["feminine".to_string()];
    e.senses[1].tags = vec!["feminine".to_string()];
    let mut irs = Tidy::default();
    let langs = Langs::new(Edition::En, Lang::La, Lang::En);
    DMain.process(langs, &e, &mut irs);
    assert_eq!(irs.lemma_map.0.len(), 1);
    let (terms, forms) = DMain.to_yomitan(Lang::La, Lang::En, &irs);
    assert!(forms.is_empty());
    assert_eq!(terms.len(), 1);
    let t = &terms[0];
    assert_eq!(t.term, "aqua");
    assert_eq!(t.reading, "");
    assert_eq!(t.rules, "n");
    // the part of speech, then the tag common to every gloss
    let shorts: Vec<&str> = t.definition_tags.iter().map(|d| d.short_tag.as_str()).collect();
    assert_eq!(shorts, vec!["n", "fem"]);
    assert_eq!(t.definitions.len(), 1);
    match &t.definitions[0] {
        DetailedDefinition::StructuredContent(sc) => match &sc.content {
            // glosses, then the backlinks
            Node::Array(items) => assert_eq!(items.len(), 2),
            _ => panic!("expected an array"),
        },
        _ => panic!("expected structured content"),
    }
}

#[test]
fn found_tags_keep_order_and_skip_unknown() {
    let mut info = wty::dict::main::ir::LemmaInfo {
        gloss_tree: GlossTree(vec![
            ("a".to_string(), GlossInfo { tags: vec!["rare".into(), "unknown".into()], ..Default::default() }),
            ("b".to_string(), GlossInfo { tags: vec!["unknown".into(), "rare".into()], ..Default::default() }),
        ]),
        tags: vec!["masculine".into()],
        synonyms: vec![],
        etymology_text: None,
        head_info_text: None,
        link_wiktionary: String::new(),
        link_kaikki: String::new(),
    };
    let found = get_found_tags("verb", &info);
    let shorts: Vec<&str> = found.iter().map(|d| d.short_tag.as_str()).collect();
    assert_eq!(shorts, vec!["v", "masc", "rare"]);
    info.gloss_tree.0.pop();
    info.gloss_tree.0[0].1.tags.clear();
    assert_eq!(get_found_tags("noun", &info).len(), 2);
}

#[test]
fn glosses_show_specific_tags_only() {
    let tree = GlossTree(vec![(
        "water".to_string(),
        GlossInfo {
            tags: vec!["rare".into()],
            children: GlossTree(vec![("rain water".to_string(), GlossInfo { tags: vec!["rare".into()], ..Default::default() })]),
            ..Default::default()
        },
    )]);
    let node = structured_glosses(Lang::En, &tree, &vec![]);
    match node {
        Node::Generic(ol) => match &ol.content {
            Node::Array(items) => {
                assert_eq!(items.len(), 1);
                match &items[0] {
                    Node::Generic(li) => match &li.content {
                        // the gloss, then the list of its children
                        Node::Array(parts) => assert_eq!(parts.len(), 2),
                        _ => panic!(),
                    },
                    _ => panic!(),
                }
            },
            _ => panic!(),
        },
        _ => panic!(),
    }
}

#[test]
fn rule_identifier_is_short_pos() {
    assert_eq!(get_rule_identifier("n"), "n");
}

#[test]
fn tidy_drops_redundant_tags() {
    let mut tags = vec!["a b".to_string(), "b a".to_string()];
    tidy_form_tags(&mut tags);
    assert_eq!(tags, vec!["b a".to_string()]);
}

#[test]
fn tidy_merges_persons() {
    let mut tags = vec!["first-person singular".to_string(), "third-person singular".to_string()];
    tidy_form_tags(&mut tags);
    assert_eq!(tags.len(), 1);
    assert!(tags[0].contains("first/third-person"));
    assert!(tags[0].contains("singular"));
}

#[test]
fn prettify_html_indents_nested_tags() {
    assert_eq!(prettify_html("<div><span>a</span></div>"), "\n<div>\n  <span>a\n    </span>\n  </div>");
    assert_eq!(prettify_html("plain"), "plain");
    assert_eq!(prettify_html("<!DOCTYPE html><p>x</p>"), "\n<!DOCTYPE html>\n<p>x\n  </p>");
}

#[test]
fn entry_actions() {
    let (n, a) = entry_action(0, -1, true, false);
    assert_eq!((n, a), (0, EntryAction::Ignore));
    let (n, a) = entry_action(0, -1, false, false);
    assert_eq!((n, a), (1, EntryAction::Read));
    // With `first` 3, the third accepted entry is read and the fourth stops reading.
    let (n, a) = entry_action(2, 3, false, false);
    assert_eq!((n, a), (3, EntryAction::Read));
    let (n, a) = entry_action(3, 3, false, false);
    assert_eq!((n, a), (4, EntryAction::Stop));
    let (n, a) = entry_action(0, 0, false, false);
    assert_eq!((n, a), (1, EntryAction::Stop));
    let (n, a) = entry_action(0, 5, false, true);
    assert_eq!((n, a), (1, EntryAction::Ignore));
    assert!(probe_skips("fr", Lang::La));
    assert!(!probe_skips("la", Lang::La));
}
