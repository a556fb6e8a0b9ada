use wty::dict::common::Langs;
use wty::dict::glossary::{
    DGlossary, DGlossaryExtended, GlossaryExtendedRow, process_glossary, to_yomitan_glossary_extended,
};
use wty::lang::{Edition, Lang};
use wty::models::kaikki::{Translation, WordEntry};
use wty::models::yomitan::{DetailedDefinition, Node, TermInfo};

fn translation(lang_code: &str, sense: &str, word: &str) -> Translation {
    Translation { lang_code: lang_code.into(), sense: sense.into(), word: word.into() }
}

// cf. https://en.wiktionary.org/wiki/Gibraltar
//     source                            target (what we search)
// >>> ["Gjibraltar", "Gjibraltari"]  <> "Ἡράκλειαι στῆλαι"
// >>> ["Gjibraltar", "Gjibraltari"]  <> "Κάλπη"
fn extended_basic() -> Vec<TermInfo> {
    let dict = DGlossaryExtended;
    let langs = Langs::new(Edition::En, Lang::Grc, Lang::Sh);
    let mut entry = WordEntry::default();
    entry.pos = "noun".to_string();
    entry.translations = vec![
        translation("grc", "British overseas territory", "Ἡράκλειαι στῆλαι"),
        translation("grc", "British overseas territory", "Ἡράκλειαι στῆλαι"),
        translation("grc", "British overseas territory", "Κάλπη"),
        translation("sh", "British overseas territory", "Gibraltar"),
        translation("sh", "British overseas territory", "Gjibraltari"),
        translation("sh", "Different sense", "Foo"),
    ];

    let mut irs: Vec<GlossaryExtendedRow> = Vec::new();
    dict.process(langs, &entry, &mut irs);

    // Empty translations should not change anything
    let entry = WordEntry::default();
    dict.process(langs, &entry, &mut irs);

    assert_eq!(irs.len(), 3);

    let (lemma1, pos, _, defs1) = &irs[0];
    let (lemma2, _, _, defs2) = &irs[1];
    let (lemma3, _, _, defs3) = &irs[2];

    assert_eq!(pos, "noun");
    assert_eq!(lemma1, "Ἡράκλειαι στῆλαι");
    assert_eq!(lemma2, "Ἡράκλειαι στῆλαι");
    assert_eq!(lemma3, "Κάλπη");

    let expected = vec!["Gibraltar".to_string(), "Gjibraltari".to_string()];
    assert_eq!(defs1, &expected);
    assert_eq!(defs2, &expected);
    assert_eq!(defs3, &expected);

    dict.postprocess(&mut irs);
    assert_eq!(irs.len(), 2);

    let yomitan_entries = to_yomitan_glossary_extended(Lang::Grc, &irs);
    assert_eq!(yomitan_entries.len(), 2);
    yomitan_entries
}

fn extended_pos_localization() -> Vec<TermInfo> {
    let dict = DGlossaryExtended;
    // Japanese as target, source irrelevant
    let langs = Langs::new(Edition::En, Lang::Ja, Lang::En);
    let mut entry = WordEntry::default();
    entry.pos = "noun".to_string();
    entry.translations = vec![translation("ja", "some sense", "日本語"), translation("en", "some sense", "english")];

    let mut irs: Vec<GlossaryExtendedRow> = Vec::new();
    dict.process(langs, &entry, &mut irs);

    assert_eq!(irs.len(), 1);
    let (_, pos, _, _) = &irs[0];

    assert_eq!(pos, "noun");

    to_yomitan_glossary_extended(Lang::Ja, &irs)
}

#[test]
fn glossary_process_glossary_extended_basic() {
    let yomitan_entries = extended_basic();
    let term_bank = yomitan_entries.first().unwrap();
    assert_eq!(term_bank.definition_tags[0].short_tag, "n");
}

#[test]
fn other_process_glossary_extended_basic() {
    let yomitan_entries = extended_basic();
    // Should use the short pos here (noun > n)
    assert_eq!(yomitan_entries.first().unwrap().definition_tags[0].short_tag, "n");
}

#[test]
fn glossary_process_glossary_extended_pos_localization() {
    let yomitan_entries = extended_pos_localization();
    let term_bank = yomitan_entries.first().unwrap();
    assert_eq!(term_bank.definition_tags[0].short_tag, "名");
}

#[test]
fn other_process_glossary_extended_pos_localization() {
    let yomitan_entries = extended_pos_localization();
    assert_eq!(yomitan_entries[0].definition_tags[0].short_tag, "名");
}

#[test]
fn extended_postprocess_merges_translations_once() {
    let dict = DGlossaryExtended;
    let mut irs: Vec<GlossaryExtendedRow> = vec![
        ("a".into(), "noun".into(), Edition::En, vec!["x".into(), "y".into()]),
        ("b".into(), "verb".into(), Edition::De, vec!["z".into()]),
        ("a".into(), "verb".into(), Edition::Fr, vec!["y".into(), "w".into()]),
    ];
    dict.postprocess(&mut irs);
    assert_eq!(irs.len(), 2);
    assert_eq!(irs[0].0, "a");
    assert_eq!(irs[0].1, "noun");
    assert_eq!(irs[0].2, Edition::En);
    assert_eq!(irs[0].3, vec!["x".to_string(), "y".to_string(), "w".to_string()]);
    assert_eq!(irs[1].0, "b");
    assert_eq!(irs[1].3, vec!["z".to_string()]);
}

#[test]
fn extended_no_source_match_adds_nothing() {
    let dict = DGlossaryExtended;
    let langs = Langs::new(Edition::En, Lang::Grc, Lang::Sh);
    let mut entry = WordEntry::default();
    entry.pos = "noun".to_string();
    entry.translations = vec![translation("sh", "sense", "Foo"), translation("grc", "other", "Bar")];
    let mut irs: Vec<GlossaryExtendedRow> = Vec::new();
    dict.process(langs, &entry, &mut irs);
    assert!(irs.is_empty());
}

#[test]
fn glossary_groups_by_sense() {
    let mut entry = WordEntry::default();
    entry.word = "Gibraltar".to_string();
    entry.pos = "noun".to_string();
    entry.translations = vec![
        translation("fr", "", "Gibraltar"),
        translation("fr", "territory", "Gibraltar (fr)"),
        translation("de", "territory", "ignored"),
        translation("fr", "territory", "Gibraltar bis"),
        translation("fr", "", ""),
    ];
    let mut irs: Vec<TermInfo> = Vec::new();
    DGlossary.process(Langs::new(Edition::En, Lang::En, Lang::Fr), &entry, &mut irs);
    assert_eq!(irs.len(), 1);
    let t = &irs[0];
    assert_eq!(t.term, "Gibraltar");
    assert_eq!(t.reading, "");
    assert_eq!(t.rules, "n");
    assert_eq!(t.definition_tags.len(), 1);
    assert_eq!(t.definitions.len(), 2);
    match &t.definitions[0] {
        DetailedDefinition::Text(s) => assert_eq!(s, "Gibraltar"),
        _ => panic!("expected a text definition"),
    }
    match &t.definitions[1] {
        DetailedDefinition::StructuredContent(sc) => match &sc.content {
            Node::Generic(g) => match &g.content {
                Node::Array(parts) => assert_eq!(parts.len(), 2),
                _ => panic!("expected an array"),
            },
            _ => panic!("expected an element"),
        },
        _ => panic!("expected structured content"),
    }
}

#[test]
fn glossary_without_translations_adds_nothing() {
    let mut entry = WordEntry::default();
    entry.word = "x".to_string();
    let mut irs: Vec<TermInfo> = Vec::new();
    process_glossary(Edition::En, Lang::Fr, &entry, &mut irs);
    assert!(irs.is_empty());
}
