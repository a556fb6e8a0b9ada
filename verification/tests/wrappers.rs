use wty::cli::{Options, trim};
use wty::dict::common::Langs;
use wty::dict::main::main_dict::DMain;
use wty::dict::main::ir::{
    FormSource, Tidy, get_head_info, handle_inflection_sense_en, is_inflection_sense, normalize_orthography,
};
use wty::lang::{Edition, Lang};
use wty::models::kaikki::{AltForm, HeadTemplate, Sense, WordEntry};

#[test]
fn latin_lemmas_lose_their_macrons() {
    assert_eq!(normalize_orthography(Lang::La, "fāma"), "fama");
    assert_eq!(normalize_orthography(Lang::En, "fāma"), "fāma");
}

#[test]
fn codes_in_any_case() {
    assert_eq!(Lang::from_str("DE"), Ok(Lang::De));
    assert_eq!(Edition::from_str("Fr"), Ok(Edition::Fr));
    assert!(Lang::from_str("not-a-code").is_err());
}

#[test]
fn trim_unicode_whitespace() {
    assert_eq!(trim("\u{3000} a b \t\n"), "a b");
    assert_eq!(trim("   "), "");
}

#[test]
fn german_form_of_glosses() {
    let form = Sense { glosses: vec!["1. Person Singular Präsens des Verbs machen".to_string()], ..Default::default() };
    assert!(is_inflection_sense(Edition::De, &form));
    let plain = Sense { glosses: vec!["etwas herstellen".to_string()], ..Default::default() };
    assert!(!is_inflection_sense(Edition::De, &plain));
}

#[test]
fn head_info_keeps_parenthesized_expansions() {
    let templates = vec![
        HeadTemplate { expansion: "cat (plural cats)".to_string() },
        HeadTemplate { expansion: "cat".to_string() },
        HeadTemplate { expansion: "cat (plural cats)".to_string() },
    ];
    assert_eq!(get_head_info(&templates), Some(vec!["cat (plural cats)"]));
    assert_eq!(get_head_info(&vec![HeadTemplate { expansion: "cat".to_string() }]), None);
}

#[test]
fn english_inflection_drops_parenthesized_text() {
    let mut entry = WordEntry::default();
    entry.word = "cats".to_string();
    entry.pos = "noun".to_string();
    let sense = Sense {
        glosses: vec!["plural of cat (animal)".to_string()],
        form_of: vec![AltForm { word: "cat".to_string() }],
        ..Default::default()
    };
    let mut irs = Tidy::default();
    handle_inflection_sense_en(Lang::En, &entry, &sense, &mut irs);
    assert_eq!(irs.form_map.0.len(), 1);
    let (key, (source, tags)) = &irs.form_map.0[0];
    assert_eq!(key.uninflected, "cat");
    assert_eq!(key.inflected, "cats");
    assert_eq!(*source, FormSource::Inflection);
    assert_eq!(tags, &vec!["plural".to_string()]);
}

#[test]
fn experimental_glosses_spaced_unless_punctuated() {
    let mut e = WordEntry::default();
    e.word = "cat".to_string();
    e.pos = "noun".to_string();
    e.senses = vec![Sense { glosses: vec!["a small animal.".to_string(), "feline".to_string()], ..Default::default() }];
    let mut irs = Tidy::default();
    let opts = Options { experimental: true, ..Default::default() };
    DMain.preprocess(Langs::new(Edition::En, Lang::En, Lang::En), &mut e, &opts, &mut irs);
    assert_eq!(e.senses[0].glosses, vec!["a small animal.".to_string(), "feline ".to_string()]);
}
