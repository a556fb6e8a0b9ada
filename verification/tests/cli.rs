use wty::cli::{GlossaryExtendedLangs, GlossaryLangs, LangSpecs, MainLangs, parse_tuple};
use wty::lang::{Edition, EditionSpec, Lang};

fn main_langs(source: &str, target: &str) -> Result<MainLangs, String> {
    Ok(MainLangs { source: Lang::from_str(source)?, target: Edition::from_str(target)? })
}

fn glossary_langs(source: &str, target: &str) -> Result<GlossaryLangs, String> {
    Ok(GlossaryLangs { source: Edition::from_str(source)?, target: Lang::from_str(target)? })
}

fn glossary_extended_langs(edition: &str, source: &str, target: &str) -> Result<GlossaryExtendedLangs, String> {
    Ok(GlossaryExtendedLangs {
        edition: EditionSpec::from_str(edition)?,
        source: Lang::from_str(source)?,
        target: Lang::from_str(target)?,
    })
}

#[test]
fn base_commands() {
    assert!(main_langs("el", "en").is_ok());
    assert!(glossary_langs("el", "en").is_ok());
}

#[test]
fn main_needs_target_edition() {
    assert!(main_langs("grc", "el").is_ok());
    assert!(main_langs("el", "grc").is_err());
}

#[test]
fn glossary_needs_source_edition() {
    assert!(glossary_langs("grc", "el").is_err());
    assert!(glossary_langs("el", "grc").is_ok());
}

#[test]
fn glossary_can_not_be_monolingual() {
    let langs = glossary_langs("el", "el").unwrap(); // The parsing should be ok
    assert!(LangSpecs::from_glossary_langs(langs).is_err());

    let langs = glossary_extended_langs("all", "el", "el").unwrap(); // The parsing should be ok
    assert!(LangSpecs::from_glossary_extended_langs(langs).is_err());
}

#[test]
fn filter_flag() {
    assert!(main_langs("el", "el").is_ok());
    assert!(parse_tuple("foo,bar").is_err());
    assert!(parse_tuple("word,hello").is_ok());
    assert!(parse_tuple("pos,name").is_ok());
}

#[test]
fn main_langs_simple_english_on_both_sides_only() {
    let both = MainLangs { source: Lang::Simple, target: Edition::Simple };
    assert!(LangSpecs::from_main_langs(both).is_ok());
    let one = MainLangs { source: Lang::Simple, target: Edition::En };
    assert!(LangSpecs::from_main_langs(one).is_err());
}
