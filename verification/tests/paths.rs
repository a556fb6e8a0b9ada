use wty::cli::{
    DictName, GlossaryExtendedLangs, GlossaryLangs, IpaMergedLangs, LangSpecs, MainLangs, Options,
};
use wty::lang::{Edition, EditionSpec, Lang};
use wty::path::{DictionaryType, PathManager};

fn pm(dict_ty: DictionaryType, langs: LangSpecs) -> PathManager {
    PathManager {
        dict_ty,
        dict_name: DictName("wty".to_string()),
        langs,
        opts: Options { root_dir: "data".to_string(), ..Default::default() },
    }
}

#[test]
fn path_main() {
    let langs = LangSpecs::from_main_langs(MainLangs { source: Lang::De, target: Edition::En }).unwrap();
    assert_eq!(pm(DictionaryType::Main, langs).path_dict(), "data/dict/de/en/wty-de-en.zip");
}

#[test]
fn path_glossary() {
    let langs = LangSpecs::from_glossary_langs(GlossaryLangs { source: Edition::De, target: Lang::En }).unwrap();
    assert_eq!(pm(DictionaryType::Glossary, langs).path_dict(), "data/dict/de/en/wty-de-en-gloss.zip");
}

#[test]
fn path_ipa_merged() {
    let langs = LangSpecs::from_ipa_merged_langs(IpaMergedLangs { target: Lang::En }).unwrap();
    assert_eq!(pm(DictionaryType::IpaMerged, langs).path_dict(), "data/dict/en/all/wty-en-ipa.zip");
}

#[test]
fn path_glossary_extended() {
    let langs = LangSpecs::from_glossary_extended_langs(GlossaryExtendedLangs {
        edition: EditionSpec::All,
        source: Lang::De,
        target: Lang::En,
    })
    .unwrap();
    assert_eq!(pm(DictionaryType::GlossaryExtended, langs).path_dict(), "data/dict/de/en/wty-all-de-en-gloss.zip");
}

#[test]
fn path_ipa_and_temp_dirs() {
    let langs = LangSpecs::from_main_langs(MainLangs { source: Lang::El, target: Edition::El }).unwrap();
    let p = pm(DictionaryType::Ipa, langs);
    assert_eq!(p.path_dict(), "data/dict/el/el/wty-el-el-ipa.zip");
    assert_eq!(p.dir_kaik(), "data/kaikki");
}
