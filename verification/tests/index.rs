use wty::dict::index::{download_url, index_url};
use wty::lang::Lang;
use wty::path::DictionaryType;

#[test]
fn url_download_ipa() {
    assert_eq!(
        download_url(DictionaryType::Ipa, "wty-afb-en-ipa", Lang::Afb, Lang::En),
        "https://huggingface.co/datasets/daxida/wty-release/resolve/main/latest/dict/afb/en/wty-afb-en-ipa.zip?download=true"
    );
}

#[test]
fn url_download_ipa_merged() {
    assert_eq!(
        download_url(DictionaryType::IpaMerged, "wty-en-ipa", Lang::Afb, Lang::En),
        "https://huggingface.co/datasets/daxida/wty-release/resolve/main/latest/dict/all/en/wty-en-ipa.zip?download=true"
    );
}

#[test]
fn url_index() {
    assert_eq!(
        index_url("wty-afb-en-ipa"),
        "https://huggingface.co/datasets/daxida/wty-release/resolve/main/latest/index/wty-afb-en-ipa-index.json?download=true"
    );
}

#[test]
fn dataset_urls() {
    assert_eq!(
        wty::path::dataset_url(wty::lang::Edition::En),
        "https://kaikki.org/dictionary/raw-wiktextract-data.jsonl.gz"
    );
    assert_eq!(
        wty::path::dataset_url(wty::lang::Edition::De),
        "https://kaikki.org/dewiktionary/raw-wiktextract-data.jsonl.gz"
    );
}
