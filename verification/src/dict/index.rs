//! The index of a dictionary: its metadata and where updates come from.
use vstd::prelude::*;
use crate::lang::{Lang, lang_code};
use crate::path::DictionaryType;
use crate::text::owned;

verus! {

/// Where releases are downloaded from.
pub const BASE_URL: &'static str = "https://huggingface.co/datasets/daxida/wty-release/resolve/main/latest";

/// The source as the release tree names it: `all` for a merged IPA dictionary.
pub open spec fn source_name(dict_ty: DictionaryType, source: Lang) -> Seq<char> {
    if dict_ty == DictionaryType::IpaMerged {
        "all"@
    } else {
        lang_code(source)
    }
}

/// The source as the release tree names it.
pub fn source_str(dict_ty: DictionaryType, source: Lang) -> (r: &'static str)
    ensures
        r@ == source_name(dict_ty, source),
{
    match dict_ty {
        DictionaryType::Main | DictionaryType::Ipa | DictionaryType::Glossary | DictionaryType::GlossaryExtended => source.as_ref(),
        DictionaryType::IpaMerged => "all",
    }
}

/// The URL to download a dictionary: `<base>/dict/<source>/<target>/<name>.zip?download=true`.
pub open spec fn download_link(dict_ty: DictionaryType, name: Seq<char>, source: Lang, target: Lang) -> Seq<char> {
    BASE_URL@ + "/dict/"@ + source_name(dict_ty, source) + "/"@ + lang_code(target) + "/"@ + name
        + ".zip?download=true"@
}

/// The URL to download this dictionary.
pub fn download_url(dict_ty: DictionaryType, dict_name_expanded: &str, source: Lang, target: Lang) -> (r: String)
    ensures
        r@ == download_link(dict_ty, dict_name_expanded@, source, target),
{
    let mut r = owned(BASE_URL);
    r.append("/dict/");
    r.append(source_str(dict_ty, source));
    r.append("/");
    r.append(target.as_ref());
    r.append("/");
    r.append(dict_name_expanded);
    r.append(".zip?download=true");
    r
}

/// The URL of the copy of a dictionary's index: `<base>/index/<name>-index.json?download=true`.
pub open spec fn index_link(name: Seq<char>) -> Seq<char> {
    BASE_URL@ + "/index/"@ + name + "-index.json?download=true"@
}

/// The URL of the copy of this dictionary's index.
pub fn index_url(dict_name_expanded: &str) -> (r: String)
    ensures
        r@ == index_link(dict_name_expanded@),
{
    let mut r = owned(BASE_URL);
    r.append("/index/");
    r.append(dict_name_expanded);
    r.append("-index.json?download=true");
    r
}

/// The index (JSON) of a dictionary released on `date` (`2024.05.31`).
pub open spec fn index_text(
    dict_ty: DictionaryType,
    name: Seq<char>,
    source: Lang,
    target: Lang,
    date: Seq<char>,
) -> Seq<char> {
    "{\n  \"title\": \""@ + name + "\",\n  \"format\": 3,\n  \"revision\": \""@ + date
        + "\",\n  \"sequenced\": true,\n  \"author\": \"wty contributors\",\n  \"url\": \"https://github.com/daxida/wty\",\n  \"description\": \"Dictionaries for various language pairs generated from Wiktionary data, via Kaikki and wty.\",\n  \"attribution\": \"https://kaikki.org/\",\n  \"sourceLanguage\": \""@
        + source_name(dict_ty, source) + "\",\n  \"targetLanguage\": \""@ + lang_code(target)
        + "\",\n  \"isUpdatable\": true,\n  \"indexUrl\": \""@ + index_link(name) + "\",\n  \"downloadUrl\": \""@
        + download_link(dict_ty, name, source, target) + "\"\n}"@
}

/// The index of a dictionary released on `date`. Updates are found through `indexUrl`, and
/// downloaded from `downloadUrl`.
pub fn index_json(
    dict_ty: DictionaryType,
    dict_name_expanded: &str,
    source: Lang,
    target: Lang,
    date: &str,
) -> (r: String)
    ensures
        r@ == index_text(dict_ty, dict_name_expanded@, source, target, date@),
{
    let index = index_url(dict_name_expanded);
    let download = download_url(dict_ty, dict_name_expanded, source, target);
    let mut r = owned("{\n  \"title\": \"");
    r.append(dict_name_expanded);
    r.append("\",\n  \"format\": 3,\n  \"revision\": \"");
    r.append(date);
    r.append("\",\n  \"sequenced\": true,\n  \"author\": \"wty contributors\",\n  \"url\": \"https://github.com/daxida/wty\",\n  \"description\": \"Dictionaries for various language pairs generated from Wiktionary data, via Kaikki and wty.\",\n  \"attribution\": \"https://kaikki.org/\",\n  \"sourceLanguage\": \"");
    r.append(source_str(dict_ty, source));
    r.append("\",\n  \"targetLanguage\": \"");
    r.append(target.as_ref());
    r.append("\",\n  \"isUpdatable\": true,\n  \"indexUrl\": \"");
    r.append(index.as_str());
    r.append("\",\n  \"downloadUrl\": \"");
    r.append(download.as_str());
    r.append("\"\n}");
    r
}

/// A digit from `0` to `9`.
pub open spec fn is_digit(c: char) -> bool {
    '0' <= c && c <= '9'
}

/// A date written `%Y.%m.%d`: the year (at least four characters, zero-padded), a dot, two
/// digits of the month, a dot, two digits of the day.
pub open spec fn date_shaped(d: Seq<char>) -> bool {
    let n = d.len();
    &&& n >= 10
    &&& d[n - 6] == '.' && d[n - 3] == '.'
    &&& is_digit(d[n - 5]) && is_digit(d[n - 4]) && is_digit(d[n - 2]) && is_digit(d[n - 1])
}

/// Today's date (UTC) written `%Y.%m.%d`, from chrono's `Utc::now().format(..)`. Which date
/// depends on the clock; what holds of every outcome is its shape (see [`date_shaped`]): chrono
/// pads the year to at least four characters and the month and the day to two digits. The
/// year's characters are left unsaid (a year beyond 9999 or before 0 takes a sign).
#[verifier::external_body]
fn current_date() -> (r: String)
    ensures
        date_shaped(r@),
{
    chrono::Utc::now().format("%Y.%m.%d").to_string()
}

/// The index of a dictionary released today.
pub fn get_index(dict_ty: DictionaryType, dict_name_expanded: &str, source: Lang, target: Lang) -> (r: String)
    ensures
        exists|date: Seq<char>| date_shaped(date) && r@ == index_text(dict_ty, dict_name_expanded@, source, target, date),
{
    let date = current_date();
    index_json(dict_ty, dict_name_expanded, source, target, date.as_str())
}

} // verus!
