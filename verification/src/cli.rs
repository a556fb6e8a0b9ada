//! Command line arguments and their validation.
use vstd::prelude::*;
use crate::lang::{Edition, EditionSpec, Lang, edition_lang};
use crate::models::kaikki::WordEntry;
use crate::text::{owned, split_on, split_sep, str_eq, views};

verus! {

/// The command and the global flags.
#[derive(Debug)]
pub struct Cli {
    pub command: Command,
    /// Verbose output (logging at DEBUG).
    pub verbose: bool,
}

/// What to do.
#[derive(Debug)]
pub enum Command {
    /// Main dictionary. Uses target for the edition
    Main(MainArgs),
    /// Short dictionary made from translations. Uses source for the edition
    Glossary(GlossaryArgs),
    /// Short dictionary made from translations. Supports any language pair
    GlossaryExtended(GlossaryExtendedArgs),
    /// Phonetic transcription dictionary. Uses target for the edition
    Ipa(IpaArgs),
    /// Phonetic transcription dictionary. Uses all editions
    IpaMerged(IpaMergedArgs),
    /// Download a Kaikki jsonlines
    Download(MainArgs),
    /// Show supported iso codes, with coloured editions
    Iso(IsoArgs),
    /// Build a release with all dictionaries
    Release(ReleaseArgs),
    /// Diagnostic utility
    Scan(MainLangs),
}

/// Arguments of the main dictionary.
#[derive(Debug)]
pub struct MainArgs {
    pub langs: MainLangs,
    pub dict_name: DictName,
    pub options: Options,
}

/// Arguments of the glossary.
#[derive(Debug)]
pub struct GlossaryArgs {
    pub langs: GlossaryLangs,
    pub dict_name: DictName,
    pub options: Options,
}

/// Arguments of the extended glossary.
#[derive(Debug)]
pub struct GlossaryExtendedArgs {
    pub langs: GlossaryExtendedLangs,
    pub dict_name: DictName,
    pub options: Options,
}

/// Arguments of the IPA dictionary.
#[derive(Debug)]
pub struct IpaArgs {
    pub langs: MainLangs,
    pub dict_name: DictName,
    pub options: Options,
}

/// Arguments of the merged IPA dictionary.
#[derive(Debug)]
pub struct IpaMergedArgs {
    pub langs: IpaMergedLangs,
    pub dict_name: DictName,
    pub options: Options,
}

/// Arguments of a release.
#[derive(Debug)]
pub struct ReleaseArgs {
    /// The root directory.
    pub root_dir: String,
}

/// Arguments of the listing of codes.
#[derive(Debug, Default)]
pub struct IsoArgs {
    /// Only print languages with an edition.
    pub edition: bool,
}

/// Source and target of a main dictionary: the target is an edition.
#[derive(Debug, Clone, Copy)]
pub struct MainLangs {
    pub source: Lang,
    pub target: Edition,
}

/// Source and target of a glossary: the source is an edition.
#[derive(Debug, Clone, Copy)]
pub struct GlossaryLangs {
    pub source: Edition,
    pub target: Lang,
}

/// Edition(s), source and target of an extended glossary.
#[derive(Debug, Clone, Copy)]
pub struct GlossaryExtendedLangs {
    pub edition: EditionSpec,
    pub source: Lang,
    pub target: Lang,
}

/// The one language of a merged IPA dictionary.
#[derive(Debug, Clone, Copy)]
pub struct IpaMergedLangs {
    pub target: Lang,
}

/// Options shared by the dictionary commands.
#[derive(Debug, Default)]
pub struct Options {
    /// Write temporary files to disk and skip zipping.
    pub save_temps: bool,
    /// Redownload kaikki files.
    pub redownload: bool,
    /// Only keep the first n filtered lines; -1 keeps all.
    pub first: i32,
    /// Only keep entries matching these key–value filters.
    pub filter: Vec<(FilterKey, String)>,
    /// Only keep entries not matching these key–value filters.
    pub reject: Vec<(FilterKey, String)>,
    /// Do not print anything to the console.
    pub quiet: bool,
    /// Write jsons with whitespace.
    pub pretty: bool,
    /// Skip converting to yomitan.
    pub skip_yomitan: bool,
    /// Include experimental features.
    pub experimental: bool,
    /// The root directory.
    pub root_dir: String,
}

/// The name of a dictionary; `wty` when none is given.
#[derive(Debug)]
pub struct DictName(pub String);

impl DictName {
    /// The name given on the command line.
    pub fn from_str(s: &str) -> (r: DictName)
        ensures
            r.0@ == s@,
    {
        DictName(owned(s))
    }

    /// The name.
    pub fn as_str(&self) -> (r: &str)
        ensures
            r@ == self.0@,
    {
        self.0.as_str()
    }
}

impl Default for DictName {
    fn default() -> (r: DictName)
        ensures
            r.0@ == "wty"@,
    {
        DictName(owned("wty"))
    }
}

/// A field of a [`WordEntry`] that entries can be filtered by.
#[derive(Debug, Clone, Copy, PartialEq, Eq, Structural)]
pub enum FilterKey {
    LangCode,
    Word,
    Pos,
}

/// The field that a key names.
pub open spec fn filter_field(key: FilterKey, entry: WordEntry) -> Seq<char> {
    match key {
        FilterKey::LangCode => entry.lang_code@,
        FilterKey::Word => entry.word@,
        FilterKey::Pos => entry.pos@,
    }
}

impl FilterKey {
    /// The value of the field in `entry`.
    pub fn field_value<'a>(&self, entry: &'a WordEntry) -> (r: &'a str)
        ensures
            r@ == filter_field(*self, *entry),
    {
        match self {
            FilterKey::LangCode => entry.lang_code.as_str(),
            FilterKey::Word => entry.word.as_str(),
            FilterKey::Pos => entry.pos.as_str(),
        }
    }

    /// The key named `s`: `lang_code`, `word` or `pos`.
    pub fn from_key(s: &str) -> (r: Result<FilterKey, String>)
        ensures
            s@ == "lang_code"@ ==> r == Ok::<FilterKey, String>(FilterKey::LangCode),
            s@ == "word"@ ==> r == Ok::<FilterKey, String>(FilterKey::Word),
            s@ == "pos"@ ==> r == Ok::<FilterKey, String>(FilterKey::Pos),
            s@ != "lang_code"@ && s@ != "word"@ && s@ != "pos"@ ==> r is Err && r->Err_0@ == unknown_key_text(s@),
    {
        proof {
            reveal_strlit("lang_code");
            reveal_strlit("word");
            reveal_strlit("pos");
            assert("lang_code"@.len() != "word"@.len());
            assert("lang_code"@.len() != "pos"@.len());
        }
        if str_eq(s, "lang_code") {
            Ok(FilterKey::LangCode)
        } else if str_eq(s, "word") {
            Ok(FilterKey::Word)
        } else if str_eq(s, "pos") {
            Ok(FilterKey::Pos)
        } else {
            Err(crate::text::concat3(
                "unknown filter key '",
                s,
                "'. Choose between: lang_code | word | pos",
            ))
        }
    }
}

/// Whether a character has the Unicode `White_Space` property, as `char::is_whitespace` says:
/// U+0009 to U+000D, the space, U+0085, U+00A0, U+1680, U+2000 to U+200A, U+2028, U+2029,
/// U+202F, U+205F and U+3000.
pub open spec fn is_white(c: char) -> bool {
    ||| '\u{9}' <= c && c <= '\u{d}'
    ||| c == ' ' || c == '\u{85}' || c == '\u{a0}' || c == '\u{1680}'
    ||| '\u{2000}' <= c && c <= '\u{200a}'
    ||| c == '\u{2028}' || c == '\u{2029}' || c == '\u{202f}' || c == '\u{205f}' || c == '\u{3000}'
}

/// Whether a character is whitespace (see [`is_white`]).
fn char_is_whitespace(c: char) -> (r: bool)
    ensures
        r == is_white(c),
{
    ('\u{9}' <= c && c <= '\u{d}') || c == ' ' || c == '\u{85}' || c == '\u{a0}' || c == '\u{1680}'
        || ('\u{2000}' <= c && c <= '\u{200a}') || c == '\u{2028}' || c == '\u{2029}' || c == '\u{202f}'
        || c == '\u{205f}' || c == '\u{3000}'
}

/// `s` without its leading and trailing whitespace (std's `str::trim`).
pub open spec fn trimmed(s: Seq<char>) -> Seq<char>
    decreases s.len(),
{
    if s.len() > 0 && is_white(s[0]) {
        trimmed(s.drop_first())
    } else if s.len() > 0 && is_white(s.last()) {
        trimmed(s.drop_last())
    } else {
        s
    }
}

/// `s` without its leading and trailing whitespace.
pub fn trim(s: &str) -> (r: String)
    ensures
        r@ == trimmed(s@),
{
    let cs = crate::text::chars_of(s);
    let mut lo: usize = 0;
    let mut hi: usize = cs.len();
    assert(cs@.subrange(0, cs@.len() as int) =~= cs@);
    while lo < hi && char_is_whitespace(cs[lo])
        invariant
            lo <= hi <= cs@.len(),
            hi == cs@.len(),
            cs@ == s@,
            trimmed(s@) == trimmed(cs@.subrange(lo as int, hi as int)),
        decreases hi - lo,
    {
        assert(cs@.subrange(lo as int, hi as int).drop_first() =~= cs@.subrange(lo + 1, hi as int));
        lo += 1;
    }
    while lo < hi && char_is_whitespace(cs[hi - 1])
        invariant
            lo <= hi <= cs@.len(),
            cs@ == s@,
            lo < hi ==> !is_white(cs@[lo as int]),
            trimmed(s@) == trimmed(cs@.subrange(lo as int, hi as int)),
        decreases hi - lo,
    {
        assert(cs@.subrange(lo as int, hi as int).drop_last() =~= cs@.subrange(lo as int, hi - 1));
        hi -= 1;
    }
    crate::text::string_of_range(&cs, lo, hi)
}

/// The message for a filter key that names no field.
pub open spec fn unknown_key_text(key: Seq<char>) -> Seq<char> {
    "unknown filter key '"@ + key + "'. Choose between: lang_code | word | pos"@
}

/// A `key,value` filter: the two pieces around the comma, trimmed; the key must name a field.
pub fn parse_tuple(s: &str) -> (r: Result<(FilterKey, String), String>)
    ensures
        split_sep(s@, ',').len() != 2 ==> r is Err && r->Err_0@ == "expected two comma-separated values"@,
        split_sep(s@, ',').len() == 2 ==> {
            let key = trimmed(split_sep(s@, ',')[0]);
            let value = trimmed(split_sep(s@, ',')[1]);
            &&& key == "lang_code"@ ==> r is Ok && r->Ok_0.0 == FilterKey::LangCode && r->Ok_0.1@ == value
            &&& key == "word"@ ==> r is Ok && r->Ok_0.0 == FilterKey::Word && r->Ok_0.1@ == value
            &&& key == "pos"@ ==> r is Ok && r->Ok_0.0 == FilterKey::Pos && r->Ok_0.1@ == value
            &&& key != "lang_code"@ && key != "word"@ && key != "pos"@ ==> r is Err && r->Err_0@ == unknown_key_text(key)
        },
{
    let pieces = split_on(s, ',');
    if pieces.len() != 2 {
        return Err(owned("expected two comma-separated values"));
    }
    let key = trim(pieces[0].as_str());
    let value = trim(pieces[1].as_str());
    match FilterKey::from_key(key.as_str()) {
        Ok(k) => Ok((k, value)),
        Err(e) => Err(e),
    }
}

/// Why a pair of languages cannot make a dictionary.
#[derive(Debug, Clone, Copy, PartialEq, Eq, Structural)]
pub enum LangsError {
    /// Simple English must be used as both source and target.
    SimpleEnglishOnBothSides,
    /// Simple English can not be used for this dictionary.
    SimpleEnglishUnsupported,
    /// In a glossary dictionary source must be different from target.
    SourceIsTarget,
}

impl LangsError {
    /// The message shown to the user.
    pub fn message(&self) -> (r: &'static str)
        ensures
            r@ == match *self {
                LangsError::SimpleEnglishOnBothSides => "Simple English must be used as both source and target."@,
                LangsError::SimpleEnglishUnsupported => "Simple English can not be used for this dictionary."@,
                LangsError::SourceIsTarget => "in a glossary dictionary source must be different from target."@,
            },
    {
        match self {
            LangsError::SimpleEnglishOnBothSides => "Simple English must be used as both source and target.",
            LangsError::SimpleEnglishUnsupported => "Simple English can not be used for this dictionary.",
            LangsError::SourceIsTarget => "in a glossary dictionary source must be different from target.",
        }
    }
}

/// Simple English is either on both sides or on none.
fn check_simple_english(source: Lang, target: Lang) -> (r: Result<(), LangsError>)
    ensures
        r is Err <==> ((source == Lang::Simple) != (target == Lang::Simple)),
        r is Err ==> r == Err::<(), LangsError>(LangsError::SimpleEnglishOnBothSides),
{
    match (source, target) {
        (Lang::Simple, Lang::Simple) => Ok(()),
        (Lang::Simple, _) | (_, Lang::Simple) => Err(LangsError::SimpleEnglishOnBothSides),
        _ => Ok(()),
    }
}

/// Simple English is on no side (only the main dictionary takes it).
fn err_on_simple_english(source: Lang, target: Lang) -> (r: Result<(), LangsError>)
    ensures
        r is Err <==> (source == Lang::Simple || target == Lang::Simple),
        r is Err ==> r == Err::<(), LangsError>(LangsError::SimpleEnglishUnsupported),
{
    match (source, target) {
        (Lang::Simple, _) | (_, Lang::Simple) => Err(LangsError::SimpleEnglishUnsupported),
        _ => Ok(()),
    }
}

/// Source and target differ.
fn err_on_source_being_target(source: Lang, target: Lang) -> (r: Result<(), LangsError>)
    ensures
        r is Err <==> source == target,
        r is Err ==> r == Err::<(), LangsError>(LangsError::SourceIsTarget),
{
    if source == target {
        Err(LangsError::SourceIsTarget)
    } else {
        Ok(())
    }
}

/// The editions, source and target that a dictionary is made of.
#[derive(Debug, Clone, Copy)]
pub struct LangSpecs {
    pub edition: EditionSpec,
    pub source: Lang,
    pub target: Lang,
}

impl LangSpecs {
    /// A main dictionary: the edition is the target; Simple English on both sides or none.
    pub fn from_main_langs(langs: MainLangs) -> (r: Result<LangSpecs, LangsError>)
        ensures
            ((langs.source == Lang::Simple) != (langs.target == Edition::Simple))
                ==> r == Err::<LangSpecs, LangsError>(LangsError::SimpleEnglishOnBothSides),
            ((langs.source == Lang::Simple) == (langs.target == Edition::Simple)) ==> r == Ok::<LangSpecs, LangsError>(
                LangSpecs { edition: EditionSpec::One(langs.target), source: langs.source, target: edition_lang(langs.target) },
            ),
    {
        let target = Lang::from(langs.target);
        match check_simple_english(langs.source, target) {
            Err(e) => Err(e),
            Ok(()) => Ok(LangSpecs { edition: EditionSpec::One(langs.target), source: langs.source, target }),
        }
    }

    /// A glossary: the edition is the source; no Simple English, and source differs from target.
    pub fn from_glossary_langs(langs: GlossaryLangs) -> (r: Result<LangSpecs, LangsError>)
        ensures
            (langs.source == Edition::Simple || langs.target == Lang::Simple)
                ==> r == Err::<LangSpecs, LangsError>(LangsError::SimpleEnglishUnsupported),
            !(langs.source == Edition::Simple || langs.target == Lang::Simple) && edition_lang(langs.source) == langs.target
                ==> r == Err::<LangSpecs, LangsError>(LangsError::SourceIsTarget),
            !(langs.source == Edition::Simple || langs.target == Lang::Simple) && edition_lang(langs.source) != langs.target
                ==> r == Ok::<LangSpecs, LangsError>(
                LangSpecs { edition: EditionSpec::One(langs.source), source: edition_lang(langs.source), target: langs.target },
            ),
    {
        let source = Lang::from(langs.source);
        match err_on_simple_english(source, langs.target) {
            Err(e) => return Err(e),
            Ok(()) => {},
        }
        match err_on_source_being_target(source, langs.target) {
            Err(e) => Err(e),
            Ok(()) => Ok(LangSpecs { edition: EditionSpec::One(langs.source), source, target: langs.target }),
        }
    }

    /// An extended glossary: no Simple English, and source differs from target.
    pub fn from_glossary_extended_langs(langs: GlossaryExtendedLangs) -> (r: Result<LangSpecs, LangsError>)
        ensures
            (langs.source == Lang::Simple || langs.target == Lang::Simple)
                ==> r == Err::<LangSpecs, LangsError>(LangsError::SimpleEnglishUnsupported),
            !(langs.source == Lang::Simple || langs.target == Lang::Simple) && langs.source == langs.target
                ==> r == Err::<LangSpecs, LangsError>(LangsError::SourceIsTarget),
            !(langs.source == Lang::Simple || langs.target == Lang::Simple) && langs.source != langs.target
                ==> r == Ok::<LangSpecs, LangsError>(
                LangSpecs { edition: langs.edition, source: langs.source, target: langs.target },
            ),
    {
        match err_on_simple_english(langs.source, langs.target) {
            Err(e) => return Err(e),
            Ok(()) => {},
        }
        match err_on_source_being_target(langs.source, langs.target) {
            Err(e) => Err(e),
            Ok(()) => Ok(LangSpecs { edition: langs.edition, source: langs.source, target: langs.target }),
        }
    }

    /// A merged IPA dictionary: every edition, and no Simple English.
    pub fn from_ipa_merged_langs(langs: IpaMergedLangs) -> (r: Result<LangSpecs, LangsError>)
        ensures
            langs.target == Lang::Simple ==> r == Err::<LangSpecs, LangsError>(LangsError::SimpleEnglishUnsupported),
            langs.target != Lang::Simple ==> r == Ok::<LangSpecs, LangsError>(
                LangSpecs { edition: EditionSpec::All, source: langs.target, target: langs.target },
            ),
    {
        match err_on_simple_english(langs.target, langs.target) {
            Err(e) => Err(e),
            Ok(()) => Ok(LangSpecs { edition: EditionSpec::All, source: langs.target, target: langs.target }),
        }
    }
}

} // verus!
