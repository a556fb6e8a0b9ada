//! Language and edition codes.
use vstd::prelude::*;
use crate::text::{concat, concat3, join_sep, owned, str_eq};

verus! {

/// The name of a code type: a language, an edition or a choice of editions.
pub trait Code: Sized + Copy + Eq {
    /// The code as it is written, as characters.
    spec fn code_of(&self) -> Seq<char>;

    /// The code as it is written, `"en"` or `"all"` (see [`Code::code_of`]).
    fn code(&self) -> (r: &'static str)
        ensures
            r@ == self.code_of(),
    ;
}

/// The number of supported languages.
pub const LANG_COUNT: usize = 157;

/// The number of Wiktionary editions.
pub const EDITION_COUNT: usize = 21;

/// A language that Wiktionary data can be about.
#[derive(Debug, Clone, Copy, PartialEq, Eq, Structural, Hash)]
pub enum Lang {
    /// Afrikaans
    Af,
    /// Albanian
    Sq,
    /// Egyptian Arabic
    Arz,
    /// Gulf Arabic
    Afb,
    /// Arabic
    Ar,
    /// North Levantine Arabic
    Apc,
    /// South Levantine Arabic
    Ajp,
    /// Armenian
    Hy,
    /// Old Armenian
    Xcl,
    /// Aromanian
    Rup,
    /// Assamese
    As,
    /// Assyrian Neo-Aramaic
    Aii,
    /// Asturian
    Ast,
    /// Azerbaijani
    Az,
    /// Bashkir
    Ba,
    /// Basque
    Eu,
    /// Belarusian
    Be,
    /// Bengali
    Bn,
    /// Central Bikol
    Bcl,
    /// Bulgarian
    Bg,
    /// Burmese
    My,
    /// Catalan
    Ca,
    /// Cebuano
    Ceb,
    /// Chinese
    Zh,
    /// Yue Chinese
    Yue,
    /// Mandarin Chinese
    Cmn,
    /// Cimbrian
    Cim,
    /// Coptic
    Cop,
    /// Cornish
    Kw,
    /// Crimean Tatar
    Crh,
    /// Czech
    Cs,
    /// Old Czech
    Zlwocs,
    /// Danish
    Da,
    /// Dutch
    Nl,
    /// Middle Dutch
    Dum,
    /// Egyptian
    Egy,
    /// English
    En,
    /// Middle English
    Enm,
    /// Old English
    Ang,
    /// Simple English
    Simple,
    /// Esperanto
    Eo,
    /// Estonian
    Et,
    /// Faroese
    Fo,
    /// Finnish
    Fi,
    /// French
    Fr,
    /// Middle French
    Frm,
    /// Old French
    Fro,
    /// Galician
    Gl,
    /// Georgian
    Ka,
    /// German
    De,
    /// Old High German
    Goh,
    /// Gothic
    Got,
    /// Greek
    El,
    /// Ancient Greek
    Grc,
    /// Gujarati
    Gu,
    /// Hawaiian
    Haw,
    /// Hebrew
    He,
    /// Hindi
    Hi,
    /// Hungarian
    Hu,
    /// Icelandic
    Is,
    /// Ido
    Io,
    /// Indonesian
    Id,
    /// Ingrian
    Izh,
    /// Interlingua
    Ia,
    /// Irish
    Ga,
    /// Old Irish
    Sga,
    /// Italian
    It,
    /// Japanese
    Ja,
    /// Javanese
    Jv,
    /// Kannada
    Kn,
    /// Kashubian
    Csb,
    /// Kazakh
    Kk,
    /// Khiamniungan Naga
    Kix,
    /// Khmer
    Km,
    /// Korean
    Ko,
    /// Kurdish
    Ku,
    /// Northern Kurdish
    Kmr,
    /// Kyrgyz
    Ky,
    /// Ladin
    Lld,
    /// Lao
    Lo,
    /// Latin
    La,
    /// Latvian
    Lv,
    /// Laz
    Lzz,
    /// Lithuanian
    Lt,
    /// Livonian
    Liv,
    /// Luxembourgish
    Lb,
    /// Macedonian
    Mk,
    /// Malagasy
    Mg,
    /// Malay
    Ms,
    /// Malayalam
    Ml,
    /// Maltese
    Mt,
    /// Manx
    Gv,
    /// Marathi
    Mr,
    /// Mongolian
    Mn,
    /// Māori
    Mi,
    /// Classical Nahuatl
    Nah,
    /// Navajo
    Nv,
    /// Norman
    Nrf,
    /// Northern Sami
    Se,
    /// Norwegian
    No,
    /// Norwegian Bokmål
    Nb,
    /// Norwegian Nynorsk
    Nn,
    /// Occitan
    Oc,
    /// Odia
    Or,
    /// Old Church Slavonic
    Cu,
    /// Old Norse
    Non,
    /// Pali
    Pi,
    /// Pannonian Rusyn
    Rsk,
    /// Persian
    Fa,
    /// Plautdietsch
    Pdt,
    /// Polish
    Pl,
    /// Old Polish
    Zlwopl,
    /// Portuguese
    Pt,
    /// Proto-Finnic
    Urjfinpro,
    /// Proto-Germanic
    Gempro,
    /// Proto-Slavic
    Slapro,
    /// Proto-West Germanic
    Gmwpro,
    /// Punjabi
    Pa,
    /// Romanian
    Ro,
    /// Russian
    Ru,
    /// Sanskrit
    Sa,
    /// Scots
    Sco,
    /// Scottish Gaelic
    Gd,
    /// Serbo-Croatian
    Sh,
    /// Sicilian
    Scn,
    /// Slovak
    Sk,
    /// Slovene
    Sl,
    /// Lower Sorbian
    Dsb,
    /// Spanish
    Es,
    /// Sundanese
    Su,
    /// Swahili
    Sw,
    /// Swedish
    Sv,
    /// Classical Syriac
    Syc,
    /// Tagalog
    Tl,
    /// Tajik
    Tg,
    /// Tamil
    Ta,
    /// Telugu
    Te,
    /// Thai
    Th,
    /// Tibetan
    Bo,
    /// Toki Pona
    Tok,
    /// Turkish
    Tr,
    /// Ottoman Turkish
    Ota,
    /// Ukrainian
    Uk,
    /// Urdu
    Ur,
    /// Uyghur
    Ug,
    /// Uzbek
    Uz,
    /// Venetan
    Vec,
    /// Vietnamese
    Vi,
    /// Volapük
    Vo,
    /// Votic
    Vot,
    /// Welsh
    Cy,
    /// West Circassian
    Ady,
    /// West Frisian
    Fy,
    /// Yakut
    Sah,
    /// Yiddish
    Yi,
    /// Yoruba
    Yo,
    /// Zulu
    Zu,
}

/// A Wiktionary edition: a language that Wiktionary is written in.
#[derive(Debug, Clone, Copy, PartialEq, Eq, Structural, Hash)]
pub enum Edition {
    /// Chinese
    Zh,
    /// Czech
    Cs,
    /// Dutch
    Nl,
    /// English
    En,
    /// Simple English
    Simple,
    /// French
    Fr,
    /// German
    De,
    /// Greek
    El,
    /// Indonesian
    Id,
    /// Italian
    It,
    /// Japanese
    Ja,
    /// Korean
    Ko,
    /// Kurdish
    Ku,
    /// Malay
    Ms,
    /// Polish
    Pl,
    /// Portuguese
    Pt,
    /// Russian
    Ru,
    /// Spanish
    Es,
    /// Thai
    Th,
    /// Turkish
    Tr,
    /// Vietnamese
    Vi,
}

/// Either every edition or one of them.
#[derive(Debug, Clone, Copy, PartialEq, Eq, Structural, Hash)]
pub enum EditionSpec {
    /// All editions
    All,
    /// An `Edition`
    One(Edition),
}

/// The code of a language, `"en"`.
pub open spec fn lang_code(l: Lang) -> Seq<char> {
    match l {
        Lang::Af => "af"@,
        Lang::Sq => "sq"@,
        Lang::Arz => "arz"@,
        Lang::Afb => "afb"@,
        Lang::Ar => "ar"@,
        Lang::Apc => "apc"@,
        Lang::Ajp => "ajp"@,
        Lang::Hy => "hy"@,
        Lang::Xcl => "xcl"@,
        Lang::Rup => "rup"@,
        Lang::As => "as"@,
        Lang::Aii => "aii"@,
        Lang::Ast => "ast"@,
        Lang::Az => "az"@,
        Lang::Ba => "ba"@,
        Lang::Eu => "eu"@,
        Lang::Be => "be"@,
        Lang::Bn => "bn"@,
        Lang::Bcl => "bcl"@,
        Lang::Bg => "bg"@,
        Lang::My => "my"@,
        Lang::Ca => "ca"@,
        Lang::Ceb => "ceb"@,
        Lang::Zh => "zh"@,
        Lang::Yue => "yue"@,
        Lang::Cmn => "cmn"@,
        Lang::Cim => "cim"@,
        Lang::Cop => "cop"@,
        Lang::Kw => "kw"@,
        Lang::Crh => "crh"@,
        Lang::Cs => "cs"@,
        Lang::Zlwocs => "zlw-ocs"@,
        Lang::Da => "da"@,
        Lang::Nl => "nl"@,
        Lang::Dum => "dum"@,
        Lang::Egy => "egy"@,
        Lang::En => "en"@,
        Lang::Enm => "enm"@,
        Lang::Ang => "ang"@,
        Lang::Simple => "simple"@,
        Lang::Eo => "eo"@,
        Lang::Et => "et"@,
        Lang::Fo => "fo"@,
        Lang::Fi => "fi"@,
        Lang::Fr => "fr"@,
        Lang::Frm => "frm"@,
        Lang::Fro => "fro"@,
        Lang::Gl => "gl"@,
        Lang::Ka => "ka"@,
        Lang::De => "de"@,
        Lang::Goh => "goh"@,
        Lang::Got => "got"@,
        Lang::El => "el"@,
        Lang::Grc => "grc"@,
        Lang::Gu => "gu"@,
        Lang::Haw => "haw"@,
        Lang::He => "he"@,
        Lang::Hi => "hi"@,
        Lang::Hu => "hu"@,
        Lang::Is => "is"@,
        Lang::Io => "io"@,
        Lang::Id => "id"@,
        Lang::Izh => "izh"@,
        Lang::Ia => "ia"@,
        Lang::Ga => "ga"@,
        Lang::Sga => "sga"@,
        Lang::It => "it"@,
        Lang::Ja => "ja"@,
        Lang::Jv => "jv"@,
        Lang::Kn => "kn"@,
        Lang::Csb => "csb"@,
        Lang::Kk => "kk"@,
        Lang::Kix => "kix"@,
        Lang::Km => "km"@,
        Lang::Ko => "ko"@,
        Lang::Ku => "ku"@,
        Lang::Kmr => "kmr"@,
        Lang::Ky => "ky"@,
        Lang::Lld => "lld"@,
        Lang::Lo => "lo"@,
        Lang::La => "la"@,
        Lang::Lv => "lv"@,
        Lang::Lzz => "lzz"@,
        Lang::Lt => "lt"@,
        Lang::Liv => "liv"@,
        Lang::Lb => "lb"@,
        Lang::Mk => "mk"@,
        Lang::Mg => "mg"@,
        Lang::Ms => "ms"@,
        Lang::Ml => "ml"@,
        Lang::Mt => "mt"@,
        Lang::Gv => "gv"@,
        Lang::Mr => "mr"@,
        Lang::Mn => "mn"@,
        Lang::Mi => "mi"@,
        Lang::Nah => "nah"@,
        Lang::Nv => "nv"@,
        Lang::Nrf => "nrf"@,
        Lang::Se => "se"@,
        Lang::No => "no"@,
        Lang::Nb => "nb"@,
        Lang::Nn => "nn"@,
        Lang::Oc => "oc"@,
        Lang::Or => "or"@,
        Lang::Cu => "cu"@,
        Lang::Non => "non"@,
        Lang::Pi => "pi"@,
        Lang::Rsk => "rsk"@,
        Lang::Fa => "fa"@,
        Lang::Pdt => "pdt"@,
        Lang::Pl => "pl"@,
        Lang::Zlwopl => "zlw-opl"@,
        Lang::Pt => "pt"@,
        Lang::Urjfinpro => "urj-fin-pro"@,
        Lang::Gempro => "gem-pro"@,
        Lang::Slapro => "sla-pro"@,
        Lang::Gmwpro => "gmw-pro"@,
        Lang::Pa => "pa"@,
        Lang::Ro => "ro"@,
        Lang::Ru => "ru"@,
        Lang::Sa => "sa"@,
        Lang::Sco => "sco"@,
        Lang::Gd => "gd"@,
        Lang::Sh => "sh"@,
        Lang::Scn => "scn"@,
        Lang::Sk => "sk"@,
        Lang::Sl => "sl"@,
        Lang::Dsb => "dsb"@,
        Lang::Es => "es"@,
        Lang::Su => "su"@,
        Lang::Sw => "sw"@,
        Lang::Sv => "sv"@,
        Lang::Syc => "syc"@,
        Lang::Tl => "tl"@,
        Lang::Tg => "tg"@,
        Lang::Ta => "ta"@,
        Lang::Te => "te"@,
        Lang::Th => "th"@,
        Lang::Bo => "bo"@,
        Lang::Tok => "tok"@,
        Lang::Tr => "tr"@,
        Lang::Ota => "ota"@,
        Lang::Uk => "uk"@,
        Lang::Ur => "ur"@,
        Lang::Ug => "ug"@,
        Lang::Uz => "uz"@,
        Lang::Vec => "vec"@,
        Lang::Vi => "vi"@,
        Lang::Vo => "vo"@,
        Lang::Vot => "vot"@,
        Lang::Cy => "cy"@,
        Lang::Ady => "ady"@,
        Lang::Fy => "fy"@,
        Lang::Sah => "sah"@,
        Lang::Yi => "yi"@,
        Lang::Yo => "yo"@,
        Lang::Zu => "zu"@,
    }
}

/// The English name of a language, `"English"`.
pub open spec fn lang_name(l: Lang) -> Seq<char> {
    match l {
        Lang::Af => "Afrikaans"@,
        Lang::Sq => "Albanian"@,
        Lang::Arz => "Egyptian Arabic"@,
        Lang::Afb => "Gulf Arabic"@,
        Lang::Ar => "Arabic"@,
        Lang::Apc => "North Levantine Arabic"@,
        Lang::Ajp => "South Levantine Arabic"@,
        Lang::Hy => "Armenian"@,
        Lang::Xcl => "Old Armenian"@,
        Lang::Rup => "Aromanian"@,
        Lang::As => "Assamese"@,
        Lang::Aii => "Assyrian Neo-Aramaic"@,
        Lang::Ast => "Asturian"@,
        Lang::Az => "Azerbaijani"@,
        Lang::Ba => "Bashkir"@,
        Lang::Eu => "Basque"@,
        Lang::Be => "Belarusian"@,
        Lang::Bn => "Bengali"@,
        Lang::Bcl => "Central Bikol"@,
        Lang::Bg => "Bulgarian"@,
        Lang::My => "Burmese"@,
        Lang::Ca => "Catalan"@,
        Lang::Ceb => "Cebuano"@,
        Lang::Zh => "Chinese"@,
        Lang::Yue => "Yue Chinese"@,
        Lang::Cmn => "Mandarin Chinese"@,
        Lang::Cim => "Cimbrian"@,
        Lang::Cop => "Coptic"@,
        Lang::Kw => "Cornish"@,
        Lang::Crh => "Crimean Tatar"@,
        Lang::Cs => "Czech"@,
        Lang::Zlwocs => "Old Czech"@,
        Lang::Da => "Danish"@,
        Lang::Nl => "Dutch"@,
        Lang::Dum => "Middle Dutch"@,
        Lang::Egy => "Egyptian"@,
        Lang::En => "English"@,
        Lang::Enm => "Middle English"@,
        Lang::Ang => "Old English"@,
        Lang::Simple => "Simple English"@,
        Lang::Eo => "Esperanto"@,
        Lang::Et => "Estonian"@,
        Lang::Fo => "Faroese"@,
        Lang::Fi => "Finnish"@,
        Lang::Fr => "French"@,
        Lang::Frm => "Middle French"@,
        Lang::Fro => "Old French"@,
        Lang::Gl => "Galician"@,
        Lang::Ka => "Georgian"@,
        Lang::De => "German"@,
        Lang::Goh => "Old High German"@,
        Lang::Got => "Gothic"@,
        Lang::El => "Greek"@,
        Lang::Grc => "Ancient Greek"@,
        Lang::Gu => "Gujarati"@,
        Lang::Haw => "Hawaiian"@,
        Lang::He => "Hebrew"@,
        Lang::Hi => "Hindi"@,
        Lang::Hu => "Hungarian"@,
        Lang::Is => "Icelandic"@,
        Lang::Io => "Ido"@,
        Lang::Id => "Indonesian"@,
        Lang::Izh => "Ingrian"@,
        Lang::Ia => "Interlingua"@,
        Lang::Ga => "Irish"@,
        Lang::Sga => "Old Irish"@,
        Lang::It => "Italian"@,
        Lang::Ja => "Japanese"@,
        Lang::Jv => "Javanese"@,
        Lang::Kn => "Kannada"@,
        Lang::Csb => "Kashubian"@,
        Lang::Kk => "Kazakh"@,
        Lang::Kix => "Khiamniungan Naga"@,
        Lang::Km => "Khmer"@,
        Lang::Ko => "Korean"@,
        Lang::Ku => "Kurdish"@,
        Lang::Kmr => "Northern Kurdish"@,
        Lang::Ky => "Kyrgyz"@,
        Lang::Lld => "Ladin"@,
        Lang::Lo => "Lao"@,
        Lang::La => "Latin"@,
        Lang::Lv => "Latvian"@,
        Lang::Lzz => "Laz"@,
        Lang::Lt => "Lithuanian"@,
        Lang::Liv => "Livonian"@,
        Lang::Lb => "Luxembourgish"@,
        Lang::Mk => "Macedonian"@,
        Lang::Mg => "Malagasy"@,
        Lang::Ms => "Malay"@,
        Lang::Ml => "Malayalam"@,
        Lang::Mt => "Maltese"@,
        Lang::Gv => "Manx"@,
        Lang::Mr => "Marathi"@,
        Lang::Mn => "Mongolian"@,
        Lang::Mi => "Māori"@,
        Lang::Nah => "Classical Nahuatl"@,
        Lang::Nv => "Navajo"@,
        Lang::Nrf => "Norman"@,
        Lang::Se => "Northern Sami"@,
        Lang::No => "Norwegian"@,
        Lang::Nb => "Norwegian Bokmål"@,
        Lang::Nn => "Norwegian Nynorsk"@,
        Lang::Oc => "Occitan"@,
        Lang::Or => "Odia"@,
        Lang::Cu => "Old Church Slavonic"@,
        Lang::Non => "Old Norse"@,
        Lang::Pi => "Pali"@,
        Lang::Rsk => "Pannonian Rusyn"@,
        Lang::Fa => "Persian"@,
        Lang::Pdt => "Plautdietsch"@,
        Lang::Pl => "Polish"@,
        Lang::Zlwopl => "Old Polish"@,
        Lang::Pt => "Portuguese"@,
        Lang::Urjfinpro => "Proto-Finnic"@,
        Lang::Gempro => "Proto-Germanic"@,
        Lang::Slapro => "Proto-Slavic"@,
        Lang::Gmwpro => "Proto-West Germanic"@,
        Lang::Pa => "Punjabi"@,
        Lang::Ro => "Romanian"@,
        Lang::Ru => "Russian"@,
        Lang::Sa => "Sanskrit"@,
        Lang::Sco => "Scots"@,
        Lang::Gd => "Scottish Gaelic"@,
        Lang::Sh => "Serbo-Croatian"@,
        Lang::Scn => "Sicilian"@,
        Lang::Sk => "Slovak"@,
        Lang::Sl => "Slovene"@,
        Lang::Dsb => "Lower Sorbian"@,
        Lang::Es => "Spanish"@,
        Lang::Su => "Sundanese"@,
        Lang::Sw => "Swahili"@,
        Lang::Sv => "Swedish"@,
        Lang::Syc => "Classical Syriac"@,
        Lang::Tl => "Tagalog"@,
        Lang::Tg => "Tajik"@,
        Lang::Ta => "Tamil"@,
        Lang::Te => "Telugu"@,
        Lang::Th => "Thai"@,
        Lang::Bo => "Tibetan"@,
        Lang::Tok => "Toki Pona"@,
        Lang::Tr => "Turkish"@,
        Lang::Ota => "Ottoman Turkish"@,
        Lang::Uk => "Ukrainian"@,
        Lang::Ur => "Urdu"@,
        Lang::Ug => "Uyghur"@,
        Lang::Uz => "Uzbek"@,
        Lang::Vec => "Venetan"@,
        Lang::Vi => "Vietnamese"@,
        Lang::Vo => "Volapük"@,
        Lang::Vot => "Votic"@,
        Lang::Cy => "Welsh"@,
        Lang::Ady => "West Circassian"@,
        Lang::Fy => "West Frisian"@,
        Lang::Sah => "Yakut"@,
        Lang::Yi => "Yiddish"@,
        Lang::Yo => "Yoruba"@,
        Lang::Zu => "Zulu"@,
    }
}

/// The position of a language in [`all_langs`].
pub open spec fn lang_index(l: Lang) -> int {
    match l {
        Lang::Af => 0,
        Lang::Sq => 1,
        Lang::Arz => 2,
        Lang::Afb => 3,
        Lang::Ar => 4,
        Lang::Apc => 5,
        Lang::Ajp => 6,
        Lang::Hy => 7,
        Lang::Xcl => 8,
        Lang::Rup => 9,
        Lang::As => 10,
        Lang::Aii => 11,
        Lang::Ast => 12,
        Lang::Az => 13,
        Lang::Ba => 14,
        Lang::Eu => 15,
        Lang::Be => 16,
        Lang::Bn => 17,
        Lang::Bcl => 18,
        Lang::Bg => 19,
        Lang::My => 20,
        Lang::Ca => 21,
        Lang::Ceb => 22,
        Lang::Zh => 23,
        Lang::Yue => 24,
        Lang::Cmn => 25,
        Lang::Cim => 26,
        Lang::Cop => 27,
        Lang::Kw => 28,
        Lang::Crh => 29,
        Lang::Cs => 30,
        Lang::Zlwocs => 31,
        Lang::Da => 32,
        Lang::Nl => 33,
        Lang::Dum => 34,
        Lang::Egy => 35,
        Lang::En => 36,
        Lang::Enm => 37,
        Lang::Ang => 38,
        Lang::Simple => 39,
        Lang::Eo => 40,
        Lang::Et => 41,
        Lang::Fo => 42,
        Lang::Fi => 43,
        Lang::Fr => 44,
        Lang::Frm => 45,
        Lang::Fro => 46,
        Lang::Gl => 47,
        Lang::Ka => 48,
        Lang::De => 49,
        Lang::Goh => 50,
        Lang::Got => 51,
        Lang::El => 52,
        Lang::Grc => 53,
        Lang::Gu => 54,
        Lang::Haw => 55,
        Lang::He => 56,
        Lang::Hi => 57,
        Lang::Hu => 58,
        Lang::Is => 59,
        Lang::Io => 60,
        Lang::Id => 61,
        Lang::Izh => 62,
        Lang::Ia => 63,
        Lang::Ga => 64,
        Lang::Sga => 65,
        Lang::It => 66,
        Lang::Ja => 67,
        Lang::Jv => 68,
        Lang::Kn => 69,
        Lang::Csb => 70,
        Lang::Kk => 71,
        Lang::Kix => 72,
        Lang::Km => 73,
        Lang::Ko => 74,
        Lang::Ku => 75,
        Lang::Kmr => 76,
        Lang::Ky => 77,
        Lang::Lld => 78,
        Lang::Lo => 79,
        Lang::La => 80,
        Lang::Lv => 81,
        Lang::Lzz => 82,
        Lang::Lt => 83,
        Lang::Liv => 84,
        Lang::Lb => 85,
        Lang::Mk => 86,
        Lang::Mg => 87,
        Lang::Ms => 88,
        Lang::Ml => 89,
        Lang::Mt => 90,
        Lang::Gv => 91,
        Lang::Mr => 92,
        Lang::Mn => 93,
        Lang::Mi => 94,
        Lang::Nah => 95,
        Lang::Nv => 96,
        Lang::Nrf => 97,
        Lang::Se => 98,
        Lang::No => 99,
        Lang::Nb => 100,
        Lang::Nn => 101,
        Lang::Oc => 102,
        Lang::Or => 103,
        Lang::Cu => 104,
        Lang::Non => 105,
        Lang::Pi => 106,
        Lang::Rsk => 107,
        Lang::Fa => 108,
        Lang::Pdt => 109,
        Lang::Pl => 110,
        Lang::Zlwopl => 111,
        Lang::Pt => 112,
        Lang::Urjfinpro => 113,
        Lang::Gempro => 114,
        Lang::Slapro => 115,
        Lang::Gmwpro => 116,
        Lang::Pa => 117,
        Lang::Ro => 118,
        Lang::Ru => 119,
        Lang::Sa => 120,
        Lang::Sco => 121,
        Lang::Gd => 122,
        Lang::Sh => 123,
        Lang::Scn => 124,
        Lang::Sk => 125,
        Lang::Sl => 126,
        Lang::Dsb => 127,
        Lang::Es => 128,
        Lang::Su => 129,
        Lang::Sw => 130,
        Lang::Sv => 131,
        Lang::Syc => 132,
        Lang::Tl => 133,
        Lang::Tg => 134,
        Lang::Ta => 135,
        Lang::Te => 136,
        Lang::Th => 137,
        Lang::Bo => 138,
        Lang::Tok => 139,
        Lang::Tr => 140,
        Lang::Ota => 141,
        Lang::Uk => 142,
        Lang::Ur => 143,
        Lang::Ug => 144,
        Lang::Uz => 145,
        Lang::Vec => 146,
        Lang::Vi => 147,
        Lang::Vo => 148,
        Lang::Vot => 149,
        Lang::Cy => 150,
        Lang::Ady => 151,
        Lang::Fy => 152,
        Lang::Sah => 153,
        Lang::Yi => 154,
        Lang::Yo => 155,
        Lang::Zu => 156,
    }
}

/// The language at position `i` of [`all_langs`] (the last one past the end).
pub open spec fn lang_at(i: int) -> Lang {
    if i == 0 {
        Lang::Af
    }
    else if i == 1 {
        Lang::Sq
    }
    else if i == 2 {
        Lang::Arz
    }
    else if i == 3 {
        Lang::Afb
    }
    else if i == 4 {
        Lang::Ar
    }
    else if i == 5 {
        Lang::Apc
    }
    else if i == 6 {
        Lang::Ajp
    }
    else if i == 7 {
        Lang::Hy
    }
    else if i == 8 {
        Lang::Xcl
    }
    else if i == 9 {
        Lang::Rup
    }
    else if i == 10 {
        Lang::As
    }
    else if i == 11 {
        Lang::Aii
    }
    else if i == 12 {
        Lang::Ast
    }
    else if i == 13 {
        Lang::Az
    }
    else if i == 14 {
        Lang::Ba
    }
    else if i == 15 {
        Lang::Eu
    }
    else if i == 16 {
        Lang::Be
    }
    else if i == 17 {
        Lang::Bn
    }
    else if i == 18 {
        Lang::Bcl
    }
    else if i == 19 {
        Lang::Bg
    }
    else if i == 20 {
        Lang::My
    }
    else if i == 21 {
        Lang::Ca
    }
    else if i == 22 {
        Lang::Ceb
    }
    else if i == 23 {
        Lang::Zh
    }
    else if i == 24 {
        Lang::Yue
    }
    else if i == 25 {
        Lang::Cmn
    }
    else if i == 26 {
        Lang::Cim
    }
    else if i == 27 {
        Lang::Cop
    }
    else if i == 28 {
        Lang::Kw
    }
    else if i == 29 {
        Lang::Crh
    }
    else if i == 30 {
        Lang::Cs
    }
    else if i == 31 {
        Lang::Zlwocs
    }
    else if i == 32 {
        Lang::Da
    }
    else if i == 33 {
        Lang::Nl
    }
    else if i == 34 {
        Lang::Dum
    }
    else if i == 35 {
        Lang::Egy
    }
    else if i == 36 {
        Lang::En
    }
    else if i == 37 {
        Lang::Enm
    }
    else if i == 38 {
        Lang::Ang
    }
    else if i == 39 {
        Lang::Simple
    }
    else if i == 40 {
        Lang::Eo
    }
    else if i == 41 {
        Lang::Et
    }
    else if i == 42 {
        Lang::Fo
    }
    else if i == 43 {
        Lang::Fi
    }
    else if i == 44 {
        Lang::Fr
    }
    else if i == 45 {
        Lang::Frm
    }
    else if i == 46 {
        Lang::Fro
    }
    else if i == 47 {
        Lang::Gl
    }
    else if i == 48 {
        Lang::Ka
    }
    else if i == 49 {
        Lang::De
    }
    else if i == 50 {
        Lang::Goh
    }
    else if i == 51 {
        Lang::Got
    }
    else if i == 52 {
        Lang::El
    }
    else if i == 53 {
        Lang::Grc
    }
    else if i == 54 {
        Lang::Gu
    }
    else if i == 55 {
        Lang::Haw
    }
    else if i == 56 {
        Lang::He
    }
    else if i == 57 {
        Lang::Hi
    }
    else if i == 58 {
        Lang::Hu
    }
    else if i == 59 {
        Lang::Is
    }
    else if i == 60 {
        Lang::Io
    }
    else if i == 61 {
        Lang::Id
    }
    else if i == 62 {
        Lang::Izh
    }
    else if i == 63 {
        Lang::Ia
    }
    else if i == 64 {
        Lang::Ga
    }
    else if i == 65 {
        Lang::Sga
    }
    else if i == 66 {
        Lang::It
    }
    else if i == 67 {
        Lang::Ja
    }
    else if i == 68 {
        Lang::Jv
    }
    else if i == 69 {
        Lang::Kn
    }
    else if i == 70 {
        Lang::Csb
    }
    else if i == 71 {
        Lang::Kk
    }
    else if i == 72 {
        Lang::Kix
    }
    else if i == 73 {
        Lang::Km
    }
    else if i == 74 {
        Lang::Ko
    }
    else if i == 75 {
        Lang::Ku
    }
    else if i == 76 {
        Lang::Kmr
    }
    else if i == 77 {
        Lang::Ky
    }
    else if i == 78 {
        Lang::Lld
    }
    else if i == 79 {
        Lang::Lo
    }
    else if i == 80 {
        Lang::La
    }
    else if i == 81 {
        Lang::Lv
    }
    else if i == 82 {
        Lang::Lzz
    }
    else if i == 83 {
        Lang::Lt
    }
    else if i == 84 {
        Lang::Liv
    }
    else if i == 85 {
        Lang::Lb
    }
    else if i == 86 {
        Lang::Mk
    }
    else if i == 87 {
        Lang::Mg
    }
    else if i == 88 {
        Lang::Ms
    }
    else if i == 89 {
        Lang::Ml
    }
    else if i == 90 {
        Lang::Mt
    }
    else if i == 91 {
        Lang::Gv
    }
    else if i == 92 {
        Lang::Mr
    }
    else if i == 93 {
        Lang::Mn
    }
    else if i == 94 {
        Lang::Mi
    }
    else if i == 95 {
        Lang::Nah
    }
    else if i == 96 {
        Lang::Nv
    }
    else if i == 97 {
        Lang::Nrf
    }
    else if i == 98 {
        Lang::Se
    }
    else if i == 99 {
        Lang::No
    }
    else if i == 100 {
        Lang::Nb
    }
    else if i == 101 {
        Lang::Nn
    }
    else if i == 102 {
        Lang::Oc
    }
    else if i == 103 {
        Lang::Or
    }
    else if i == 104 {
        Lang::Cu
    }
    else if i == 105 {
        Lang::Non
    }
    else if i == 106 {
        Lang::Pi
    }
    else if i == 107 {
        Lang::Rsk
    }
    else if i == 108 {
        Lang::Fa
    }
    else if i == 109 {
        Lang::Pdt
    }
    else if i == 110 {
        Lang::Pl
    }
    else if i == 111 {
        Lang::Zlwopl
    }
    else if i == 112 {
        Lang::Pt
    }
    else if i == 113 {
        Lang::Urjfinpro
    }
    else if i == 114 {
        Lang::Gempro
    }
    else if i == 115 {
        Lang::Slapro
    }
    else if i == 116 {
        Lang::Gmwpro
    }
    else if i == 117 {
        Lang::Pa
    }
    else if i == 118 {
        Lang::Ro
    }
    else if i == 119 {
        Lang::Ru
    }
    else if i == 120 {
        Lang::Sa
    }
    else if i == 121 {
        Lang::Sco
    }
    else if i == 122 {
        Lang::Gd
    }
    else if i == 123 {
        Lang::Sh
    }
    else if i == 124 {
        Lang::Scn
    }
    else if i == 125 {
        Lang::Sk
    }
    else if i == 126 {
        Lang::Sl
    }
    else if i == 127 {
        Lang::Dsb
    }
    else if i == 128 {
        Lang::Es
    }
    else if i == 129 {
        Lang::Su
    }
    else if i == 130 {
        Lang::Sw
    }
    else if i == 131 {
        Lang::Sv
    }
    else if i == 132 {
        Lang::Syc
    }
    else if i == 133 {
        Lang::Tl
    }
    else if i == 134 {
        Lang::Tg
    }
    else if i == 135 {
        Lang::Ta
    }
    else if i == 136 {
        Lang::Te
    }
    else if i == 137 {
        Lang::Th
    }
    else if i == 138 {
        Lang::Bo
    }
    else if i == 139 {
        Lang::Tok
    }
    else if i == 140 {
        Lang::Tr
    }
    else if i == 141 {
        Lang::Ota
    }
    else if i == 142 {
        Lang::Uk
    }
    else if i == 143 {
        Lang::Ur
    }
    else if i == 144 {
        Lang::Ug
    }
    else if i == 145 {
        Lang::Uz
    }
    else if i == 146 {
        Lang::Vec
    }
    else if i == 147 {
        Lang::Vi
    }
    else if i == 148 {
        Lang::Vo
    }
    else if i == 149 {
        Lang::Vot
    }
    else if i == 150 {
        Lang::Cy
    }
    else if i == 151 {
        Lang::Ady
    }
    else if i == 152 {
        Lang::Fy
    }
    else if i == 153 {
        Lang::Sah
    }
    else if i == 154 {
        Lang::Yi
    }
    else if i == 155 {
        Lang::Yo
    }
    else {
        Lang::Zu
    }
}

/// Every language, in the order in which they are listed.
pub open spec fn all_langs() -> Seq<Lang> {
    Seq::new(LANG_COUNT as nat, |i: int| lang_at(i))
}

/// The code of an edition, `"simple"`.
pub open spec fn edition_code(e: Edition) -> Seq<char> {
    match e {
        Edition::Zh => "zh"@,
        Edition::Cs => "cs"@,
        Edition::Nl => "nl"@,
        Edition::En => "en"@,
        Edition::Simple => "simple"@,
        Edition::Fr => "fr"@,
        Edition::De => "de"@,
        Edition::El => "el"@,
        Edition::Id => "id"@,
        Edition::It => "it"@,
        Edition::Ja => "ja"@,
        Edition::Ko => "ko"@,
        Edition::Ku => "ku"@,
        Edition::Ms => "ms"@,
        Edition::Pl => "pl"@,
        Edition::Pt => "pt"@,
        Edition::Ru => "ru"@,
        Edition::Es => "es"@,
        Edition::Th => "th"@,
        Edition::Tr => "tr"@,
        Edition::Vi => "vi"@,
    }
}

/// The position of an edition in [`all_editions`].
pub open spec fn edition_index(e: Edition) -> int {
    match e {
        Edition::Zh => 0,
        Edition::Cs => 1,
        Edition::Nl => 2,
        Edition::En => 3,
        Edition::Simple => 4,
        Edition::Fr => 5,
        Edition::De => 6,
        Edition::El => 7,
        Edition::Id => 8,
        Edition::It => 9,
        Edition::Ja => 10,
        Edition::Ko => 11,
        Edition::Ku => 12,
        Edition::Ms => 13,
        Edition::Pl => 14,
        Edition::Pt => 15,
        Edition::Ru => 16,
        Edition::Es => 17,
        Edition::Th => 18,
        Edition::Tr => 19,
        Edition::Vi => 20,
    }
}

/// The edition at position `i` of [`all_editions`] (the last one past the end).
pub open spec fn edition_at(i: int) -> Edition {
    if i == 0 {
        Edition::Zh
    }
    else if i == 1 {
        Edition::Cs
    }
    else if i == 2 {
        Edition::Nl
    }
    else if i == 3 {
        Edition::En
    }
    else if i == 4 {
        Edition::Simple
    }
    else if i == 5 {
        Edition::Fr
    }
    else if i == 6 {
        Edition::De
    }
    else if i == 7 {
        Edition::El
    }
    else if i == 8 {
        Edition::Id
    }
    else if i == 9 {
        Edition::It
    }
    else if i == 10 {
        Edition::Ja
    }
    else if i == 11 {
        Edition::Ko
    }
    else if i == 12 {
        Edition::Ku
    }
    else if i == 13 {
        Edition::Ms
    }
    else if i == 14 {
        Edition::Pl
    }
    else if i == 15 {
        Edition::Pt
    }
    else if i == 16 {
        Edition::Ru
    }
    else if i == 17 {
        Edition::Es
    }
    else if i == 18 {
        Edition::Th
    }
    else if i == 19 {
        Edition::Tr
    }
    else {
        Edition::Vi
    }
}

/// Every edition, in the order in which they are listed.
pub open spec fn all_editions() -> Seq<Edition> {
    Seq::new(EDITION_COUNT as nat, |i: int| edition_at(i))
}

/// The language that an edition is written in.
pub open spec fn edition_lang(e: Edition) -> Lang {
    match e {
        Edition::Zh => Lang::Zh,
        Edition::Cs => Lang::Cs,
        Edition::Nl => Lang::Nl,
        Edition::En => Lang::En,
        Edition::Simple => Lang::Simple,
        Edition::Fr => Lang::Fr,
        Edition::De => Lang::De,
        Edition::El => Lang::El,
        Edition::Id => Lang::Id,
        Edition::It => Lang::It,
        Edition::Ja => Lang::Ja,
        Edition::Ko => Lang::Ko,
        Edition::Ku => Lang::Ku,
        Edition::Ms => Lang::Ms,
        Edition::Pl => Lang::Pl,
        Edition::Pt => Lang::Pt,
        Edition::Ru => Lang::Ru,
        Edition::Es => Lang::Es,
        Edition::Th => Lang::Th,
        Edition::Tr => Lang::Tr,
        Edition::Vi => Lang::Vi,
    }
}

/// The edition written in a language, if there is one.
pub open spec fn lang_edition(l: Lang) -> Option<Edition> {
    match l {
        Lang::Zh => Some(Edition::Zh),
        Lang::Cs => Some(Edition::Cs),
        Lang::Nl => Some(Edition::Nl),
        Lang::En => Some(Edition::En),
        Lang::Simple => Some(Edition::Simple),
        Lang::Fr => Some(Edition::Fr),
        Lang::De => Some(Edition::De),
        Lang::El => Some(Edition::El),
        Lang::Id => Some(Edition::Id),
        Lang::It => Some(Edition::It),
        Lang::Ja => Some(Edition::Ja),
        Lang::Ko => Some(Edition::Ko),
        Lang::Ku => Some(Edition::Ku),
        Lang::Ms => Some(Edition::Ms),
        Lang::Pl => Some(Edition::Pl),
        Lang::Pt => Some(Edition::Pt),
        Lang::Ru => Some(Edition::Ru),
        Lang::Es => Some(Edition::Es),
        Lang::Th => Some(Edition::Th),
        Lang::Tr => Some(Edition::Tr),
        Lang::Vi => Some(Edition::Vi),
        _ => None,
    }
}

/// The ISO code of a language: its code, but `"en"` for Simple English.
pub open spec fn lang_iso(l: Lang) -> Seq<char> {
    if l == Lang::Simple {
        "en"@
    } else {
        lang_code(l)
    }
}

/// Every language is listed once in [`all_langs`], at [`lang_index`].
pub proof fn lemma_all_langs_lists_every_lang(l: Lang)
    ensures
        0 <= lang_index(l) < all_langs().len(),
        all_langs()[lang_index(l)] == l,
        all_langs().contains(l),
{
    assert(all_langs()[lang_index(l)] == l);
}

/// Every edition is listed in [`all_editions`], at [`edition_index`].
pub proof fn lemma_all_editions_lists_every_edition(e: Edition)
    ensures
        0 <= edition_index(e) < all_editions().len(),
        all_editions()[edition_index(e)] == e,
        all_editions().contains(e),
{
    assert(all_editions()[edition_index(e)] == e);
}

/// An edition has an edition, and it is itself: converting an edition to a language and back
/// gives the edition.
pub proof fn lemma_edition_lang_round_trip(e: Edition)
    ensures
        lang_edition(edition_lang(e)) == Some(e),
{
}

/// The language at a position of the list (executable form of [`lang_at`]).
fn lang_at_exec(i: usize) -> (l: Lang)
    ensures
        l == lang_at(i as int),
{
    if i == 0 {
        Lang::Af
    }
    else if i == 1 {
        Lang::Sq
    }
    else if i == 2 {
        Lang::Arz
    }
    else if i == 3 {
        Lang::Afb
    }
    else if i == 4 {
        Lang::Ar
    }
    else if i == 5 {
        Lang::Apc
    }
    else if i == 6 {
        Lang::Ajp
    }
    else if i == 7 {
        Lang::Hy
    }
    else if i == 8 {
        Lang::Xcl
    }
    else if i == 9 {
        Lang::Rup
    }
    else if i == 10 {
        Lang::As
    }
    else if i == 11 {
        Lang::Aii
    }
    else if i == 12 {
        Lang::Ast
    }
    else if i == 13 {
        Lang::Az
    }
    else if i == 14 {
        Lang::Ba
    }
    else if i == 15 {
        Lang::Eu
    }
    else if i == 16 {
        Lang::Be
    }
    else if i == 17 {
        Lang::Bn
    }
    else if i == 18 {
        Lang::Bcl
    }
    else if i == 19 {
        Lang::Bg
    }
    else if i == 20 {
        Lang::My
    }
    else if i == 21 {
        Lang::Ca
    }
    else if i == 22 {
        Lang::Ceb
    }
    else if i == 23 {
        Lang::Zh
    }
    else if i == 24 {
        Lang::Yue
    }
    else if i == 25 {
        Lang::Cmn
    }
    else if i == 26 {
        Lang::Cim
    }
    else if i == 27 {
        Lang::Cop
    }
    else if i == 28 {
        Lang::Kw
    }
    else if i == 29 {
        Lang::Crh
    }
    else if i == 30 {
        Lang::Cs
    }
    else if i == 31 {
        Lang::Zlwocs
    }
    else if i == 32 {
        Lang::Da
    }
    else if i == 33 {
        Lang::Nl
    }
    else if i == 34 {
        Lang::Dum
    }
    else if i == 35 {
        Lang::Egy
    }
    else if i == 36 {
        Lang::En
    }
    else if i == 37 {
        Lang::Enm
    }
    else if i == 38 {
        Lang::Ang
    }
    else if i == 39 {
        Lang::Simple
    }
    else if i == 40 {
        Lang::Eo
    }
    else if i == 41 {
        Lang::Et
    }
    else if i == 42 {
        Lang::Fo
    }
    else if i == 43 {
        Lang::Fi
    }
    else if i == 44 {
        Lang::Fr
    }
    else if i == 45 {
        Lang::Frm
    }
    else if i == 46 {
        Lang::Fro
    }
    else if i == 47 {
        Lang::Gl
    }
    else if i == 48 {
        Lang::Ka
    }
    else if i == 49 {
        Lang::De
    }
    else if i == 50 {
        Lang::Goh
    }
    else if i == 51 {
        Lang::Got
    }
    else if i == 52 {
        Lang::El
    }
    else if i == 53 {
        Lang::Grc
    }
    else if i == 54 {
        Lang::Gu
    }
    else if i == 55 {
        Lang::Haw
    }
    else if i == 56 {
        Lang::He
    }
    else if i == 57 {
        Lang::Hi
    }
    else if i == 58 {
        Lang::Hu
    }
    else if i == 59 {
        Lang::Is
    }
    else if i == 60 {
        Lang::Io
    }
    else if i == 61 {
        Lang::Id
    }
    else if i == 62 {
        Lang::Izh
    }
    else if i == 63 {
        Lang::Ia
    }
    else if i == 64 {
        Lang::Ga
    }
    else if i == 65 {
        Lang::Sga
    }
    else if i == 66 {
        Lang::It
    }
    else if i == 67 {
        Lang::Ja
    }
    else if i == 68 {
        Lang::Jv
    }
    else if i == 69 {
        Lang::Kn
    }
    else if i == 70 {
        Lang::Csb
    }
    else if i == 71 {
        Lang::Kk
    }
    else if i == 72 {
        Lang::Kix
    }
    else if i == 73 {
        Lang::Km
    }
    else if i == 74 {
        Lang::Ko
    }
    else if i == 75 {
        Lang::Ku
    }
    else if i == 76 {
        Lang::Kmr
    }
    else if i == 77 {
        Lang::Ky
    }
    else if i == 78 {
        Lang::Lld
    }
    else if i == 79 {
        Lang::Lo
    }
    else if i == 80 {
        Lang::La
    }
    else if i == 81 {
        Lang::Lv
    }
    else if i == 82 {
        Lang::Lzz
    }
    else if i == 83 {
        Lang::Lt
    }
    else if i == 84 {
        Lang::Liv
    }
    else if i == 85 {
        Lang::Lb
    }
    else if i == 86 {
        Lang::Mk
    }
    else if i == 87 {
        Lang::Mg
    }
    else if i == 88 {
        Lang::Ms
    }
    else if i == 89 {
        Lang::Ml
    }
    else if i == 90 {
        Lang::Mt
    }
    else if i == 91 {
        Lang::Gv
    }
    else if i == 92 {
        Lang::Mr
    }
    else if i == 93 {
        Lang::Mn
    }
    else if i == 94 {
        Lang::Mi
    }
    else if i == 95 {
        Lang::Nah
    }
    else if i == 96 {
        Lang::Nv
    }
    else if i == 97 {
        Lang::Nrf
    }
    else if i == 98 {
        Lang::Se
    }
    else if i == 99 {
        Lang::No
    }
    else if i == 100 {
        Lang::Nb
    }
    else if i == 101 {
        Lang::Nn
    }
    else if i == 102 {
        Lang::Oc
    }
    else if i == 103 {
        Lang::Or
    }
    else if i == 104 {
        Lang::Cu
    }
    else if i == 105 {
        Lang::Non
    }
    else if i == 106 {
        Lang::Pi
    }
    else if i == 107 {
        Lang::Rsk
    }
    else if i == 108 {
        Lang::Fa
    }
    else if i == 109 {
        Lang::Pdt
    }
    else if i == 110 {
        Lang::Pl
    }
    else if i == 111 {
        Lang::Zlwopl
    }
    else if i == 112 {
        Lang::Pt
    }
    else if i == 113 {
        Lang::Urjfinpro
    }
    else if i == 114 {
        Lang::Gempro
    }
    else if i == 115 {
        Lang::Slapro
    }
    else if i == 116 {
        Lang::Gmwpro
    }
    else if i == 117 {
        Lang::Pa
    }
    else if i == 118 {
        Lang::Ro
    }
    else if i == 119 {
        Lang::Ru
    }
    else if i == 120 {
        Lang::Sa
    }
    else if i == 121 {
        Lang::Sco
    }
    else if i == 122 {
        Lang::Gd
    }
    else if i == 123 {
        Lang::Sh
    }
    else if i == 124 {
        Lang::Scn
    }
    else if i == 125 {
        Lang::Sk
    }
    else if i == 126 {
        Lang::Sl
    }
    else if i == 127 {
        Lang::Dsb
    }
    else if i == 128 {
        Lang::Es
    }
    else if i == 129 {
        Lang::Su
    }
    else if i == 130 {
        Lang::Sw
    }
    else if i == 131 {
        Lang::Sv
    }
    else if i == 132 {
        Lang::Syc
    }
    else if i == 133 {
        Lang::Tl
    }
    else if i == 134 {
        Lang::Tg
    }
    else if i == 135 {
        Lang::Ta
    }
    else if i == 136 {
        Lang::Te
    }
    else if i == 137 {
        Lang::Th
    }
    else if i == 138 {
        Lang::Bo
    }
    else if i == 139 {
        Lang::Tok
    }
    else if i == 140 {
        Lang::Tr
    }
    else if i == 141 {
        Lang::Ota
    }
    else if i == 142 {
        Lang::Uk
    }
    else if i == 143 {
        Lang::Ur
    }
    else if i == 144 {
        Lang::Ug
    }
    else if i == 145 {
        Lang::Uz
    }
    else if i == 146 {
        Lang::Vec
    }
    else if i == 147 {
        Lang::Vi
    }
    else if i == 148 {
        Lang::Vo
    }
    else if i == 149 {
        Lang::Vot
    }
    else if i == 150 {
        Lang::Cy
    }
    else if i == 151 {
        Lang::Ady
    }
    else if i == 152 {
        Lang::Fy
    }
    else if i == 153 {
        Lang::Sah
    }
    else if i == 154 {
        Lang::Yi
    }
    else if i == 155 {
        Lang::Yo
    }
    else {
        Lang::Zu
    }
}

/// The edition at a position of the list (executable form of [`edition_at`]).
fn edition_at_exec(i: usize) -> (e: Edition)
    ensures
        e == edition_at(i as int),
{
    if i == 0 {
        Edition::Zh
    }
    else if i == 1 {
        Edition::Cs
    }
    else if i == 2 {
        Edition::Nl
    }
    else if i == 3 {
        Edition::En
    }
    else if i == 4 {
        Edition::Simple
    }
    else if i == 5 {
        Edition::Fr
    }
    else if i == 6 {
        Edition::De
    }
    else if i == 7 {
        Edition::El
    }
    else if i == 8 {
        Edition::Id
    }
    else if i == 9 {
        Edition::It
    }
    else if i == 10 {
        Edition::Ja
    }
    else if i == 11 {
        Edition::Ko
    }
    else if i == 12 {
        Edition::Ku
    }
    else if i == 13 {
        Edition::Ms
    }
    else if i == 14 {
        Edition::Pl
    }
    else if i == 15 {
        Edition::Pt
    }
    else if i == 16 {
        Edition::Ru
    }
    else if i == 17 {
        Edition::Es
    }
    else if i == 18 {
        Edition::Th
    }
    else if i == 19 {
        Edition::Tr
    }
    else {
        Edition::Vi
    }
}

impl Lang {
    /// The usage line that lists every supported code (see [`help_isos_text`]).
    pub fn help_isos() -> (r: String)
        ensures
            r@ == help_isos_text(),
    {
        join_codes("Supported isos: ", false)
    }

    /// The usage line that lists every supported code, the editions highlighted in green (see
    /// [`help_isos_coloured_text`]).
    pub fn help_isos_coloured() -> (r: String)
        ensures
            r@ == help_isos_coloured_text(),
    {
        join_codes("Supported isos: ", true)
    }

    /// The usage line that lists every edition (see [`help_editions_text`]).
    pub fn help_editions() -> (r: String)
        ensures
            r@ == help_editions_text(),
    {
        let all = Edition::all();
        let ghost codes = all_editions().map_values(edition_code_fn());
        let mut r = owned("Supported editions: ");
        let ghost head = r@;
        let mut i: usize = 0;
        while i < all.len()
            invariant
                i <= all@.len(),
                all@ == all_editions(),
                codes == all_editions().map_values(edition_code_fn()),
                head == "Supported editions: "@,
                r@ == head + join_sep(codes.take(i as int), " | "@),
            decreases all@.len() - i,
        {
            let ghost prev = r@;
            if i > 0 {
                r.append(" | ");
            }
            r.append(all[i].as_ref());
            proof {
                assert(codes.take(i + 1).drop_last() =~= codes.take(i as int));
                if i == 0 {
                    assert(codes.take(1) =~= seq![codes[0]]);
                }
            }
            assert(r@ =~= head + join_sep(codes.take(i + 1), " | "@));
            i += 1;
        }
        assert(codes.take(all@.len() as int) =~= codes);
        r
    }

    /// The English name of the language.
    pub fn long(&self) -> (r: &'static str)
        ensures
            r@ == lang_name(*self),
    {
        match self {
            Lang::Af => "Afrikaans",
            Lang::Sq => "Albanian",
            Lang::Arz => "Egyptian Arabic",
            Lang::Afb => "Gulf Arabic",
            Lang::Ar => "Arabic",
            Lang::Apc => "North Levantine Arabic",
            Lang::Ajp => "South Levantine Arabic",
            Lang::Hy => "Armenian",
            Lang::Xcl => "Old Armenian",
            Lang::Rup => "Aromanian",
            Lang::As => "Assamese",
            Lang::Aii => "Assyrian Neo-Aramaic",
            Lang::Ast => "Asturian",
            Lang::Az => "Azerbaijani",
            Lang::Ba => "Bashkir",
            Lang::Eu => "Basque",
            Lang::Be => "Belarusian",
            Lang::Bn => "Bengali",
            Lang::Bcl => "Central Bikol",
            Lang::Bg => "Bulgarian",
            Lang::My => "Burmese",
            Lang::Ca => "Catalan",
            Lang::Ceb => "Cebuano",
            Lang::Zh => "Chinese",
            Lang::Yue => "Yue Chinese",
            Lang::Cmn => "Mandarin Chinese",
            Lang::Cim => "Cimbrian",
            Lang::Cop => "Coptic",
            Lang::Kw => "Cornish",
            Lang::Crh => "Crimean Tatar",
            Lang::Cs => "Czech",
            Lang::Zlwocs => "Old Czech",
            Lang::Da => "Danish",
            Lang::Nl => "Dutch",
            Lang::Dum => "Middle Dutch",
            Lang::Egy => "Egyptian",
            Lang::En => "English",
            Lang::Enm => "Middle English",
            Lang::Ang => "Old English",
            Lang::Simple => "Simple English",
            Lang::Eo => "Esperanto",
            Lang::Et => "Estonian",
            Lang::Fo => "Faroese",
            Lang::Fi => "Finnish",
            Lang::Fr => "French",
            Lang::Frm => "Middle French",
            Lang::Fro => "Old French",
            Lang::Gl => "Galician",
            Lang::Ka => "Georgian",
            Lang::De => "German",
            Lang::Goh => "Old High German",
            Lang::Got => "Gothic",
            Lang::El => "Greek",
            Lang::Grc => "Ancient Greek",
            Lang::Gu => "Gujarati",
            Lang::Haw => "Hawaiian",
            Lang::He => "Hebrew",
            Lang::Hi => "Hindi",
            Lang::Hu => "Hungarian",
            Lang::Is => "Icelandic",
            Lang::Io => "Ido",
            Lang::Id => "Indonesian",
            Lang::Izh => "Ingrian",
            Lang::Ia => "Interlingua",
            Lang::Ga => "Irish",
            Lang::Sga => "Old Irish",
            Lang::It => "Italian",
            Lang::Ja => "Japanese",
            Lang::Jv => "Javanese",
            Lang::Kn => "Kannada",
            Lang::Csb => "Kashubian",
            Lang::Kk => "Kazakh",
            Lang::Kix => "Khiamniungan Naga",
            Lang::Km => "Khmer",
            Lang::Ko => "Korean",
            Lang::Ku => "Kurdish",
            Lang::Kmr => "Northern Kurdish",
            Lang::Ky => "Kyrgyz",
            Lang::Lld => "Ladin",
            Lang::Lo => "Lao",
            Lang::La => "Latin",
            Lang::Lv => "Latvian",
            Lang::Lzz => "Laz",
            Lang::Lt => "Lithuanian",
            Lang::Liv => "Livonian",
            Lang::Lb => "Luxembourgish",
            Lang::Mk => "Macedonian",
            Lang::Mg => "Malagasy",
            Lang::Ms => "Malay",
            Lang::Ml => "Malayalam",
            Lang::Mt => "Maltese",
            Lang::Gv => "Manx",
            Lang::Mr => "Marathi",
            Lang::Mn => "Mongolian",
            Lang::Mi => "Māori",
            Lang::Nah => "Classical Nahuatl",
            Lang::Nv => "Navajo",
            Lang::Nrf => "Norman",
            Lang::Se => "Northern Sami",
            Lang::No => "Norwegian",
            Lang::Nb => "Norwegian Bokmål",
            Lang::Nn => "Norwegian Nynorsk",
            Lang::Oc => "Occitan",
            Lang::Or => "Odia",
            Lang::Cu => "Old Church Slavonic",
            Lang::Non => "Old Norse",
            Lang::Pi => "Pali",
            Lang::Rsk => "Pannonian Rusyn",
            Lang::Fa => "Persian",
            Lang::Pdt => "Plautdietsch",
            Lang::Pl => "Polish",
            Lang::Zlwopl => "Old Polish",
            Lang::Pt => "Portuguese",
            Lang::Urjfinpro => "Proto-Finnic",
            Lang::Gempro => "Proto-Germanic",
            Lang::Slapro => "Proto-Slavic",
            Lang::Gmwpro => "Proto-West Germanic",
            Lang::Pa => "Punjabi",
            Lang::Ro => "Romanian",
            Lang::Ru => "Russian",
            Lang::Sa => "Sanskrit",
            Lang::Sco => "Scots",
            Lang::Gd => "Scottish Gaelic",
            Lang::Sh => "Serbo-Croatian",
            Lang::Scn => "Sicilian",
            Lang::Sk => "Slovak",
            Lang::Sl => "Slovene",
            Lang::Dsb => "Lower Sorbian",
            Lang::Es => "Spanish",
            Lang::Su => "Sundanese",
            Lang::Sw => "Swahili",
            Lang::Sv => "Swedish",
            Lang::Syc => "Classical Syriac",
            Lang::Tl => "Tagalog",
            Lang::Tg => "Tajik",
            Lang::Ta => "Tamil",
            Lang::Te => "Telugu",
            Lang::Th => "Thai",
            Lang::Bo => "Tibetan",
            Lang::Tok => "Toki Pona",
            Lang::Tr => "Turkish",
            Lang::Ota => "Ottoman Turkish",
            Lang::Uk => "Ukrainian",
            Lang::Ur => "Urdu",
            Lang::Ug => "Uyghur",
            Lang::Uz => "Uzbek",
            Lang::Vec => "Venetan",
            Lang::Vi => "Vietnamese",
            Lang::Vo => "Volapük",
            Lang::Vot => "Votic",
            Lang::Cy => "Welsh",
            Lang::Ady => "West Circassian",
            Lang::Fy => "West Frisian",
            Lang::Sah => "Yakut",
            Lang::Yi => "Yiddish",
            Lang::Yo => "Yoruba",
            Lang::Zu => "Zulu",
        }
    }

    /// Every language.
    pub fn all() -> (v: Vec<Lang>)
        ensures
            v@ == all_langs(),
    {
        let mut v: Vec<Lang> = Vec::new();
        let mut i: usize = 0;
        while i < LANG_COUNT
            invariant
                i <= LANG_COUNT,
                v@ == all_langs().take(i as int),
            decreases LANG_COUNT - i,
        {
            v.push(lang_at_exec(i));
            i += 1;
            assert(v@ =~= all_langs().take(i as int));
        }
        assert(all_langs().take(LANG_COUNT as int) =~= all_langs());
        v
    }

    /// The code of the language, `"en"`.
    pub fn as_ref(&self) -> (r: &'static str)
        ensures
            r@ == lang_code(*self),
    {
        match self {
            Lang::Af => "af",
            Lang::Sq => "sq",
            Lang::Arz => "arz",
            Lang::Afb => "afb",
            Lang::Ar => "ar",
            Lang::Apc => "apc",
            Lang::Ajp => "ajp",
            Lang::Hy => "hy",
            Lang::Xcl => "xcl",
            Lang::Rup => "rup",
            Lang::As => "as",
            Lang::Aii => "aii",
            Lang::Ast => "ast",
            Lang::Az => "az",
            Lang::Ba => "ba",
            Lang::Eu => "eu",
            Lang::Be => "be",
            Lang::Bn => "bn",
            Lang::Bcl => "bcl",
            Lang::Bg => "bg",
            Lang::My => "my",
            Lang::Ca => "ca",
            Lang::Ceb => "ceb",
            Lang::Zh => "zh",
            Lang::Yue => "yue",
            Lang::Cmn => "cmn",
            Lang::Cim => "cim",
            Lang::Cop => "cop",
            Lang::Kw => "kw",
            Lang::Crh => "crh",
            Lang::Cs => "cs",
            Lang::Zlwocs => "zlw-ocs",
            Lang::Da => "da",
            Lang::Nl => "nl",
            Lang::Dum => "dum",
            Lang::Egy => "egy",
            Lang::En => "en",
            Lang::Enm => "enm",
            Lang::Ang => "ang",
            Lang::Simple => "simple",
            Lang::Eo => "eo",
            Lang::Et => "et",
            Lang::Fo => "fo",
            Lang::Fi => "fi",
            Lang::Fr => "fr",
            Lang::Frm => "frm",
            Lang::Fro => "fro",
            Lang::Gl => "gl",
            Lang::Ka => "ka",
            Lang::De => "de",
            Lang::Goh => "goh",
            Lang::Got => "got",
            Lang::El => "el",
            Lang::Grc => "grc",
            Lang::Gu => "gu",
            Lang::Haw => "haw",
            Lang::He => "he",
            Lang::Hi => "hi",
            Lang::Hu => "hu",
            Lang::Is => "is",
            Lang::Io => "io",
            Lang::Id => "id",
            Lang::Izh => "izh",
            Lang::Ia => "ia",
            Lang::Ga => "ga",
            Lang::Sga => "sga",
            Lang::It => "it",
            Lang::Ja => "ja",
            Lang::Jv => "jv",
            Lang::Kn => "kn",
            Lang::Csb => "csb",
            Lang::Kk => "kk",
            Lang::Kix => "kix",
            Lang::Km => "km",
            Lang::Ko => "ko",
            Lang::Ku => "ku",
            Lang::Kmr => "kmr",
            Lang::Ky => "ky",
            Lang::Lld => "lld",
            Lang::Lo => "lo",
            Lang::La => "la",
            Lang::Lv => "lv",
            Lang::Lzz => "lzz",
            Lang::Lt => "lt",
            Lang::Liv => "liv",
            Lang::Lb => "lb",
            Lang::Mk => "mk",
            Lang::Mg => "mg",
            Lang::Ms => "ms",
            Lang::Ml => "ml",
            Lang::Mt => "mt",
            Lang::Gv => "gv",
            Lang::Mr => "mr",
            Lang::Mn => "mn",
            Lang::Mi => "mi",
            Lang::Nah => "nah",
            Lang::Nv => "nv",
            Lang::Nrf => "nrf",
            Lang::Se => "se",
            Lang::No => "no",
            Lang::Nb => "nb",
            Lang::Nn => "nn",
            Lang::Oc => "oc",
            Lang::Or => "or",
            Lang::Cu => "cu",
            Lang::Non => "non",
            Lang::Pi => "pi",
            Lang::Rsk => "rsk",
            Lang::Fa => "fa",
            Lang::Pdt => "pdt",
            Lang::Pl => "pl",
            Lang::Zlwopl => "zlw-opl",
            Lang::Pt => "pt",
            Lang::Urjfinpro => "urj-fin-pro",
            Lang::Gempro => "gem-pro",
            Lang::Slapro => "sla-pro",
            Lang::Gmwpro => "gmw-pro",
            Lang::Pa => "pa",
            Lang::Ro => "ro",
            Lang::Ru => "ru",
            Lang::Sa => "sa",
            Lang::Sco => "sco",
            Lang::Gd => "gd",
            Lang::Sh => "sh",
            Lang::Scn => "scn",
            Lang::Sk => "sk",
            Lang::Sl => "sl",
            Lang::Dsb => "dsb",
            Lang::Es => "es",
            Lang::Su => "su",
            Lang::Sw => "sw",
            Lang::Sv => "sv",
            Lang::Syc => "syc",
            Lang::Tl => "tl",
            Lang::Tg => "tg",
            Lang::Ta => "ta",
            Lang::Te => "te",
            Lang::Th => "th",
            Lang::Bo => "bo",
            Lang::Tok => "tok",
            Lang::Tr => "tr",
            Lang::Ota => "ota",
            Lang::Uk => "uk",
            Lang::Ur => "ur",
            Lang::Ug => "ug",
            Lang::Uz => "uz",
            Lang::Vec => "vec",
            Lang::Vi => "vi",
            Lang::Vo => "vo",
            Lang::Vot => "vot",
            Lang::Cy => "cy",
            Lang::Ady => "ady",
            Lang::Fy => "fy",
            Lang::Sah => "sah",
            Lang::Yi => "yi",
            Lang::Yo => "yo",
            Lang::Zu => "zu",
        }
    }

    /// The ISO code of the language: its code, except `"en"` for Simple English.
    pub fn iso(&self) -> (r: &'static str)
        ensures
            r@ == lang_iso(*self),
    {
        match self {
            Lang::Simple => "en",
            _ => self.as_ref(),
        }
    }

    /// The language whose code is `code`, which must already be in lower case.
    pub fn from_code(code: &str) -> (r: Option<Lang>)
        ensures
            match r {
                Some(l) => lang_code(l) == code@,
                None => forall|l: Lang| lang_code(l) != code@,
            },
    {
        let mut i: usize = 0;
        while i < LANG_COUNT
            invariant
                i <= LANG_COUNT,
                forall|k: int| 0 <= k < i ==> lang_code(lang_at(k)) != code@,
            decreases LANG_COUNT - i,
        {
            let l = lang_at_exec(i);
            if str_eq(l.as_ref(), code) {
                return Some(l);
            }
            i += 1;
        }
        proof {
            assert forall|l: Lang| lang_code(l) != code@ by {
                lemma_all_langs_lists_every_lang(l);
                assert(lang_at(lang_index(l)) == l);
            }
        }
        None
    }

    /// The language from a code in any case, `"EN"` or `"en"`.
    pub fn from_str(s: &str) -> (r: Result<Lang, String>)
        ensures
            match r {
                Ok(l) => lang_code(l) == lowered(s@),
                Err(m) => (forall|l: Lang| lang_code(l) != lowered(s@)) && m@ == unsupported_iso_text(s@),
            },
    {
        let lowered = to_lowercase(s);
        match Lang::from_code(lowered.as_str()) {
            Some(l) => Ok(l),
            None => Err(unsupported_iso_message(s)),
        }
    }

    /// The edition written in this language, or an error when there is none.
    pub fn to_edition(self) -> (r: Result<Edition, &'static str>)
        ensures
            match lang_edition(self) {
                Some(e) => r == Ok::<Edition, &'static str>(e),
                None => r is Err,
            },
    {
        match self {
            Lang::Zh => Ok(Edition::Zh),
            Lang::Cs => Ok(Edition::Cs),
            Lang::Nl => Ok(Edition::Nl),
            Lang::En => Ok(Edition::En),
            Lang::Simple => Ok(Edition::Simple),
            Lang::Fr => Ok(Edition::Fr),
            Lang::De => Ok(Edition::De),
            Lang::El => Ok(Edition::El),
            Lang::Id => Ok(Edition::Id),
            Lang::It => Ok(Edition::It),
            Lang::Ja => Ok(Edition::Ja),
            Lang::Ko => Ok(Edition::Ko),
            Lang::Ku => Ok(Edition::Ku),
            Lang::Ms => Ok(Edition::Ms),
            Lang::Pl => Ok(Edition::Pl),
            Lang::Pt => Ok(Edition::Pt),
            Lang::Ru => Ok(Edition::Ru),
            Lang::Es => Ok(Edition::Es),
            Lang::Th => Ok(Edition::Th),
            Lang::Tr => Ok(Edition::Tr),
            Lang::Vi => Ok(Edition::Vi),
            _ => Err("language has no edition"),
        }
    }
}

impl From<Edition> for Lang {
    fn from(value: Edition) -> (r: Lang) {
        match value {
            Edition::Zh => Lang::Zh,
            Edition::Cs => Lang::Cs,
            Edition::Nl => Lang::Nl,
            Edition::En => Lang::En,
            Edition::Simple => Lang::Simple,
            Edition::Fr => Lang::Fr,
            Edition::De => Lang::De,
            Edition::El => Lang::El,
            Edition::Id => Lang::Id,
            Edition::It => Lang::It,
            Edition::Ja => Lang::Ja,
            Edition::Ko => Lang::Ko,
            Edition::Ku => Lang::Ku,
            Edition::Ms => Lang::Ms,
            Edition::Pl => Lang::Pl,
            Edition::Pt => Lang::Pt,
            Edition::Ru => Lang::Ru,
            Edition::Es => Lang::Es,
            Edition::Th => Lang::Th,
            Edition::Tr => Lang::Tr,
            Edition::Vi => Lang::Vi,
        }
    }
}

impl vstd::std_specs::convert::FromSpecImpl<Edition> for Lang {
    open spec fn obeys_from_spec() -> bool {
        true
    }

    open spec fn from_spec(v: Edition) -> Lang {
        edition_lang(v)
    }
}

impl Edition {
    /// Every edition.
    pub fn all() -> (v: Vec<Edition>)
        ensures
            v@ == all_editions(),
    {
        let mut v: Vec<Edition> = Vec::new();
        let mut i: usize = 0;
        while i < EDITION_COUNT
            invariant
                i <= EDITION_COUNT,
                v@ == all_editions().take(i as int),
            decreases EDITION_COUNT - i,
        {
            v.push(edition_at_exec(i));
            i += 1;
            assert(v@ =~= all_editions().take(i as int));
        }
        assert(all_editions().take(EDITION_COUNT as int) =~= all_editions());
        v
    }

    /// The code of the edition, `"simple"`.
    pub fn as_ref(&self) -> (r: &'static str)
        ensures
            r@ == edition_code(*self),
    {
        match self {
            Edition::Zh => "zh",
            Edition::Cs => "cs",
            Edition::Nl => "nl",
            Edition::En => "en",
            Edition::Simple => "simple",
            Edition::Fr => "fr",
            Edition::De => "de",
            Edition::El => "el",
            Edition::Id => "id",
            Edition::It => "it",
            Edition::Ja => "ja",
            Edition::Ko => "ko",
            Edition::Ku => "ku",
            Edition::Ms => "ms",
            Edition::Pl => "pl",
            Edition::Pt => "pt",
            Edition::Ru => "ru",
            Edition::Es => "es",
            Edition::Th => "th",
            Edition::Tr => "tr",
            Edition::Vi => "vi",
        }
    }

    /// The ISO code of the edition: its code, except `"en"` for Simple English.
    pub fn iso(&self) -> (r: &'static str)
        ensures
            r@ == lang_iso(edition_lang(*self)),
    {
        match self {
            Edition::Simple => "en",
            _ => self.as_ref(),
        }
    }

    /// The edition whose code is `code`, which must already be in lower case.
    pub fn from_code(code: &str) -> (r: Option<Edition>)
        ensures
            match r {
                Some(e) => edition_code(e) == code@,
                None => forall|e: Edition| edition_code(e) != code@,
            },
    {
        let mut i: usize = 0;
        while i < EDITION_COUNT
            invariant
                i <= EDITION_COUNT,
                forall|k: int| 0 <= k < i ==> edition_code(edition_at(k)) != code@,
            decreases EDITION_COUNT - i,
        {
            let e = edition_at_exec(i);
            if str_eq(e.as_ref(), code) {
                return Some(e);
            }
            i += 1;
        }
        proof {
            assert forall|e: Edition| edition_code(e) != code@ by {
                lemma_all_editions_lists_every_edition(e);
                assert(edition_at(edition_index(e)) == e);
            }
        }
        None
    }

    /// The edition from a code in any case, `"FR"` or `"fr"`.
    pub fn from_str(s: &str) -> (r: Result<Edition, String>)
        ensures
            match r {
                Ok(e) => edition_code(e) == lowered(s@),
                Err(m) => (forall|e: Edition| edition_code(e) != lowered(s@)) && m@ == "invalid edition '"@ + s@ + "'"@,
            },
    {
        let lowered = to_lowercase(s);
        match Edition::from_code(lowered.as_str()) {
            Some(e) => Ok(e),
            None => Err(invalid_edition_message(s)),
        }
    }
}

impl EditionSpec {
    /// The editions that this stands for.
    pub fn variants(&self) -> (v: Vec<Edition>)
        ensures
            match *self {
                EditionSpec::All => v@ == all_editions(),
                EditionSpec::One(e) => v@ == seq![e],
            },
    {
        match self {
            EditionSpec::All => Edition::all(),
            EditionSpec::One(e) => vec![*e],
        }
    }

    /// The single edition, or an error for `All`.
    pub fn to_edition(self) -> (r: Result<Edition, &'static str>)
        ensures
            match self {
                EditionSpec::All => r is Err,
                EditionSpec::One(e) => r == Ok::<Edition, &'static str>(e),
            },
    {
        match self {
            EditionSpec::All => Err("cannot convert from All"),
            EditionSpec::One(e) => Ok(e),
        }
    }

    /// `"all"`, or the code of the edition.
    pub fn as_ref(&self) -> (r: &'static str)
        ensures
            match *self {
                EditionSpec::All => r@ == "all"@,
                EditionSpec::One(e) => r@ == edition_code(e),
            },
    {
        match self {
            EditionSpec::All => "all",
            EditionSpec::One(e) => e.as_ref(),
        }
    }

    /// `"all"` (in exactly that case), or an edition code in any case.
    pub fn from_str(s: &str) -> (r: Result<EditionSpec, String>)
        ensures
            s@ == "all"@ ==> r == Ok::<EditionSpec, String>(EditionSpec::All),
            s@ != "all"@ ==> match r {
                Ok(EditionSpec::One(e)) => edition_code(e) == lowered(s@),
                Ok(EditionSpec::All) => false,
                Err(m) => (forall|e: Edition| edition_code(e) != lowered(s@)) && m@ == "invalid edition '"@ + s@ + "'"@,
            },
    {
        if str_eq(s, "all") {
            Ok(EditionSpec::All)
        } else {
            match Edition::from_str(s) {
                Ok(e) => Ok(EditionSpec::One(e)),
                Err(msg) => Err(msg),
            }
        }
    }
}

impl From<Edition> for EditionSpec {
    fn from(value: Edition) -> (r: EditionSpec) {
        EditionSpec::One(value)
    }
}

impl vstd::std_specs::convert::FromSpecImpl<Edition> for EditionSpec {
    open spec fn obeys_from_spec() -> bool {
        true
    }

    open spec fn from_spec(v: Edition) -> EditionSpec {
        EditionSpec::One(v)
    }
}

impl Code for Lang {
    open spec fn code_of(&self) -> Seq<char> {
        lang_code(*self)
    }

    fn code(&self) -> (r: &'static str) {
        self.as_ref()
    }
}

impl Code for Edition {
    open spec fn code_of(&self) -> Seq<char> {
        edition_code(*self)
    }

    fn code(&self) -> (r: &'static str) {
        self.as_ref()
    }
}

impl Code for EditionSpec {
    open spec fn code_of(&self) -> Seq<char> {
        match *self {
            EditionSpec::All => "all"@,
            EditionSpec::One(e) => edition_code(e),
        }
    }

    fn code(&self) -> (r: &'static str) {
        self.as_ref()
    }
}

/// What Unicode lower-casing makes of a string (std's `str::to_lowercase`).
pub uninterp spec fn lowercase(s: Seq<char>) -> Seq<char>;

/// An ASCII character in lower case: `A` to `Z` become `a` to `z`, any other stays.
pub open spec fn ascii_lower_char(c: char) -> char {
    if 'A' <= c && c <= 'Z' { ((c as u32) + 32) as char } else { c }
}

/// Whether every character of `s` is ASCII.
pub open spec fn all_ascii(s: Seq<char>) -> bool {
    forall|i: int| 0 <= i < s.len() ==> (#[trigger] s[i] as u32) < 128
}

/// `s` in lower case: on an ASCII string, `A` to `Z` become `a` to `z`; otherwise as Unicode
/// lower-casing has it (see [`lowercase`]).
pub open spec fn lowered(s: Seq<char>) -> Seq<char> {
    if all_ascii(s) {
        s.map_values(|c: char| ascii_lower_char(c))
    } else {
        lowercase(s)
    }
}

/// std's `str::to_lowercase`: the string with every character mapped to its lower case
/// by the Unicode tables, a function of the string alone; on an ASCII string this maps
/// `A` to `Z` to `a` to `z` and keeps every other character.
#[verifier::external_body]
fn to_lowercase(s: &str) -> (r: String)
    ensures
        r@ == lowercase(s@),
        all_ascii(s@) ==> r@ == s@.map_values(|c: char| ascii_lower_char(c)),
{
    s.to_lowercase()
}

/// The language whose code is `c`, read character by character.
pub open spec fn lang_of_code(c: Seq<char>) -> Option<Lang> {
    if c.len() == 0 {
        None
    } else if c[0] == 'a' {
        if c.len() == 1 {
            None
        } else if c[1] == 'd' {
            if c.len() == 2 {
                None
            } else if c[2] == 'y' {
                if c.len() == 3 { Some(Lang::Ady) } else { None }
            } else {
                None
            }
        } else if c[1] == 'f' {
            if c.len() == 2 {
                Some(Lang::Af)
            } else if c[2] == 'b' {
                if c.len() == 3 { Some(Lang::Afb) } else { None }
            } else {
                None
            }
        } else if c[1] == 'i' {
            if c.len() == 2 {
                None
            } else if c[2] == 'i' {
                if c.len() == 3 { Some(Lang::Aii) } else { None }
            } else {
                None
            }
        } else if c[1] == 'j' {
            if c.len() == 2 {
                None
            } else if c[2] == 'p' {
                if c.len() == 3 { Some(Lang::Ajp) } else { None }
            } else {
                None
            }
        } else if c[1] == 'n' {
            if c.len() == 2 {
                None
            } else if c[2] == 'g' {
                if c.len() == 3 { Some(Lang::Ang) } else { None }
            } else {
                None
            }
        } else if c[1] == 'p' {
            if c.len() == 2 {
                None
            } else if c[2] == 'c' {
                if c.len() == 3 { Some(Lang::Apc) } else { None }
            } else {
                None
            }
        } else if c[1] == 'r' {
            if c.len() == 2 {
                Some(Lang::Ar)
            } else if c[2] == 'z' {
                if c.len() == 3 { Some(Lang::Arz) } else { None }
            } else {
                None
            }
        } else if c[1] == 's' {
            if c.len() == 2 {
                Some(Lang::As)
            } else if c[2] == 't' {
                if c.len() == 3 { Some(Lang::Ast) } else { None }
            } else {
                None
            }
        } else if c[1] == 'z' {
            if c.len() == 2 { Some(Lang::Az) } else { None }
        } else {
            None
        }
    } else if c[0] == 'b' {
        if c.len() == 1 {
            None
        } else if c[1] == 'a' {
            if c.len() == 2 { Some(Lang::Ba) } else { None }
        } else if c[1] == 'c' {
            if c.len() == 2 {
                None
            } else if c[2] == 'l' {
                if c.len() == 3 { Some(Lang::Bcl) } else { None }
            } else {
                None
            }
        } else if c[1] == 'e' {
            if c.len() == 2 { Some(Lang::Be) } else { None }
        } else if c[1] == 'g' {
            if c.len() == 2 { Some(Lang::Bg) } else { None }
        } else if c[1] == 'n' {
            if c.len() == 2 { Some(Lang::Bn) } else { None }
        } else if c[1] == 'o' {
            if c.len() == 2 { Some(Lang::Bo) } else { None }
        } else {
            None
        }
    } else if c[0] == 'c' {
        if c.len() == 1 {
            None
        } else if c[1] == 'a' {
            if c.len() == 2 { Some(Lang::Ca) } else { None }
        } else if c[1] == 'e' {
            if c.len() == 2 {
                None
            } else if c[2] == 'b' {
                if c.len() == 3 { Some(Lang::Ceb) } else { None }
            } else {
                None
            }
        } else if c[1] == 'i' {
            if c.len() == 2 {
                None
            } else if c[2] == 'm' {
                if c.len() == 3 { Some(Lang::Cim) } else { None }
            } else {
                None
            }
        } else if c[1] == 'm' {
            if c.len() == 2 {
                None
            } else if c[2] == 'n' {
                if c.len() == 3 { Some(Lang::Cmn) } else { None }
            } else {
                None
            }
        } else if c[1] == 'o' {
            if c.len() == 2 {
                None
            } else if c[2] == 'p' {
                if c.len() == 3 { Some(Lang::Cop) } else { None }
            } else {
                None
            }
        } else if c[1] == 'r' {
            if c.len() == 2 {
                None
            } else if c[2] == 'h' {
                if c.len() == 3 { Some(Lang::Crh) } else { None }
            } else {
                None
            }
        } else if c[1] == 's' {
            if c.len() == 2 {
                Some(Lang::Cs)
            } else if c[2] == 'b' {
                if c.len() == 3 { Some(Lang::Csb) } else { None }
            } else {
                None
            }
        } else if c[1] == 'u' {
            if c.len() == 2 { Some(Lang::Cu) } else { None }
        } else if c[1] == 'y' {
            if c.len() == 2 { Some(Lang::Cy) } else { None }
        } else {
            None
        }
    } else if c[0] == 'd' {
        if c.len() == 1 {
            None
        } else if c[1] == 'a' {
            if c.len() == 2 { Some(Lang::Da) } else { None }
        } else if c[1] == 'e' {
            if c.len() == 2 { Some(Lang::De) } else { None }
        } else if c[1] == 's' {
            if c.len() == 2 {
                None
            } else if c[2] == 'b' {
                if c.len() == 3 { Some(Lang::Dsb) } else { None }
            } else {
                None
            }
        } else if c[1] == 'u' {
            if c.len() == 2 {
                None
            } else if c[2] == 'm' {
                if c.len() == 3 { Some(Lang::Dum) } else { None }
            } else {
                None
            }
        } else {
            None
        }
    } else if c[0] == 'e' {
        if c.len() == 1 {
            None
        } else if c[1] == 'g' {
            if c.len() == 2 {
                None
            } else if c[2] == 'y' {
                if c.len() == 3 { Some(Lang::Egy) } else { None }
            } else {
                None
            }
        } else if c[1] == 'l' {
            if c.len() == 2 { Some(Lang::El) } else { None }
        } else if c[1] == 'n' {
            if c.len() == 2 {
                Some(Lang::En)
            } else if c[2] == 'm' {
                if c.len() == 3 { Some(Lang::Enm) } else { None }
            } else {
                None
            }
        } else if c[1] == 'o' {
            if c.len() == 2 { Some(Lang::Eo) } else { None }
        } else if c[1] == 's' {
            if c.len() == 2 { Some(Lang::Es) } else { None }
        } else if c[1] == 't' {
            if c.len() == 2 { Some(Lang::Et) } else { None }
        } else if c[1] == 'u' {
            if c.len() == 2 { Some(Lang::Eu) } else { None }
        } else {
            None
        }
    } else if c[0] == 'f' {
        if c.len() == 1 {
            None
        } else if c[1] == 'a' {
            if c.len() == 2 { Some(Lang::Fa) } else { None }
        } else if c[1] == 'i' {
            if c.len() == 2 { Some(Lang::Fi) } else { None }
        } else if c[1] == 'o' {
            if c.len() == 2 { Some(Lang::Fo) } else { None }
        } else if c[1] == 'r' {
            if c.len() == 2 {
                Some(Lang::Fr)
            } else if c[2] == 'm' {
                if c.len() == 3 { Some(Lang::Frm) } else { None }
            } else if c[2] == 'o' {
                if c.len() == 3 { Some(Lang::Fro) } else { None }
            } else {
                None
            }
        } else if c[1] == 'y' {
            if c.len() == 2 { Some(Lang::Fy) } else { None }
        } else {
            None
        }
    } else if c[0] == 'g' {
        if c.len() == 1 {
            None
        } else if c[1] == 'a' {
            if c.len() == 2 { Some(Lang::Ga) } else { None }
        } else if c[1] == 'd' {
            if c.len() == 2 { Some(Lang::Gd) } else { None }
        } else if c[1] == 'e' {
            if c.len() == 2 {
                None
            } else if c[2] == 'm' {
                if c.len() == 3 {
                    None
                } else if c[3] == '-' {
                    if c.len() == 4 {
                        None
                    } else if c[4] == 'p' {
                        if c.len() == 5 {
                            None
                        } else if c[5] == 'r' {
                            if c.len() == 6 {
                                None
                            } else if c[6] == 'o' {
                                if c.len() == 7 { Some(Lang::Gempro) } else { None }
                            } else {
                                None
                            }
                        } else {
                            None
                        }
                    } else {
                        None
                    }
                } else {
                    None
                }
            } else {
                None
            }
        } else if c[1] == 'l' {
            if c.len() == 2 { Some(Lang::Gl) } else { None }
        } else if c[1] == 'm' {
            if c.len() == 2 {
                None
            } else if c[2] == 'w' {
                if c.len() == 3 {
                    None
                } else if c[3] == '-' {
                    if c.len() == 4 {
                        None
                    } else if c[4] == 'p' {
                        if c.len() == 5 {
                            None
                        } else if c[5] == 'r' {
                            if c.len() == 6 {
                                None
                            } else if c[6] == 'o' {
                                if c.len() == 7 { Some(Lang::Gmwpro) } else { None }
                            } else {
                                None
                            }
                        } else {
                            None
                        }
                    } else {
                        None
                    }
                } else {
                    None
                }
            } else {
                None
            }
        } else if c[1] == 'o' {
            if c.len() == 2 {
                None
            } else if c[2] == 'h' {
                if c.len() == 3 { Some(Lang::Goh) } else { None }
            } else if c[2] == 't' {
                if c.len() == 3 { Some(Lang::Got) } else { None }
            } else {
                None
            }
        } else if c[1] == 'r' {
            if c.len() == 2 {
                None
            } else if c[2] == 'c' {
                if c.len() == 3 { Some(Lang::Grc) } else { None }
            } else {
                None
            }
        } else if c[1] == 'u' {
            if c.len() == 2 { Some(Lang::Gu) } else { None }
        } else if c[1] == 'v' {
            if c.len() == 2 { Some(Lang::Gv) } else { None }
        } else {
            None
        }
    } else if c[0] == 'h' {
        if c.len() == 1 {
            None
        } else if c[1] == 'a' {
            if c.len() == 2 {
                None
            } else if c[2] == 'w' {
                if c.len() == 3 { Some(Lang::Haw) } else { None }
            } else {
                None
            }
        } else if c[1] == 'e' {
            if c.len() == 2 { Some(Lang::He) } else { None }
        } else if c[1] == 'i' {
            if c.len() == 2 { Some(Lang::Hi) } else { None }
        } else if c[1] == 'u' {
            if c.len() == 2 { Some(Lang::Hu) } else { None }
        } else if c[1] == 'y' {
            if c.len() == 2 { Some(Lang::Hy) } else { None }
        } else {
            None
        }
    } else if c[0] == 'i' {
        if c.len() == 1 {
            None
        } else if c[1] == 'a' {
            if c.len() == 2 { Some(Lang::Ia) } else { None }
        } else if c[1] == 'd' {
            if c.len() == 2 { Some(Lang::Id) } else { None }
        } else if c[1] == 'o' {
            if c.len() == 2 { Some(Lang::Io) } else { None }
        } else if c[1] == 's' {
            if c.len() == 2 { Some(Lang::Is) } else { None }
        } else if c[1] == 't' {
            if c.len() == 2 { Some(Lang::It) } else { None }
        } else if c[1] == 'z' {
            if c.len() == 2 {
                None
            } else if c[2] == 'h' {
                if c.len() == 3 { Some(Lang::Izh) } else { None }
            } else {
                None
            }
        } else {
            None
        }
    } else if c[0] == 'j' {
        if c.len() == 1 {
            None
        } else if c[1] == 'a' {
            if c.len() == 2 { Some(Lang::Ja) } else { None }
        } else if c[1] == 'v' {
            if c.len() == 2 { Some(Lang::Jv) } else { None }
        } else {
            None
        }
    } else if c[0] == 'k' {
        if c.len() == 1 {
            None
        } else if c[1] == 'a' {
            if c.len() == 2 { Some(Lang::Ka) } else { None }
        } else if c[1] == 'i' {
            if c.len() == 2 {
                None
            } else if c[2] == 'x' {
                if c.len() == 3 { Some(Lang::Kix) } else { None }
            } else {
                None
            }
        } else if c[1] == 'k' {
            if c.len() == 2 { Some(Lang::Kk) } else { None }
        } else if c[1] == 'm' {
            if c.len() == 2 {
                Some(Lang::Km)
            } else if c[2] == 'r' {
                if c.len() == 3 { Some(Lang::Kmr) } else { None }
            } else {
                None
            }
        } else if c[1] == 'n' {
            if c.len() == 2 { Some(Lang::Kn) } else { None }
        } else if c[1] == 'o' {
            if c.len() == 2 { Some(Lang::Ko) } else { None }
        } else if c[1] == 'u' {
            if c.len() == 2 { Some(Lang::Ku) } else { None }
        } else if c[1] == 'w' {
            if c.len() == 2 { Some(Lang::Kw) } else { None }
        } else if c[1] == 'y' {
            if c.len() == 2 { Some(Lang::Ky) } else { None }
        } else {
            None
        }
    } else if c[0] == 'l' {
        if c.len() == 1 {
            None
        } else if c[1] == 'a' {
            if c.len() == 2 { Some(Lang::La) } else { None }
        } else if c[1] == 'b' {
            if c.len() == 2 { Some(Lang::Lb) } else { None }
        } else if c[1] == 'i' {
            if c.len() == 2 {
                None
            } else if c[2] == 'v' {
                if c.len() == 3 { Some(Lang::Liv) } else { None }
            } else {
                None
            }
        } else if c[1] == 'l' {
            if c.len() == 2 {
                None
            } else if c[2] == 'd' {
                if c.len() == 3 { Some(Lang::Lld) } else { None }
            } else {
                None
            }
        } else if c[1] == 'o' {
            if c.len() == 2 { Some(Lang::Lo) } else { None }
        } else if c[1] == 't' {
            if c.len() == 2 { Some(Lang::Lt) } else { None }
        } else if c[1] == 'v' {
            if c.len() == 2 { Some(Lang::Lv) } else { None }
        } else if c[1] == 'z' {
            if c.len() == 2 {
                None
            } else if c[2] == 'z' {
                if c.len() == 3 { Some(Lang::Lzz) } else { None }
            } else {
                None
            }
        } else {
            None
        }
    } else if c[0] == 'm' {
        if c.len() == 1 {
            None
        } else if c[1] == 'g' {
            if c.len() == 2 { Some(Lang::Mg) } else { None }
        } else if c[1] == 'i' {
            if c.len() == 2 { Some(Lang::Mi) } else { None }
        } else if c[1] == 'k' {
            if c.len() == 2 { Some(Lang::Mk) } else { None }
        } else if c[1] == 'l' {
            if c.len() == 2 { Some(Lang::Ml) } else { None }
        } else if c[1] == 'n' {
            if c.len() == 2 { Some(Lang::Mn) } else { None }
        } else if c[1] == 'r' {
            if c.len() == 2 { Some(Lang::Mr) } else { None }
        } else if c[1] == 's' {
            if c.len() == 2 { Some(Lang::Ms) } else { None }
        } else if c[1] == 't' {
            if c.len() == 2 { Some(Lang::Mt) } else { None }
        } else if c[1] == 'y' {
            if c.len() == 2 { Some(Lang::My) } else { None }
        } else {
            None
        }
    } else if c[0] == 'n' {
        if c.len() == 1 {
            None
        } else if c[1] == 'a' {
            if c.len() == 2 {
                None
            } else if c[2] == 'h' {
                if c.len() == 3 { Some(Lang::Nah) } else { None }
            } else {
                None
            }
        } else if c[1] == 'b' {
            if c.len() == 2 { Some(Lang::Nb) } else { None }
        } else if c[1] == 'l' {
            if c.len() == 2 { Some(Lang::Nl) } else { None }
        } else if c[1] == 'n' {
            if c.len() == 2 { Some(Lang::Nn) } else { None }
        } else if c[1] == 'o' {
            if c.len() == 2 {
                Some(Lang::No)
            } else if c[2] == 'n' {
                if c.len() == 3 { Some(Lang::Non) } else { None }
            } else {
                None
            }
        } else if c[1] == 'r' {
            if c.len() == 2 {
                None
            } else if c[2] == 'f' {
                if c.len() == 3 { Some(Lang::Nrf) } else { None }
            } else {
                None
            }
        } else if c[1] == 'v' {
            if c.len() == 2 { Some(Lang::Nv) } else { None }
        } else {
            None
        }
    } else if c[0] == 'o' {
        if c.len() == 1 {
            None
        } else if c[1] == 'c' {
            if c.len() == 2 { Some(Lang::Oc) } else { None }
        } else if c[1] == 'r' {
            if c.len() == 2 { Some(Lang::Or) } else { None }
        } else if c[1] == 't' {
            if c.len() == 2 {
                None
            } else if c[2] == 'a' {
                if c.len() == 3 { Some(Lang::Ota) } else { None }
            } else {
                None
            }
        } else {
            None
        }
    } else if c[0] == 'p' {
        if c.len() == 1 {
            None
        } else if c[1] == 'a' {
            if c.len() == 2 { Some(Lang::Pa) } else { None }
        } else if c[1] == 'd' {
            if c.len() == 2 {
                None
            } else if c[2] == 't' {
                if c.len() == 3 { Some(Lang::Pdt) } else { None }
            } else {
                None
            }
        } else if c[1] == 'i' {
            if c.len() == 2 { Some(Lang::Pi) } else { None }
        } else if c[1] == 'l' {
            if c.len() == 2 { Some(Lang::Pl) } else { None }
        } else if c[1] == 't' {
            if c.len() == 2 { Some(Lang::Pt) } else { None }
        } else {
            None
        }
    } else if c[0] == 'r' {
        if c.len() == 1 {
            None
        } else if c[1] == 'o' {
            if c.len() == 2 { Some(Lang::Ro) } else { None }
        } else if c[1] == 's' {
            if c.len() == 2 {
                None
            } else if c[2] == 'k' {
                if c.len() == 3 { Some(Lang::Rsk) } else { None }
            } else {
                None
            }
        } else if c[1] == 'u' {
            if c.len() == 2 {
                Some(Lang::Ru)
            } else if c[2] == 'p' {
                if c.len() == 3 { Some(Lang::Rup) } else { None }
            } else {
                None
            }
        } else {
            None
        }
    } else if c[0] == 's' {
        if c.len() == 1 {
            None
        } else if c[1] == 'a' {
            if c.len() == 2 {
                Some(Lang::Sa)
            } else if c[2] == 'h' {
                if c.len() == 3 { Some(Lang::Sah) } else { None }
            } else {
                None
            }
        } else if c[1] == 'c' {
            if c.len() == 2 {
                None
            } else if c[2] == 'n' {
                if c.len() == 3 { Some(Lang::Scn) } else { None }
            } else if c[2] == 'o' {
                if c.len() == 3 { Some(Lang::Sco) } else { None }
            } else {
                None
            }
        } else if c[1] == 'e' {
            if c.len() == 2 { Some(Lang::Se) } else { None }
        } else if c[1] == 'g' {
            if c.len() == 2 {
                None
            } else if c[2] == 'a' {
                if c.len() == 3 { Some(Lang::Sga) } else { None }
            } else {
                None
            }
        } else if c[1] == 'h' {
            if c.len() == 2 { Some(Lang::Sh) } else { None }
        } else if c[1] == 'i' {
            if c.len() == 2 {
                None
            } else if c[2] == 'm' {
                if c.len() == 3 {
                    None
                } else if c[3] == 'p' {
                    if c.len() == 4 {
                        None
                    } else if c[4] == 'l' {
                        if c.len() == 5 {
                            None
                        } else if c[5] == 'e' {
                            if c.len() == 6 { Some(Lang::Simple) } else { None }
                        } else {
                            None
                        }
                    } else {
                        None
                    }
                } else {
                    None
                }
            } else {
                None
            }
        } else if c[1] == 'k' {
            if c.len() == 2 { Some(Lang::Sk) } else { None }
        } else if c[1] == 'l' {
            if c.len() == 2 {
                Some(Lang::Sl)
            } else if c[2] == 'a' {
                if c.len() == 3 {
                    None
                } else if c[3] == '-' {
                    if c.len() == 4 {
                        None
                    } else if c[4] == 'p' {
                        if c.len() == 5 {
                            None
                        } else if c[5] == 'r' {
                            if c.len() == 6 {
                                None
                            } else if c[6] == 'o' {
                                if c.len() == 7 { Some(Lang::Slapro) } else { None }
                            } else {
                                None
                            }
                        } else {
                            None
                        }
                    } else {
                        None
                    }
                } else {
                    None
                }
            } else {
                None
            }
        } else if c[1] == 'q' {
            if c.len() == 2 { Some(Lang::Sq) } else { None }
        } else if c[1] == 'u' {
            if c.len() == 2 { Some(Lang::Su) } else { None }
        } else if c[1] == 'v' {
            if c.len() == 2 { Some(Lang::Sv) } else { None }
        } else if c[1] == 'w' {
            if c.len() == 2 { Some(Lang::Sw) } else { None }
        } else if c[1] == 'y' {
            if c.len() == 2 {
                None
            } else if c[2] == 'c' {
                if c.len() == 3 { Some(Lang::Syc) } else { None }
            } else {
                None
            }
        } else {
            None
        }
    } else if c[0] == 't' {
        if c.len() == 1 {
            None
        } else if c[1] == 'a' {
            if c.len() == 2 { Some(Lang::Ta) } else { None }
        } else if c[1] == 'e' {
            if c.len() == 2 { Some(Lang::Te) } else { None }
        } else if c[1] == 'g' {
            if c.len() == 2 { Some(Lang::Tg) } else { None }
        } else if c[1] == 'h' {
            if c.len() == 2 { Some(Lang::Th) } else { None }
        } else if c[1] == 'l' {
            if c.len() == 2 { Some(Lang::Tl) } else { None }
        } else if c[1] == 'o' {
            if c.len() == 2 {
                None
            } else if c[2] == 'k' {
                if c.len() == 3 { Some(Lang::Tok) } else { None }
            } else {
                None
            }
        } else if c[1] == 'r' {
            if c.len() == 2 { Some(Lang::Tr) } else { None }
        } else {
            None
        }
    } else if c[0] == 'u' {
        if c.len() == 1 {
            None
        } else if c[1] == 'g' {
            if c.len() == 2 { Some(Lang::Ug) } else { None }
        } else if c[1] == 'k' {
            if c.len() == 2 { Some(Lang::Uk) } else { None }
        } else if c[1] == 'r' {
            if c.len() == 2 {
                Some(Lang::Ur)
            } else if c[2] == 'j' {
                if c.len() == 3 {
                    None
                } else if c[3] == '-' {
                    if c.len() == 4 {
                        None
                    } else if c[4] == 'f' {
                        if c.len() == 5 {
                            None
                        } else if c[5] == 'i' {
                            if c.len() == 6 {
                                None
                            } else if c[6] == 'n' {
                                if c.len() == 7 {
                                    None
                                } else if c[7] == '-' {
                                    if c.len() == 8 {
                                        None
                                    } else if c[8] == 'p' {
                                        if c.len() == 9 {
                                            None
                                        } else if c[9] == 'r' {
                                            if c.len() == 10 {
                                                None
                                            } else if c[10] == 'o' {
                                                if c.len() == 11 { Some(Lang::Urjfinpro) } else { None }
                                            } else {
                                                None
                                            }
                                        } else {
                                            None
                                        }
                                    } else {
                                        None
                                    }
                                } else {
                                    None
                                }
                            } else {
                                None
                            }
                        } else {
                            None
                        }
                    } else {
                        None
                    }
                } else {
                    None
                }
            } else {
                None
            }
        } else if c[1] == 'z' {
            if c.len() == 2 { Some(Lang::Uz) } else { None }
        } else {
            None
        }
    } else if c[0] == 'v' {
        if c.len() == 1 {
            None
        } else if c[1] == 'e' {
            if c.len() == 2 {
                None
            } else if c[2] == 'c' {
                if c.len() == 3 { Some(Lang::Vec) } else { None }
            } else {
                None
            }
        } else if c[1] == 'i' {
            if c.len() == 2 { Some(Lang::Vi) } else { None }
        } else if c[1] == 'o' {
            if c.len() == 2 {
                Some(Lang::Vo)
            } else if c[2] == 't' {
                if c.len() == 3 { Some(Lang::Vot) } else { None }
            } else {
                None
            }
        } else {
            None
        }
    } else if c[0] == 'x' {
        if c.len() == 1 {
            None
        } else if c[1] == 'c' {
            if c.len() == 2 {
                None
            } else if c[2] == 'l' {
                if c.len() == 3 { Some(Lang::Xcl) } else { None }
            } else {
                None
            }
        } else {
            None
        }
    } else if c[0] == 'y' {
        if c.len() == 1 {
            None
        } else if c[1] == 'i' {
            if c.len() == 2 { Some(Lang::Yi) } else { None }
        } else if c[1] == 'o' {
            if c.len() == 2 { Some(Lang::Yo) } else { None }
        } else if c[1] == 'u' {
            if c.len() == 2 {
                None
            } else if c[2] == 'e' {
                if c.len() == 3 { Some(Lang::Yue) } else { None }
            } else {
                None
            }
        } else {
            None
        }
    } else if c[0] == 'z' {
        if c.len() == 1 {
            None
        } else if c[1] == 'h' {
            if c.len() == 2 { Some(Lang::Zh) } else { None }
        } else if c[1] == 'l' {
            if c.len() == 2 {
                None
            } else if c[2] == 'w' {
                if c.len() == 3 {
                    None
                } else if c[3] == '-' {
                    if c.len() == 4 {
                        None
                    } else if c[4] == 'o' {
                        if c.len() == 5 {
                            None
                        } else if c[5] == 'c' {
                            if c.len() == 6 {
                                None
                            } else if c[6] == 's' {
                                if c.len() == 7 { Some(Lang::Zlwocs) } else { None }
                            } else {
                                None
                            }
                        } else if c[5] == 'p' {
                            if c.len() == 6 {
                                None
                            } else if c[6] == 'l' {
                                if c.len() == 7 { Some(Lang::Zlwopl) } else { None }
                            } else {
                                None
                            }
                        } else {
                            None
                        }
                    } else {
                        None
                    }
                } else {
                    None
                }
            } else {
                None
            }
        } else if c[1] == 'u' {
            if c.len() == 2 { Some(Lang::Zu) } else { None }
        } else {
            None
        }
    } else {
        None
    }
}

/// Reading the code of a language gives it back.
proof fn lemma_lang_of_code_decodes(x: Lang)
    ensures
        lang_of_code(lang_code(x)) == Some(x),
{
    match x {
        Lang::Af => {
            reveal_strlit("af");
        },
        Lang::Sq => {
            reveal_strlit("sq");
        },
        Lang::Arz => {
            reveal_strlit("arz");
        },
        Lang::Afb => {
            reveal_strlit("afb");
        },
        Lang::Ar => {
            reveal_strlit("ar");
        },
        Lang::Apc => {
            reveal_strlit("apc");
        },
        Lang::Ajp => {
            reveal_strlit("ajp");
        },
        Lang::Hy => {
            reveal_strlit("hy");
        },
        Lang::Xcl => {
            reveal_strlit("xcl");
        },
        Lang::Rup => {
            reveal_strlit("rup");
        },
        Lang::As => {
            reveal_strlit("as");
        },
        Lang::Aii => {
            reveal_strlit("aii");
        },
        Lang::Ast => {
            reveal_strlit("ast");
        },
        Lang::Az => {
            reveal_strlit("az");
        },
        Lang::Ba => {
            reveal_strlit("ba");
        },
        Lang::Eu => {
            reveal_strlit("eu");
        },
        Lang::Be => {
            reveal_strlit("be");
        },
        Lang::Bn => {
            reveal_strlit("bn");
        },
        Lang::Bcl => {
            reveal_strlit("bcl");
        },
        Lang::Bg => {
            reveal_strlit("bg");
        },
        Lang::My => {
            reveal_strlit("my");
        },
        Lang::Ca => {
            reveal_strlit("ca");
        },
        Lang::Ceb => {
            reveal_strlit("ceb");
        },
        Lang::Zh => {
            reveal_strlit("zh");
        },
        Lang::Yue => {
            reveal_strlit("yue");
        },
        Lang::Cmn => {
            reveal_strlit("cmn");
        },
        Lang::Cim => {
            reveal_strlit("cim");
        },
        Lang::Cop => {
            reveal_strlit("cop");
        },
        Lang::Kw => {
            reveal_strlit("kw");
        },
        Lang::Crh => {
            reveal_strlit("crh");
        },
        Lang::Cs => {
            reveal_strlit("cs");
        },
        Lang::Zlwocs => {
            reveal_strlit("zlw-ocs");
        },
        Lang::Da => {
            reveal_strlit("da");
        },
        Lang::Nl => {
            reveal_strlit("nl");
        },
        Lang::Dum => {
            reveal_strlit("dum");
        },
        Lang::Egy => {
            reveal_strlit("egy");
        },
        Lang::En => {
            reveal_strlit("en");
        },
        Lang::Enm => {
            reveal_strlit("enm");
        },
        Lang::Ang => {
            reveal_strlit("ang");
        },
        Lang::Simple => {
            reveal_strlit("simple");
        },
        Lang::Eo => {
            reveal_strlit("eo");
        },
        Lang::Et => {
            reveal_strlit("et");
        },
        Lang::Fo => {
            reveal_strlit("fo");
        },
        Lang::Fi => {
            reveal_strlit("fi");
        },
        Lang::Fr => {
            reveal_strlit("fr");
        },
        Lang::Frm => {
            reveal_strlit("frm");
        },
        Lang::Fro => {
            reveal_strlit("fro");
        },
        Lang::Gl => {
            reveal_strlit("gl");
        },
        Lang::Ka => {
            reveal_strlit("ka");
        },
        Lang::De => {
            reveal_strlit("de");
        },
        Lang::Goh => {
            reveal_strlit("goh");
        },
        Lang::Got => {
            reveal_strlit("got");
        },
        Lang::El => {
            reveal_strlit("el");
        },
        Lang::Grc => {
            reveal_strlit("grc");
        },
        Lang::Gu => {
            reveal_strlit("gu");
        },
        Lang::Haw => {
            reveal_strlit("haw");
        },
        Lang::He => {
            reveal_strlit("he");
        },
        Lang::Hi => {
            reveal_strlit("hi");
        },
        Lang::Hu => {
            reveal_strlit("hu");
        },
        Lang::Is => {
            reveal_strlit("is");
        },
        Lang::Io => {
            reveal_strlit("io");
        },
        Lang::Id => {
            reveal_strlit("id");
        },
        Lang::Izh => {
            reveal_strlit("izh");
        },
        Lang::Ia => {
            reveal_strlit("ia");
        },
        Lang::Ga => {
            reveal_strlit("ga");
        },
        Lang::Sga => {
            reveal_strlit("sga");
        },
        Lang::It => {
            reveal_strlit("it");
        },
        Lang::Ja => {
            reveal_strlit("ja");
        },
        Lang::Jv => {
            reveal_strlit("jv");
        },
        Lang::Kn => {
            reveal_strlit("kn");
        },
        Lang::Csb => {
            reveal_strlit("csb");
        },
        Lang::Kk => {
            reveal_strlit("kk");
        },
        Lang::Kix => {
            reveal_strlit("kix");
        },
        Lang::Km => {
            reveal_strlit("km");
        },
        Lang::Ko => {
            reveal_strlit("ko");
        },
        Lang::Ku => {
            reveal_strlit("ku");
        },
        Lang::Kmr => {
            reveal_strlit("kmr");
        },
        Lang::Ky => {
            reveal_strlit("ky");
        },
        Lang::Lld => {
            reveal_strlit("lld");
        },
        Lang::Lo => {
            reveal_strlit("lo");
        },
        Lang::La => {
            reveal_strlit("la");
        },
        Lang::Lv => {
            reveal_strlit("lv");
        },
        Lang::Lzz => {
            reveal_strlit("lzz");
        },
        Lang::Lt => {
            reveal_strlit("lt");
        },
        Lang::Liv => {
            reveal_strlit("liv");
        },
        Lang::Lb => {
            reveal_strlit("lb");
        },
        Lang::Mk => {
            reveal_strlit("mk");
        },
        Lang::Mg => {
            reveal_strlit("mg");
        },
        Lang::Ms => {
            reveal_strlit("ms");
        },
        Lang::Ml => {
            reveal_strlit("ml");
        },
        Lang::Mt => {
            reveal_strlit("mt");
        },
        Lang::Gv => {
            reveal_strlit("gv");
        },
        Lang::Mr => {
            reveal_strlit("mr");
        },
        Lang::Mn => {
            reveal_strlit("mn");
        },
        Lang::Mi => {
            reveal_strlit("mi");
        },
        Lang::Nah => {
            reveal_strlit("nah");
        },
        Lang::Nv => {
            reveal_strlit("nv");
        },
        Lang::Nrf => {
            reveal_strlit("nrf");
        },
        Lang::Se => {
            reveal_strlit("se");
        },
        Lang::No => {
            reveal_strlit("no");
        },
        Lang::Nb => {
            reveal_strlit("nb");
        },
        Lang::Nn => {
            reveal_strlit("nn");
        },
        Lang::Oc => {
            reveal_strlit("oc");
        },
        Lang::Or => {
            reveal_strlit("or");
        },
        Lang::Cu => {
            reveal_strlit("cu");
        },
        Lang::Non => {
            reveal_strlit("non");
        },
        Lang::Pi => {
            reveal_strlit("pi");
        },
        Lang::Rsk => {
            reveal_strlit("rsk");
        },
        Lang::Fa => {
            reveal_strlit("fa");
        },
        Lang::Pdt => {
            reveal_strlit("pdt");
        },
        Lang::Pl => {
            reveal_strlit("pl");
        },
        Lang::Zlwopl => {
            reveal_strlit("zlw-opl");
        },
        Lang::Pt => {
            reveal_strlit("pt");
        },
        Lang::Urjfinpro => {
            reveal_strlit("urj-fin-pro");
        },
        Lang::Gempro => {
            reveal_strlit("gem-pro");
        },
        Lang::Slapro => {
            reveal_strlit("sla-pro");
        },
        Lang::Gmwpro => {
            reveal_strlit("gmw-pro");
        },
        Lang::Pa => {
            reveal_strlit("pa");
        },
        Lang::Ro => {
            reveal_strlit("ro");
        },
        Lang::Ru => {
            reveal_strlit("ru");
        },
        Lang::Sa => {
            reveal_strlit("sa");
        },
        Lang::Sco => {
            reveal_strlit("sco");
        },
        Lang::Gd => {
            reveal_strlit("gd");
        },
        Lang::Sh => {
            reveal_strlit("sh");
        },
        Lang::Scn => {
            reveal_strlit("scn");
        },
        Lang::Sk => {
            reveal_strlit("sk");
        },
        Lang::Sl => {
            reveal_strlit("sl");
        },
        Lang::Dsb => {
            reveal_strlit("dsb");
        },
        Lang::Es => {
            reveal_strlit("es");
        },
        Lang::Su => {
            reveal_strlit("su");
        },
        Lang::Sw => {
            reveal_strlit("sw");
        },
        Lang::Sv => {
            reveal_strlit("sv");
        },
        Lang::Syc => {
            reveal_strlit("syc");
        },
        Lang::Tl => {
            reveal_strlit("tl");
        },
        Lang::Tg => {
            reveal_strlit("tg");
        },
        Lang::Ta => {
            reveal_strlit("ta");
        },
        Lang::Te => {
            reveal_strlit("te");
        },
        Lang::Th => {
            reveal_strlit("th");
        },
        Lang::Bo => {
            reveal_strlit("bo");
        },
        Lang::Tok => {
            reveal_strlit("tok");
        },
        Lang::Tr => {
            reveal_strlit("tr");
        },
        Lang::Ota => {
            reveal_strlit("ota");
        },
        Lang::Uk => {
            reveal_strlit("uk");
        },
        Lang::Ur => {
            reveal_strlit("ur");
        },
        Lang::Ug => {
            reveal_strlit("ug");
        },
        Lang::Uz => {
            reveal_strlit("uz");
        },
        Lang::Vec => {
            reveal_strlit("vec");
        },
        Lang::Vi => {
            reveal_strlit("vi");
        },
        Lang::Vo => {
            reveal_strlit("vo");
        },
        Lang::Vot => {
            reveal_strlit("vot");
        },
        Lang::Cy => {
            reveal_strlit("cy");
        },
        Lang::Ady => {
            reveal_strlit("ady");
        },
        Lang::Fy => {
            reveal_strlit("fy");
        },
        Lang::Sah => {
            reveal_strlit("sah");
        },
        Lang::Yi => {
            reveal_strlit("yi");
        },
        Lang::Yo => {
            reveal_strlit("yo");
        },
        Lang::Zu => {
            reveal_strlit("zu");
        },
    }
}

/// The edition whose code is `c`, read character by character.
pub open spec fn edition_of_code(c: Seq<char>) -> Option<Edition> {
    if c.len() == 0 {
        None
    } else if c[0] == 'c' {
        if c.len() == 1 {
            None
        } else if c[1] == 's' {
            if c.len() == 2 { Some(Edition::Cs) } else { None }
        } else {
            None
        }
    } else if c[0] == 'd' {
        if c.len() == 1 {
            None
        } else if c[1] == 'e' {
            if c.len() == 2 { Some(Edition::De) } else { None }
        } else {
            None
        }
    } else if c[0] == 'e' {
        if c.len() == 1 {
            None
        } else if c[1] == 'l' {
            if c.len() == 2 { Some(Edition::El) } else { None }
        } else if c[1] == 'n' {
            if c.len() == 2 { Some(Edition::En) } else { None }
        } else if c[1] == 's' {
            if c.len() == 2 { Some(Edition::Es) } else { None }
        } else {
            None
        }
    } else if c[0] == 'f' {
        if c.len() == 1 {
            None
        } else if c[1] == 'r' {
            if c.len() == 2 { Some(Edition::Fr) } else { None }
        } else {
            None
        }
    } else if c[0] == 'i' {
        if c.len() == 1 {
            None
        } else if c[1] == 'd' {
            if c.len() == 2 { Some(Edition::Id) } else { None }
        } else if c[1] == 't' {
            if c.len() == 2 { Some(Edition::It) } else { None }
        } else {
            None
        }
    } else if c[0] == 'j' {
        if c.len() == 1 {
            None
        } else if c[1] == 'a' {
            if c.len() == 2 { Some(Edition::Ja) } else { None }
        } else {
            None
        }
    } else if c[0] == 'k' {
        if c.len() == 1 {
            None
        } else if c[1] == 'o' {
            if c.len() == 2 { Some(Edition::Ko) } else { None }
        } else if c[1] == 'u' {
            if c.len() == 2 { Some(Edition::Ku) } else { None }
        } else {
            None
        }
    } else if c[0] == 'm' {
        if c.len() == 1 {
            None
        } else if c[1] == 's' {
            if c.len() == 2 { Some(Edition::Ms) } else { None }
        } else {
            None
        }
    } else if c[0] == 'n' {
        if c.len() == 1 {
            None
        } else if c[1] == 'l' {
            if c.len() == 2 { Some(Edition::Nl) } else { None }
        } else {
            None
        }
    } else if c[0] == 'p' {
        if c.len() == 1 {
            None
        } else if c[1] == 'l' {
            if c.len() == 2 { Some(Edition::Pl) } else { None }
        } else if c[1] == 't' {
            if c.len() == 2 { Some(Edition::Pt) } else { None }
        } else {
            None
        }
    } else if c[0] == 'r' {
        if c.len() == 1 {
            None
        } else if c[1] == 'u' {
            if c.len() == 2 { Some(Edition::Ru) } else { None }
        } else {
            None
        }
    } else if c[0] == 's' {
        if c.len() == 1 {
            None
        } else if c[1] == 'i' {
            if c.len() == 2 {
                None
            } else if c[2] == 'm' {
                if c.len() == 3 {
                    None
                } else if c[3] == 'p' {
                    if c.len() == 4 {
                        None
                    } else if c[4] == 'l' {
                        if c.len() == 5 {
                            None
                        } else if c[5] == 'e' {
                            if c.len() == 6 { Some(Edition::Simple) } else { None }
                        } else {
                            None
                        }
                    } else {
                        None
                    }
                } else {
                    None
                }
            } else {
                None
            }
        } else {
            None
        }
    } else if c[0] == 't' {
        if c.len() == 1 {
            None
        } else if c[1] == 'h' {
            if c.len() == 2 { Some(Edition::Th) } else { None }
        } else if c[1] == 'r' {
            if c.len() == 2 { Some(Edition::Tr) } else { None }
        } else {
            None
        }
    } else if c[0] == 'v' {
        if c.len() == 1 {
            None
        } else if c[1] == 'i' {
            if c.len() == 2 { Some(Edition::Vi) } else { None }
        } else {
            None
        }
    } else if c[0] == 'z' {
        if c.len() == 1 {
            None
        } else if c[1] == 'h' {
            if c.len() == 2 { Some(Edition::Zh) } else { None }
        } else {
            None
        }
    } else {
        None
    }
}

/// Reading the code of an edition gives it back.
proof fn lemma_edition_of_code_decodes(x: Edition)
    ensures
        edition_of_code(edition_code(x)) == Some(x),
{
    match x {
        Edition::Zh => {
            reveal_strlit("zh");
        },
        Edition::Cs => {
            reveal_strlit("cs");
        },
        Edition::Nl => {
            reveal_strlit("nl");
        },
        Edition::En => {
            reveal_strlit("en");
        },
        Edition::Simple => {
            reveal_strlit("simple");
        },
        Edition::Fr => {
            reveal_strlit("fr");
        },
        Edition::De => {
            reveal_strlit("de");
        },
        Edition::El => {
            reveal_strlit("el");
        },
        Edition::Id => {
            reveal_strlit("id");
        },
        Edition::It => {
            reveal_strlit("it");
        },
        Edition::Ja => {
            reveal_strlit("ja");
        },
        Edition::Ko => {
            reveal_strlit("ko");
        },
        Edition::Ku => {
            reveal_strlit("ku");
        },
        Edition::Ms => {
            reveal_strlit("ms");
        },
        Edition::Pl => {
            reveal_strlit("pl");
        },
        Edition::Pt => {
            reveal_strlit("pt");
        },
        Edition::Ru => {
            reveal_strlit("ru");
        },
        Edition::Es => {
            reveal_strlit("es");
        },
        Edition::Th => {
            reveal_strlit("th");
        },
        Edition::Tr => {
            reveal_strlit("tr");
        },
        Edition::Vi => {
            reveal_strlit("vi");
        },
    }
}

/// Codes name languages one to one: two languages with the same code are the same.
pub proof fn lemma_lang_code_injective(l1: Lang, l2: Lang)
    ensures
        lang_code(l1) == lang_code(l2) ==> l1 == l2,
{
    lemma_lang_of_code_decodes(l1);
    lemma_lang_of_code_decodes(l2);
}

/// Codes name editions one to one: two editions with the same code are the same.
pub proof fn lemma_edition_code_injective(e1: Edition, e2: Edition)
    ensures
        edition_code(e1) == edition_code(e2) ==> e1 == e2,
{
    lemma_edition_of_code_decodes(e1);
    lemma_edition_of_code_decodes(e2);
}

/// Every language code is ASCII and already in lower case.
pub proof fn lemma_lang_code_lower(x: Lang)
    ensures
        all_ascii(lang_code(x)),
        lang_code(x).map_values(|c: char| ascii_lower_char(c)) == lang_code(x),
{
    match x {
        Lang::Af => {
            reveal_strlit("af");
        },
        Lang::Sq => {
            reveal_strlit("sq");
        },
        Lang::Arz => {
            reveal_strlit("arz");
        },
        Lang::Afb => {
            reveal_strlit("afb");
        },
        Lang::Ar => {
            reveal_strlit("ar");
        },
        Lang::Apc => {
            reveal_strlit("apc");
        },
        Lang::Ajp => {
            reveal_strlit("ajp");
        },
        Lang::Hy => {
            reveal_strlit("hy");
        },
        Lang::Xcl => {
            reveal_strlit("xcl");
        },
        Lang::Rup => {
            reveal_strlit("rup");
        },
        Lang::As => {
            reveal_strlit("as");
        },
        Lang::Aii => {
            reveal_strlit("aii");
        },
        Lang::Ast => {
            reveal_strlit("ast");
        },
        Lang::Az => {
            reveal_strlit("az");
        },
        Lang::Ba => {
            reveal_strlit("ba");
        },
        Lang::Eu => {
            reveal_strlit("eu");
        },
        Lang::Be => {
            reveal_strlit("be");
        },
        Lang::Bn => {
            reveal_strlit("bn");
        },
        Lang::Bcl => {
            reveal_strlit("bcl");
        },
        Lang::Bg => {
            reveal_strlit("bg");
        },
        Lang::My => {
            reveal_strlit("my");
        },
        Lang::Ca => {
            reveal_strlit("ca");
        },
        Lang::Ceb => {
            reveal_strlit("ceb");
        },
        Lang::Zh => {
            reveal_strlit("zh");
        },
        Lang::Yue => {
            reveal_strlit("yue");
        },
        Lang::Cmn => {
            reveal_strlit("cmn");
        },
        Lang::Cim => {
            reveal_strlit("cim");
        },
        Lang::Cop => {
            reveal_strlit("cop");
        },
        Lang::Kw => {
            reveal_strlit("kw");
        },
        Lang::Crh => {
            reveal_strlit("crh");
        },
        Lang::Cs => {
            reveal_strlit("cs");
        },
        Lang::Zlwocs => {
            reveal_strlit("zlw-ocs");
        },
        Lang::Da => {
            reveal_strlit("da");
        },
        Lang::Nl => {
            reveal_strlit("nl");
        },
        Lang::Dum => {
            reveal_strlit("dum");
        },
        Lang::Egy => {
            reveal_strlit("egy");
        },
        Lang::En => {
            reveal_strlit("en");
        },
        Lang::Enm => {
            reveal_strlit("enm");
        },
        Lang::Ang => {
            reveal_strlit("ang");
        },
        Lang::Simple => {
            reveal_strlit("simple");
        },
        Lang::Eo => {
            reveal_strlit("eo");
        },
        Lang::Et => {
            reveal_strlit("et");
        },
        Lang::Fo => {
            reveal_strlit("fo");
        },
        Lang::Fi => {
            reveal_strlit("fi");
        },
        Lang::Fr => {
            reveal_strlit("fr");
        },
        Lang::Frm => {
            reveal_strlit("frm");
        },
        Lang::Fro => {
            reveal_strlit("fro");
        },
        Lang::Gl => {
            reveal_strlit("gl");
        },
        Lang::Ka => {
            reveal_strlit("ka");
        },
        Lang::De => {
            reveal_strlit("de");
        },
        Lang::Goh => {
            reveal_strlit("goh");
        },
        Lang::Got => {
            reveal_strlit("got");
        },
        Lang::El => {
            reveal_strlit("el");
        },
        Lang::Grc => {
            reveal_strlit("grc");
        },
        Lang::Gu => {
            reveal_strlit("gu");
        },
        Lang::Haw => {
            reveal_strlit("haw");
        },
        Lang::He => {
            reveal_strlit("he");
        },
        Lang::Hi => {
            reveal_strlit("hi");
        },
        Lang::Hu => {
            reveal_strlit("hu");
        },
        Lang::Is => {
            reveal_strlit("is");
        },
        Lang::Io => {
            reveal_strlit("io");
        },
        Lang::Id => {
            reveal_strlit("id");
        },
        Lang::Izh => {
            reveal_strlit("izh");
        },
        Lang::Ia => {
            reveal_strlit("ia");
        },
        Lang::Ga => {
            reveal_strlit("ga");
        },
        Lang::Sga => {
            reveal_strlit("sga");
        },
        Lang::It => {
            reveal_strlit("it");
        },
        Lang::Ja => {
            reveal_strlit("ja");
        },
        Lang::Jv => {
            reveal_strlit("jv");
        },
        Lang::Kn => {
            reveal_strlit("kn");
        },
        Lang::Csb => {
            reveal_strlit("csb");
        },
        Lang::Kk => {
            reveal_strlit("kk");
        },
        Lang::Kix => {
            reveal_strlit("kix");
        },
        Lang::Km => {
            reveal_strlit("km");
        },
        Lang::Ko => {
            reveal_strlit("ko");
        },
        Lang::Ku => {
            reveal_strlit("ku");
        },
        Lang::Kmr => {
            reveal_strlit("kmr");
        },
        Lang::Ky => {
            reveal_strlit("ky");
        },
        Lang::Lld => {
            reveal_strlit("lld");
        },
        Lang::Lo => {
            reveal_strlit("lo");
        },
        Lang::La => {
            reveal_strlit("la");
        },
        Lang::Lv => {
            reveal_strlit("lv");
        },
        Lang::Lzz => {
            reveal_strlit("lzz");
        },
        Lang::Lt => {
            reveal_strlit("lt");
        },
        Lang::Liv => {
            reveal_strlit("liv");
        },
        Lang::Lb => {
            reveal_strlit("lb");
        },
        Lang::Mk => {
            reveal_strlit("mk");
        },
        Lang::Mg => {
            reveal_strlit("mg");
        },
        Lang::Ms => {
            reveal_strlit("ms");
        },
        Lang::Ml => {
            reveal_strlit("ml");
        },
        Lang::Mt => {
            reveal_strlit("mt");
        },
        Lang::Gv => {
            reveal_strlit("gv");
        },
        Lang::Mr => {
            reveal_strlit("mr");
        },
        Lang::Mn => {
            reveal_strlit("mn");
        },
        Lang::Mi => {
            reveal_strlit("mi");
        },
        Lang::Nah => {
            reveal_strlit("nah");
        },
        Lang::Nv => {
            reveal_strlit("nv");
        },
        Lang::Nrf => {
            reveal_strlit("nrf");
        },
        Lang::Se => {
            reveal_strlit("se");
        },
        Lang::No => {
            reveal_strlit("no");
        },
        Lang::Nb => {
            reveal_strlit("nb");
        },
        Lang::Nn => {
            reveal_strlit("nn");
        },
        Lang::Oc => {
            reveal_strlit("oc");
        },
        Lang::Or => {
            reveal_strlit("or");
        },
        Lang::Cu => {
            reveal_strlit("cu");
        },
        Lang::Non => {
            reveal_strlit("non");
        },
        Lang::Pi => {
            reveal_strlit("pi");
        },
        Lang::Rsk => {
            reveal_strlit("rsk");
        },
        Lang::Fa => {
            reveal_strlit("fa");
        },
        Lang::Pdt => {
            reveal_strlit("pdt");
        },
        Lang::Pl => {
            reveal_strlit("pl");
        },
        Lang::Zlwopl => {
            reveal_strlit("zlw-opl");
        },
        Lang::Pt => {
            reveal_strlit("pt");
        },
        Lang::Urjfinpro => {
            reveal_strlit("urj-fin-pro");
        },
        Lang::Gempro => {
            reveal_strlit("gem-pro");
        },
        Lang::Slapro => {
            reveal_strlit("sla-pro");
        },
        Lang::Gmwpro => {
            reveal_strlit("gmw-pro");
        },
        Lang::Pa => {
            reveal_strlit("pa");
        },
        Lang::Ro => {
            reveal_strlit("ro");
        },
        Lang::Ru => {
            reveal_strlit("ru");
        },
        Lang::Sa => {
            reveal_strlit("sa");
        },
        Lang::Sco => {
            reveal_strlit("sco");
        },
        Lang::Gd => {
            reveal_strlit("gd");
        },
        Lang::Sh => {
            reveal_strlit("sh");
        },
        Lang::Scn => {
            reveal_strlit("scn");
        },
        Lang::Sk => {
            reveal_strlit("sk");
        },
        Lang::Sl => {
            reveal_strlit("sl");
        },
        Lang::Dsb => {
            reveal_strlit("dsb");
        },
        Lang::Es => {
            reveal_strlit("es");
        },
        Lang::Su => {
            reveal_strlit("su");
        },
        Lang::Sw => {
            reveal_strlit("sw");
        },
        Lang::Sv => {
            reveal_strlit("sv");
        },
        Lang::Syc => {
            reveal_strlit("syc");
        },
        Lang::Tl => {
            reveal_strlit("tl");
        },
        Lang::Tg => {
            reveal_strlit("tg");
        },
        Lang::Ta => {
            reveal_strlit("ta");
        },
        Lang::Te => {
            reveal_strlit("te");
        },
        Lang::Th => {
            reveal_strlit("th");
        },
        Lang::Bo => {
            reveal_strlit("bo");
        },
        Lang::Tok => {
            reveal_strlit("tok");
        },
        Lang::Tr => {
            reveal_strlit("tr");
        },
        Lang::Ota => {
            reveal_strlit("ota");
        },
        Lang::Uk => {
            reveal_strlit("uk");
        },
        Lang::Ur => {
            reveal_strlit("ur");
        },
        Lang::Ug => {
            reveal_strlit("ug");
        },
        Lang::Uz => {
            reveal_strlit("uz");
        },
        Lang::Vec => {
            reveal_strlit("vec");
        },
        Lang::Vi => {
            reveal_strlit("vi");
        },
        Lang::Vo => {
            reveal_strlit("vo");
        },
        Lang::Vot => {
            reveal_strlit("vot");
        },
        Lang::Cy => {
            reveal_strlit("cy");
        },
        Lang::Ady => {
            reveal_strlit("ady");
        },
        Lang::Fy => {
            reveal_strlit("fy");
        },
        Lang::Sah => {
            reveal_strlit("sah");
        },
        Lang::Yi => {
            reveal_strlit("yi");
        },
        Lang::Yo => {
            reveal_strlit("yo");
        },
        Lang::Zu => {
            reveal_strlit("zu");
        },
    }
    assert(lang_code(x).map_values(|c: char| ascii_lower_char(c)) =~= lang_code(x));
}

/// Every edition code is ASCII and already in lower case.
pub proof fn lemma_edition_code_lower(x: Edition)
    ensures
        all_ascii(edition_code(x)),
        edition_code(x).map_values(|c: char| ascii_lower_char(c)) == edition_code(x),
{
    match x {
        Edition::Zh => {
            reveal_strlit("zh");
        },
        Edition::Cs => {
            reveal_strlit("cs");
        },
        Edition::Nl => {
            reveal_strlit("nl");
        },
        Edition::En => {
            reveal_strlit("en");
        },
        Edition::Simple => {
            reveal_strlit("simple");
        },
        Edition::Fr => {
            reveal_strlit("fr");
        },
        Edition::De => {
            reveal_strlit("de");
        },
        Edition::El => {
            reveal_strlit("el");
        },
        Edition::Id => {
            reveal_strlit("id");
        },
        Edition::It => {
            reveal_strlit("it");
        },
        Edition::Ja => {
            reveal_strlit("ja");
        },
        Edition::Ko => {
            reveal_strlit("ko");
        },
        Edition::Ku => {
            reveal_strlit("ku");
        },
        Edition::Ms => {
            reveal_strlit("ms");
        },
        Edition::Pl => {
            reveal_strlit("pl");
        },
        Edition::Pt => {
            reveal_strlit("pt");
        },
        Edition::Ru => {
            reveal_strlit("ru");
        },
        Edition::Es => {
            reveal_strlit("es");
        },
        Edition::Th => {
            reveal_strlit("th");
        },
        Edition::Tr => {
            reveal_strlit("tr");
        },
        Edition::Vi => {
            reveal_strlit("vi");
        },
    }
    assert(edition_code(x).map_values(|c: char| ascii_lower_char(c)) =~= edition_code(x));
}

/// A language's code reads back as that language, in any case that lowers to it: the code is
/// its own lower case, and no other language has it (so `Lang::from_str` gives `Ok(l)` on it).
pub proof fn lemma_lang_code_reads_back(l: Lang)
    ensures
        lowered(lang_code(l)) == lang_code(l),
        forall|m: Lang| lang_code(m) == lowered(lang_code(l)) ==> m == l,
{
    lemma_lang_code_lower(l);
    assert forall|m: Lang| lang_code(m) == lowered(lang_code(l)) implies m == l by {
        lemma_lang_code_injective(m, l);
    }
}

/// An ASCII character in upper case: `a` to `z` become `A` to `Z`, any other stays.
pub open spec fn ascii_upper_char(c: char) -> char {
    if 'a' <= c && c <= 'z' { ((c as u32) - 32) as char } else { c }
}

proof fn lemma_upper_then_lower(s: Seq<char>)
    requires
        all_ascii(s),
        s.map_values(|c: char| ascii_lower_char(c)) == s,
    ensures
        all_ascii(s.map_values(|c: char| ascii_upper_char(c))),
        s.map_values(|c: char| ascii_upper_char(c)).map_values(|c: char| ascii_lower_char(c)) == s,
{
    let u = s.map_values(|c: char| ascii_upper_char(c));
    assert forall|i: int| 0 <= i < u.len() implies (#[trigger] u[i] as u32) < 128 && ascii_lower_char(u[i]) == s[i] by {
        let c = s[i];
        assert((c as u32) < 128);
        assert(ascii_lower_char(c) == c);
        if 'a' <= c && c <= 'z' {
            assert(u[i] == ((c as u32) - 32) as char);
        }
    }
    assert(u.map_values(|c: char| ascii_lower_char(c)) =~= s);
}

/// A language's code in upper case (`"EN"`) reads back as that language: lowering it gives the
/// code, which no other language has (so `Lang::from_str` gives `Ok(l)` on it too).
pub proof fn lemma_lang_upper_code_reads_back(l: Lang)
    ensures
        lowered(lang_code(l).map_values(|c: char| ascii_upper_char(c))) == lang_code(l),
        forall|m: Lang| lang_code(m) == lowered(lang_code(l).map_values(|c: char| ascii_upper_char(c))) ==> m == l,
{
    lemma_lang_code_lower(l);
    lemma_upper_then_lower(lang_code(l));
    assert forall|m: Lang| lang_code(m) == lang_code(l) implies m == l by {
        lemma_lang_code_injective(m, l);
    }
}

/// An edition's code in upper case reads back as that edition.
pub proof fn lemma_edition_upper_code_reads_back(e: Edition)
    ensures
        lowered(edition_code(e).map_values(|c: char| ascii_upper_char(c))) == edition_code(e),
        forall|m: Edition| edition_code(m) == lowered(edition_code(e).map_values(|c: char| ascii_upper_char(c))) ==> m == e,
{
    lemma_edition_code_lower(e);
    lemma_upper_then_lower(edition_code(e));
    assert forall|m: Edition| edition_code(m) == edition_code(e) implies m == e by {
        lemma_edition_code_injective(m, e);
    }
}

/// An edition's code reads back as that edition (so `Edition::from_str` gives `Ok(e)` on it).
pub proof fn lemma_edition_code_reads_back(e: Edition)
    ensures
        lowered(edition_code(e)) == edition_code(e),
        forall|m: Edition| edition_code(m) == lowered(edition_code(e)) ==> m == e,
{
    lemma_edition_code_lower(e);
    assert forall|m: Edition| edition_code(m) == lowered(edition_code(e)) implies m == e by {
        lemma_edition_code_injective(m, e);
    }
}

/// The code of a language.
pub open spec fn lang_code_fn() -> spec_fn(Lang) -> Seq<char> {
    |l: Lang| lang_code(l)
}

/// The code of an edition.
pub open spec fn edition_code_fn() -> spec_fn(Edition) -> Seq<char> {
    |e: Edition| edition_code(e)
}

/// The code of a language, in green (ANSI) when there is an edition in that language.
pub open spec fn coloured_code_fn() -> spec_fn(Lang) -> Seq<char> {
    |l: Lang| if lang_edition(l) is Some { "\u{1b}[32m"@ + lang_code(l) + "\u{1b}[0m"@ } else { lang_code(l) }
}

/// `Supported isos: ` and the code of every language, in the order of [`all_langs`], separated
/// by ` | `.
pub open spec fn help_isos_text() -> Seq<char> {
    "Supported isos: "@ + join_sep(all_langs().map_values(lang_code_fn()), " | "@)
}

/// [`help_isos_text`] with the code of each language that has an edition in green.
pub open spec fn help_isos_coloured_text() -> Seq<char> {
    "Supported isos: "@ + join_sep(all_langs().map_values(coloured_code_fn()), " | "@)
}

/// `Supported editions: ` and the code of every edition, in the order of [`all_editions`],
/// separated by ` | `.
pub open spec fn help_editions_text() -> Seq<char> {
    "Supported editions: "@ + join_sep(all_editions().map_values(edition_code_fn()), " | "@)
}

/// The message for a code that is no language: the code quoted, then the usage line.
pub open spec fn unsupported_iso_text(s: Seq<char>) -> Seq<char> {
    "unsupported iso code '"@ + s + "'\n"@ + help_isos_text()
}

/// `head`, then the code of every language (in green when it has an edition, with `coloured`),
/// separated by ` | `.
fn join_codes(head: &str, coloured: bool) -> (r: String)
    ensures
        r@ == head@ + join_sep(all_langs().map_values(if coloured { coloured_code_fn() } else { lang_code_fn() }), " | "@),
{
    let all = Lang::all();
    let ghost f = if coloured { coloured_code_fn() } else { lang_code_fn() };
    let ghost codes = all_langs().map_values(f);
    let mut r = owned(head);
    let mut i: usize = 0;
    proof {
        reveal_strlit("\u{1b}[32m");
        reveal_strlit("\u{1b}[0m");
    }
    while i < all.len()
        invariant
            i <= all@.len(),
            all@ == all_langs(),
            f == (if coloured { coloured_code_fn() } else { lang_code_fn() }),
            codes == all_langs().map_values(f),
            r@ == head@ + join_sep(codes.take(i as int), " | "@),
        decreases all@.len() - i,
    {
        if i > 0 {
            r.append(" | ");
        }
        let l = all[i];
        let code = l.as_ref();
        if coloured && l.to_edition().is_ok() {
            r.append("\u{1b}[32m");
            r.append(code);
            r.append("\u{1b}[0m");
        } else {
            r.append(code);
        }
        proof {
            assert(codes[i as int] == f(l));
            assert(codes.take(i + 1).drop_last() =~= codes.take(i as int));
            if i == 0 {
                assert(codes.take(1) =~= seq![codes[0]]);
            }
        }
        assert(r@ =~= head@ + join_sep(codes.take(i + 1), " | "@));
        i += 1;
    }
    assert(codes.take(all@.len() as int) =~= codes);
    r
}

/// The message for a code that is no language (see [`unsupported_iso_text`]).
pub fn unsupported_iso_message(s: &str) -> (r: String)
    ensures
        r@ == unsupported_iso_text(s@),
{
    let head = concat3("unsupported iso code '", s, "'\n");
    let help = Lang::help_isos();
    concat(head.as_str(), help.as_str())
}

/// The message for a code that is no edition.
pub fn invalid_edition_message(s: &str) -> (r: String)
    ensures
        r@ == "invalid edition '"@ + s@ + "'"@,
{
    concat3("invalid edition '", s, "'")
}

} // verus!
