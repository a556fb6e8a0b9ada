//! The tag tables: the display order of grammatical tags and the tag bank.
//!
//! These are partial tables. The full tables (a bank of 361 entries with their aliases, and the
//! full display order) are generated from data files that this source tree does not hold; the
//! tables here were rebuilt from what the code, its tests and its localizations name, so any tag
//! outside them is treated as missing from the bank (dropped from terms, forms and
//! transcriptions, and reported as not found by the diagnostics). They hold:
//!
//! - the bank, 54 entries (short form, then the long form shown):
//!   - parts of speech (24): n (noun), v (verb), adj (adjective), adv (adverb), pron (pronoun),
//!     prep (preposition), postp (postposition), conj (conjunction), intj (interjection),
//!     ptcl (particle), artic (article), det (determiner), num (numeral), name (proper noun),
//!     pref (prefix), suf (suffix), phr (phrase), prov (proverb), contr (contraction),
//!     aux-v (auxiliary verb), adj_noun (adjectival noun), adn (adnominal),
//!     onoma (onomatopoeia), char (character);
//!   - verb types (5): vt, vi, godan, ichidan, shimoichidan;
//!   - genders (4): masc, fem, neut, common;
//!   - archaism (3): arch, obs, dated; frequency: rare;
//!   - style (9): col, inf, form, sl, vulg, pej, fig, literal, lit;
//!   - dialect; topics (5): math, sports, philos, ling, edu; the variety ⛪ (modern
//!     Italianate Ecclesiastical); and abbv (abbreviation, no category);
//! - 110 aliases of those entries (the long forms that dataset tags use);
//! - the German (17) and Japanese (36) localizations, which are those of the full tables;
//! - the display order, 41 tags: genders, numbers, cases, persons, definiteness, tenses and
//!   aspects, moods, non-finite forms, voices and degrees.
use vstd::prelude::*;

verus! {

/// Grammatical tags in the order in which they are displayed (partial: see the module
/// documentation).
pub const TAG_ORDER: [&'static str; 41] = ["masculine", "feminine", "neuter", "common", "singular", "dual", "plural", "nominative", "genitive", "dative", "accusative", "vocative", "ablative", "locative", "instrumental", "partitive", "first-person", "second-person", "third-person", "definite", "indefinite", "present", "past", "future", "imperfect", "perfect", "pluperfect", "preterite", "aorist", "indicative", "subjunctive", "conditional", "imperative", "infinitive", "participle", "gerund", "active", "passive", "positive", "comparative", "superlative"];

/// Number of entries of the tag bank (partial: see the module documentation).
pub const TAG_BANK_LEN: usize = 54;

/// Short form of each tag bank entry (what is displayed).
pub const TAG_SHORT: [&'static str; 54] = ["n", "v", "adj", "adv", "pron", "prep", "postp", "conj", "intj", "ptcl", "artic", "det", "num", "name", "pref", "suf", "phr", "prov", "contr", "aux-v", "adj_noun", "adn", "onoma", "char", "abbv", "vt", "vi", "godan", "ichidan", "shimoichidan", "masc", "fem", "neut", "common", "arch", "obs", "dated", "rare", "col", "inf", "form", "sl", "vulg", "pej", "fig", "literal", "lit", "dialect", "math", "sports", "philos", "ling", "edu", "⛪"];

/// Category of each tag bank entry.
pub const TAG_CATEGORY: [&'static str; 54] = ["partOfSpeech", "partOfSpeech", "partOfSpeech", "partOfSpeech", "partOfSpeech", "partOfSpeech", "partOfSpeech", "partOfSpeech", "partOfSpeech", "partOfSpeech", "partOfSpeech", "partOfSpeech", "partOfSpeech", "partOfSpeech", "partOfSpeech", "partOfSpeech", "partOfSpeech", "partOfSpeech", "partOfSpeech", "partOfSpeech", "partOfSpeech", "partOfSpeech", "partOfSpeech", "partOfSpeech", "", "verbType", "verbType", "verbType", "verbType", "verbType", "gender", "gender", "gender", "gender", "archaism", "archaism", "archaism", "frequency", "style", "style", "style", "style", "style", "style", "style", "style", "style", "dialect", "topic", "topic", "topic", "topic", "topic", "variety"];

/// Sorting order of each tag bank entry.
pub const TAG_SORT_ORDER: [i32; 54] = [-2, -2, -2, -2, -2, -2, -2, -2, -2, -2, -2, -2, -2, -2, -2, -2, -2, -2, -2, -2, -2, -2, -2, -2, 0, -1, -1, -1, -1, -1, -1, -1, -1, -1, 0, 0, 0, 0, 0, 0, 0, 0, 0, 0, 0, 0, 0, 0, 0, 0, 0, 0, 0, 0];

/// Popularity score of each tag bank entry.
pub const TAG_POPULARITY: [i32; 54] = [2, 2, 2, 2, 2, 2, 2, 2, 2, 2, 2, 2, 2, 2, 2, 2, 2, 2, 2, 2, 2, 2, 2, 2, 0, 1, 1, 1, 1, 1, 1, 1, 1, 1, 0, 0, 0, 0, 0, 0, 0, 0, 0, 0, 0, 0, 0, 0, 0, 0, 0, 0, 0, 0];

/// Long forms (aliases) of the entries, grouped by entry and in bank order: the long form
/// shown for an entry is its first alias.
pub const TAG_ALIAS: [&'static str; 110] = ["noun", "nouns", "verb", "verbs", "adjective", "adjectives", "adverb", "adverbs", "pronoun", "pronouns", "preposition", "prep", "postposition", "postp", "conjunction", "conj", "interjection", "intj", "particle", "particles", "article", "articles", "determiner", "det", "numeral", "number", "num", "proper noun", "name", "proper-noun", "prefix", "prefixes", "suffix", "suffixes", "phrase", "phrases", "proverb", "proverbs", "contraction", "contractions", "auxiliary verb", "auxiliary", "adjectival noun", "adj_noun", "adnominal", "adn", "onomatopoeia", "onomatopoeic", "character", "han character", "abbreviation", "abbrev", "transitive", "transitive verb", "intransitive", "intransitive verb", "godan", "godan verb", "ichidan", "ichidan verb", "shimoichidan", "shimo ichidan", "masculine", "masc", "feminine", "fem", "neuter", "neut", "common gender", "common", "archaic", "archaism", "obsolete", "obs", "dated", "old-fashioned", "rare", "rarely", "colloquial", "colloquially", "informal", "informally", "formal", "formally", "slang", "slangy", "vulgar", "vulgarly", "pejorative", "derogatory", "figuratively", "figurative", "literally", "literal", "literary", "literature", "dialectal", "dialect", "mathematics", "math", "sports", "sport", "philosophy", "philosophical", "linguistics", "linguistic", "education", "educational", "modern Italianate Ecclesiastical", "Ecclesiastical"];

/// The entry that each alias belongs to.
pub const TAG_ALIAS_ENTRY: [usize; 110] = [0, 0, 1, 1, 2, 2, 3, 3, 4, 4, 5, 5, 6, 6, 7, 7, 8, 8, 9, 9, 10, 10, 11, 11, 12, 12, 12, 13, 13, 13, 14, 14, 15, 15, 16, 16, 17, 17, 18, 18, 19, 19, 20, 20, 21, 21, 22, 22, 23, 23, 24, 24, 25, 25, 26, 26, 27, 27, 28, 28, 29, 29, 30, 30, 31, 31, 32, 32, 33, 33, 34, 34, 35, 35, 36, 36, 37, 37, 38, 38, 39, 39, 40, 40, 41, 41, 42, 42, 43, 43, 44, 44, 45, 45, 46, 46, 47, 47, 48, 48, 49, 49, 50, 50, 51, 51, 52, 52, 53, 53];

/// Long form of each tag bank entry: its first alias.
pub const TAG_LONG: [&'static str; 54] = ["noun", "verb", "adjective", "adverb", "pronoun", "preposition", "postposition", "conjunction", "interjection", "particle", "article", "determiner", "numeral", "proper noun", "prefix", "suffix", "phrase", "proverb", "contraction", "auxiliary verb", "adjectival noun", "adnominal", "onomatopoeia", "character", "abbreviation", "transitive", "intransitive", "godan", "ichidan", "shimoichidan", "masculine", "feminine", "neuter", "common gender", "archaic", "obsolete", "dated", "rare", "colloquial", "informal", "formal", "slang", "vulgar", "pejorative", "figuratively", "literally", "literary", "dialectal", "mathematics", "sports", "philosophy", "linguistics", "education", "modern Italianate Ecclesiastical"];

/// Bank short tags that have a German localization.
pub const LOC_DE_KEYS: [&'static str; 17] = ["n", "masc", "fem", "neut", "v", "adj", "vt", "vi", "name", "arch", "dated", "col", "fig", "vulg", "literal", "lit", "sports"];

/// Their localized short forms.
pub const LOC_DE_SHORT: [&'static str; 17] = ["S", "Mask", "Fem", "Neut", "V", "Adj", "Vt", "Vi", "Vorn", "veraltet", "altmod", "ums", "übertragen", "vulgär", "wörtlich", "liter", "Sport"];

/// Their localized long forms.
pub const LOC_DE_LONG: [&'static str; 17] = ["Substantiv", "Maskulinum", "Femininum", "Neutrum", "Verb", "Adjektiv", "transitives Verb", "intransitives Verb", "Vorname", "veraltet", "altmodisch", "umgangssprachlich", "übertragen", "vulgär", "wörtlich", "literarisch", "Sport"];

/// Bank short tags that have a Japanese localization.
pub const LOC_JA_KEYS: [&'static str; 36] = ["v", "n", "adj", "dated", "arch", "fig", "abbv", "name", "ptcl", "sl", "math", "vt", "vi", "inf", "lit", "pej", "dialect", "rare", "adv", "artic", "aux-v", "conj", "contr", "intj", "pron", "philos", "suf", "adj_noun", "godan", "ichidan", "shimoichidan", "onoma", "adn", "ling", "edu", "prep"];

/// Their localized short forms.
pub const LOC_JA_SHORT: [&'static str; 36] = ["動", "名", "形", "古風", "古語", "比喩", "略", "名前", "助", "俗", "数学", "他動", "自動", "非形式的", "文語", "軽蔑的", "方言", "まれ", "副", "定", "助動", "接続", "縮約", "間投", "代", "哲学", "接尾辞", "形容動詞", "五段", "一段", "下一段", "オノマ", "連体詞", "言語学", "教育", "前"];

/// Their localized long forms.
pub const LOC_JA_LONG: [&'static str; 36] = ["動詞", "名詞", "形容詞", "古風", "古語", "比喩", "略語", "固有名詞", "助詞", "俗語", "数学", "他動詞", "自動詞", "非形式的", "文語", "軽蔑的", "方言", "まれ", "副詞", "定冠詞", "助動詞", "接続詞", "縮約形", "間投詞", "代名詞", "哲学", "接尾辞", "形容動詞", "五段活用", "一段活用", "下一段活用", "オノマトペ", "連体詞", "言語学", "教育", "前置詞"];

} // verus!
