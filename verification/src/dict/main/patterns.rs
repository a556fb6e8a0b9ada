//! The regular expressions and Unicode normalizations that reading entries relies on.
use vstd::prelude::*;
use unicode_normalization::UnicodeNormalization;

verus! {

/// Whether `s` holds a parenthesized text: a `(`, then at least one character other than a line
/// break, then a `)` (what the regular expression `\(.+?\)` finds).
pub open spec fn has_parenthesized(s: Seq<char>) -> bool {
    exists|i: int, j: int|
        0 <= i && i + 1 < j < s.len() && #[trigger] s[i] == '(' && #[trigger] s[j] == ')' && forall|k: int|
            i < k < j ==> s[k] != '\n'
}

/// regex's `Regex::is_match` for `\(.+?\)`: whether `s` holds a parenthesized text.
#[verifier::external_body]
pub(crate) fn parens_match(s: &str) -> (r: bool)
    ensures
        r == has_parenthesized(s@),
{
    regex::Regex::new(r"\(.+?\)").unwrap().is_match(s)
}

/// What regex's `Regex::replace_all` with `\(.+?\)` and an empty replacement makes of a string:
/// its parenthesized texts, leftmost first, removed.
pub uninterp spec fn parens_removed(s: Seq<char>) -> Seq<char>;

/// regex's `Regex::replace_all` for `\(.+?\)` with `""`: `s` without its parenthesized texts.
#[verifier::external_body]
pub(crate) fn remove_parenthesized(s: &str) -> (r: String)
    ensures
        r@ == parens_removed(s@),
{
    regex::Regex::new(r"\(.+?\)").unwrap().replace_all(s, "").to_string()
}

/// What regex's `Regex::captures` finds with
/// `^(.*)des (?:Verbs|Adjektivs|Substantivs|Demonstrativpronomens|Possessivpronomens|Pronomens) (.*)$`
/// (the German "form of" glosses): its two groups, the inflection and the lemma, if it matches.
pub uninterp spec fn de_inflection(s: Seq<char>) -> Option<(Seq<char>, Seq<char>)>;

/// regex's `Regex::captures` for the German "form of" glosses: the text of its two groups when
/// it matches (both groups take part in every match).
#[verifier::external_body]
pub(crate) fn de_inflection_captures(s: &str) -> (r: Option<(String, String)>)
    ensures
        match r {
            Some((a, b)) => de_inflection(s@) == Some((a@, b@)),
            None => de_inflection(s@) is None,
        },
{
    let re = regex::Regex::new(
        r"^(.*)des (?:Verbs|Adjektivs|Substantivs|Demonstrativpronomens|Possessivpronomens|Pronomens) (.*)$",
    ).unwrap();
    match re.captures(s) {
        Some(caps) => match (caps.get(1), caps.get(2)) {
            (Some(a), Some(b)) => Some((a.as_str().to_string(), b.as_str().to_string())),
            _ => None,
        },
        None => None,
    }
}

/// Whether a character is Unicode punctuation (general category P), as regex's `\p{P}` has it.
pub uninterp spec fn unicode_punctuation(c: char) -> bool;

/// regex's `Regex::is_match` for `\p{P}$`: whether the last character of `s` is punctuation.
#[verifier::external_body]
pub(crate) fn ends_with_punctuation(s: &str) -> (r: bool)
    ensures
        r == (s@.len() > 0 && unicode_punctuation(s@.last())),
{
    regex::Regex::new(r"\p{P}$").unwrap().is_match(s)
}

/// The canonical decomposition (NFD) of a string, as unicode-normalization computes it.
pub uninterp spec fn nfd(s: Seq<char>) -> Seq<char>;

/// The canonical composition (NFC) of characters, as unicode-normalization computes it.
pub uninterp spec fn nfc(s: Seq<char>) -> Seq<char>;

/// unicode-normalization's `nfd`: the characters of the canonical decomposition of `s`.
#[verifier::external_body]
pub(crate) fn decompose(s: &str) -> (r: Vec<char>)
    ensures
        r@ == nfd(s@),
{
    s.nfd().collect()
}

/// unicode-normalization's `nfc`: the canonical composition of `cs`.
#[verifier::external_body]
pub(crate) fn compose(cs: &Vec<char>) -> (r: String)
    ensures
        r@ == nfc(cs@),
{
    cs.iter().copied().nfc().collect()
}

} // verus!
