//! Links to the pages that entries come from, and console messages.
use vstd::prelude::*;
use crate::lang::{Edition, Lang, edition_code, lang_name};
use crate::text::{chars_of, concat, owned, push_char, string_of_range};

verus! {

/// The mark of a skipped step.
pub const SKIP_C: &'static str = "⏭";

/// The mark of a finished step.
pub const CHECK_C: &'static str = "✓";

/// `s` with every space written `%20`, as in a URL.
pub open spec fn escape_spaces(s: Seq<char>) -> Seq<char>
    decreases s.len(),
{
    if s.len() == 0 {
        Seq::<char>::empty()
    } else if s.last() == ' ' {
        escape_spaces(s.drop_last()) + seq!['%', '2', '0']
    } else {
        escape_spaces(s.drop_last()).push(s.last())
    }
}

/// `s` with every space written `%20`.
pub fn escape_spaces_exec(s: &str) -> (r: String)
    ensures
        r@ == escape_spaces(s@),
{
    let cs = chars_of(s);
    let mut r = String::new();
    let mut i: usize = 0;
    assert(cs@.take(0) =~= Seq::<char>::empty());
    while i < cs.len()
        invariant
            cs@ == s@,
            i <= cs@.len(),
            r@ == escape_spaces(cs@.take(i as int)),
        decreases cs@.len() - i,
    {
        assert(cs@.take(i + 1).drop_last() =~= cs@.take(i as int));
        if cs[i] == ' ' {
            push_char(&mut r, '%');
            push_char(&mut r, '2');
            push_char(&mut r, '0');
            assert(r@ =~= escape_spaces(cs@.take(i as int)) + seq!['%', '2', '0']);
        } else {
            push_char(&mut r, cs[i]);
        }
        i += 1;
    }
    assert(cs@.take(cs@.len() as int) =~= cs@);
    r
}

/// The Wiktionary page of `word`, at the section of `source`:
/// `https://<edition>.wiktionary.org/wiki/<word>#<Source name>`.
pub open spec fn wiktionary_link(edition: Edition, source: Lang, word: Seq<char>) -> Seq<char> {
    "https://"@ + edition_code(edition) + ".wiktionary.org/wiki/"@ + escape_spaces(word) + "#"@ + lang_name(source)
}

/// The Wiktionary page of `word` (see [`wiktionary_link`]).
pub fn link_wiktionary(edition: Edition, source: Lang, word: &str) -> (r: String)
    ensures
        r@ == wiktionary_link(edition, source, word@),
{
    let mut r = owned("https://");
    r.append(edition.as_ref());
    r.append(".wiktionary.org/wiki/");
    let w = escape_spaces_exec(word);
    r.append(w.as_str());
    r.append("#");
    r.append(source.long());
    r
}

/// The Kaikki page of `word`: its first character and its first two characters (the whole
/// word when it has fewer) lead to it, as in `楽/楽し/楽しい`. English and Greek list each
/// language apart; the other editions have one list for all languages.
pub open spec fn kaikki_link(edition: Edition, source: Lang, word: Seq<char>) -> Seq<char> {
    let dictionary = if edition == Edition::En {
        "dictionary"@
    } else {
        edition_code(edition) + "wiktionary"@
    };
    let localized_source = if edition == Edition::En || edition == Edition::El {
        escape_spaces(lang_name(source))
    } else {
        "All%20languages%20combined"@
    };
    let first_two = if word.len() < 2 {
        word
    } else {
        word.take(2)
    };
    "https://kaikki.org/"@ + dictionary + "/"@ + localized_source + "/meaning/"@ + seq![word[0]] + "/"@
        + first_two + "/"@ + word + ".html"@
}

/// The Kaikki page of `word` (see [`kaikki_link`]); the word cannot be empty.
pub fn link_kaikki(edition: Edition, source: Lang, word: &str) -> (r: String)
    requires
        word@.len() > 0,
    ensures
        r@ == kaikki_link(edition, source, word@),
{
    let chars = chars_of(word);
    let first = chars[0];
    let first_two = if chars.len() < 2 {
        owned(word)
    } else {
        let t = string_of_range(&chars, 0, 2);
        assert(chars@.subrange(0, 2) =~= word@.take(2));
        t
    };
    let dictionary = match edition {
        Edition::En => owned("dictionary"),
        other => concat(other.as_ref(), "wiktionary"),
    };
    let localized_source = match edition {
        Edition::En | Edition::El => escape_spaces_exec(source.long()),
        _ => owned("All%20languages%20combined"),
    };
    let mut r = owned("https://kaikki.org/");
    r.append(dictionary.as_str());
    r.append("/");
    r.append(localized_source.as_str());
    r.append("/meaning/");
    push_char(&mut r, first);
    r.append("/");
    r.append(first_two.as_str());
    r.append("/");
    r.append(word);
    r.append(".html");
    r
}

/// The message shown when a step is skipped because its output exists.
pub fn skip_message(skipped: &str) -> (r: String)
    ensures
        r@ == SKIP_C@ + " Skipping "@ + skipped@ + ": file already exists"@,
{
    let mut r = owned(SKIP_C);
    r.append(" Skipping ");
    r.append(skipped);
    r.append(": file already exists");
    r
}

} // verus!
