//! Words of the dictionaries in their target language.
use vstd::prelude::*;
use crate::lang::Lang;
use crate::text::{decimal, owned, usize_to_string};

verus! {

/// The singular and plural of "example" in `target` (English for the languages not listed).
pub open spec fn example_words(target: Lang) -> (Seq<char>, Seq<char>) {
    match target {
        Lang::Fr => ("exemple"@, "exemples"@),
        Lang::De => ("Beispiel"@, "Beispiele"@),
        Lang::Es => ("ejemplo"@, "ejemplos"@),
        Lang::Ru => ("пример"@, "примеры"@),
        Lang::Cs => ("příklad"@, "příklady"@),
        Lang::Nl => ("voorbeeld"@, "voorbeelden"@),
        Lang::El => ("παράδειγμα"@, "παραδείγματα"@),
        Lang::It => ("esempio"@, "esempi"@),
        Lang::Ku => ("nimûne"@, "nimûneyên"@),
        Lang::Pl => ("przykład"@, "przykłady"@),
        Lang::Pt => ("exemplo"@, "exemplos"@),
        Lang::Id | Lang::Ms => ("contoh"@, "contoh"@),
        Lang::Tr => ("örnek"@, "örnek"@),
        Lang::Zh | Lang::Ja => ("例"@, "例"@),
        Lang::Ko => ("예문"@, "예문"@),
        Lang::Th => ("ตัวอย่าง"@, "ตัวอย่าง"@),
        Lang::Vi => ("ví dụ"@, "ví dụ"@),
        _ => ("example"@, "examples"@),
    }
}

fn example_words_exec(target: Lang) -> (r: (&'static str, &'static str))
    ensures
        (r.0@, r.1@) == example_words(target),
{
    match target {
        Lang::Fr => ("exemple", "exemples"),
        Lang::De => ("Beispiel", "Beispiele"),
        Lang::Es => ("ejemplo", "ejemplos"),
        Lang::Ru => ("пример", "примеры"),
        Lang::Cs => ("příklad", "příklady"),
        Lang::Nl => ("voorbeeld", "voorbeelden"),
        Lang::El => ("παράδειγμα", "παραδείγματα"),
        Lang::It => ("esempio", "esempi"),
        Lang::Ku => ("nimûne", "nimûneyên"),
        Lang::Pl => ("przykład", "przykłady"),
        Lang::Pt => ("exemplo", "exemplos"),
        Lang::Id | Lang::Ms => ("contoh", "contoh"),
        Lang::Tr => ("örnek", "örnek"),
        Lang::Zh | Lang::Ja => ("例", "例"),
        Lang::Ko => ("예문", "예문"),
        Lang::Th => ("ตัวอย่าง", "ตัวอย่าง"),
        Lang::Vi => ("ví dụ", "ví dụ"),
        _ => ("example", "examples"),
    }
}

/// "1 example", "3 examples", in `target`.
pub fn localize_examples_string(target: Lang, n: usize) -> (r: String)
    ensures
        r@ == decimal(n as nat) + seq![' '] + (if n == 1 {
            example_words(target).0
        } else {
            example_words(target).1
        }),
{
    let (singular, plural) = example_words_exec(target);
    let mut r = usize_to_string(n);
    crate::text::push_char(&mut r, ' ');
    if n == 1 {
        r.append(singular);
    } else {
        r.append(plural);
    }
    r
}

} // verus!
