//! Section titles of the main dictionary in its target language.
use vstd::prelude::*;
use crate::lang::Lang;
pub use crate::dict::locale::localize_examples_string;

verus! {

/// The title of the etymology section in `target`.
pub open spec fn etymology_title(target: Lang) -> Seq<char> {
    match target {
        Lang::Zh => "词源"@,
        Lang::Cs => "Etymologie"@,
        Lang::Nl => "Etymologie"@,
        Lang::Fr => "Étymologie"@,
        Lang::De => "Etymologie"@,
        Lang::El => "Ετυμολογία"@,
        Lang::Id => "Etimologi"@,
        Lang::It => "Etimologia"@,
        Lang::Ja => "語源"@,
        Lang::Ko => "어원"@,
        Lang::Ku => "Rêç"@,
        Lang::Ms => "Etimologi"@,
        Lang::Pl => "Etymologia"@,
        Lang::Pt => "Etimologia"@,
        Lang::Ru => "Этимология"@,
        Lang::Es => "Etimología"@,
        Lang::Th => "รากศัพท์"@,
        Lang::Tr => "Etimoloji"@,
        Lang::Vi => "Nguồn gốc từ"@,
        _ => "Etymology"@,
    }
}

/// The title of the etymology section in `target` (English when it has none of its own).
pub fn localize_etymology_string(target: Lang) -> (r: &'static str)
    ensures
        r@ == etymology_title(target),
{
    match target {
        Lang::Zh => "词源",
        Lang::Cs => "Etymologie",
        Lang::Nl => "Etymologie",
        Lang::Fr => "Étymologie",
        Lang::De => "Etymologie",
        Lang::El => "Ετυμολογία",
        Lang::Id => "Etimologi",
        Lang::It => "Etimologia",
        Lang::Ja => "語源",
        Lang::Ko => "어원",
        Lang::Ku => "Rêç",
        Lang::Ms => "Etimologi",
        Lang::Pl => "Etymologia",
        Lang::Pt => "Etimologia",
        Lang::Ru => "Этимология",
        Lang::Es => "Etimología",
        Lang::Th => "รากศัพท์",
        Lang::Tr => "Etimoloji",
        Lang::Vi => "Nguồn gốc từ",
        _ => "Etymology",
    }
}

/// The title of the grammar section in `target`.
pub open spec fn grammar_title(target: Lang) -> Seq<char> {
    match target {
        Lang::Zh => "语法"@,
        Lang::Cs => "Gramatika"@,
        Lang::Nl => "Grammatica"@,
        Lang::Fr => "Grammaire"@,
        Lang::De => "Grammatik"@,
        Lang::El => "Γραμματική"@,
        Lang::Id => "Tata bahasa"@,
        Lang::It => "Grammatica"@,
        Lang::Ja => "文法"@,
        Lang::Ko => "문법"@,
        Lang::Ku => "Gramera"@,
        Lang::Ms => "Tatabahasa"@,
        Lang::Pl => "Gramatyka"@,
        Lang::Pt => "Gramática"@,
        Lang::Ru => "Грамматика"@,
        Lang::Es => "Gramática"@,
        Lang::Th => "ไวยากรณ์"@,
        Lang::Tr => "Dilbilgisi"@,
        Lang::Vi => "Ngữ pháp"@,
        _ => "Grammar"@,
    }
}

/// The title of the grammar section in `target` (English when it has none of its own).
pub fn localize_grammar_string(target: Lang) -> (r: &'static str)
    ensures
        r@ == grammar_title(target),
{
    match target {
        Lang::Zh => "语法",
        Lang::Cs => "Gramatika",
        Lang::Nl => "Grammatica",
        Lang::Fr => "Grammaire",
        Lang::De => "Grammatik",
        Lang::El => "Γραμματική",
        Lang::Id => "Tata bahasa",
        Lang::It => "Grammatica",
        Lang::Ja => "文法",
        Lang::Ko => "문법",
        Lang::Ku => "Gramera",
        Lang::Ms => "Tatabahasa",
        Lang::Pl => "Gramatyka",
        Lang::Pt => "Gramática",
        Lang::Ru => "Грамматика",
        Lang::Es => "Gramática",
        Lang::Th => "ไวยากรณ์",
        Lang::Tr => "Dilbilgisi",
        Lang::Vi => "Ngữ pháp",
        _ => "Grammar",
    }
}

/// The title of the synonyms section in `target`.
pub open spec fn synonyms_title(target: Lang) -> Seq<char> {
    match target {
        Lang::Zh => "同义词"@,
        Lang::Cs => "Synonyma"@,
        Lang::Nl => "Synoniemen"@,
        Lang::Fr => "Synonymes"@,
        Lang::De => "Synonyme"@,
        Lang::El => "Συνώνυμα"@,
        Lang::Id => "Sinonim"@,
        Lang::It => "Sinonimi"@,
        Lang::Ja => "類義語"@,
        Lang::Ko => "동의어"@,
        Lang::Ku => "Hevwate"@,
        Lang::Ms => "Sinonim"@,
        Lang::Pl => "Synonimy"@,
        Lang::Pt => "Sinónimos"@,
        Lang::Ru => "Синонимы"@,
        Lang::Es => "Sinónimos"@,
        Lang::Th => "คำพ้องความหมาย"@,
        Lang::Tr => "Eş anlamlılar"@,
        Lang::Vi => "Từ đồng nghĩa"@,
        _ => "Synonyms"@,
    }
}

/// The title of the synonyms section in `target` (English when it has none of its own).
pub fn localize_synonyms_string(target: Lang) -> (r: &'static str)
    ensures
        r@ == synonyms_title(target),
{
    match target {
        Lang::Zh => "同义词",
        Lang::Cs => "Synonyma",
        Lang::Nl => "Synoniemen",
        Lang::Fr => "Synonymes",
        Lang::De => "Synonyme",
        Lang::El => "Συνώνυμα",
        Lang::Id => "Sinonim",
        Lang::It => "Sinonimi",
        Lang::Ja => "類義語",
        Lang::Ko => "동의어",
        Lang::Ku => "Hevwate",
        Lang::Ms => "Sinonim",
        Lang::Pl => "Synonimy",
        Lang::Pt => "Sinónimos",
        Lang::Ru => "Синонимы",
        Lang::Es => "Sinónimos",
        Lang::Th => "คำพ้องความหมาย",
        Lang::Tr => "Eş anlamlılar",
        Lang::Vi => "Từ đồng nghĩa",
        _ => "Synonyms",
    }
}

} // verus!
