//! Wiktextract / kaikki data models.
//!
//! Non-en JSON schemas:
//! <https://tatuylonen.github.io/wiktextract>
//!
//! There is no EN JSON schema but there are some approximations:
//! <https://kaikki.org/dictionary/errors/mapping/index.html>
use vstd::prelude::*;
use crate::seqs::{first_index, lemma_first_index, lemma_filter_take};
use crate::tags::{BLACKLISTED_FORM_TAGS, IDENTITY_FORM_TAGS};
use crate::text::{str_in, str_views, str_eq, string_in, views};

verus! {

/// A tag, as wiktextract writes it (`"plural"`).
pub type Tag = String;

/// A part of speech, as wiktextract writes it (`"noun"`).
pub type Pos = String;

/// A range of characters, start included and end excluded.
pub type Offset = (usize, usize);

/// One entry of a wiktextract dump: a word with one part of speech.
#[derive(Debug, Default)]
pub struct WordEntry {
    pub word: String,
    pub pos: Pos,
    pub lang_code: String,
    pub head_templates: Vec<HeadTemplate>,
    /// The etymology in one piece (some editions); see [`WordEntry::etymology_texts`].
    pub etymology_text: String,
    /// The etymology in paragraphs (other editions); see [`WordEntry::etymology_texts`].
    pub etymology_texts: Vec<String>,
    pub sounds: Vec<Sound>,
    pub senses: Vec<Sense>,
    pub tags: Vec<Tag>,
    pub topics: Vec<Tag>,
    pub forms: Vec<Form>,
    pub form_of: Vec<AltForm>,
    pub alt_of: Vec<AltForm>,
    /// Translations, used by the glossary dictionaries.
    pub translations: Vec<Translation>,
    pub synonyms: Vec<Synonym>,
}

/// A synonym of the entry's word.
#[derive(Debug, Clone, Default)]
pub struct Synonym {
    pub word: String,
}

/// A head template; to be avoided as much as possible.
#[derive(Debug, Default)]
pub struct HeadTemplate {
    pub expansion: String,
}

/// A pronunciation.
#[derive(Debug, Default)]
pub struct Sound {
    pub ipa: String,
    pub tags: Vec<Tag>,
    pub note: String,
    pub zh_pron: String,
}

/// A sense: its glosses (from the most general to the most specific), examples and tags.
#[derive(Debug, Default)]
pub struct Sense {
    pub glosses: Vec<String>,
    pub examples: Vec<Example>,
    pub form_of: Vec<AltForm>,
    pub alt_of: Vec<AltForm>,
    pub tags: Vec<Tag>,
    pub topics: Vec<Tag>,
}

/// An example sentence, with the ranges to show in bold.
#[derive(Debug, Default)]
pub struct Example {
    pub text: String,
    pub translation: String,
    /// Reference of a quotation example.
    pub reference: String,
    pub bold_text_offsets: Vec<Offset>,
    pub bold_translation_offsets: Vec<Offset>,
}

/// A word that an entry is a form or a variant of.
#[derive(Debug, Default)]
pub struct AltForm {
    pub word: String,
}

/// An inflected or alternative form of the entry's word.
#[derive(Debug, Default)]
pub struct Form {
    pub form: String,
    pub tags: Vec<Tag>,
    /// (kanji, hiragana) pairs, in Japanese.
    pub ruby: Vec<(String, String)>,
}

/// A translation of the entry's word.
#[derive(Debug, Default)]
pub struct Translation {
    pub lang_code: String,
    pub word: String,
    pub sense: String,
}

/// Whether `t` is one of `tags`.
pub open spec fn has_tag(tags: Seq<String>, t: Seq<char>) -> bool {
    views(tags).contains(t)
}

/// A non-empty form carrying `tag`.
pub open spec fn form_with_tag(tag: Seq<char>) -> spec_fn(Form) -> bool {
    |f: Form| f.form@.len() > 0 && has_tag(f.tags@, tag)
}

/// A sound carrying the `Pinyin` tag.
pub open spec fn pinyin_sound() -> spec_fn(Sound) -> bool {
    |s: Sound| has_tag(s.tags@, "Pinyin"@)
}

/// A form that is worth listing for `word`: another string, not a table placeholder or a
/// hyphen-prefixed fragment, with no blacklisted tag and some tag beyond the identity tags
/// (a form without tags is an identity form too).
pub open spec fn non_trivial_form(word: Seq<char>) -> spec_fn(Form) -> bool {
    |f: Form|
        f.form@ != word
        && !(f.form@.len() > 0 && (f.form@[0] == '-' || f.form@[0] == '\u{2011}'))
        && !(exists|t: Seq<char>| #[trigger] views(f.tags@).contains(t)
            && str_views(BLACKLISTED_FORM_TAGS@).contains(t))
        && !(forall|t: Seq<char>| #[trigger] views(f.tags@).contains(t)
            ==> str_views(IDENTITY_FORM_TAGS@).contains(t))
}

/// A translation with a word.
pub open spec fn non_empty_translation() -> spec_fn(Translation) -> bool {
    |t: Translation| t.word@.len() > 0
}

/// The referents of a sequence of references.
pub open spec fn derefs<T>(s: Seq<&T>) -> Seq<T> {
    s.map_values(|r: &T| *r)
}

impl WordEntry {
    /// A verb tagged `participle`.
    pub fn is_participle(&self) -> (r: bool)
        ensures
            r == (self.pos@ == "verb"@ && has_tag(self.tags@, "participle"@)),
    {
        str_eq(self.pos.as_str(), "verb") && string_in(&self.tags, "participle")
    }

    /// The first non-empty form that carries `tag`.
    fn first_tagged_form(&self, tag: &str) -> (r: Option<&Form>)
        ensures
            ({
                let i = first_index(self.forms@, form_with_tag(tag@));
                if i < self.forms@.len() {
                    r == Some(&self.forms@[i])
                } else {
                    r is None
                }
            }),
    {
        let mut i: usize = 0;
        while i < self.forms.len()
            invariant
                i <= self.forms@.len(),
                forall|j: int| 0 <= j < i ==> !form_with_tag(tag@)(self.forms@[j]),
            decreases self.forms@.len() - i,
        {
            let f = &self.forms[i];
            if !f.form.as_str().is_empty() && string_in(&f.tags, tag) {
                proof { lemma_first_index(self.forms@, form_with_tag(tag@), i as int); }
                return Some(f);
            }
            i += 1;
        }
        proof { lemma_first_index(self.forms@, form_with_tag(tag@), i as int); }
        None
    }

    /// The first non-empty form with the `canonical` tag.
    pub fn canonical_form(&self) -> (r: Option<&Form>)
        ensures
            ({
                let i = first_index(self.forms@, form_with_tag("canonical"@));
                if i < self.forms@.len() {
                    r == Some(&self.forms@[i])
                } else {
                    r is None
                }
            }),
    {
        self.first_tagged_form("canonical")
    }

    /// The first non-empty form with the `romanization` tag.
    pub fn romanization_form(&self) -> (r: Option<&Form>)
        ensures
            ({
                let i = first_index(self.forms@, form_with_tag("romanization"@));
                if i < self.forms@.len() {
                    r == Some(&self.forms@[i])
                } else {
                    r is None
                }
            }),
    {
        self.first_tagged_form("romanization")
    }

    /// The first non-empty form with the `transliteration` tag.
    pub fn transliteration_form(&self) -> (r: Option<&Form>)
        ensures
            ({
                let i = first_index(self.forms@, form_with_tag("transliteration"@));
                if i < self.forms@.len() {
                    r == Some(&self.forms@[i])
                } else {
                    r is None
                }
            }),
    {
        self.first_tagged_form("transliteration")
    }

    /// The `zh_pron` of the first sound with the `Pinyin` tag.
    pub fn pinyin(&self) -> (r: Option<&str>)
        ensures
            ({
                let i = first_index(self.sounds@, pinyin_sound());
                if i < self.sounds@.len() {
                    r is Some && r->0@ == self.sounds@[i].zh_pron@
                } else {
                    r is None
                }
            }),
    {
        let mut i: usize = 0;
        while i < self.sounds.len()
            invariant
                i <= self.sounds@.len(),
                forall|j: int| 0 <= j < i ==> !pinyin_sound()(self.sounds@[j]),
            decreases self.sounds@.len() - i,
        {
            if string_in(&self.sounds[i].tags, "Pinyin") {
                proof { lemma_first_index(self.sounds@, pinyin_sound(), i as int); }
                return Some(self.sounds[i].zh_pron.as_str());
            }
            i += 1;
        }
        proof { lemma_first_index(self.sounds@, pinyin_sound(), i as int); }
        None
    }

    /// Whether no sense has a gloss. (There is a "no-gloss" tag, but it is not always in the same
    /// place.)
    pub fn contains_no_gloss(&self) -> (r: bool)
        ensures
            r == forall|i: int| 0 <= i < self.senses@.len() ==> self.senses@[i].glosses@.len() == 0,
    {
        let mut i: usize = 0;
        while i < self.senses.len()
            invariant
                i <= self.senses@.len(),
                forall|j: int| 0 <= j < i ==> self.senses@[j].glosses@.len() == 0,
            decreases self.senses@.len() - i,
        {
            if self.senses[i].glosses.len() > 0 {
                return false;
            }
            i += 1;
        }
        true
    }

    /// The forms worth listing (see [`non_trivial_form`]), in order.
    pub fn non_trivial_forms(&self) -> (r: Vec<&Form>)
        ensures
            derefs(r@) == self.forms@.filter(non_trivial_form(self.word@)),
    {
        let mut r: Vec<&Form> = Vec::new();
        let mut i: usize = 0;
        assert(self.forms@.take(0) =~= Seq::<Form>::empty());
        while i < self.forms.len()
            invariant
                i <= self.forms@.len(),
                derefs(r@) == self.forms@.take(i as int).filter(non_trivial_form(self.word@)),
            decreases self.forms@.len() - i,
        {
            let f = &self.forms[i];
            let keep = form_is_non_trivial(f, self.word.as_str());
            proof { lemma_filter_take(self.forms@, non_trivial_form(self.word@), i as int); }
            if keep {
                r.push(f);
                assert(derefs(r@) =~= self.forms@.take(i as int).filter(non_trivial_form(self.word@)).push(*f));
            }
            i += 1;
        }
        assert(self.forms@.take(self.forms@.len() as int) =~= self.forms@);
        r
    }

    /// The translations that have a word (rarely, one has none), in order.
    pub fn non_trivial_translations(&self) -> (r: Vec<&Translation>)
        ensures
            derefs(r@) == self.translations@.filter(non_empty_translation()),
    {
        let mut r: Vec<&Translation> = Vec::new();
        let mut i: usize = 0;
        assert(self.translations@.take(0) =~= Seq::<Translation>::empty());
        while i < self.translations.len()
            invariant
                i <= self.translations@.len(),
                derefs(r@) == self.translations@.take(i as int).filter(non_empty_translation()),
            decreases self.translations@.len() - i,
        {
            let t = &self.translations[i];
            proof { lemma_filter_take(self.translations@, non_empty_translation(), i as int); }
            if !t.word.as_str().is_empty() {
                r.push(t);
                assert(derefs(r@) =~= self.translations@.take(i as int).filter(non_empty_translation()).push(*t));
            }
            i += 1;
        }
        assert(self.translations@.take(self.translations@.len() as int) =~= self.translations@);
        r
    }

    /// The etymology paragraphs: `etymology_texts` when there are some, else `etymology_text`
    /// when it is not empty, else none.
    pub fn etymology_texts(&self) -> (r: Option<Vec<&str>>)
        ensures
            self.etymology_texts@.len() > 0 ==> r is Some && str_views(r->0@) == views(self.etymology_texts@),
            self.etymology_texts@.len() == 0 && self.etymology_text@.len() > 0 ==> r is Some
                && str_views(r->0@) == seq![self.etymology_text@],
            self.etymology_texts@.len() == 0 && self.etymology_text@.len() == 0 ==> r is None,
    {
        if self.etymology_texts.len() > 0 {
            let mut v: Vec<&str> = Vec::new();
            let mut i: usize = 0;
            while i < self.etymology_texts.len()
                invariant
                    i <= self.etymology_texts@.len(),
                    str_views(v@) == views(self.etymology_texts@).take(i as int),
                decreases self.etymology_texts@.len() - i,
            {
                let t = self.etymology_texts[i].as_str();
                assert(t@ == views(self.etymology_texts@)[i as int]);
                let ghost before = v@;
                v.push(t);
                assert(str_views(v@) =~= str_views(before).push(t@));
                i += 1;
                assert(str_views(v@) =~= views(self.etymology_texts@).take(i as int));
            }
            assert(views(self.etymology_texts@).take(i as int) =~= views(self.etymology_texts@));
            Some(v)
        } else if !self.etymology_text.as_str().is_empty() {
            let v = vec![self.etymology_text.as_str()];
            assert(str_views(v@) =~= seq![self.etymology_text@]);
            Some(v)
        } else {
            None
        }
    }
}

/// Whether a form is worth listing for `word` (see [`non_trivial_form`]).
fn form_is_non_trivial(f: &Form, word: &str) -> (r: bool)
    ensures
        r == non_trivial_form(word@)(*f),
{
    if str_eq(f.form.as_str(), word) {
        return false;
    }
    let cs = crate::text::chars_of(f.form.as_str());
    if cs.len() > 0 && (cs[0] == '-' || cs[0] == '\u{2011}') {
        return false;
    }
    let black: &[&str] = &BLACKLISTED_FORM_TAGS;
    let ident: &[&str] = &IDENTITY_FORM_TAGS;
    let mut any_black = false;
    let mut all_ident = true;
    let mut i: usize = 0;
    while i < f.tags.len()
        invariant
            i <= f.tags@.len(),
            black@ == BLACKLISTED_FORM_TAGS@,
            ident@ == IDENTITY_FORM_TAGS@,
            any_black == exists|j: int| 0 <= j < i && str_views(black@).contains(#[trigger] f.tags@[j]@),
            all_ident == forall|j: int| 0 <= j < i ==> str_views(ident@).contains(#[trigger] f.tags@[j]@),
        decreases f.tags@.len() - i,
    {
        let t = f.tags[i].as_str();
        if str_in(black, t) {
            any_black = true;
        }
        if !str_in(ident, t) {
            all_ident = false;
        }
        i += 1;
    }
    proof {
        let tv = views(f.tags@);
        if any_black {
            let j = choose|j: int| 0 <= j < f.tags@.len() && str_views(black@).contains(#[trigger] f.tags@[j]@);
            assert(tv[j] == f.tags@[j]@);
            assert(tv.contains(f.tags@[j]@));
        } else {
            assert forall|t: Seq<char>| #[trigger] tv.contains(t) implies !str_views(BLACKLISTED_FORM_TAGS@).contains(t) by {
                let j = choose|j: int| 0 <= j < tv.len() && tv[j] == t;
                assert(f.tags@[j]@ == t);
            }
        }
        if all_ident {
            assert forall|t: Seq<char>| #[trigger] tv.contains(t) implies str_views(IDENTITY_FORM_TAGS@).contains(t) by {
                let j = choose|j: int| 0 <= j < tv.len() && tv[j] == t;
                assert(f.tags@[j]@ == t);
            }
        } else {
            let j = choose|j: int| 0 <= j < f.tags@.len() && !str_views(ident@).contains(#[trigger] f.tags@[j]@);
            assert(tv[j] == f.tags@[j]@);
            assert(tv.contains(f.tags@[j]@));
        }
    }
    !any_black && !all_ident
}

} // verus!
