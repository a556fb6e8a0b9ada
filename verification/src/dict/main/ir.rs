//! The intermediate representation of the main dictionary, and what is read from entries.
use vstd::prelude::*;
use crate::lang::{Edition, Lang};
use crate::models::kaikki::{Example, Form, Offset, Synonym, Tag, WordEntry, form_with_tag, non_trivial_form, pinyin_sound};
use crate::seqs::{first_index, lemma_first_index};
use crate::tags::{REDUNDANT_FORM_TAGS, keep_where};
use super::patterns::{compose, de_inflection, de_inflection_captures, decompose, has_parenthesized, nfc, nfd, parens_match};
use crate::utils::{kaikki_link, link_kaikki, link_wiktionary, wiktionary_link};
use crate::text::{
    chars_of, clone_strings, concat, find_first_from, first_occurrence_from, has_char, join_sep, owned,
    starts_with, str_eq, str_in, str_views, string_in, string_of_chars, views,
};

verus! {

/// The text of the first non-empty form of `forms` that carries `tag`.
pub open spec fn tagged_form_text(forms: Seq<Form>, tag: Seq<char>) -> Option<Seq<char>> {
    let i = first_index(forms, form_with_tag(tag));
    if i < forms.len() {
        Some(forms[i].form@)
    } else {
        None
    }
}

/// The pairs of a ruby, as character sequences.
pub open spec fn ruby_views(ruby: Seq<(String, String)>) -> Seq<(Seq<char>, Seq<char>)> {
    ruby.map_values(|p: (String, String)| (p.0@, p.1@))
}

/// `s` with each base of `ruby` replaced in turn by its reading: each base is looked for from
/// the end of the last replacement on; a base that is not found gives nothing.
pub open spec fn ruby_applied(s: Seq<char>, cursor: int, ruby: Seq<(Seq<char>, Seq<char>)>) -> Option<Seq<char>>
    decreases ruby.len(),
{
    if ruby.len() == 0 {
        Some(s)
    } else {
        let (base, reading) = ruby[0];
        match first_occurrence_from(s, base, cursor) {
            Some(start) => ruby_applied(
                s.take(start) + reading + s.skip(start + base.len()),
                start + reading.len(),
                ruby.drop_first(),
            ),
            None => None,
        }
    }
}

/// The kana reading of a Japanese entry: its word with the ruby of its canonical form applied
/// (the canonical form's text itself is not reliable), when that form has a ruby.
pub open spec fn japanese_reading(e: WordEntry) -> Option<Seq<char>> {
    let i = first_index(e.forms@, form_with_tag("canonical"@));
    if i < e.forms@.len() && e.forms@[i].ruby@.len() > 0 {
        ruby_applied(e.word@, 0, ruby_views(e.forms@[i].ruby@))
    } else {
        None
    }
}

/// The canonical word, which may carry diacritics that the word lacks (Latin `fāma` for `fama`),
/// for the languages where it does.
pub open spec fn canonical_word(source: Lang, e: WordEntry) -> Option<Seq<char>> {
    if source == Lang::La || source == Lang::Ru || source == Lang::Grc || source == Lang::Ar || source == Lang::Fa {
        tagged_form_text(e.forms@, "canonical"@)
    } else {
        None
    }
}

/// The reading of an entry, where the edition and language give one.
pub open spec fn reading_of(edition: Edition, source: Lang, e: WordEntry) -> Option<Seq<char>> {
    if edition == Edition::En && source == Lang::Ja {
        japanese_reading(e)
    } else if edition == Edition::En && source == Lang::Fa {
        tagged_form_text(e.forms@, "romanization"@)
    } else if edition == Edition::Ja {
        tagged_form_text(e.forms@, "transliteration"@)
    } else if (edition == Edition::En || edition == Edition::Zh) && source == Lang::Zh {
        let i = first_index(e.sounds@, pinyin_sound());
        if i < e.sounds@.len() {
            Some(e.sounds@[i].zh_pron@)
        } else {
            None
        }
    } else {
        canonical_word(source, e)
    }
}

/// An owned copy of the text of a form, if any.
fn form_text(f: Option<&Form>) -> (r: Option<String>)
    ensures
        match f {
            Some(form) => r is Some && r->0@ == form.form@,
            None => r is None,
        },
{
    match f {
        Some(form) => Some(form.form.clone()),
        None => None,
    }
}

/// `cur` with the `len` characters at `start` replaced by `rs`.
fn splice(cur: &Vec<char>, start: usize, len: usize, rs: &Vec<char>) -> (r: Vec<char>)
    requires
        start + len <= cur@.len(),
    ensures
        r@ == cur@.take(start as int) + rs@ + cur@.skip(start + len),
{
    let mut next: Vec<char> = Vec::new();
    let mut i: usize = 0;
    while i < start
        invariant
            i <= start,
            start + len <= cur@.len(),
            next@ == cur@.take(i as int),
        decreases start - i,
    {
        next.push(cur[i]);
        i += 1;
        assert(next@ =~= cur@.take(i as int));
    }
    let mut j: usize = 0;
    while j < rs.len()
        invariant
            j <= rs@.len(),
            start + len <= cur@.len(),
            next@ == cur@.take(start as int) + rs@.take(j as int),
        decreases rs@.len() - j,
    {
        next.push(rs[j]);
        j += 1;
        assert(next@ =~= cur@.take(start as int) + rs@.take(j as int));
    }
    assert(rs@.take(rs@.len() as int) =~= rs@);
    let n = cur.len();
    let mut m: usize = start + len;
    while m < cur.len()
        invariant
            start + len <= m <= cur@.len(),
            next@ == cur@.take(start as int) + rs@ + cur@.subrange(start + len, m as int),
        decreases cur@.len() - m,
    {
        next.push(cur[m]);
        m += 1;
        assert(next@ =~= cur@.take(start as int) + rs@ + cur@.subrange(start + len, m as int));
    }
    assert(cur@.subrange(start + len, cur@.len() as int) =~= cur@.skip(start + len));
    next
}

/// One replacement of the ruby.
proof fn lemma_ruby_step(s: Seq<char>, cursor: int, ruby: Seq<(Seq<char>, Seq<char>)>, start: int)
    requires
        ruby.len() > 0,
        first_occurrence_from(s, ruby[0].0, cursor) == Some(start),
    ensures
        ruby_applied(s, cursor, ruby) == ruby_applied(
            s.take(start) + ruby[0].1 + s.skip(start + ruby[0].0.len()),
            start + ruby[0].1.len(),
            ruby.drop_first(),
        ),
{
}

/// A base that is not found ends the replacements with nothing.
proof fn lemma_ruby_missing(s: Seq<char>, cursor: int, ruby: Seq<(Seq<char>, Seq<char>)>)
    requires
        ruby.len() > 0,
        first_occurrence_from(s, ruby[0].0, cursor) is None,
    ensures
        ruby_applied(s, cursor, ruby) is None,
{
}

/// The kana reading of a Japanese entry (see [`japanese_reading`]).
fn get_japanese_reading(entry: &WordEntry) -> (r: Option<String>)
    ensures
        match r {
            Some(s) => japanese_reading(*entry) == Some(s@),
            None => japanese_reading(*entry) is None,
        },
{
    let cform = match entry.canonical_form() {
        Some(f) => f,
        None => return None,
    };
    if cform.ruby.len() == 0 {
        return None;
    }
    let ghost rv = ruby_views(cform.ruby@);
    let mut cur = chars_of(entry.word.as_str());
    let mut cursor: usize = 0;
    let mut k: usize = 0;
    assert(rv.skip(0) =~= rv);
    while k < cform.ruby.len()
        invariant
            rv == ruby_views(cform.ruby@),
            k <= rv.len(),
            cursor <= cur@.len(),
            japanese_reading(*entry) == ruby_applied(cur@, cursor as int, rv.skip(k as int)),
        decreases rv.len() - k,
    {
        let (base, reading) = &cform.ruby[k];
        let bs = chars_of(base.as_str());
        let rs = chars_of(reading.as_str());
        let ghost rest = rv.skip(k as int);
        assert(rv[k as int] == (base@, reading@));
        assert(rest[0] == rv[k as int]);
        assert(rest.drop_first() =~= rv.skip(k + 1));
        match find_first_from(&cur, &bs, cursor) {
            Some(start) => {
                proof {
                    lemma_ruby_step(cur@, cursor as int, rest, start as int);
                    crate::text::lemma_first_occurrence_bounds(cur@, bs@, cursor as int);
                }
                let next = splice(&cur, start, bs.len(), &rs);
                let nl = next.len();
                assert(start + rs@.len() <= nl);
                cursor = start + rs.len();
                cur = next;
            },
            None => {
                proof { lemma_ruby_missing(cur@, cursor as int, rest); }
                return None;
            },
        }
        k += 1;
    }
    assert(rv.skip(k as int) =~= Seq::<(Seq<char>, Seq<char>)>::empty());
    Some(string_of_chars(&cur))
}

/// The canonical word of an entry, for the languages where it differs (see [`canonical_word`]).
fn get_canonical_word(source: Lang, entry: &WordEntry) -> (r: Option<String>)
    ensures
        match r {
            Some(s) => canonical_word(source, *entry) == Some(s@),
            None => canonical_word(source, *entry) is None,
        },
{
    match source {
        Lang::La | Lang::Ru | Lang::Grc | Lang::Ar | Lang::Fa => form_text(entry.canonical_form()),
        _ => None,
    }
}

/// The reading of an entry (see [`reading_of`]).
pub fn get_reading(edition: Edition, source: Lang, entry: &WordEntry) -> (r: Option<String>)
    ensures
        match r {
            Some(s) => reading_of(edition, source, *entry) == Some(s@),
            None => reading_of(edition, source, *entry) is None,
        },
{
    match (edition, source) {
        (Edition::En, Lang::Ja) => get_japanese_reading(entry),
        (Edition::En, Lang::Fa) => form_text(entry.romanization_form()),
        (Edition::Ja, _) => form_text(entry.transliteration_form()),
        (Edition::En, Lang::Zh) | (Edition::Zh, Lang::Zh) => match entry.pinyin() {
            Some(p) => Some(owned(p)),
            None => None,
        },
        _ => get_canonical_word(source, entry),
    }
}

/// Where a form comes from (for diagnostics only).
#[derive(Debug, Clone, Copy, PartialEq, Eq, Structural)]
pub enum FormSource {
    /// A form of `entry.forms`.
    Extracted,
    /// A form found by reading a gloss ("inflection of ...").
    Inflection,
    /// An alternative form of the entry.
    AltOfTop,
    /// An alternative form of a sense.
    AltOfSense,
}

/// The key of a form: the lemma it points to, the form, and the part of speech.
#[derive(Debug)]
pub struct FormKey {
    pub uninflected: String,
    pub inflected: String,
    pub pos: String,
}

/// Forms and their tags, in the order they were first met; no key twice.
#[derive(Debug, Default)]
pub struct FormMap(pub Vec<(FormKey, (FormSource, Vec<String>))>);

/// The key of a lemma: the word, its reading and its part of speech.
#[derive(Debug)]
pub struct LemmaKey {
    pub lemma: String,
    pub reading: String,
    pub pos: String,
}

/// Lemmas and what is known of them, in the order they were first met; no key twice.
#[derive(Debug, Default)]
pub struct LemmaMap(pub Vec<(LemmaKey, Vec<LemmaInfo>)>);

/// What is known of one entry of a lemma.
#[derive(Debug)]
pub struct LemmaInfo {
    pub gloss_tree: GlossTree,
    pub tags: Vec<Tag>,
    pub synonyms: Vec<Synonym>,
    pub etymology_text: Option<String>,
    pub head_info_text: Option<String>,
    pub link_wiktionary: String,
    pub link_kaikki: String,
}

/// Glosses as a tree: a gloss, then the more specific glosses under it, in order.
#[derive(Debug, Default)]
pub struct GlossTree(pub Vec<(String, GlossInfo)>);

/// What a gloss of the tree carries.
#[derive(Debug, Default)]
pub struct GlossInfo {
    pub tags: Vec<Tag>,
    pub topics: Vec<Tag>,
    pub examples: Vec<Example>,
    pub children: GlossTree,
}

/// The intermediate representation of the main dictionary: lemmas and forms.
#[derive(Debug, Default)]
pub struct Tidy {
    pub lemma_map: LemmaMap,
    pub form_map: FormMap,
}

/// The key of a form, as character sequences: (lemma, form, part of speech).
pub type FormKeyView = (Seq<char>, Seq<char>, Seq<char>);

/// An entry of the form map, as character sequences.
pub type FormEntryView = (FormKeyView, (FormSource, Seq<Seq<char>>));

/// The form map, as character sequences.
pub open spec fn form_map_view(m: FormMap) -> Seq<FormEntryView> {
    m.0@.map_values(
        |e: (FormKey, (FormSource, Vec<String>))| ((e.0.uninflected@, e.0.inflected@, e.0.pos@), (e.1.0, views(e.1.1@))),
    )
}

/// An entry of the form map with this key.
pub open spec fn has_form_key(key: FormKeyView) -> spec_fn(FormEntryView) -> bool {
    |e: FormEntryView| e.0 == key
}

/// The form map with a form added: nothing for a form without tags, an empty lemma or form, or a
/// form equal to its lemma; the tags are appended to those of the key when the key is there, and
/// a new entry is made at the end otherwise.
pub open spec fn form_inserted(
    m: Seq<FormEntryView>,
    uninflected: Seq<char>,
    inflected: Seq<char>,
    pos: Seq<char>,
    source: FormSource,
    tags: Seq<Seq<char>>,
) -> Seq<FormEntryView> {
    if tags.len() == 0 || uninflected.len() == 0 || inflected.len() == 0 || uninflected == inflected {
        m
    } else {
        let key = (uninflected, inflected, pos);
        let k = first_index(m, has_form_key(key));
        if k < m.len() {
            m.update(k, (key, (m[k].1.0, m[k].1.1 + tags)))
        } else {
            m.push((key, (source, tags)))
        }
    }
}

/// No key occurs twice in the form map.
pub open spec fn form_keys_distinct(m: Seq<FormEntryView>) -> bool {
    forall|i: int, j: int| 0 <= i < j < m.len() ==> #[trigger] m[i].0 != #[trigger] m[j].0
}

/// Adding a form keeps the keys of the form map distinct, and the form is then found under its
/// key with its tags after those it had.
pub proof fn lemma_form_inserted(
    m: Seq<FormEntryView>,
    uninflected: Seq<char>,
    inflected: Seq<char>,
    pos: Seq<char>,
    source: FormSource,
    tags: Seq<Seq<char>>,
)
    requires
        form_keys_distinct(m),
    ensures
        form_keys_distinct(form_inserted(m, uninflected, inflected, pos, source, tags)),
        !(tags.len() == 0 || uninflected.len() == 0 || inflected.len() == 0 || uninflected == inflected) ==> exists|k: int|
            0 <= k < form_inserted(m, uninflected, inflected, pos, source, tags).len() && #[trigger] form_inserted(
                m,
                uninflected,
                inflected,
                pos,
                source,
                tags,
            )[k].0 == (uninflected, inflected, pos) && form_inserted(m, uninflected, inflected, pos, source, tags)[k].1.1
                == (if first_index(m, has_form_key((uninflected, inflected, pos))) < m.len() {
                m[first_index(m, has_form_key((uninflected, inflected, pos)))].1.1
            } else {
                Seq::<Seq<char>>::empty()
            }) + tags,
{
    let key = (uninflected, inflected, pos);
    crate::seqs::lemma_first_index_spec(m, has_form_key(key));
    let k = first_index(m, has_form_key(key));
    let r = form_inserted(m, uninflected, inflected, pos, source, tags);
    if !(tags.len() == 0 || uninflected.len() == 0 || inflected.len() == 0 || uninflected == inflected) {
        if k < m.len() {
            assert(r[k].0 == key);
            assert forall|i: int, j: int| 0 <= i < j < r.len() implies #[trigger] r[i].0 != #[trigger] r[j].0 by {
                assert(r[i].0 == m[i].0 && r[j].0 == m[j].0);
            }
        } else {
            assert(r[m.len() as int].0 == key);
            assert(Seq::<Seq<char>>::empty() + tags =~= tags);
            assert forall|i: int, j: int| 0 <= i < j < r.len() implies #[trigger] r[i].0 != #[trigger] r[j].0 by {
                if j == m.len() {
                    assert(!has_form_key(key)(m[i]));
                } else {
                    assert(r[i].0 == m[i].0 && r[j].0 == m[j].0);
                }
            }
        }
    }
}

/// The key of a lemma, as character sequences: (lemma, reading, part of speech).
pub type LemmaKeyView = (Seq<char>, Seq<char>, Seq<char>);

/// The lemma map, keys as character sequences.
pub open spec fn lemma_map_view(m: LemmaMap) -> Seq<(LemmaKeyView, Seq<LemmaInfo>)> {
    m.0@.map_values(|e: (LemmaKey, Vec<LemmaInfo>)| ((e.0.lemma@, e.0.reading@, e.0.pos@), e.1@))
}

/// An entry of the lemma map with this key.
pub open spec fn has_lemma_key(key: LemmaKeyView) -> spec_fn((LemmaKeyView, Seq<LemmaInfo>)) -> bool {
    |e: (LemmaKeyView, Seq<LemmaInfo>)| e.0 == key
}

/// The lemma map with `info` added under its key (at the end of the entries of the key, or in a
/// new entry at the end).
pub open spec fn lemma_inserted(
    m: Seq<(LemmaKeyView, Seq<LemmaInfo>)>,
    key: LemmaKeyView,
    info: LemmaInfo,
) -> Seq<(LemmaKeyView, Seq<LemmaInfo>)> {
    let k = first_index(m, has_lemma_key(key));
    if k < m.len() {
        m.update(k, (key, m[k].1.push(info)))
    } else {
        m.push((key, seq![info]))
    }
}

/// No key occurs twice in the lemma map.
pub open spec fn lemma_keys_distinct(m: Seq<(LemmaKeyView, Seq<LemmaInfo>)>) -> bool {
    forall|i: int, j: int| 0 <= i < j < m.len() ==> #[trigger] m[i].0 != #[trigger] m[j].0
}

/// Adding a lemma entry keeps the keys of the lemma map distinct, and the entry is then the last
/// one found under its key, after those it had.
pub proof fn lemma_lemma_inserted(m: Seq<(LemmaKeyView, Seq<LemmaInfo>)>, key: LemmaKeyView, info: LemmaInfo)
    requires
        lemma_keys_distinct(m),
    ensures
        lemma_keys_distinct(lemma_inserted(m, key, info)),
        exists|k: int|
            0 <= k < lemma_inserted(m, key, info).len() && #[trigger] lemma_inserted(m, key, info)[k].0 == key
                && lemma_inserted(m, key, info)[k].1 == (if first_index(m, has_lemma_key(key)) < m.len() {
                m[first_index(m, has_lemma_key(key))].1
            } else {
                Seq::<LemmaInfo>::empty()
            }).push(info),
{
    crate::seqs::lemma_first_index_spec(m, has_lemma_key(key));
    let k = first_index(m, has_lemma_key(key));
    let r = lemma_inserted(m, key, info);
    if k < m.len() {
        assert(r[k].0 == key);
        assert forall|i: int, j: int| 0 <= i < j < r.len() implies #[trigger] r[i].0 != #[trigger] r[j].0 by {
            assert(r[i].0 == m[i].0 && r[j].0 == m[j].0);
        }
    } else {
        assert(r[m.len() as int].0 == key);
        assert(Seq::<LemmaInfo>::empty().push(info) =~= seq![info]);
        assert forall|i: int, j: int| 0 <= i < j < r.len() implies #[trigger] r[i].0 != #[trigger] r[j].0 by {
            if j == m.len() {
                assert(!has_lemma_key(key)(m[i]));
            } else {
                assert(r[i].0 == m[i].0 && r[j].0 == m[j].0);
            }
        }
    }
}

impl Tidy {
    /// The number of lemma entries and forms.
    pub fn len(&self) -> (r: usize)
        requires
            self.lemma_map.0@.len() + self.form_map.0@.len() <= usize::MAX,
        ensures
            r == self.lemma_map.0@.len() + self.form_map.0@.len(),
    {
        self.lemma_map.0.len() + self.form_map.0.len()
    }

    /// Adds `info` under (lemma, reading, pos) (see [`lemma_inserted`]).
    pub fn insert_lemma(&mut self, lemma: &str, reading: &str, pos: &str, info: LemmaInfo)
        ensures
            lemma_map_view(final(self).lemma_map) == lemma_inserted(
                lemma_map_view(old(self).lemma_map),
                (lemma@, reading@, pos@),
                info,
            ),
            final(self).form_map == old(self).form_map,
    {
        let ghost m = lemma_map_view(self.lemma_map);
        let ghost key = (lemma@, reading@, pos@);
        let mut k: usize = 0;
        while k < self.lemma_map.0.len()
            invariant
                k <= self.lemma_map.0@.len(),
                m == lemma_map_view(self.lemma_map),
                m == lemma_map_view(old(self).lemma_map),
                self.form_map == old(self).form_map,
                key == (lemma@, reading@, pos@),
                forall|j: int| 0 <= j < k ==> !has_lemma_key(key)(m[j]),
            decreases self.lemma_map.0@.len() - k,
        {
            let same = {
                let e = &self.lemma_map.0[k].0;
                str_eq(e.lemma.as_str(), lemma) && str_eq(e.reading.as_str(), reading) && str_eq(e.pos.as_str(), pos)
            };
            if same {
                proof { lemma_first_index(m, has_lemma_key(key), k as int); }
                let (kk, mut infos) = self.lemma_map.0.remove(k);
                let ghost iv = infos@;
                infos.push(info);
                self.lemma_map.0.insert(k, (kk, infos));
                assert(lemma_map_view(self.lemma_map) =~= m.update(k as int, (key, iv.push(info))));
                return;
            }
            k += 1;
        }
        proof { lemma_first_index(m, has_lemma_key(key), k as int); }
        let key_v = LemmaKey { lemma: owned(lemma), reading: owned(reading), pos: owned(pos) };
        let mut infos: Vec<LemmaInfo> = Vec::new();
        infos.push(info);
        self.lemma_map.0.push((key_v, infos));
        assert(lemma_map_view(self.lemma_map) =~= m.push((key, seq![info])));
    }

    /// Adds a form of `uninflected` with `tags` (see [`form_inserted`]).
    pub fn insert_form(&mut self, uninflected: &str, inflected: &str, pos: &str, source: FormSource, tags: Vec<String>)
        ensures
            form_map_view(final(self).form_map) == form_inserted(
                form_map_view(old(self).form_map),
                uninflected@,
                inflected@,
                pos@,
                source,
                views(tags@),
            ),
            final(self).lemma_map == old(self).lemma_map,
    {
        if tags.len() == 0 || uninflected.is_empty() || inflected.is_empty() || str_eq(uninflected, inflected) {
            return;
        }
        let ghost m = form_map_view(self.form_map);
        let ghost key = (uninflected@, inflected@, pos@);
        let mut k: usize = 0;
        while k < self.form_map.0.len()
            invariant
                k <= self.form_map.0@.len(),
                m == form_map_view(self.form_map),
                m == form_map_view(old(self).form_map),
                self.lemma_map == old(self).lemma_map,
                key == (uninflected@, inflected@, pos@),
                tags@.len() > 0,
                uninflected@.len() > 0,
                inflected@.len() > 0,
                uninflected@ != inflected@,
                forall|j: int| 0 <= j < k ==> !has_form_key(key)(m[j]),
            decreases self.form_map.0@.len() - k,
        {
            let same = {
                let e = &self.form_map.0[k].0;
                str_eq(e.uninflected.as_str(), uninflected) && str_eq(e.inflected.as_str(), inflected)
                    && str_eq(e.pos.as_str(), pos)
            };
            if same {
                proof { lemma_first_index(m, has_form_key(key), k as int); }
                let (kk, (src, mut old_tags)) = self.form_map.0.remove(k);
                let ghost tv = views(old_tags@);
                let mut t = tags;
                old_tags.append(&mut t);
                self.form_map.0.insert(k, (kk, (src, old_tags)));
                assert(views(old_tags@) =~= tv + views(tags@));
                assert(form_map_view(self.form_map) =~= m.update(k as int, (key, (src, tv + views(tags@)))));
                return;
            }
            k += 1;
        }
        proof { lemma_first_index(m, has_form_key(key), k as int); }
        let key_v = FormKey { uninflected: owned(uninflected), inflected: owned(inflected), pos: owned(pos) };
        let ghost tv = views(tags@);
        self.form_map.0.push((key_v, (source, tags)));
        assert(form_map_view(self.form_map) =~= m.push((key, (source, tv))));
    }
}

/// The tags of a form (`tags`) as inserted, one after the other, under `uninflected`.
pub open spec fn forms_inserted(
    m: Seq<FormEntryView>,
    uninflected: Seq<char>,
    pos: Seq<char>,
    source: FormSource,
    list: Seq<(Seq<char>, Seq<Seq<char>>)>,
) -> Seq<FormEntryView>
    decreases list.len(),
{
    if list.len() == 0 {
        m
    } else {
        form_inserted(
            forms_inserted(m, uninflected, pos, source, list.drop_last()),
            uninflected,
            list.last().0,
            pos,
            source,
            list.last().1,
        )
    }
}

proof fn lemma_forms_inserted_take(
    m: Seq<FormEntryView>,
    uninflected: Seq<char>,
    pos: Seq<char>,
    source: FormSource,
    list: Seq<(Seq<char>, Seq<Seq<char>>)>,
    i: int,
)
    requires
        0 <= i < list.len(),
    ensures
        forms_inserted(m, uninflected, pos, source, list.take(i + 1)) == form_inserted(
            forms_inserted(m, uninflected, pos, source, list.take(i)),
            uninflected,
            list[i].0,
            pos,
            source,
            list[i].1,
        ),
{
    assert(list.take(i + 1).drop_last() =~= list.take(i));
}

/// A form written in Latin letters (ASCII, or a long vowel ā ī ū ē ō): a Japanese romanization.
pub open spec fn japanese_romanization(w: Seq<char>) -> bool {
    forall|i: int| 0 <= i < w.len() ==> ((#[trigger] w[i] as int) < 128 || w[i] == 'ā' || w[i] == 'ī' || w[i] == 'ū'
        || w[i] == 'ē' || w[i] == 'ō')
}

/// Whether `form` is a Japanese romanization (see [`japanese_romanization`]).
pub fn is_japanese_romanization(form: &str) -> (r: bool)
    ensures
        r == japanese_romanization(form@),
{
    let cs = chars_of(form);
    let mut i: usize = 0;
    while i < cs.len()
        invariant
            cs@ == form@,
            i <= cs@.len(),
            forall|j: int| 0 <= j < i ==> ((#[trigger] cs@[j] as int) < 128 || cs@[j] == 'ā' || cs@[j] == 'ī'
                || cs@[j] == 'ū' || cs@[j] == 'ē' || cs@[j] == 'ō'),
        decreases cs@.len() - i,
    {
        let c = cs[i];
        if !(c < '\u{80}' || c == 'ā' || c == 'ī' || c == 'ū' || c == 'ē' || c == 'ō') {
            return false;
        }
        i += 1;
    }
    true
}

/// A form that is not worth a redirection in this edition and language: compound or
/// pronoun-led forms in French; romanizations in Japanese (English edition); rare or
/// periphrastic forms in English; rare, possessive or composite forms in Finnish; the `suru`
/// table of Japanese nouns (Japanese edition).
pub open spec fn skip_form(edition: Edition, source: Lang, pos: Seq<char>, f: Form) -> bool {
    let t = views(f.tags@);
    let w = f.form@;
    if edition == Edition::Fr && source == Lang::Fr {
        "qu’"@.is_prefix_of(w) || "que "@.is_prefix_of(w) || "en "@.is_prefix_of(w)
    } else if edition == Edition::En && source == Lang::Ja {
        japanese_romanization(w) || (w.contains('[') && w.contains(']'))
    } else if edition == Edition::En && source == Lang::En {
        t.contains("rare"@) || t.contains("nonstandard"@) || t.contains("dialectal"@) || (w.contains(' ') && (
        t.contains("comparative"@) || t.contains("superlative"@)))
    } else if edition == Edition::En && source == Lang::Fi {
        t.contains("rare"@) || t.contains("possessive"@) || w.contains(' ')
    } else if edition == Edition::Ja && source == Lang::Ja {
        pos == "noun"@ && !(t.contains("transliteration"@) || t.contains("kanji"@))
    } else {
        false
    }
}

/// Whether to skip a form (see [`skip_form`]).
pub fn should_skip_form(edition: Edition, source: Lang, pos: &str, form: &Form) -> (r: bool)
    ensures
        r == skip_form(edition, source, pos@, *form),
{
    let w = form.form.as_str();
    let tags = &form.tags;
    match (edition, source) {
        (Edition::Fr, Lang::Fr) => starts_with(w, "qu’") || starts_with(w, "que ") || starts_with(w, "en "),
        (Edition::En, Lang::Ja) => is_japanese_romanization(w) || (has_char(w, '[') && has_char(w, ']')),
        (Edition::En, Lang::En) => string_in(tags, "rare") || string_in(tags, "nonstandard") || string_in(tags, "dialectal")
            || (has_char(w, ' ') && (string_in(tags, "comparative") || string_in(tags, "superlative"))),
        (Edition::En, Lang::Fi) => string_in(tags, "rare") || string_in(tags, "possessive") || has_char(w, ' '),
        (Edition::Ja, Lang::Ja) => str_eq(pos, "noun") && !(string_in(tags, "transliteration") || string_in(tags, "kanji")),
        _ => false,
    }
}

/// In Finnish (English edition), the forms after the table titles of the possessive forms are
/// not listed (there are too many).
pub open spec fn break_at_form(edition: Edition, source: Lang) -> spec_fn(Form) -> bool {
    |f: Form|
        edition == Edition::En && source == Lang::Fi && (f.form@ == "See the possessive forms below."@ || f.form@
            == "Rare. Only used with substantive adjectives."@)
}

/// Whether the forms stop at this one (see [`break_at_form`]).
pub fn should_break_at_finish_forms(edition: Edition, source: Lang, form: &Form) -> (r: bool)
    ensures
        r == break_at_form(edition, source)(*form),
{
    match (edition, source) {
        (Edition::En, Lang::Fi) => str_eq(form.form.as_str(), "See the possessive forms below.") || str_eq(
            form.form.as_str(),
            "Rare. Only used with substantive adjectives.",
        ),
        _ => false,
    }
}

/// A tag that is not just removed from forms.
pub open spec fn not_redundant_form_tag() -> spec_fn(Seq<char>) -> bool {
    |t: Seq<char>| !str_views(REDUNDANT_FORM_TAGS@).contains(t)
}

/// The tags of a form in one tag: the words that are not removed, joined by spaces.
pub open spec fn form_tag_text(f: Form) -> Seq<char> {
    join_sep(views(f.tags@).filter(not_redundant_form_tag()), " "@)
}

/// The extracted forms of an entry, with their tag: its non-trivial forms up to the first one
/// that ends the list, without the skipped ones.
pub open spec fn extracted_forms(edition: Edition, source: Lang, entry: WordEntry) -> Seq<(Seq<char>, Seq<Seq<char>>)> {
    let fs = entry.forms@.filter(non_trivial_form(entry.word@));
    let upto = first_index(fs, break_at_form(edition, source));
    fs.take(upto).filter(|f: Form| !skip_form(edition, source, entry.pos@, f)).map_values(
        |f: Form| (f.form@, seq![form_tag_text(f)]),
    )
}

/// The tags of a form in one tag (see [`form_tag_text`]).
fn form_tags_joined(form: &Form) -> (r: String)
    ensures
        r@ == form_tag_text(*form),
{
    let redundant: &[&str] = &REDUNDANT_FORM_TAGS;
    let mut kept: Vec<String> = Vec::new();
    let mut i: usize = 0;
    assert(views(form.tags@).take(0) =~= Seq::<Seq<char>>::empty());
    while i < form.tags.len()
        invariant
            i <= form.tags@.len(),
            redundant@ == REDUNDANT_FORM_TAGS@,
            views(kept@) == views(form.tags@).take(i as int).filter(not_redundant_form_tag()),
        decreases form.tags@.len() - i,
    {
        proof { crate::seqs::lemma_filter_take(views(form.tags@), not_redundant_form_tag(), i as int); }
        if !str_in(redundant, form.tags[i].as_str()) {
            let ghost before = views(kept@);
            kept.push(form.tags[i].clone());
            assert(views(kept@) =~= before.push(form.tags@[i as int]@));
        }
        i += 1;
    }
    assert(views(form.tags@).take(form.tags@.len() as int) =~= views(form.tags@));
    crate::text::join(&kept, " ")
}

/// Adds the extracted forms of an entry (see [`extracted_forms`]) under the entry's word.
pub fn process_forms(edition: Edition, source: Lang, entry: &WordEntry, irs: &mut Tidy)
    ensures
        form_map_view(final(irs).form_map) == forms_inserted(
            form_map_view(old(irs).form_map),
            entry.word@,
            entry.pos@,
            FormSource::Extracted,
            extracted_forms(edition, source, *entry),
        ),
        final(irs).lemma_map == old(irs).lemma_map,
{
    let forms = entry.non_trivial_forms();
    let ghost fs = entry.forms@.filter(non_trivial_form(entry.word@));
    let ghost skip = |f: Form| !skip_form(edition, source, entry.pos@, f);
    let ghost label = |f: Form| (f.form@, seq![form_tag_text(f)]);
    let ghost m0 = form_map_view(irs.form_map);
    let mut i: usize = 0;
    assert(fs.take(0).filter(skip).map_values(label) =~= Seq::<(Seq<char>, Seq<Seq<char>>)>::empty());
    while i < forms.len()
        invariant
            crate::models::kaikki::derefs(forms@) == fs,
            fs == entry.forms@.filter(non_trivial_form(entry.word@)),
            skip == (|f: Form| !skip_form(edition, source, entry.pos@, f)),
            label == (|f: Form| (f.form@, seq![form_tag_text(f)])),
            m0 == form_map_view(old(irs).form_map),
            irs.lemma_map == old(irs).lemma_map,
            i <= fs.len(),
            forall|j: int| 0 <= j < i ==> !break_at_form(edition, source)(#[trigger] fs[j]),
            form_map_view(irs.form_map) == forms_inserted(
                m0,
                entry.word@,
                entry.pos@,
                FormSource::Extracted,
                fs.take(i as int).filter(skip).map_values(label),
            ),
        decreases fs.len() - i,
    {
        let form = forms[i];
        assert(*form == fs[i as int]);
        if should_break_at_finish_forms(edition, source, form) {
            proof { lemma_first_index(fs, break_at_form(edition, source), i as int); }
            return;
        }
        proof {
            crate::seqs::lemma_filter_take(fs, skip, i as int);
            assert(fs.take(i + 1).filter(skip).map_values(label) =~= (if skip(fs[i as int]) {
                fs.take(i as int).filter(skip).map_values(label).push(label(fs[i as int]))
            } else {
                fs.take(i as int).filter(skip).map_values(label)
            }));
        }
        if !should_skip_form(edition, source, entry.pos.as_str(), form) {
            let joined = form_tags_joined(form);
            let mut tags: Vec<String> = Vec::new();
            tags.push(joined);
            assert(views(tags@) =~= seq![form_tag_text(*form)]);
            proof {
                let l = fs.take(i + 1).filter(skip).map_values(label);
                lemma_forms_inserted_take(m0, entry.word@, entry.pos@, FormSource::Extracted, l, l.len() - 1);
                assert(l.take(l.len() - 1) =~= fs.take(i as int).filter(skip).map_values(label));
                assert(l.take(l.len() as int) =~= l);
            }
            irs.insert_form(entry.word.as_str(), form.form.as_str(), entry.pos.as_str(), FormSource::Extracted, tags);
        }
        i += 1;
    }
    proof { lemma_first_index(fs, break_at_form(edition, source), i as int); }
}

/// The alternative forms of an entry, tagged `alt-of`.
pub open spec fn alt_forms(entry: WordEntry) -> Seq<(Seq<char>, Seq<Seq<char>>)> {
    entry.alt_of@.map_values(|a: crate::models::kaikki::AltForm| (a.word@, seq!["alt-of"@]))
}

/// Adds the alternative forms of an entry, tagged `alt-of`, under the entry's word.
pub fn process_alt_forms(entry: &WordEntry, irs: &mut Tidy)
    ensures
        form_map_view(final(irs).form_map) == forms_inserted(
            form_map_view(old(irs).form_map),
            entry.word@,
            entry.pos@,
            FormSource::AltOfTop,
            alt_forms(*entry),
        ),
        final(irs).lemma_map == old(irs).lemma_map,
{
    let ghost m0 = form_map_view(irs.form_map);
    let ghost l = alt_forms(*entry);
    let mut i: usize = 0;
    assert(l.take(0) =~= Seq::<(Seq<char>, Seq<Seq<char>>)>::empty());
    while i < entry.alt_of.len()
        invariant
            i <= entry.alt_of@.len(),
            l == alt_forms(*entry),
            m0 == form_map_view(old(irs).form_map),
            irs.lemma_map == old(irs).lemma_map,
            form_map_view(irs.form_map) == forms_inserted(m0, entry.word@, entry.pos@, FormSource::AltOfTop, l.take(i as int)),
        decreases entry.alt_of@.len() - i,
    {
        let mut tags: Vec<String> = Vec::new();
        tags.push(owned("alt-of"));
        assert(views(tags@) =~= seq!["alt-of"@]);
        proof { lemma_forms_inserted_take(m0, entry.word@, entry.pos@, FormSource::AltOfTop, l, i as int); }
        irs.insert_form(entry.word.as_str(), entry.alt_of[i].word.as_str(), entry.pos.as_str(), FormSource::AltOfTop, tags);
        i += 1;
    }
    assert(l.take(entry.alt_of@.len() as int) =~= l);
}

/// What an entry without glosses adds: in the Greek edition, a participle with a `form_of`
/// becomes a form of it, tagged `redirected from <word>`; otherwise nothing.
pub open spec fn no_gloss_inserted(edition: Edition, entry: WordEntry, m: Seq<FormEntryView>) -> Seq<FormEntryView> {
    if edition == Edition::El && entry.pos@ == "verb"@ && crate::models::kaikki::has_tag(entry.tags@, "participle"@)
        && entry.form_of@.len() > 0 {
        form_inserted(
            m,
            entry.form_of@[0].word@,
            entry.word@,
            entry.pos@,
            FormSource::Inflection,
            seq!["redirected from "@ + entry.word@],
        )
    } else {
        m
    }
}

/// Adds what an entry without glosses gives (see [`no_gloss_inserted`]).
pub fn process_no_gloss(edition: Edition, entry: &WordEntry, irs: &mut Tidy)
    ensures
        form_map_view(final(irs).form_map) == no_gloss_inserted(edition, *entry, form_map_view(old(irs).form_map)),
        final(irs).lemma_map == old(irs).lemma_map,
{
    if edition == Edition::El && entry.is_participle() && entry.form_of.len() > 0 {
        let mut tags: Vec<String> = Vec::new();
        tags.push(concat("redirected from ", entry.word.as_str()));
        assert(views(tags@) =~= seq!["redirected from "@ + entry.word@]);
        irs.insert_form(entry.form_of[0].word.as_str(), entry.word.as_str(), entry.pos.as_str(), FormSource::Inflection, tags);
    }
}

/// An example, as character sequences: text, translation, reference, and the bold ranges of
/// the text and of the translation.
pub type ExampleView = (Seq<char>, Seq<char>, Seq<char>, Seq<Offset>, Seq<Offset>);

/// The view of an example.
pub open spec fn example_view(e: Example) -> ExampleView {
    (e.text@, e.translation@, e.reference@, e.bold_text_offsets@, e.bold_translation_offsets@)
}

/// The views of examples.
pub open spec fn example_views(s: Seq<Example>) -> Seq<ExampleView> {
    s.map_values(|e: Example| example_view(e))
}

/// A gloss of the tree and what it carries, as character sequences.
pub struct GlossNode {
    pub gloss: Seq<char>,
    pub tags: Seq<Seq<char>>,
    pub topics: Seq<Seq<char>>,
    pub examples: Seq<ExampleView>,
    pub children: Seq<GlossNode>,
}

/// The glosses of a tree, as [`GlossNode`]s.
pub open spec fn gloss_nodes(v: Seq<(String, GlossInfo)>) -> Seq<GlossNode>
    decreases v,
{
    if v.len() == 0 {
        Seq::<GlossNode>::empty()
    } else {
        gloss_nodes(v.drop_last()).push(gloss_node(v.last()))
    }
}

/// One gloss of a tree, as a [`GlossNode`].
pub open spec fn gloss_node(e: (String, GlossInfo)) -> GlossNode
    decreases e,
{
    GlossNode {
        gloss: e.0@,
        tags: views(e.1.tags@),
        topics: views(e.1.topics@),
        examples: example_views(e.1.examples@),
        children: gloss_nodes(e.1.children.0@),
    }
}

/// The nodes of a tree are the nodes of its glosses, one by one.
pub proof fn lemma_gloss_nodes_index(v: Seq<(String, GlossInfo)>)
    ensures
        gloss_nodes(v).len() == v.len(),
        forall|i: int| 0 <= i < v.len() ==> #[trigger] gloss_nodes(v)[i] == gloss_node(v[i]),
    decreases v.len(),
{
    if v.len() > 0 {
        lemma_gloss_nodes_index(v.drop_last());
        assert forall|i: int| 0 <= i < v.len() implies #[trigger] gloss_nodes(v)[i] == gloss_node(v[i]) by {
            if i < v.len() - 1 {
                assert(gloss_nodes(v)[i] == gloss_nodes(v.drop_last())[i]);
            }
        }
    }
}

/// Two trees whose glosses have the same nodes have the same nodes.
pub proof fn lemma_gloss_nodes_ext(v: Seq<(String, GlossInfo)>, n: Seq<GlossNode>)
    requires
        n.len() == v.len(),
        forall|i: int| 0 <= i < v.len() ==> n[i] == gloss_node(#[trigger] v[i]),
    ensures
        gloss_nodes(v) == n,
{
    lemma_gloss_nodes_index(v);
    assert(gloss_nodes(v) =~= n);
}

/// A node for the gloss `g`.
pub open spec fn node_named(g: Seq<char>) -> spec_fn(GlossNode) -> bool {
    |n: GlossNode| n.gloss == g
}

/// The tags that a gloss keeps when a sense reaches it again: those of the sense it already had
/// (none stay none).
pub open spec fn kept_tags(tags: Seq<Seq<char>>, had: Seq<Seq<char>>) -> Seq<Seq<char>> {
    if had.len() > 0 {
        tags.filter(|t: Seq<char>| had.contains(t))
    } else {
        had
    }
}

/// The tree with the path of glosses of one sense inserted: each gloss is found (or made, with
/// the sense's tags and topics) under the previous one, its tags become [`kept_tags`], and the
/// last gloss gets the examples.
pub open spec fn insert_path(
    t: Seq<GlossNode>,
    glosses: Seq<Seq<char>>,
    tags: Seq<Seq<char>>,
    topics: Seq<Seq<char>>,
    examples: Seq<ExampleView>,
) -> Seq<GlossNode>
    decreases glosses.len(),
{
    if glosses.len() == 0 {
        t
    } else {
        let head = glosses[0];
        let i = first_index(t, node_named(head));
        let node = if i < t.len() {
            t[i]
        } else {
            GlossNode {
                gloss: head,
                tags: tags,
                topics: topics,
                examples: Seq::<ExampleView>::empty(),
                children: Seq::<GlossNode>::empty(),
            }
        };
        let new_node = if glosses.len() == 1 {
            GlossNode {
                gloss: node.gloss,
                tags: kept_tags(tags, node.tags),
                topics: node.topics,
                examples: examples,
                children: node.children,
            }
        } else {
            GlossNode {
                gloss: node.gloss,
                tags: kept_tags(tags, node.tags),
                topics: node.topics,
                examples: node.examples,
                children: insert_path(node.children, glosses.drop_first(), tags, topics, examples),
            }
        };
        if i < t.len() {
            t.update(i, new_node)
        } else {
            t.push(new_node)
        }
    }
}

/// Copies of examples.
fn clone_examples(v: &Vec<Example>) -> (r: Vec<Example>)
    ensures
        example_views(r@) == example_views(v@),
{
    let mut r: Vec<Example> = Vec::new();
    let mut i: usize = 0;
    while i < v.len()
        invariant
            i <= v@.len(),
            example_views(r@) == example_views(v@).take(i as int),
        decreases v@.len() - i,
    {
        let e = &v[i];
        let c = Example {
            text: e.text.clone(),
            translation: e.translation.clone(),
            reference: e.reference.clone(),
            bold_text_offsets: clone_offsets(&e.bold_text_offsets),
            bold_translation_offsets: clone_offsets(&e.bold_translation_offsets),
        };
        let ghost before = example_views(r@);
        r.push(c);
        assert(example_views(r@) =~= before.push(example_view(c)));
        i += 1;
        assert(example_views(v@).take(i as int) =~= example_views(v@).take(i - 1).push(example_view(v@[i - 1])));
    }
    assert(example_views(v@).take(v@.len() as int) =~= example_views(v@));
    r
}

/// A copy of offsets.
fn clone_offsets(v: &Vec<Offset>) -> (r: Vec<Offset>)
    ensures
        r@ == v@,
{
    let mut r: Vec<Offset> = Vec::new();
    let mut i: usize = 0;
    while i < v.len()
        invariant
            i <= v@.len(),
            r@ == v@.take(i as int),
        decreases v@.len() - i,
    {
        r.push(v[i]);
        i += 1;
        assert(r@ =~= v@.take(i as int));
    }
    assert(v@.take(v@.len() as int) =~= v@);
    r
}

/// The tags of `tags` that `had` has, in order.
fn tags_also_in(tags: &Vec<String>, had: &Vec<String>) -> (r: Vec<String>)
    ensures
        views(r@) == views(tags@).filter(|t: Seq<char>| views(had@).contains(t)),
{
    let ghost pred = |t: Seq<char>| views(had@).contains(t);
    let mut r: Vec<String> = Vec::new();
    let mut i: usize = 0;
    assert(views(tags@).take(0) =~= Seq::<Seq<char>>::empty());
    while i < tags.len()
        invariant
            i <= tags@.len(),
            pred == (|t: Seq<char>| views(had@).contains(t)),
            views(r@) == views(tags@).take(i as int).filter(pred),
        decreases tags@.len() - i,
    {
        proof { crate::seqs::lemma_filter_take(views(tags@), pred, i as int); }
        if string_in(had, tags[i].as_str()) {
            let ghost before = views(r@);
            r.push(tags[i].clone());
            assert(views(r@) =~= before.push(tags@[i as int]@));
        }
        i += 1;
    }
    assert(views(tags@).take(tags@.len() as int) =~= views(tags@));
    r
}

/// Inserts the glosses `glosses[from..]` of a sense (see [`insert_path`]).
pub fn insert_glosses(
    tree: &mut GlossTree,
    glosses: &Vec<String>,
    from: usize,
    tags: &Vec<String>,
    topics: &Vec<String>,
    examples: &Vec<Example>,
)
    requires
        from <= glosses@.len(),
    ensures
        gloss_nodes(final(tree).0@) == insert_path(
            gloss_nodes(old(tree).0@),
            views(glosses@).skip(from as int),
            views(tags@),
            views(topics@),
            example_views(examples@),
        ),
    decreases glosses@.len() - from,
{
    let ghost t0 = gloss_nodes(tree.0@);
    let ghost path = views(glosses@).skip(from as int);
    if from >= glosses.len() {
        assert(path.len() == 0);
        return;
    }
    let head = &glosses[from];
    assert(path[0] == head@);
    proof { lemma_gloss_nodes_index(tree.0@); }
    let mut i: usize = 0;
    while i < tree.0.len()
        invariant
            i <= tree.0@.len(),
            t0 == gloss_nodes(tree.0@),
            t0 == gloss_nodes(old(tree).0@),
            t0.len() == tree.0@.len(),
            forall|j: int| 0 <= j < tree.0@.len() ==> #[trigger] t0[j] == gloss_node(tree.0@[j]),
            forall|j: int| 0 <= j < i ==> !node_named(head@)(#[trigger] t0[j]),
        ensures
            i <= tree.0@.len(),
            t0 == gloss_nodes(tree.0@),
            forall|j: int| 0 <= j < i ==> !node_named(head@)(#[trigger] t0[j]),
            i < tree.0@.len() ==> node_named(head@)(t0[i as int]),
        decreases tree.0@.len() - i,
    {
        if tree.0[i].0 == *head {
            assert(t0[i as int] == gloss_node(tree.0@[i as int]));
            break;
        }
        i += 1;
    }
    let found = i < tree.0.len();
    proof { lemma_first_index(t0, node_named(head@), i as int); }
    let (key, mut info) = if found {
        tree.0.remove(i)
    } else {
        (head.clone(), GlossInfo {
            tags: clone_strings(tags),
            topics: clone_strings(topics),
            examples: Vec::new(),
            children: GlossTree(Vec::new()),
        })
    };
    let ghost node = gloss_node((key, info));
    proof {
        if !found {
            lemma_gloss_nodes_index(info.children.0@);
            assert(node.children =~= Seq::<GlossNode>::empty());
            assert(node.examples =~= Seq::<ExampleView>::empty());
        }
    }
    if info.tags.len() > 0 {
        info.tags = tags_also_in(tags, &info.tags);
    }
    if from + 1 == glosses.len() {
        info.examples = clone_examples(examples);
    } else {
        insert_glosses(&mut info.children, glosses, from + 1, tags, topics, examples);
        assert(path.drop_first() =~= views(glosses@).skip(from + 1));
    }
    let ghost new_node = gloss_node((key, info));
    if found {
        tree.0.insert(i, (key, info));
        proof {
            lemma_gloss_nodes_ext(tree.0@, t0.update(i as int, new_node));
        }
    } else {
        tree.0.push((key, info));
        proof {
            lemma_gloss_nodes_ext(tree.0@, t0.push(new_node));
        }
    }
}

/// The most examples shown for a sense.
pub const MAX_NUMBER_OF_EXAMPLES: usize = 3;

/// The longest example shown, in characters.
pub const MAX_SIZE_OF_EXAMPLE: usize = 120;

/// The longest reference shown, in characters.
pub const MAX_SIZE_OF_EXAMPLE_REFERENCE: usize = 120;

/// An example worth showing: not empty, and not too long.
pub open spec fn example_kept() -> spec_fn(ExampleView) -> bool {
    |e: ExampleView| e.0.len() > 0 && e.0.len() <= MAX_SIZE_OF_EXAMPLE
}

/// An example with its reference dropped when it is too long.
pub open spec fn reference_trimmed() -> spec_fn(ExampleView) -> ExampleView {
    |e: ExampleView| if e.2.len() > MAX_SIZE_OF_EXAMPLE_REFERENCE {
        (e.0, e.1, Seq::<char>::empty(), e.3, e.4)
    } else {
        e
    }
}

/// An example with a translation.
pub open spec fn translated() -> spec_fn(ExampleView) -> bool {
    |e: ExampleView| e.1.len() > 0
}

/// An example without a translation.
pub open spec fn untranslated() -> spec_fn(ExampleView) -> bool {
    |e: ExampleView| e.1.len() == 0
}

/// The first `n` elements of `s` (all of them when there are fewer).
pub open spec fn at_most<T>(s: Seq<T>, n: int) -> Seq<T> {
    if s.len() <= n {
        s
    } else {
        s.take(n)
    }
}

/// The examples shown for a sense: the first ones worth showing (at most
/// [`MAX_NUMBER_OF_EXAMPLES`]), references trimmed, those with a translation first.
pub open spec fn sense_examples(sense: crate::models::kaikki::Sense) -> Seq<ExampleView> {
    let l = at_most(example_views(sense.examples@).filter(example_kept()), MAX_NUMBER_OF_EXAMPLES as int).map_values(
        reference_trimmed(),
    );
    l.filter(translated()) + l.filter(untranslated())
}

/// The gloss tree of senses: the path of glosses of each sense inserted in turn.
pub open spec fn gloss_tree_of(senses: Seq<crate::models::kaikki::Sense>) -> Seq<GlossNode>
    decreases senses.len(),
{
    if senses.len() == 0 {
        Seq::<GlossNode>::empty()
    } else {
        let s = senses.last();
        insert_path(
            gloss_tree_of(senses.drop_last()),
            views(s.glosses@),
            views(s.tags@),
            views(s.topics@),
            sense_examples(s),
        )
    }
}

/// The examples shown for a sense (see [`sense_examples`]).
fn filtered_examples(sense: &crate::models::kaikki::Sense) -> (r: Vec<Example>)
    ensures
        example_views(r@) == sense_examples(*sense),
{
    let ghost all = example_views(sense.examples@);
    let mut picked: Vec<Example> = Vec::new();
    let mut i: usize = 0;
    assert(all.take(0).filter(example_kept()) =~= Seq::<ExampleView>::empty());
    while i < sense.examples.len()
        invariant
            i <= sense.examples@.len(),
            all == example_views(sense.examples@),
            picked@.len() == at_most(all.take(i as int).filter(example_kept()), MAX_NUMBER_OF_EXAMPLES as int).len(),
            example_views(picked@) == at_most(all.take(i as int).filter(example_kept()), MAX_NUMBER_OF_EXAMPLES as int).map_values(
                reference_trimmed(),
            ),
        decreases sense.examples@.len() - i,
    {
        let e = &sense.examples[i];
        proof { crate::seqs::lemma_filter_take(all, example_kept(), i as int); }
        let n = chars_of(e.text.as_str()).len();
        let keep = n > 0 && n <= MAX_SIZE_OF_EXAMPLE;
        assert(keep == example_kept()(all[i as int]));
        let ghost prev = at_most(all.take(i as int).filter(example_kept()), MAX_NUMBER_OF_EXAMPLES as int);
        let ghost next = at_most(all.take(i + 1).filter(example_kept()), MAX_NUMBER_OF_EXAMPLES as int);
        if keep && picked.len() < MAX_NUMBER_OF_EXAMPLES {
            let rn = chars_of(e.reference.as_str()).len();
            let reference = if rn > MAX_SIZE_OF_EXAMPLE_REFERENCE { String::new() } else { e.reference.clone() };
            let c = Example {
                text: e.text.clone(),
                translation: e.translation.clone(),
                reference,
                bold_text_offsets: clone_offsets(&e.bold_text_offsets),
                bold_translation_offsets: clone_offsets(&e.bold_translation_offsets),
            };
            assert(example_view(c) == reference_trimmed()(all[i as int])) by {
                if rn <= MAX_SIZE_OF_EXAMPLE_REFERENCE {
                } else {
                    assert(c.reference@ =~= Seq::<char>::empty());
                }
            }
            let ghost before = example_views(picked@);
            picked.push(c);
            assert(next =~= prev.push(all[i as int]));
            assert(example_views(picked@) =~= before.push(example_view(c)));
            assert(example_views(picked@) =~= next.map_values(reference_trimmed()));
        } else {
            assert(next =~= prev);
        }
        i += 1;
    }
    assert(all.take(sense.examples@.len() as int) =~= all);
    let ghost l = example_views(picked@);
    let mut r: Vec<Example> = Vec::new();
    let mut rest: Vec<Example> = Vec::new();
    let mut k: usize = 0;
    let n = picked.len();
    assert(l.take(0).filter(translated()) =~= Seq::<ExampleView>::empty());
    assert(l.take(0).filter(untranslated()) =~= Seq::<ExampleView>::empty());
    while k < n
        invariant
            n == picked@.len(),
            k <= n,
            l == example_views(picked@),
            example_views(r@) == l.take(k as int).filter(translated()),
            example_views(rest@) == l.take(k as int).filter(untranslated()),
        decreases n - k,
    {
        proof {
            crate::seqs::lemma_filter_take(l, translated(), k as int);
            crate::seqs::lemma_filter_take(l, untranslated(), k as int);
        }
        let e = &picked[k];
        let c = Example {
            text: e.text.clone(),
            translation: e.translation.clone(),
            reference: e.reference.clone(),
            bold_text_offsets: clone_offsets(&e.bold_text_offsets),
            bold_translation_offsets: clone_offsets(&e.bold_translation_offsets),
        };
        assert(example_view(c) == l[k as int]);
        if e.translation.as_str().is_empty() {
            let ghost before = example_views(rest@);
            rest.push(c);
            assert(example_views(rest@) =~= before.push(example_view(c)));
        } else {
            let ghost before = example_views(r@);
            r.push(c);
            assert(example_views(r@) =~= before.push(example_view(c)));
        }
        k += 1;
    }
    assert(l.take(n as int) =~= l);
    let ghost a = example_views(r@);
    let ghost b = example_views(rest@);
    r.append(&mut rest);
    assert(example_views(r@) =~= a + b);
    r
}

/// The gloss tree of an entry's senses (see [`gloss_tree_of`]).
pub fn get_gloss_tree(entry: &WordEntry) -> (r: GlossTree)
    ensures
        gloss_nodes(r.0@) == gloss_tree_of(entry.senses@),
{
    let mut tree = GlossTree(Vec::new());
    let mut i: usize = 0;
    assert(entry.senses@.take(0) =~= Seq::<crate::models::kaikki::Sense>::empty());
    while i < entry.senses.len()
        invariant
            i <= entry.senses@.len(),
            gloss_nodes(tree.0@) == gloss_tree_of(entry.senses@.take(i as int)),
        decreases entry.senses@.len() - i,
    {
        let sense = &entry.senses[i];
        let examples = filtered_examples(sense);
        insert_glosses(&mut tree, &sense.glosses, 0, &sense.tags, &sense.topics, &examples);
        assert(views(sense.glosses@).skip(0) =~= views(sense.glosses@));
        assert(entry.senses@.take(i + 1).drop_last() =~= entry.senses@.take(i as int));
        i += 1;
    }
    assert(entry.senses@.take(entry.senses@.len() as int) =~= entry.senses@);
    tree
}

/// The Arabic diacritics that forms of Arabic and Persian words drop.
pub const ARABIC_DIACRITICS: [char; 16] = [
    '\u{0618}', '\u{0619}', '\u{061A}', '\u{064B}', '\u{064C}', '\u{064D}', '\u{064E}', '\u{064F}',
    '\u{0650}', '\u{0651}', '\u{0652}', '\u{0653}', '\u{0654}', '\u{0655}', '\u{0656}', '\u{0670}',
];

/// A combining diacritical mark (U+0300 to U+036F).
pub open spec fn combining_mark(c: char) -> bool {
    0x300 <= (c as int) <= 0x36F
}

/// A character that is not an Arabic diacritic.
pub open spec fn not_arabic_diacritic() -> spec_fn(char) -> bool {
    |c: char| !ARABIC_DIACRITICS@.contains(c)
}

/// A character that is not a combining mark.
pub open spec fn not_combining() -> spec_fn(char) -> bool {
    |c: char| !combining_mark(c)
}

/// A character that is neither a combining mark, a hyphen nor an apostrophe.
pub open spec fn not_combining_hyphen_apostrophe() -> spec_fn(char) -> bool {
    |c: char| !combining_mark(c) && c != '-' && c != '\''
}

/// A character that is not the acute accent U+0301.
pub open spec fn not_acute() -> spec_fn(char) -> bool {
    |c: char| c != '\u{0301}'
}

/// The last character before position `i` that is not a combining mark.
pub open spec fn last_base(s: Seq<char>, i: int) -> Option<char>
    decreases i,
{
    if i <= 0 {
        None
    } else if !combining_mark(s[i - 1]) {
        Some(s[i - 1])
    } else {
        last_base(s, i - 1)
    }
}

/// A vowel or `r`, whose marks Serbo-Croatian words drop (they are tone marks).
pub open spec fn tone_base(c: char) -> bool {
    c == 'a' || c == 'e' || c == 'i' || c == 'o' || c == 'u' || c == 'r' || c == 'A' || c == 'E' || c == 'I'
        || c == 'O' || c == 'U' || c == 'R'
}

/// The characters that Serbo-Croatian keeps: all but the marks that follow a vowel or `r`.
pub open spec fn tone_kept(s: Seq<char>) -> spec_fn(int) -> bool {
    |i: int| !combining_mark(s[i]) || !(last_base(s, i) matches Some(b) && tone_base(b))
}

/// A word as lemmas are written, without the marks that dictionaries of its language leave out:
/// Arabic diacritics (Arabic, Persian); all combining marks after decomposition (Latin, Old
/// English, Old Irish, Ancient Greek, Romanian, Indonesian; in Tagalog also hyphens and
/// apostrophes); tone marks (Serbo-Croatian); the stress mark (Ukrainian, Russian).
pub open spec fn orthography(source: Lang, w: Seq<char>) -> Seq<char> {
    if source == Lang::Ar || source == Lang::Fa {
        w.filter(not_arabic_diacritic())
    } else if source == Lang::La || source == Lang::Ang || source == Lang::Sga || source == Lang::Grc || source == Lang::Ro
        || source == Lang::Id {
        nfc(nfd(w).filter(not_combining()))
    } else if source == Lang::Tl {
        nfc(nfd(w).filter(not_combining_hyphen_apostrophe()))
    } else if source == Lang::Sh {
        nfc(keep_where(nfd(w), tone_kept(nfd(w))))
    } else if source == Lang::Uk || source == Lang::Ru {
        w.filter(not_acute())
    } else {
        w
    }
}

/// Russian and Ukrainian lemmas are written without the stress mark: the normalized word holds
/// no U+0301, keeps every other character of the word in order (it is the word with each U+0301
/// taken out), and leaves a word without stress marks as it is.
pub proof fn lemma_stress_marks_removed(source: Lang, w: Seq<char>)
    requires
        source == Lang::Ru || source == Lang::Uk,
    ensures
        forall|i: int| 0 <= i < orthography(source, w).len() ==> orthography(source, w)[i] != '\u{0301}',
        orthography(source, w) == w.filter(|c: char| c != '\u{0301}'),
        (forall|i: int| 0 <= i < w.len() ==> w[i] != '\u{0301}') ==> orthography(source, w) == w,
{
    let r = orthography(source, w);
    assert forall|i: int| 0 <= i < r.len() implies r[i] != '\u{0301}' by {
        w.lemma_filter_pred(not_acute(), i);
    }
    assert(not_acute() == (|c: char| c != '\u{0301}'));
    if forall|i: int| 0 <= i < w.len() ==> w[i] != '\u{0301}' {
        lemma_filter_all_kept(w, not_acute());
    }
}

/// Filtering keeps a sequence whole when every element passes.
proof fn lemma_filter_all_kept(s: Seq<char>, p: spec_fn(char) -> bool)
    requires
        forall|i: int| 0 <= i < s.len() ==> p(s[i]),
    ensures
        s.filter(p) == s,
    decreases s.len(),
{
    reveal(Seq::filter);
    if s.len() > 0 {
        lemma_filter_all_kept(s.drop_last(), p);
        assert(s.drop_last().push(s.last()) =~= s);
    }
}

/// The characters of `cs` that filter `which` keeps (see [`char_filter`]), in order.
fn filter_chars(cs: &Vec<char>, which: u8) -> (r: Vec<char>)
    requires
        which < 4,
    ensures
        r@ == cs@.filter(char_filter(which)),
{
    let mut r: Vec<char> = Vec::new();
    let mut i: usize = 0;
    assert(cs@.take(0) =~= Seq::<char>::empty());
    while i < cs.len()
        invariant
            i <= cs@.len(),
            which < 4,
            r@ == cs@.take(i as int).filter(char_filter(which)),
        decreases cs@.len() - i,
    {
        let c = cs[i];
        proof { crate::seqs::lemma_filter_take(cs@, char_filter(which), i as int); }
        let keep = if which == 0 {
            let d: &[char] = &ARABIC_DIACRITICS;
            let mut found = false;
            let mut k: usize = 0;
            while k < d.len()
                invariant
                    k <= d@.len(),
                    d@ == ARABIC_DIACRITICS@,
                    found == exists|j: int| 0 <= j < k && d@[j] == c,
                decreases d@.len() - k,
            {
                if d[k] == c {
                    found = true;
                }
                k += 1;
            }
            proof {
                if found {
                    let j = choose|j: int| 0 <= j < d@.len() && d@[j] == c;
                    assert(ARABIC_DIACRITICS@.contains(c));
                }
            }
            !found
        } else if which == 1 {
            !('\u{0300}' <= c && c <= '\u{036F}')
        } else if which == 2 {
            !('\u{0300}' <= c && c <= '\u{036F}') && c != '-' && c != '\''
        } else {
            c != '\u{0301}'
        };
        assert(keep == char_filter(which)(c));
        if keep {
            r.push(c);
        }
        i += 1;
        assert(r@ =~= cs@.take(i as int).filter(char_filter(which)));
    }
    assert(cs@.take(cs@.len() as int) =~= cs@);
    r
}

/// The four character filters of [`orthography`], by number.
pub open spec fn char_filter(which: u8) -> spec_fn(char) -> bool {
    if which == 0 {
        not_arabic_diacritic()
    } else if which == 1 {
        not_combining()
    } else if which == 2 {
        not_combining_hyphen_apostrophe()
    } else {
        not_acute()
    }
}

/// The characters that Serbo-Croatian keeps (see [`tone_kept`]).
fn drop_tone_marks(cs: &Vec<char>) -> (r: Vec<char>)
    ensures
        r@ == keep_where(cs@, tone_kept(cs@)),
{
    let mut r: Vec<char> = Vec::new();
    let mut base: Option<char> = None;
    let mut i: usize = 0;
    assert(cs@.take(0) =~= Seq::<char>::empty());
    while i < cs.len()
        invariant
            i <= cs@.len(),
            base == last_base(cs@, i as int),
            r@ == keep_where(cs@.take(i as int), tone_kept(cs@)),
        decreases cs@.len() - i,
    {
        let c = cs[i];
        proof { crate::tags::lemma_keep_where_take(cs@, tone_kept(cs@), i as int); }
        let mark = '\u{0300}' <= c && c <= '\u{036F}';
        if mark {
            let tone = match base {
                Some(b) => b == 'a' || b == 'e' || b == 'i' || b == 'o' || b == 'u' || b == 'r' || b == 'A' || b == 'E'
                    || b == 'I' || b == 'O' || b == 'U' || b == 'R',
                None => false,
            };
            if !tone {
                r.push(c);
            }
        } else {
            base = Some(c);
            r.push(c);
        }
        i += 1;
    }
    assert(cs@.take(cs@.len() as int) =~= cs@);
    r
}

/// A word as lemmas are written in its language (see [`orthography`]).
pub fn normalize_orthography(source: Lang, word: &str) -> (r: String)
    ensures
        r@ == orthography(source, word@),
{
    match source {
        Lang::Ar | Lang::Fa => {
            let cs = chars_of(word);
            string_of_chars(&filter_chars(&cs, 0))
        },
        Lang::La | Lang::Ang | Lang::Sga | Lang::Grc | Lang::Ro | Lang::Id => {
            let cs = decompose(word);
            compose(&filter_chars(&cs, 1))
        },
        Lang::Tl => {
            let cs = decompose(word);
            compose(&filter_chars(&cs, 2))
        },
        Lang::Sh => {
            let cs = decompose(word);
            compose(&drop_tone_marks(&cs))
        },
        Lang::Uk | Lang::Ru => {
            let cs = chars_of(word);
            string_of_chars(&filter_chars(&cs, 3))
        },
        _ => owned(word),
    }
}

/// `s` without repetitions: each element where it first occurs.
pub open spec fn dedup(s: Seq<Seq<char>>) -> Seq<Seq<char>>
    decreases s.len(),
{
    if s.len() == 0 {
        s
    } else {
        let d = dedup(s.drop_last());
        if d.contains(s.last()) {
            d
        } else {
            d.push(s.last())
        }
    }
}

/// A head template whose expansion holds a parenthesized text.
pub open spec fn parenthesized_expansion() -> spec_fn(Seq<char>) -> bool {
    |e: Seq<char>| has_parenthesized(e)
}

/// The head information of an entry: the expansions of its head templates that hold a
/// parenthesized text, each once.
pub open spec fn head_infos(hts: Seq<crate::models::kaikki::HeadTemplate>) -> Seq<Seq<char>> {
    dedup(hts.map_values(|h: crate::models::kaikki::HeadTemplate| h.expansion@).filter(parenthesized_expansion()))
}

/// The head information of an entry (see [`head_infos`]), or none when there is none.
pub fn get_head_info(head_templates: &Vec<crate::models::kaikki::HeadTemplate>) -> (r: Option<Vec<&str>>)
    ensures
        match r {
            Some(v) => str_views(v@) == head_infos(head_templates@) && v@.len() > 0,
            None => head_infos(head_templates@).len() == 0,
        },
{
    let ghost ex = head_templates@.map_values(|h: crate::models::kaikki::HeadTemplate| h.expansion@);
    let mut r: Vec<&str> = Vec::new();
    let mut i: usize = 0;
    assert(ex.take(0).filter(parenthesized_expansion()) =~= Seq::<Seq<char>>::empty());
    while i < head_templates.len()
        invariant
            i <= head_templates@.len(),
            ex == head_templates@.map_values(|h: crate::models::kaikki::HeadTemplate| h.expansion@),
            str_views(r@) == dedup(ex.take(i as int).filter(parenthesized_expansion())),
        decreases head_templates@.len() - i,
    {
        let e = head_templates[i].expansion.as_str();
        proof { crate::seqs::lemma_filter_take(ex, parenthesized_expansion(), i as int); }
        assert(ex[i as int] == e@);
        if parens_match(e) {
            let ghost f = ex.take(i + 1).filter(parenthesized_expansion());
            assert(f.drop_last() =~= ex.take(i as int).filter(parenthesized_expansion()));
            let seen = crate::text::str_in(r.as_slice(), e);
            if !seen {
                let ghost before = str_views(r@);
                r.push(e);
                assert(str_views(r@) =~= before.push(e@));
            }
        }
        i += 1;
    }
    assert(ex.take(head_templates@.len() as int) =~= ex);
    if r.len() == 0 {
        None
    } else {
        Some(r)
    }
}

/// The view of an optional string.
pub open spec fn opt_view(o: Option<String>) -> Option<Seq<char>> {
    match o {
        Some(s) => Some(s@),
        None => None,
    }
}

/// A synonym other than the entry's word.
pub open spec fn other_word(word: Seq<char>) -> spec_fn(Seq<char>) -> bool {
    |w: Seq<char>| w != word
}

/// The most synonyms kept for an entry.
pub const MAX_NUMBER_OF_SYNONYMS: usize = 3;

/// The synonyms kept for an entry: the first ones other than its word.
pub open spec fn synonyms_kept(e: WordEntry) -> Seq<Seq<char>> {
    at_most(e.synonyms@.map_values(|s: Synonym| s.word@).filter(other_word(e.word@)), MAX_NUMBER_OF_SYNONYMS as int)
}

/// The etymology paragraphs of an entry (see [`WordEntry::etymology_texts`]).
pub open spec fn etymology_paragraphs(e: WordEntry) -> Option<Seq<Seq<char>>> {
    if e.etymology_texts@.len() > 0 {
        Some(views(e.etymology_texts@))
    } else if e.etymology_text@.len() > 0 {
        Some(seq![e.etymology_text@])
    } else {
        None
    }
}

/// The etymology of a lemma: its paragraphs on lines of their own, unless (Russian edition) they
/// hold the "missing etymology" placeholder.
pub open spec fn etymology_of(edition: Edition, e: WordEntry) -> Option<Seq<char>> {
    match etymology_paragraphs(e) {
        Some(t) => if edition == Edition::Ru && t.contains("Происходит от ??"@) {
            None
        } else {
            Some(join_sep(t, "\n"@))
        },
        None => None,
    }
}

/// The head information of a lemma, on lines of their own.
pub open spec fn head_info_of(e: WordEntry) -> Option<Seq<char>> {
    let h = head_infos(e.head_templates@);
    if h.len() == 0 {
        None
    } else {
        Some(join_sep(h, "\n"@))
    }
}

/// What is known of a lemma from an entry.
pub open spec fn lemma_info_is(info: LemmaInfo, edition: Edition, source: Lang, e: WordEntry) -> bool {
    &&& gloss_nodes(info.gloss_tree.0@) == gloss_tree_of(e.senses@)
    &&& views(info.tags@) == views(e.tags@)
    &&& info.synonyms@.map_values(|s: Synonym| s.word@) == synonyms_kept(e)
    &&& opt_view(info.etymology_text) == etymology_of(edition, e)
    &&& opt_view(info.head_info_text) == head_info_of(e)
    &&& info.link_wiktionary@ == wiktionary_link(edition, source, e.word@)
    &&& info.link_kaikki@ == kaikki_link(edition, source, e.word@)
}

/// The synonyms kept for an entry (see [`synonyms_kept`]).
fn kept_synonyms(entry: &WordEntry) -> (r: Vec<Synonym>)
    ensures
        r@.map_values(|s: Synonym| s.word@) == synonyms_kept(*entry),
{
    let ghost ws = entry.synonyms@.map_values(|s: Synonym| s.word@);
    let mut r: Vec<Synonym> = Vec::new();
    let mut i: usize = 0;
    assert(ws.take(0).filter(other_word(entry.word@)) =~= Seq::<Seq<char>>::empty());
    while i < entry.synonyms.len()
        invariant
            i <= entry.synonyms@.len(),
            ws == entry.synonyms@.map_values(|s: Synonym| s.word@),
            r@.len() == at_most(ws.take(i as int).filter(other_word(entry.word@)), MAX_NUMBER_OF_SYNONYMS as int).len(),
            r@.map_values(|s: Synonym| s.word@) == at_most(ws.take(i as int).filter(other_word(entry.word@)), MAX_NUMBER_OF_SYNONYMS as int),
        decreases entry.synonyms@.len() - i,
    {
        proof { crate::seqs::lemma_filter_take(ws, other_word(entry.word@), i as int); }
        let ghost prev = at_most(ws.take(i as int).filter(other_word(entry.word@)), MAX_NUMBER_OF_SYNONYMS as int);
        let ghost next = at_most(ws.take(i + 1).filter(other_word(entry.word@)), MAX_NUMBER_OF_SYNONYMS as int);
        let w = &entry.synonyms[i].word;
        assert(ws[i as int] == w@);
        if !str_eq(w.as_str(), entry.word.as_str()) && r.len() < MAX_NUMBER_OF_SYNONYMS {
            let ghost before = r@.map_values(|s: Synonym| s.word@);
            let syn = Synonym { word: w.clone() };
            r.push(syn);
            assert(next =~= prev.push(w@));
            assert(r@.map_values(|s: Synonym| s.word@) =~= before.push(w@));
        } else {
            assert(next =~= prev);
        }
        i += 1;
    }
    assert(ws.take(entry.synonyms@.len() as int) =~= ws);
    r
}

/// The etymology of a lemma (see [`etymology_of`]).
fn etymology_text(edition: Edition, entry: &WordEntry) -> (r: Option<String>)
    ensures
        opt_view(r) == etymology_of(edition, *entry),
{
    match entry.etymology_texts() {
        Some(texts) => {
            if edition == Edition::Ru && crate::text::str_in(texts.as_slice(), "Происходит от ??") {
                None
            } else {
                Some(crate::text::join_strs(&texts, "\n"))
            }
        },
        None => None,
    }
}

/// What is known of a lemma from an entry (see [`lemma_info_is`]). The word cannot be empty.
pub fn process_entry(edition: Edition, source: Lang, entry: &WordEntry) -> (r: LemmaInfo)
    requires
        entry.word@.len() > 0,
    ensures
        lemma_info_is(r, edition, source, *entry),
{
    let head_info_text = match get_head_info(&entry.head_templates) {
        Some(h) => Some(crate::text::join_strs(&h, "\n")),
        None => None,
    };
    LemmaInfo {
        gloss_tree: get_gloss_tree(entry),
        tags: clone_strings(&entry.tags),
        synonyms: kept_synonyms(entry),
        etymology_text: etymology_text(edition, entry),
        head_info_text,
        link_wiktionary: link_wiktionary(edition, source, entry.word.as_str()),
        link_kaikki: link_kaikki(edition, source, entry.word.as_str()),
    }
}

/// Entries that are left out: romanizations (English edition, Japanese).
pub fn should_skip_entry(entry: &WordEntry) -> (r: bool)
    ensures
        r == (entry.pos@ == "romanization"@),
{
    str_eq(entry.pos.as_str(), "romanization")
}

/// An entry without glosses.
pub open spec fn no_gloss(e: WordEntry) -> bool {
    forall|i: int| 0 <= i < e.senses@.len() ==> e.senses@[i].glosses@.len() == 0
}

/// The reading under which a lemma is filed: its reading, or the word itself.
pub open spec fn lemma_reading(edition: Edition, source: Lang, e: WordEntry) -> Seq<char> {
    match reading_of(edition, source, e) {
        Some(r) => r,
        None => e.word@,
    }
}

/// The forms that an entry adds: its extracted forms, then its alternative forms.
pub open spec fn entry_forms_inserted(edition: Edition, source: Lang, e: WordEntry, m: Seq<FormEntryView>) -> Seq<FormEntryView> {
    forms_inserted(
        forms_inserted(m, e.word@, e.pos@, FormSource::Extracted, extracted_forms(edition, source, e)),
        e.word@,
        e.pos@,
        FormSource::AltOfTop,
        alt_forms(e),
    )
}

/// Adds an entry to the main dictionary: its forms and alternative forms, then either the lemma
/// (filed under its word, reading and part of speech) or, for an entry without glosses, what
/// [`no_gloss_inserted`] gives. The word of an entry with glosses cannot be empty.
pub fn process_main(edition: Edition, source: Lang, entry: &WordEntry, irs: &mut Tidy)
    requires
        !no_gloss(*entry) ==> entry.word@.len() > 0,
    ensures
        no_gloss(*entry) ==> form_map_view(final(irs).form_map) == no_gloss_inserted(
            edition,
            *entry,
            entry_forms_inserted(edition, source, *entry, form_map_view(old(irs).form_map)),
        ) && final(irs).lemma_map == old(irs).lemma_map,
        !no_gloss(*entry) ==> form_map_view(final(irs).form_map) == entry_forms_inserted(
            edition,
            source,
            *entry,
            form_map_view(old(irs).form_map),
        ) && exists|info: LemmaInfo|
            lemma_info_is(info, edition, source, *entry) && lemma_map_view(final(irs).lemma_map) == lemma_inserted(
                lemma_map_view(old(irs).lemma_map),
                (entry.word@, lemma_reading(edition, source, *entry), entry.pos@),
                info,
            ),
{
    process_forms(edition, source, entry, irs);
    process_alt_forms(entry, irs);
    if entry.contains_no_gloss() {
        process_no_gloss(edition, entry, irs);
    } else {
        let reading = match get_reading(edition, source, entry) {
            Some(r) => r,
            None => entry.word.clone(),
        };
        let info = process_entry(edition, source, entry);
        let ghost gi = info;
        irs.insert_lemma(entry.word.as_str(), reading.as_str(), entry.pos.as_str(), info);
        assert(lemma_info_is(gi, edition, source, *entry));
    }
}

/// A sense, as character sequences: its glosses, its tags, and the words of its `form_of` and
/// `alt_of`.
pub struct SenseView {
    pub glosses: Seq<Seq<char>>,
    pub tags: Seq<Seq<char>>,
    pub form_of: Seq<Seq<char>>,
    pub alt_of: Seq<Seq<char>>,
}

/// The view of a sense.
pub open spec fn sense_view(s: crate::models::kaikki::Sense) -> SenseView {
    SenseView {
        glosses: views(s.glosses@),
        tags: views(s.tags@),
        form_of: alt_words(s.form_of@),
        alt_of: alt_words(s.alt_of@),
    }
}

/// Whether `s` contains `p` (see [`crate::text::contains_sub`]).
pub open spec fn has_sub(s: Seq<char>, p: Seq<char>) -> bool {
    crate::text::contains_sub(s, p)
}

/// An English gloss that says the sense is a form of one of `form_of`: it says "inflection of",
/// or ends with "of <word>" or with "of <word> (...)".
pub open spec fn en_inflection_gloss(g: Seq<char>, form_of: Seq<Seq<char>>) -> bool {
    has_sub(g, "inflection of"@) || exists|k: int|
        0 <= k < form_of.len() && (#[trigger] form_of[k]).len() > 0 && {
            let subs = "of "@ + form_of[k];
            subs.is_suffix_of(g) || (has_sub(g, subs + " ("@) && g.len() > 0 && g.last() == ')')
        }
}

/// A sense that only says which word the entry is a form of: a gloss matches the German
/// pattern (German edition); it has a `form_of` and a gloss mentions "του" (Greek edition); a
/// gloss is an English "form of" gloss (English edition); it has exactly one `form_of`
/// (other editions).
pub open spec fn inflection_sense(edition: Edition, sense: SenseView) -> bool {
    if edition == Edition::De {
        exists|i: int| 0 <= i < sense.glosses.len() && (#[trigger] de_inflection(sense.glosses[i])) is Some
    } else if edition == Edition::El {
        sense.form_of.len() > 0 && exists|i: int| 0 <= i < sense.glosses.len() && has_sub(#[trigger] sense.glosses[i], "του"@)
    } else if edition == Edition::En {
        exists|i: int| 0 <= i < sense.glosses.len() && en_inflection_gloss(#[trigger] sense.glosses[i], sense.form_of)
    } else {
        sense.form_of.len() == 1
    }
}

/// Whether an English gloss is a "form of" gloss (see [`en_inflection_gloss`]).
fn is_en_inflection_gloss(g: &str, form_of: &Vec<crate::models::kaikki::AltForm>) -> (r: bool)
    ensures
        r == en_inflection_gloss(g@, alt_words(form_of@)),
{
    if crate::text::contains_str(g, "inflection of") {
        return true;
    }
    let mut k: usize = 0;
    while k < form_of.len()
        invariant
            k <= form_of@.len(),
            !has_sub(g@, "inflection of"@),
            forall|j: int| 0 <= j < k ==> !((#[trigger] alt_words(form_of@)[j]).len() > 0 && {
                let subs = "of "@ + alt_words(form_of@)[j];
                subs.is_suffix_of(g@) || (has_sub(g@, subs + " ("@) && g@.len() > 0 && g@.last() == ')')
            }),
        decreases form_of@.len() - k,
    {
        let w = form_of[k].word.as_str();
        if !w.is_empty() {
            let subs = concat("of ", w);
            let with_paren = concat(subs.as_str(), " (");
            let closes = {
                let cs = chars_of(g);
                cs.len() > 0 && cs[cs.len() - 1] == ')'
            };
            if crate::text::ends_with(g, subs.as_str()) || (crate::text::contains_str(g, with_paren.as_str()) && closes) {
                assert(alt_words(form_of@)[k as int] == w@);
                return true;
            }
        }
        k += 1;
    }
    false
}

/// Whether a sense only says which word the entry is a form of (see [`inflection_sense`]).
pub fn is_inflection_sense(edition: Edition, sense: &crate::models::kaikki::Sense) -> (r: bool)
    ensures
        r == inflection_sense(edition, sense_view(*sense)),
{
    if edition == Edition::De {
        let mut i: usize = 0;
        while i < sense.glosses.len()
            invariant
                i <= sense.glosses@.len(),
                edition == Edition::De,
                forall|j: int| 0 <= j < i ==> (#[trigger] de_inflection(sense.glosses@[j]@)) is None,
            decreases sense.glosses@.len() - i,
        {
            if de_inflection_captures(sense.glosses[i].as_str()).is_some() {
                assert(de_inflection(sense.glosses@[i as int]@) is Some);
                assert(sense_view(*sense).glosses[i as int] == sense.glosses@[i as int]@);
                return true;
            }
            i += 1;
        }
        false
    } else if edition == Edition::El {
        if sense.form_of.len() == 0 {
            return false;
        }
        let mut i: usize = 0;
        while i < sense.glosses.len()
            invariant
                i <= sense.glosses@.len(),
                edition == Edition::El,
                sense.form_of@.len() > 0,
                forall|j: int| 0 <= j < i ==> !has_sub(#[trigger] sense.glosses@[j]@, "του"@),
            decreases sense.glosses@.len() - i,
        {
            if crate::text::contains_str(sense.glosses[i].as_str(), "του") {
                assert(has_sub(sense.glosses@[i as int]@, "του"@));
                assert(sense_view(*sense).glosses[i as int] == sense.glosses@[i as int]@);
                return true;
            }
            i += 1;
        }
        false
    } else if edition == Edition::En {
        let mut i: usize = 0;
        while i < sense.glosses.len()
            invariant
                i <= sense.glosses@.len(),
                edition == Edition::En,
                forall|j: int| 0 <= j < i ==> !en_inflection_gloss(#[trigger] sense.glosses@[j]@, alt_words(sense.form_of@)),
            decreases sense.glosses@.len() - i,
        {
            if is_en_inflection_gloss(sense.glosses[i].as_str(), &sense.form_of) {
                assert(en_inflection_gloss(sense.glosses@[i as int]@, alt_words(sense.form_of@)));
                assert(sense_view(*sense).glosses[i as int] == sense.glosses@[i as int]@);
                return true;
            }
            i += 1;
        }
        false
    } else {
        sense.form_of.len() == 1
    }
}

/// The Greek grammatical tags that redirections keep.
pub const TAGS_RETAINED_EL: [&'static str; 9] = [
    "masculine",
    "feminine",
    "neuter",
    "singular",
    "plural",
    "nominative",
    "accusative",
    "genitive",
    "vocative",
];

/// The forms of several lemmas (`uninflected`), each with the same tags, inserted in turn.
pub open spec fn redirects_inserted(
    m: Seq<FormEntryView>,
    uninflected: Seq<Seq<char>>,
    inflected: Seq<char>,
    pos: Seq<char>,
    source: FormSource,
    tags: Seq<Seq<char>>,
) -> Seq<FormEntryView>
    decreases uninflected.len(),
{
    if uninflected.len() == 0 {
        m
    } else {
        form_inserted(
            redirects_inserted(m, uninflected.drop_last(), inflected, pos, source, tags),
            uninflected.last(),
            inflected,
            pos,
            source,
            tags,
        )
    }
}

/// The tags of a redirection: `kept`, or `redirected from <word>` when none are kept.
pub open spec fn redirect_tags(kept: Seq<Seq<char>>, word: Seq<char>) -> Seq<Seq<char>> {
    if kept.len() == 0 {
        seq!["redirected from "@ + word]
    } else {
        kept
    }
}

/// A Greek tag that redirections keep.
pub open spec fn retained_el() -> spec_fn(Seq<char>) -> bool {
    |t: Seq<char>| str_views(TAGS_RETAINED_EL@).contains(t)
}

/// A tag other than `form-of`.
pub open spec fn not_form_of_tag() -> spec_fn(Seq<char>) -> bool {
    |t: Seq<char>| t != "form-of"@
}

/// The tags of `tags` that `keep` accepts: `which` 0 keeps the retained Greek tags, 1 all but
/// `form-of`.
fn tags_filtered(tags: &Vec<String>, which: u8) -> (r: Vec<String>)
    ensures
        views(r@) == views(tags@).filter(if which == 0 { retained_el() } else { not_form_of_tag() }),
{
    let ghost pred = if which == 0 { retained_el() } else { not_form_of_tag() };
    let retained: &[&str] = &TAGS_RETAINED_EL;
    let mut r: Vec<String> = Vec::new();
    let mut i: usize = 0;
    assert(views(tags@).take(0) =~= Seq::<Seq<char>>::empty());
    while i < tags.len()
        invariant
            i <= tags@.len(),
            retained@ == TAGS_RETAINED_EL@,
            pred == (if which == 0 { retained_el() } else { not_form_of_tag() }),
            views(r@) == views(tags@).take(i as int).filter(pred),
        decreases tags@.len() - i,
    {
        proof { crate::seqs::lemma_filter_take(views(tags@), pred, i as int); }
        let t = tags[i].as_str();
        let keep = if which == 0 { str_in(retained, t) } else { !str_eq(t, "form-of") };
        if keep {
            let ghost before = views(r@);
            r.push(tags[i].clone());
            assert(views(r@) =~= before.push(t@));
        }
        i += 1;
    }
    assert(views(tags@).take(tags@.len() as int) =~= views(tags@));
    r
}

/// The tags of a redirection from `kept` (see [`redirect_tags`]).
fn redirect_tags_of(kept: Vec<String>, word: &str) -> (r: Vec<String>)
    ensures
        views(r@) == redirect_tags(views(kept@), word@),
{
    if kept.len() == 0 {
        let mut r: Vec<String> = Vec::new();
        r.push(concat("redirected from ", word));
        assert(views(r@) =~= seq!["redirected from "@ + word@]);
        r
    } else {
        kept
    }
}

/// `s` from `from` on with every occurrence of `p` removed, leftmost first (std's
/// `str::replace` with an empty replacement); an empty `p` removes nothing.
pub open spec fn removed_from(s: Seq<char>, p: Seq<char>, from: int) -> Seq<char>
    decreases s.len() - from,
{
    if p.len() == 0 || from < 0 || from > s.len() {
        s.skip(from)
    } else {
        match first_occurrence_from(s, p, from) {
            Some(at) => {
                proof { crate::text::lemma_first_occurrence_bounds(s, p, from); }
                s.subrange(from, at) + removed_from(s, p, at + p.len())
            },
            None => s.skip(from),
        }
    }
}

/// `s` with every occurrence of `p` removed.
pub open spec fn removed_all(s: Seq<char>, p: Seq<char>) -> Seq<char> {
    removed_from(s, p, 0)
}

/// `s` with every occurrence of `p` removed (see [`removed_all`]).
pub fn remove_all(s: &str, p: &str) -> (r: String)
    ensures
        r@ == removed_all(s@, p@),
{
    let cs = chars_of(s);
    let ps = chars_of(p);
    if ps.len() == 0 {
        assert(s@.skip(0) =~= s@);
        return owned(s);
    }
    let mut out: Vec<char> = Vec::new();
    let mut cursor: usize = 0;
    assert(out@ + removed_from(cs@, ps@, 0) =~= removed_from(cs@, ps@, 0));
    loop
        invariant
            cs@ == s@,
            ps@ == p@,
            ps@.len() > 0,
            cursor <= cs@.len(),
            out@ + removed_from(cs@, ps@, cursor as int) == removed_all(s@, p@),
        decreases cs@.len() - cursor,
    {
        match find_first_from(&cs, &ps, cursor) {
            Some(at) => {
                proof { crate::text::lemma_first_occurrence_bounds(cs@, ps@, cursor as int); }
                let ghost before = out@;
                let mut k = cursor;
                while k < at
                    invariant
                        cursor <= k <= at,
                        at <= cs@.len(),
                        out@ == before + cs@.subrange(cursor as int, k as int),
                    decreases at - k,
                {
                    out.push(cs[k]);
                    k += 1;
                    assert(out@ =~= before + cs@.subrange(cursor as int, k as int));
                }
                assert(before + removed_from(cs@, ps@, cursor as int) =~= out@ + removed_from(cs@, ps@, at + ps@.len()));
                let n = cs.len();
                assert(at + ps@.len() <= n);
                cursor = at + ps.len();
            },
            None => {
                let ghost before = out@;
                let mut k = cursor;
                while k < cs.len()
                    invariant
                        cursor <= k <= cs@.len(),
                        out@ == before + cs@.subrange(cursor as int, k as int),
                    decreases cs@.len() - k,
                {
                    out.push(cs[k]);
                    k += 1;
                    assert(out@ =~= before + cs@.subrange(cursor as int, k as int));
                }
                assert(cs@.subrange(cursor as int, cs@.len() as int) =~= cs@.skip(cursor as int));
                return string_of_chars(&out);
            },
        }
    }
}

/// A character other than `:`.
pub open spec fn not_colon() -> spec_fn(char) -> bool {
    |c: char| c != ':'
}

/// What an English "form of" gloss says of the inflection: the gloss without "inflection of ",
/// "of <lemma>", the lemma, colons and parenthesized texts, trimmed.
pub open spec fn en_inflection_of_gloss(g: Seq<char>, un: Seq<char>) -> Seq<char> {
    let c = removed_all(removed_all(removed_all(g, "inflection of "@), "of "@ + un), un).filter(not_colon());
    crate::cli::trimmed(crate::dict::main::patterns::parens_removed(c))
}

/// A non-empty text.
pub open spec fn non_empty_text() -> spec_fn(Seq<char>) -> bool {
    |t: Seq<char>| t.len() > 0
}

/// The inflections that the English glosses of a sense name, each once, in order.
pub open spec fn en_inflections(glosses: Seq<Seq<char>>, un: Seq<char>) -> Seq<Seq<char>> {
    dedup(glosses.map_values(|g: Seq<char>| en_inflection_of_gloss(g, un)).filter(non_empty_text()))
}

/// The forms `inflected` of `uninflected` with each tag of `tags` inserted in turn.
pub open spec fn tags_inserted_each(
    m: Seq<FormEntryView>,
    uninflected: Seq<char>,
    inflected: Seq<char>,
    pos: Seq<char>,
    source: FormSource,
    tags: Seq<Seq<char>>,
) -> Seq<FormEntryView>
    decreases tags.len(),
{
    if tags.len() == 0 {
        m
    } else {
        form_inserted(
            tags_inserted_each(m, uninflected, inflected, pos, source, tags.drop_last()),
            uninflected,
            inflected,
            pos,
            source,
            seq![tags.last()],
        )
    }
}

/// What an English "form of" sense adds: with exactly one `form_of`, the entry (its canonical
/// word where the language has one) becomes a form of it once per inflection its glosses name.
pub open spec fn en_inflection_inserted(
    source: Lang,
    e: WordEntry,
    sense: SenseView,
    m: Seq<FormEntryView>,
) -> Seq<FormEntryView> {
    if sense.form_of.len() != 1 {
        m
    } else {
        let un = sense.form_of[0];
        let inflected = match canonical_word(source, e) {
            Some(c) => c,
            None => e.word@,
        };
        if inflected == un {
            m
        } else {
            tags_inserted_each(m, un, inflected, e.pos@, FormSource::Inflection, en_inflections(sense.glosses, un))
        }
    }
}

/// The inflection that an English gloss names (see [`en_inflection_of_gloss`]).
fn en_inflection_text(g: &str, un: &str) -> (r: String)
    ensures
        r@ == en_inflection_of_gloss(g@, un@),
{
    let c1 = remove_all(g, "inflection of ");
    let of_un = concat("of ", un);
    let c2 = remove_all(c1.as_str(), of_un.as_str());
    let c3 = remove_all(c2.as_str(), un);
    let cs = chars_of(c3.as_str());
    let mut kept: Vec<char> = Vec::new();
    let mut i: usize = 0;
    assert(cs@.take(0) =~= Seq::<char>::empty());
    while i < cs.len()
        invariant
            i <= cs@.len(),
            kept@ == cs@.take(i as int).filter(not_colon()),
        decreases cs@.len() - i,
    {
        proof { crate::seqs::lemma_filter_take(cs@, not_colon(), i as int); }
        if cs[i] != ':' {
            kept.push(cs[i]);
        }
        i += 1;
    }
    assert(cs@.take(cs@.len() as int) =~= cs@);
    let c4 = string_of_chars(&kept);
    let c5 = crate::dict::main::patterns::remove_parenthesized(c4.as_str());
    crate::cli::trim(c5.as_str())
}

/// Adds what an English "form of" sense says (see [`en_inflection_inserted`]).
pub fn handle_inflection_sense_en(source: Lang, entry: &WordEntry, sense: &crate::models::kaikki::Sense, irs: &mut Tidy)
    ensures
        form_map_view(final(irs).form_map) == en_inflection_inserted(source, *entry, sense_view(*sense), form_map_view(old(irs).form_map)),
        final(irs).lemma_map == old(irs).lemma_map,
{
    if sense.form_of.len() != 1 {
        return;
    }
    let uninflected = sense.form_of[0].word.as_str();
    let inflected = match get_canonical_word(source, entry) {
        Some(c) => c,
        None => entry.word.clone(),
    };
    if str_eq(inflected.as_str(), uninflected) {
        return;
    }
    let ghost gs = views(sense.glosses@);
    let ghost mapped = gs.map_values(|g: Seq<char>| en_inflection_of_gloss(g, uninflected@));
    let mut inflections: Vec<String> = Vec::new();
    let mut i: usize = 0;
    assert(mapped.take(0).filter(non_empty_text()) =~= Seq::<Seq<char>>::empty());
    while i < sense.glosses.len()
        invariant
            i <= sense.glosses@.len(),
            gs == views(sense.glosses@),
            mapped == gs.map_values(|g: Seq<char>| en_inflection_of_gloss(g, uninflected@)),
            views(inflections@) == dedup(mapped.take(i as int).filter(non_empty_text())),
        decreases sense.glosses@.len() - i,
    {
        let inflection = en_inflection_text(sense.glosses[i].as_str(), uninflected);
        assert(inflection@ == mapped[i as int]);
        proof { crate::seqs::lemma_filter_take(mapped, non_empty_text(), i as int); }
        if !inflection.as_str().is_empty() {
            let ghost f = mapped.take(i + 1).filter(non_empty_text());
            assert(f.drop_last() =~= mapped.take(i as int).filter(non_empty_text()));
            if !string_in(&inflections, inflection.as_str()) {
                let ghost before = views(inflections@);
                inflections.push(inflection);
                assert(views(inflections@) =~= before.push(mapped[i as int]));
            }
        }
        i += 1;
    }
    assert(mapped.take(sense.glosses@.len() as int) =~= mapped);
    let ghost tags = views(inflections@);
    let ghost m0 = form_map_view(irs.form_map);
    let mut k: usize = 0;
    assert(tags.take(0) =~= Seq::<Seq<char>>::empty());
    while k < inflections.len()
        invariant
            k <= inflections@.len(),
            tags == views(inflections@),
            m0 == form_map_view(old(irs).form_map),
            irs.lemma_map == old(irs).lemma_map,
            form_map_view(irs.form_map) == tags_inserted_each(m0, uninflected@, inflected@, entry.pos@, FormSource::Inflection, tags.take(k as int)),
        decreases inflections@.len() - k,
    {
        let mut one: Vec<String> = Vec::new();
        one.push(inflections[k].clone());
        assert(views(one@) =~= seq![tags[k as int]]);
        assert(tags.take(k + 1).drop_last() =~= tags.take(k as int));
        irs.insert_form(uninflected, inflected.as_str(), entry.pos.as_str(), FormSource::Inflection, one);
        k += 1;
    }
    assert(tags.take(inflections@.len() as int) =~= tags);
}

/// The words of alternative or base forms.
pub open spec fn alt_words(s: Seq<crate::models::kaikki::AltForm>) -> Seq<Seq<char>> {
    s.map_values(|a: crate::models::kaikki::AltForm| a.word@)
}

/// What a "form of" sense adds to the forms: the German gloss names the inflection and the
/// lemma; in Greek the entry becomes a form of each `form_of` with the retained grammatical
/// tags; in English see [`en_inflection_inserted`]; elsewhere the entry becomes a form of its one
/// `form_of` (written as lemmas are) with the sense's tags. Without tags, the tag says which word
/// redirected.
pub open spec fn inflection_inserted(
    edition: Edition,
    source: Lang,
    e: WordEntry,
    sense: SenseView,
    m: Seq<FormEntryView>,
) -> Seq<FormEntryView> {
    if edition == Edition::De {
        match de_inflection(sense.glosses[0]) {
            Some((tags, un)) => form_inserted(m, un, e.word@, e.pos@, FormSource::Inflection, seq![crate::cli::trimmed(tags)]),
            None => m,
        }
    } else if edition == Edition::El {
        redirects_inserted(
            m,
            sense.form_of,
            e.word@,
            e.pos@,
            FormSource::Inflection,
            redirect_tags(sense.tags.filter(retained_el()), e.word@),
        )
    } else if edition == Edition::En {
        en_inflection_inserted(source, e, sense, m)
    } else {
        form_inserted(
            m,
            orthography(source, sense.form_of[0]),
            e.word@,
            e.pos@,
            FormSource::Inflection,
            redirect_tags(sense.tags.filter(not_form_of_tag()), e.word@),
        )
    }
}

/// Adds what a "form of" sense says (see [`inflection_inserted`]).
pub fn handle_inflection_sense(
    edition: Edition,
    source: Lang,
    entry: &WordEntry,
    sense: &crate::models::kaikki::Sense,
    irs: &mut Tidy,
)
    requires
        inflection_sense(edition, sense_view(*sense)),
    ensures
        form_map_view(final(irs).form_map) == inflection_inserted(edition, source, *entry, sense_view(*sense), form_map_view(old(irs).form_map)),
        final(irs).lemma_map == old(irs).lemma_map,
{
    if edition == Edition::De {
        match de_inflection_captures(sense.glosses[0].as_str()) {
            Some((inflection_tags, uninflected)) => {
                let t = crate::cli::trim(inflection_tags.as_str());
                let mut tags: Vec<String> = Vec::new();
                tags.push(t);
                assert(views(tags@) =~= seq![crate::cli::trimmed(inflection_tags@)]);
                irs.insert_form(uninflected.as_str(), entry.word.as_str(), entry.pos.as_str(), FormSource::Inflection, tags);
            },
            None => {},
        }
    } else if edition == Edition::El {
        let kept = tags_filtered(&sense.tags, 0);
        let tags = redirect_tags_of(kept, entry.word.as_str());
        let ghost words = alt_words(sense.form_of@);
        let ghost m0 = form_map_view(irs.form_map);
        let mut k: usize = 0;
        assert(words.take(0) =~= Seq::<Seq<char>>::empty());
        while k < sense.form_of.len()
            invariant
                k <= sense.form_of@.len(),
                words == alt_words(sense.form_of@),
                m0 == form_map_view(old(irs).form_map),
                irs.lemma_map == old(irs).lemma_map,
                form_map_view(irs.form_map) == redirects_inserted(m0, words.take(k as int), entry.word@, entry.pos@, FormSource::Inflection, views(tags@)),
            decreases sense.form_of@.len() - k,
        {
            assert(words.take(k + 1).drop_last() =~= words.take(k as int));
            irs.insert_form(sense.form_of[k].word.as_str(), entry.word.as_str(), entry.pos.as_str(), FormSource::Inflection, clone_strings(&tags));
            k += 1;
        }
        assert(words.take(sense.form_of@.len() as int) =~= words);
    } else if edition == Edition::En {
        handle_inflection_sense_en(source, entry, sense, irs);
    } else {
        let kept = tags_filtered(&sense.tags, 1);
        let tags = redirect_tags_of(kept, entry.word.as_str());
        let norm = normalize_orthography(source, sense.form_of[0].word.as_str());
        irs.insert_form(norm.as_str(), entry.word.as_str(), entry.pos.as_str(), FormSource::Inflection, tags);
    }
}

/// A sense tag that makes an alternative form not worth a redirection.
pub open spec fn low_value_alt_tag(t: Seq<Seq<char>>) -> bool {
    t.contains("misspelling"@) || t.contains("misconstruction"@) || t.contains("nonstandard"@) || t.contains(
        "pronunciation-spelling"@,
    ) || t.contains("obsolete"@) || t.contains("abbreviation"@)
}

/// What an "alternative form of" sense adds: unless its tags make it of little value, each
/// alternative form becomes a form of the entry's word, with the sense's tags and `alt-of`.
pub open spec fn alt_of_inserted(e: WordEntry, sense: SenseView, m: Seq<FormEntryView>) -> Seq<FormEntryView> {
    let t = sense.tags;
    if low_value_alt_tag(t) {
        m
    } else {
        let tags = if t.contains("alt-of"@) {
            t
        } else {
            t.push("alt-of"@)
        };
        forms_inserted(
            m,
            e.word@,
            e.pos@,
            FormSource::AltOfSense,
            sense.alt_of.map_values(|w: Seq<char>| (w, tags)),
        )
    }
}

/// Adds what an "alternative form of" sense says (see [`alt_of_inserted`]).
pub fn handle_alt_of_sense(entry: &WordEntry, sense: &crate::models::kaikki::Sense, irs: &mut Tidy)
    ensures
        form_map_view(final(irs).form_map) == alt_of_inserted(*entry, sense_view(*sense), form_map_view(old(irs).form_map)),
        final(irs).lemma_map == old(irs).lemma_map,
{
    let t = &sense.tags;
    if string_in(t, "misspelling") || string_in(t, "misconstruction") || string_in(t, "nonstandard") || string_in(
        t,
        "pronunciation-spelling",
    ) || string_in(t, "obsolete") || string_in(t, "abbreviation") {
        return;
    }
    let mut tags = clone_strings(t);
    if !string_in(t, "alt-of") {
        tags.push(owned("alt-of"));
    }
    let ghost tv = views(tags@);
    assert(tv =~= (if views(t@).contains("alt-of"@) { views(t@) } else { views(t@).push("alt-of"@) }));
    let ghost l = alt_words(sense.alt_of@).map_values(|w: Seq<char>| (w, tv));
    let ghost m0 = form_map_view(irs.form_map);
    let mut k: usize = 0;
    assert(l.take(0) =~= Seq::<(Seq<char>, Seq<Seq<char>>)>::empty());
    while k < sense.alt_of.len()
        invariant
            k <= sense.alt_of@.len(),
            tv == views(tags@),
            l == alt_words(sense.alt_of@).map_values(|w: Seq<char>| (w, tv)),
            m0 == form_map_view(old(irs).form_map),
            irs.lemma_map == old(irs).lemma_map,
            form_map_view(irs.form_map) == forms_inserted(m0, entry.word@, entry.pos@, FormSource::AltOfSense, l.take(k as int)),
        decreases sense.alt_of@.len() - k,
    {
        proof { lemma_forms_inserted_take(m0, entry.word@, entry.pos@, FormSource::AltOfSense, l, k as int); }
        irs.insert_form(entry.word.as_str(), sense.alt_of[k].word.as_str(), entry.pos.as_str(), FormSource::AltOfSense, clone_strings(&tags));
        k += 1;
    }
    assert(l.take(sense.alt_of@.len() as int) =~= l);
}

} // verus!
