//! Preparing an entry of the main dictionary before it is read: its forms fixed, the tags its
//! senses take from its forms, glosses of no value dropped, and the senses that only redirect
//! ("form of", "alternative form of") turned into forms.
use vstd::prelude::*;
use crate::cli::Options;
use crate::lang::{Edition, Lang};
use crate::models::kaikki::{Form, Sense, WordEntry, form_with_tag, non_trivial_form};
use crate::seqs::{first_index, lemma_filter_take};
use crate::text::{clone_strings, concat, owned, str_eq, string_in, views};
use super::ir::{
    FormEntryView, SenseView, Tidy, alt_of_inserted, alt_words, canonical_word, form_map_view, handle_alt_of_sense,
    handle_inflection_sense, inflection_inserted, inflection_sense, is_inflection_sense, sense_view,
};
use super::patterns::{ends_with_punctuation, unicode_punctuation};
use super::preprocess::{form_views, preprocess_forms, preprocessed_forms};

verus! {

/// `tags` with each tag of `add` that `keep` accepts appended in turn, unless it is there already.
pub open spec fn tags_added(tags: Seq<Seq<char>>, add: Seq<Seq<char>>, keep: spec_fn(Seq<char>) -> bool) -> Seq<Seq<char>>
    decreases add.len(),
{
    if add.len() == 0 {
        tags
    } else {
        let prev = tags_added(tags, add.drop_last(), keep);
        if keep(add.last()) && !prev.contains(add.last()) {
            prev.push(add.last())
        } else {
            prev
        }
    }
}

/// Any tag but `canonical`.
pub open spec fn not_canonical() -> spec_fn(Seq<char>) -> bool {
    |t: Seq<char>| t != "canonical"@
}

/// A grammatical gender.
pub open spec fn gender_tag() -> spec_fn(Seq<char>) -> bool {
    |t: Seq<char>| t == "masculine"@ || t == "feminine"@ || t == "neuter"@
}

/// The tags of the forms that are the word itself, one form after the other.
pub open spec fn word_form_tags(forms: Seq<Form>, word: Seq<char>) -> Seq<Seq<char>>
    decreases forms.len(),
{
    if forms.len() == 0 {
        Seq::<Seq<char>>::empty()
    } else {
        word_form_tags(forms.drop_last(), word) + (if forms.last().form@ == word {
            views(forms.last().tags@)
        } else {
            Seq::<Seq<char>>::empty()
        })
    }
}

/// The tags that every sense may take from the forms: in English those of the canonical form
/// (the head templates give the same), in Greek those of the forms that are the word itself.
pub open spec fn tag_candidates(edition: Edition, forms: Seq<Form>, word: Seq<char>) -> Seq<Seq<char>> {
    if edition == Edition::En {
        let i = first_index(forms, form_with_tag("canonical"@));
        if i < forms.len() {
            views(forms[i].tags@)
        } else {
            Seq::<Seq<char>>::empty()
        }
    } else if edition == Edition::El {
        word_form_tags(forms, word)
    } else {
        Seq::<Seq<char>>::empty()
    }
}

/// Which of the candidates a sense takes: in English all but `canonical`, in Greek the genders.
pub open spec fn candidate_kept(edition: Edition) -> spec_fn(Seq<char>) -> bool {
    if edition == Edition::En {
        not_canonical()
    } else {
        gender_tag()
    }
}

/// The gloss that the Italian edition gives a sense without definition.
pub const NO_DEFINITION_IT: &'static str = "definizione mancante; se vuoi, aggiungila tu";

/// A gloss that is a definition.
pub open spec fn defined_gloss() -> spec_fn(Seq<char>) -> bool {
    |g: Seq<char>| g != NO_DEFINITION_IT@
}

/// The glosses of a sense as they are read: in Italian without the empty-definition gloss.
pub open spec fn glosses_read(edition: Edition, glosses: Seq<Seq<char>>) -> Seq<Seq<char>> {
    if edition == Edition::It {
        glosses.filter(defined_gloss())
    } else {
        glosses
    }
}

/// A sense as it is read: its glosses (see [`glosses_read`]) and its tags with the candidates
/// added (see [`tag_candidates`]).
pub open spec fn sense_read(edition: Edition, forms: Seq<Form>, word: Seq<char>, s: Sense) -> SenseView {
    SenseView {
        glosses: glosses_read(edition, views(s.glosses@)),
        tags: tags_added(views(s.tags@), tag_candidates(edition, forms, word), candidate_kept(edition)),
        form_of: alt_words(s.form_of@),
        alt_of: alt_words(s.alt_of@),
    }
}

/// [`sense_read`] as a function.
pub open spec fn read_fn(edition: Edition, forms: Seq<Form>, word: Seq<char>) -> spec_fn(Sense) -> SenseView {
    |s: Sense| sense_read(edition, forms, word, s)
}

/// A "form of" sense that becomes a form. With the experimental features on, only when the
/// entry lists no form of its own (a word with a table of its own stays a lemma).
pub open spec fn redirected(edition: Edition, experimental: bool, forms: Seq<Form>, word: Seq<char>, sv: SenseView) -> bool {
    inflection_sense(edition, sv) && (!experimental || forms.filter(non_trivial_form(word)).len() == 0)
}

/// The forms after reading the senses in turn: a redirecting "form of" sense adds its forms
/// (see [`inflection_inserted`]); else an "alternative form of" sense adds its own (see
/// [`alt_of_inserted`]); any other sense adds none.
pub open spec fn senses_handled(
    edition: Edition,
    source: Lang,
    experimental: bool,
    e: WordEntry,
    svs: Seq<SenseView>,
    m: Seq<FormEntryView>,
) -> Seq<FormEntryView>
    decreases svs.len(),
{
    if svs.len() == 0 {
        m
    } else {
        let prev = senses_handled(edition, source, experimental, e, svs.drop_last(), m);
        let sv = svs.last();
        if redirected(edition, experimental, e.forms@, e.word@, sv) {
            inflection_inserted(edition, source, e, sv, prev)
        } else if sv.alt_of.len() > 0 {
            alt_of_inserted(e, sv, prev)
        } else {
            prev
        }
    }
}

/// A sense that the entry keeps: neither a redirecting "form of" sense nor an "alternative form
/// of" sense.
pub open spec fn sense_kept(edition: Edition, experimental: bool, forms: Seq<Form>, word: Seq<char>) -> spec_fn(Sense) -> bool {
    |s: Sense| {
        let sv = sense_read(edition, forms, word, s);
        !redirected(edition, experimental, forms, word, sv) && sv.alt_of.len() == 0
    }
}

/// A gloss with a space appended unless it ends with punctuation (Yomitan then shows a
/// full stop that it would otherwise drop).
pub open spec fn spaced(g: Seq<char>) -> Seq<char> {
    if g.len() > 0 && unicode_punctuation(g.last()) {
        g
    } else {
        g + " "@
    }
}

/// [`spaced`] as a function.
pub open spec fn spaced_fn() -> spec_fn(Seq<char>) -> Seq<char> {
    |g: Seq<char>| spaced(g)
}

/// `t` is the sense `s` as the entry keeps it: glosses and tags as read (the glosses spaced with
/// the experimental features on), the rest unchanged.
pub open spec fn sense_rebuilt(
    t: Sense,
    s: Sense,
    edition: Edition,
    experimental: bool,
    forms: Seq<Form>,
    word: Seq<char>,
) -> bool {
    let sv = sense_read(edition, forms, word, s);
    &&& views(t.glosses@) == (if experimental {
        sv.glosses.map_values(spaced_fn())
    } else {
        sv.glosses
    })
    &&& views(t.tags@) == sv.tags
    &&& t.examples == s.examples
    &&& t.form_of == s.form_of
    &&& t.alt_of == s.alt_of
    &&& t.topics == s.topics
}

/// Adds the candidates that `keep` accepts to `tags` (see [`tags_added`]).
fn add_tags(tags: &mut Vec<String>, cands: &Vec<String>, gender: bool)
    ensures
        views(final(tags)@) == tags_added(
            views(old(tags)@),
            views(cands@),
            if gender { gender_tag() } else { not_canonical() },
        ),
{
    let ghost keep = if gender { gender_tag() } else { not_canonical() };
    let ghost c = views(cands@);
    let mut k: usize = 0;
    assert(c.take(0) =~= Seq::<Seq<char>>::empty());
    while k < cands.len()
        invariant
            keep == (if gender { gender_tag() } else { not_canonical() }),
            c == views(cands@),
            k <= cands@.len(),
            views(tags@) == tags_added(views(old(tags)@), c.take(k as int), keep),
        decreases cands@.len() - k,
    {
        let t = cands[k].as_str();
        assert(c.take(k + 1).drop_last() =~= c.take(k as int));
        assert(c.take(k + 1).last() == t@);
        let wanted = if gender {
            str_eq(t, "masculine") || str_eq(t, "feminine") || str_eq(t, "neuter")
        } else {
            !str_eq(t, "canonical")
        };
        if wanted && !string_in(tags, t) {
            let ghost before = views(tags@);
            tags.push(owned(t));
            assert(views(tags@) =~= before.push(t@));
        }
        k += 1;
    }
    assert(c.take(cands@.len() as int) =~= c);
}

/// The tags that every sense may take from the forms (see [`tag_candidates`]).
fn tag_candidates_of(edition: Edition, entry: &WordEntry) -> (r: Vec<String>)
    ensures
        views(r@) == tag_candidates(edition, entry.forms@, entry.word@),
{
    if edition == Edition::En {
        match entry.canonical_form() {
            Some(f) => clone_strings(&f.tags),
            None => Vec::new(),
        }
    } else if edition == Edition::El {
        let mut r: Vec<String> = Vec::new();
        let mut k: usize = 0;
        assert(entry.forms@.take(0) =~= Seq::<Form>::empty());
        while k < entry.forms.len()
            invariant
                edition == Edition::El,
                k <= entry.forms@.len(),
                views(r@) == word_form_tags(entry.forms@.take(k as int), entry.word@),
            decreases entry.forms@.len() - k,
        {
            let f = &entry.forms[k];
            assert(entry.forms@.take(k + 1).drop_last() =~= entry.forms@.take(k as int));
            let ghost before = views(r@);
            if str_eq(f.form.as_str(), entry.word.as_str()) {
                let mut more = clone_strings(&f.tags);
                r.append(&mut more);
                assert(views(r@) =~= before + views(f.tags@));
            } else {
                assert(before =~= before + Seq::<Seq<char>>::empty());
            }
            k += 1;
        }
        assert(entry.forms@.take(entry.forms@.len() as int) =~= entry.forms@);
        r
    } else {
        Vec::new()
    }
}

/// The glosses of a sense as they are read (see [`glosses_read`]).
fn read_glosses(edition: Edition, glosses: &Vec<String>) -> (r: Vec<String>)
    ensures
        views(r@) == glosses_read(edition, views(glosses@)),
{
    if edition != Edition::It {
        return clone_strings(glosses);
    }
    let ghost g = views(glosses@);
    let mut r: Vec<String> = Vec::new();
    let mut k: usize = 0;
    assert(g.take(0).filter(defined_gloss()) =~= Seq::<Seq<char>>::empty());
    while k < glosses.len()
        invariant
            g == views(glosses@),
            k <= glosses@.len(),
            views(r@) == g.take(k as int).filter(defined_gloss()),
        decreases glosses@.len() - k,
    {
        proof { lemma_filter_take(g, defined_gloss(), k as int); }
        if !str_eq(glosses[k].as_str(), NO_DEFINITION_IT) {
            let ghost before = views(r@);
            r.push(owned(glosses[k].as_str()));
            assert(views(r@) =~= before.push(g[k as int]));
        }
        k += 1;
    }
    assert(g.take(glosses@.len() as int) =~= g);
    r
}

/// The glosses, each spaced (see [`spaced`]).
fn spaced_glosses(glosses: &Vec<String>) -> (r: Vec<String>)
    ensures
        views(r@) == views(glosses@).map_values(spaced_fn()),
{
    let mut r: Vec<String> = Vec::new();
    let mut k: usize = 0;
    while k < glosses.len()
        invariant
            k <= glosses@.len(),
            views(r@) == views(glosses@).take(k as int).map_values(spaced_fn()),
        decreases glosses@.len() - k,
    {
        let g = glosses[k].as_str();
        let ghost before = views(r@);
        if ends_with_punctuation(g) {
            r.push(owned(g));
        } else {
            r.push(concat(g, " "));
        }
        assert(views(r@) =~= before.push(spaced(g@)));
        assert(views(glosses@).take(k + 1).map_values(spaced_fn()) =~= views(glosses@).take(k as int).map_values(
            spaced_fn(),
        ).push(spaced_fn()(views(glosses@)[k as int])));
        k += 1;
    }
    assert(views(glosses@).take(glosses@.len() as int) =~= views(glosses@));
    r
}

/// Reading the senses depends on the entry only through its word, part of speech and forms.
proof fn lemma_senses_handled_entry(
    edition: Edition,
    source: Lang,
    experimental: bool,
    e1: WordEntry,
    e2: WordEntry,
    svs: Seq<SenseView>,
    m: Seq<FormEntryView>,
)
    requires
        e1.word == e2.word,
        e1.pos == e2.pos,
        e1.forms == e2.forms,
    ensures
        senses_handled(edition, source, experimental, e1, svs, m) == senses_handled(edition, source, experimental, e2, svs, m),
    decreases svs.len(),
{
    if svs.len() > 0 {
        lemma_senses_handled_entry(edition, source, experimental, e1, e2, svs.drop_last(), m);
        let prev = senses_handled(edition, source, experimental, e1, svs.drop_last(), m);
        assert(canonical_word(source, e1) == canonical_word(source, e2));
        assert(inflection_inserted(edition, source, e1, svs.last(), prev) == inflection_inserted(
            edition,
            source,
            e2,
            svs.last(),
            prev,
        ));
        assert(alt_of_inserted(e1, svs.last(), prev) == alt_of_inserted(e2, svs.last(), prev));
    }
}

/// `e1` is the entry `e0` prepared: its forms fixed (see [`preprocessed_forms`]); the senses it
/// keeps (see [`sense_kept`]) rebuilt (see [`sense_rebuilt`]); nothing else changed.
pub open spec fn entry_preprocessed(edition: Edition, source: Lang, experimental: bool, e0: WordEntry, e1: WordEntry) -> bool {
    let kept = e0.senses@.filter(sense_kept(edition, experimental, e1.forms@, e1.word@));
    &&& form_views(e1.forms@) == preprocessed_forms(edition, source, e0.pos@, e0.word@, form_views(e0.forms@))
    &&& e1 == (WordEntry { forms: e1.forms, senses: e1.senses, ..e0 })
    &&& e1.senses@.len() == kept.len()
    &&& forall|i: int| 0 <= i < e1.senses@.len() ==> sense_rebuilt(
        #[trigger] e1.senses@[i],
        kept[i],
        edition,
        experimental,
        e1.forms@,
        e1.word@,
    )
}

/// The forms that preparing `e0` into `e1` adds (see [`senses_handled`]).
pub open spec fn preprocess_forms_added(
    edition: Edition,
    source: Lang,
    experimental: bool,
    e0: WordEntry,
    e1: WordEntry,
    m: Seq<FormEntryView>,
) -> Seq<FormEntryView> {
    senses_handled(edition, source, experimental, e1, e0.senses@.map_values(read_fn(edition, e1.forms@, e1.word@)), m)
}

/// Prepares an entry of the main dictionary before it is read (see [`entry_preprocessed`]): its
/// forms are fixed; each sense takes the tags of [`tag_candidates`] and loses the glosses of
/// [`glosses_read`]; the senses that only redirect become forms (see [`senses_handled`]) and
/// leave the entry; with the experimental features on, the glosses of the senses kept are
/// spaced (see [`spaced`]).
pub fn preprocess_main(edition: Edition, source: Lang, opts: &Options, entry: &mut WordEntry, irs: &mut Tidy)
    ensures
        entry_preprocessed(edition, source, opts.experimental, *old(entry), *final(entry)),
        form_map_view(final(irs).form_map) == preprocess_forms_added(
            edition,
            source,
            opts.experimental,
            *old(entry),
            *final(entry),
            form_map_view(old(irs).form_map),
        ),
        final(irs).lemma_map == old(irs).lemma_map,
{
    preprocess_forms(edition, source, entry);
    let ghost e1 = *entry;
    let ghost forms = e1.forms@;
    let ghost word = e1.word@;
    let ghost exp = opts.experimental;
    let ghost kept_p = sense_kept(edition, exp, forms, word);
    let ghost rf = read_fn(edition, forms, word);
    let ghost m0 = form_map_view(irs.form_map);
    let cands = tag_candidates_of(edition, entry);
    let gender = edition != Edition::En;
    assert((if gender { gender_tag() } else { not_canonical() }) == candidate_kept(edition));
    let no_nontrivial = entry.non_trivial_forms().len() == 0;
    let mut rest: Vec<Sense> = Vec::new();
    std::mem::swap(&mut rest, &mut entry.senses);
    let ghost eh = *entry;
    let ghost os = rest@;
    let mut kept: Vec<Sense> = Vec::new();
    let mut k: usize = 0;
    let n0 = rest.len();
    assert(os.len() == n0);
    assert(os.take(0).filter(kept_p) =~= Seq::<Sense>::empty());
    assert(os.take(0).map_values(rf) =~= Seq::<SenseView>::empty());
    while rest.len() > 0
        invariant
            os == e1.senses@,
            k <= os.len(),
            os.len() <= usize::MAX,
            rest@ == os.skip(k as int),
            *entry == eh,
            eh.word == e1.word,
            eh.pos == e1.pos,
            eh.forms == e1.forms,
            forms == e1.forms@,
            word == e1.word@,
            exp == opts.experimental,
            kept_p == sense_kept(edition, exp, forms, word),
            rf == read_fn(edition, forms, word),
            views(cands@) == tag_candidates(edition, forms, word),
            (if gender { gender_tag() } else { not_canonical() }) == candidate_kept(edition),
            no_nontrivial == (forms.filter(non_trivial_form(word)).len() == 0),
            kept@.len() == os.take(k as int).filter(kept_p).len(),
            forall|i: int| 0 <= i < kept@.len() ==> sense_rebuilt(
                #[trigger] kept@[i],
                os.take(k as int).filter(kept_p)[i],
                edition,
                exp,
                forms,
                word,
            ),
            m0 == form_map_view(old(irs).form_map),
            form_map_view(irs.form_map) == senses_handled(edition, source, exp, eh, os.take(k as int).map_values(rf), m0),
            irs.lemma_map == old(irs).lemma_map,
        decreases rest@.len(),
    {
        let mut s = rest.remove(0);
        let ghost s0 = s;
        assert(s0 == os[k as int]);
        assert(rest@ =~= os.skip(k + 1));
        add_tags(&mut s.tags, &cands, gender);
        let glosses = read_glosses(edition, &s.glosses);
        s.glosses = glosses;
        assert(sense_view(s) == sense_read(edition, forms, word, s0));
        proof {
            lemma_filter_take(os, kept_p, k as int);
            assert(os.take(k + 1).map_values(rf) =~= os.take(k as int).map_values(rf).push(rf(os[k as int])));
            assert(os.take(k + 1).map_values(rf).drop_last() =~= os.take(k as int).map_values(rf));
        }
        if is_inflection_sense(edition, &s) && (!opts.experimental || no_nontrivial) {
            handle_inflection_sense(edition, source, entry, &s, irs);
        } else if s.alt_of.len() > 0 {
            handle_alt_of_sense(entry, &s, irs);
        } else {
            if opts.experimental {
                let spaced = spaced_glosses(&s.glosses);
                s.glosses = spaced;
            }
            let ghost before = kept@;
            kept.push(s);
            assert(kept@ =~= before.push(s));
        }
        k += 1;
    }
    assert(os.take(k as int) =~= os);
    entry.senses = kept;
    proof {
        lemma_senses_handled_entry(edition, source, exp, eh, *entry, os.map_values(rf), m0);
    }
}

} // verus!
