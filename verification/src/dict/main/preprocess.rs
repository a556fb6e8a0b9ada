//! Fixes to the forms of some editions before they are read: pronouns and auxiliaries that
//! tables put in front of verb forms, and compound forms.
use vstd::prelude::*;
use crate::lang::{Edition, Lang};
use crate::models::kaikki::{Form, WordEntry};
use crate::seqs::{first_index, lemma_first_index, lemma_first_index_spec};
use crate::text::{chars_of, ends_with, has_char, starts_with, str_eq, str_in, str_views, string_in, string_of_range, views};
use super::ir::ruby_views;

verus! {

/// A form, as character sequences: its text, tags and ruby.
pub type FormView = (Seq<char>, Seq<Seq<char>>, Seq<(Seq<char>, Seq<char>)>);

/// The view of a form.
pub open spec fn form_view(f: Form) -> FormView {
    (f.form@, views(f.tags@), ruby_views(f.ruby@))
}

/// The views of forms.
pub open spec fn form_views(s: Seq<Form>) -> Seq<FormView> {
    s.map_values(|f: Form| form_view(f))
}

/// A prefix of `w`.
pub open spec fn prefix_of(w: Seq<char>) -> spec_fn(Seq<char>) -> bool {
    |p: Seq<char>| p.is_prefix_of(w)
}

/// `w` without the first of `prefixes` it starts with (unchanged when it starts with none).
pub open spec fn strip_first_prefix(w: Seq<char>, prefixes: Seq<Seq<char>>) -> Seq<char> {
    let k = first_index(prefixes, prefix_of(w));
    if k < prefixes.len() {
        w.skip(prefixes[k].len() as int)
    } else {
        w
    }
}

/// A form with its text stripped of the first of `prefixes` it starts with.
pub open spec fn form_stripped(prefixes: Seq<Seq<char>>) -> spec_fn(FormView) -> FormView {
    |f: FormView| (strip_first_prefix(f.0, prefixes), f.1, f.2)
}

/// `w` without the first of `prefixes` it starts with.
fn strip_first(w: &str, prefixes: &[&str]) -> (r: String)
    ensures
        r@ == strip_first_prefix(w@, str_views(prefixes@)),
{
    let ghost ps = str_views(prefixes@);
    let mut k: usize = 0;
    while k < prefixes.len()
        invariant
            k <= prefixes@.len(),
            ps == str_views(prefixes@),
            forall|j: int| 0 <= j < k ==> !prefix_of(w@)(ps[j]),
        decreases prefixes@.len() - k,
    {
        if starts_with(w, prefixes[k]) {
            proof { lemma_first_index(ps, prefix_of(w@), k as int); }
            let cs = chars_of(w);
            let n = chars_of(prefixes[k]).len();
            assert(w@.subrange(n as int, w@.len() as int) =~= w@.skip(n as int));
            return string_of_range(&cs, n, cs.len());
        }
        k += 1;
    }
    proof { lemma_first_index(ps, prefix_of(w@), k as int); }
    crate::text::owned(w)
}

/// Every form with the first of `prefixes` it starts with removed.
fn strip_prefixes(forms: &mut Vec<Form>, prefixes: &[&str])
    ensures
        form_views(final(forms)@) == form_views(old(forms)@).map_values(form_stripped(str_views(prefixes@))),
{
    let ghost start = form_views(forms@);
    let mut i: usize = 0;
    while i < forms.len()
        invariant
            i <= forms@.len(),
            start == form_views(old(forms)@),
            forms@.len() == start.len(),
            forall|j: int| 0 <= j < i ==> #[trigger] form_views(forms@)[j] == form_stripped(str_views(prefixes@))(start[j]),
            forall|j: int| i <= j < forms@.len() ==> #[trigger] form_views(forms@)[j] == start[j],
        decreases forms@.len() - i,
    {
        let ghost before = forms@;
        assert(form_views(before)[i as int] == start[i as int]);
        let f = forms.remove(i);
        let stripped = strip_first(f.form.as_str(), prefixes);
        let nf = Form { form: stripped, tags: f.tags, ruby: f.ruby };
        assert(form_view(nf) == form_stripped(str_views(prefixes@))(form_view(before[i as int])));
        forms.insert(i, nf);
        assert(forms@ =~= before.update(i as int, nf));
        assert(form_views(forms@) =~= form_views(before).update(i as int, form_view(nf)));
        i += 1;
    }
    assert(form_views(forms@) =~= start.map_values(form_stripped(str_views(prefixes@))));
}

/// German verb tables: the personal pronouns before the forms.
pub const DE_PRONOUNS: [&'static str; 6] = ["ich ", "du ", "er/sie/es ", "wir ", "ihr ", "sie "];

/// Irish (English edition): the articles before the forms.
pub const GA_PREFIXES: [&'static str; 6] = ["a ", "an ", "na ", "leis an ", "don ", "leis na "];

/// Spanish verb tables: the auxiliary `haber`, wrongly read as forms.
pub const HABER_AUX: [&'static str; 42] = [
    "he", "has", "ha", "hemos", "habéis", "han",
    "había", "habías", "había", "habíamos", "habíais", "habían",
    "habré", "habrás", "habrá", "habremos", "habréis", "habrán",
    "habría", "habrías", "habría", "habríamos", "habríais", "habrían",
    "haya", "hayas", "haya", "hayamos", "hayáis", "hayan",
    "hubiera", "hubieras", "hubiera", "hubiéramos", "hubierais", "hubieran",
    "hubiese", "hubieses", "hubiese", "hubiésemos", "hubieseis", "hubiesen",
];

/// French verb tables: the personal pronouns before the forms.
pub const FR_PRONOUNS: [&'static str; 7] = ["je ", "j' ", "tu ", "il/elle/on ", "nous ", "vous ", "ils/elles "];

/// Italian verb tables: the auxiliaries (and the negation) before the forms.
pub const AVERE_AUX: [&'static str; 11] = [
    "avrei ", "avresti ", "avrebbe ", "avremmo ", "avreste ", "avrebbero ", "abbia ", "abbiamo ", "abbiate ",
    "abbiano ", "non ",
];

/// Portuguese verb tables: the negation before the forms.
pub const PT_PREFIXES: [&'static str; 1] = ["não "];

/// A German compound form (made with an auxiliary), or one ending in `…` or `!`, or holding a
/// comma: not kept.
pub open spec fn de_keep() -> spec_fn(FormView) -> bool {
    |f: FormView| !(f.1.contains("perfect"@) || f.1.contains("pluperfect"@) || f.1.contains("future-i"@) || f.1.contains(
        "future-ii"@,
    ) || f.1.contains("processual-passive"@) || f.1.contains("statal-passive"@)) && !(f.0.len() > 0 && (f.0.last() == '…'
        || f.0.last() == '!')) && !f.0.contains(',')
}

/// A German form without a leading `zu `, and, for an extended form, without a trailing
/// ` zu haben`.
pub open spec fn de_fix() -> spec_fn(FormView) -> FormView {
    |f: FormView| {
        let w = if "zu "@.is_prefix_of(f.0) { f.0.skip(3) } else { f.0 };
        let w2 = if f.1.contains("extended"@) && " zu haben"@.is_suffix_of(w) { w.take(w.len() - 9) } else { w };
        (w2, f.1, f.2)
    }
}

/// A Spanish form that is not a form of `haber`.
pub open spec fn es_keep() -> spec_fn(FormView) -> bool {
    |f: FormView| !str_views(HABER_AUX@).contains(f.0)
}

/// A French form that is neither compound, past conditional nor past imperative.
pub open spec fn fr_keep() -> spec_fn(FormView) -> bool {
    |f: FormView| !(f.1.contains("perfect"@) || f.1.contains("pluperfect"@) || f.1.contains("anterior"@)) && !(f.1.contains(
        "past"@,
    ) && f.1.contains("conditional"@)) && !(f.1.contains("past"@) && f.1.contains("imperative"@))
}

/// An Italian form that is neither compound nor a reflexive table title (ending in `)`).
pub open spec fn it_keep() -> spec_fn(FormView) -> bool {
    |f: FormView| !(f.1.contains("perfect"@) || f.1.contains("pluperfect"@) || f.1.contains("historic"@)) && !(f.0.len() > 0
        && f.0.last() == ')')
}

/// The forms of an entry as the tables of its edition should have given them.
pub open spec fn preprocessed_forms(
    edition: Edition,
    source: Lang,
    pos: Seq<char>,
    word: Seq<char>,
    fs: Seq<FormView>,
) -> Seq<FormView> {
    if edition == Edition::De && source == Lang::De && pos == "verb"@ {
        fs.map_values(form_stripped(str_views(DE_PRONOUNS@))).filter(de_keep()).map_values(de_fix())
    } else if edition == Edition::En && source == Lang::Ga {
        fs.map_values(form_stripped(str_views(GA_PREFIXES@)))
    } else if edition == Edition::Es && source == Lang::Es && pos == "verb"@ {
        if word != "haber"@ {
            fs.filter(es_keep())
        } else {
            fs
        }
    } else if edition == Edition::Fr && source == Lang::Fr && pos == "verb"@ {
        fs.map_values(form_stripped(str_views(FR_PRONOUNS@))).filter(fr_keep())
    } else if edition == Edition::It && source == Lang::It && pos == "verb"@ {
        fs.map_values(form_stripped(str_views(AVERE_AUX@))).filter(it_keep())
    } else if edition == Edition::Pt && source == Lang::Pt && pos == "verb"@ {
        fs.map_values(form_stripped(str_views(PT_PREFIXES@)))
    } else {
        fs
    }
}

/// `w` starts with one of the French personal pronouns.
pub open spec fn starts_with_fr_pronoun(w: Seq<char>) -> bool {
    exists|i: int| 0 <= i < FR_PRONOUNS@.len() && (#[trigger] FR_PRONOUNS@[i])@.is_prefix_of(w)
}

/// `v` is the form `f` with its leading French personal pronoun, if it has one, taken off: `f`'s
/// text is one of the pronouns followed by `v`'s text when it starts with a pronoun, and `v`'s
/// text otherwise; tags and ruby are `f`'s.
pub open spec fn fr_pronoun_dropped(v: FormView, f: FormView) -> bool {
    &&& v.1 == f.1
    &&& v.2 == f.2
    &&& if starts_with_fr_pronoun(f.0) {
        exists|i: int| 0 <= i < FR_PRONOUNS@.len() && f.0 == (#[trigger] FR_PRONOUNS@[i])@ + v.0
    } else {
        v.0 == f.0
    }
}

/// `v` is one of `fs` with its leading French personal pronoun taken off.
pub open spec fn from_fr_form(v: FormView, fs: Seq<FormView>) -> bool {
    exists|j: int| #![trigger fs[j]] 0 <= j < fs.len() && fr_pronoun_dropped(v, fs[j])
}

/// `strip_first_prefix` on the French pronouns takes off the leading pronoun, if any.
proof fn lemma_fr_strip(f: FormView)
    ensures
        fr_pronoun_dropped(form_stripped(str_views(FR_PRONOUNS@))(f), f),
{
    let ps = str_views(FR_PRONOUNS@);
    let w = f.0;
    lemma_first_index_spec(ps, prefix_of(w));
    let k = first_index(ps, prefix_of(w));
    let v = form_stripped(ps)(f);
    if k < ps.len() {
        assert(ps[k] == FR_PRONOUNS@[k]@);
        assert(ps[k].is_prefix_of(w));
        assert(w =~= ps[k] + w.skip(ps[k].len() as int));
        assert(starts_with_fr_pronoun(w));
    } else {
        assert(v.0 == w);
        if starts_with_fr_pronoun(w) {
            let i = choose|i: int| 0 <= i < FR_PRONOUNS@.len() && (#[trigger] FR_PRONOUNS@[i])@.is_prefix_of(w);
            assert(ps[i] == FR_PRONOUNS@[i]@);
            assert(!prefix_of(w)(ps[i]));
        }
    }
}

/// For a French verb of the French edition, every form that is kept is one of the entry's forms
/// with its leading personal pronoun (`je `, `j' `, `tu `, `il/elle/on `, `nous `, `vous `,
/// `ils/elles `) taken off: the text that follows the pronoun, with the form's tags and ruby.
pub proof fn lemma_fr_verb_forms_drop_pronouns(pos: Seq<char>, word: Seq<char>, fs: Seq<FormView>)
    requires
        pos == "verb"@,
    ensures
        forall|k: int| 0 <= k < preprocessed_forms(Edition::Fr, Lang::Fr, pos, word, fs).len()
            ==> from_fr_form(#[trigger] preprocessed_forms(Edition::Fr, Lang::Fr, pos, word, fs)[k], fs),
{
    let out = preprocessed_forms(Edition::Fr, Lang::Fr, pos, word, fs);
    let m = fs.map_values(form_stripped(str_views(FR_PRONOUNS@)));
    assert(out == m.filter(fr_keep()));
    assert forall|k: int| 0 <= k < out.len() implies from_fr_form(#[trigger] out[k], fs) by {
        assert(out.contains(out[k]));
        m.lemma_filter_contains_rev(fr_keep(), out[k]);
        let j = choose|j: int| 0 <= j < m.len() && m[j] == out[k];
        lemma_fr_strip(fs[j]);
        assert(fr_pronoun_dropped(out[k], fs[j]));
    }
}

/// The keep rule of number `which`: 0 German, 1 Spanish, 2 French, 3 Italian.
pub open spec fn keep_rule(which: u8) -> spec_fn(FormView) -> bool {
    if which == 0 {
        de_keep()
    } else if which == 1 {
        es_keep()
    } else if which == 2 {
        fr_keep()
    } else {
        it_keep()
    }
}

/// Whether a form follows keep rule `which`.
fn follows_rule(f: &Form, which: u8) -> (r: bool)
    ensures
        r == keep_rule(which)(form_view(*f)),
{
    let t = &f.tags;
    let w = f.form.as_str();
    if which == 0 {
        let compound = string_in(t, "perfect") || string_in(t, "pluperfect") || string_in(t, "future-i") || string_in(
            t,
            "future-ii",
        ) || string_in(t, "processual-passive") || string_in(t, "statal-passive");
        let cs = chars_of(w);
        let bad_end = cs.len() > 0 && (cs[cs.len() - 1] == '…' || cs[cs.len() - 1] == '!');
        !compound && !bad_end && !has_char(w, ',')
    } else if which == 1 {
        let aux: &[&str] = &HABER_AUX;
        !str_in(aux, w)
    } else if which == 2 {
        let compound = string_in(t, "perfect") || string_in(t, "pluperfect") || string_in(t, "anterior");
        let past = string_in(t, "past");
        !compound && !(past && string_in(t, "conditional")) && !(past && string_in(t, "imperative"))
    } else {
        let compound = string_in(t, "perfect") || string_in(t, "pluperfect") || string_in(t, "historic");
        let cs = chars_of(w);
        !compound && !(cs.len() > 0 && cs[cs.len() - 1] == ')')
    }
}

/// The forms that follow keep rule `which`, in order.
fn retain_forms(forms: &mut Vec<Form>, which: u8)
    ensures
        form_views(final(forms)@) == form_views(old(forms)@).filter(keep_rule(which)),
{
    let mut all: Vec<Form> = Vec::new();
    std::mem::swap(&mut all, forms);
    let ghost fv = form_views(all@);
    let mut kept: Vec<Form> = Vec::new();
    let mut rest = all;
    let n = rest.len();
    let mut i: usize = 0;
    assert(fv.take(0).filter(keep_rule(which)) =~= Seq::<FormView>::empty());
    while rest.len() > 0
        invariant
            n == fv.len(),
            i + rest@.len() == n,
            fv == form_views(old(forms)@),
            form_views(rest@) == fv.skip(i as int),
            form_views(kept@) == fv.take(i as int).filter(keep_rule(which)),
        decreases rest@.len(),
    {
        let ghost old_rest = rest@;
        let f = rest.remove(0);
        assert(form_view(f) == fv[i as int]) by {
            assert(fv.skip(i as int)[0] == fv[i as int]);
            assert(form_views(old_rest)[0] == form_view(old_rest[0]));
        }
        assert(rest@ =~= old_rest.drop_first());
        assert(form_views(rest@) =~= form_views(old_rest).drop_first());
        assert(form_views(rest@) =~= fv.skip(i + 1));
        proof { crate::seqs::lemma_filter_take(fv, keep_rule(which), i as int); }
        if follows_rule(&f, which) {
            let ghost before = form_views(kept@);
            kept.push(f);
            assert(form_views(kept@) =~= before.push(fv[i as int]));
        }
        i += 1;
    }
    assert(fv.take(n as int) =~= fv);
    *forms = kept;
}

/// Each form fixed as German forms are (see [`de_fix`]).
fn fix_de_forms(forms: &mut Vec<Form>)
    ensures
        form_views(final(forms)@) == form_views(old(forms)@).map_values(de_fix()),
{
    let ghost start = form_views(forms@);
    let mut i: usize = 0;
    while i < forms.len()
        invariant
            i <= forms@.len(),
            start == form_views(old(forms)@),
            forms@.len() == start.len(),
            forall|j: int| 0 <= j < i ==> #[trigger] form_views(forms@)[j] == de_fix()(start[j]),
            forall|j: int| i <= j < forms@.len() ==> #[trigger] form_views(forms@)[j] == start[j],
        decreases forms@.len() - i,
    {
        let ghost before = forms@;
        assert(form_views(before)[i as int] == start[i as int]);
        let f = forms.remove(i);
        let cs = chars_of(f.form.as_str());
        let w = if starts_with(f.form.as_str(), "zu ") {
            proof { reveal_strlit("zu "); }
            assert(f.form@.subrange(3, f.form@.len() as int) =~= f.form@.skip(3));
            string_of_range(&cs, 3, cs.len())
        } else {
            f.form.clone()
        };
        let w2 = if string_in(&f.tags, "extended") && ends_with(w.as_str(), " zu haben") {
            proof { reveal_strlit(" zu haben"); }
            let ws = chars_of(w.as_str());
            assert(w@.subrange(0, w@.len() - 9) =~= w@.take(w@.len() - 9));
            string_of_range(&ws, 0, ws.len() - 9)
        } else {
            w
        };
        let nf = Form { form: w2, tags: f.tags, ruby: f.ruby };
        assert(form_view(nf) == de_fix()(form_view(before[i as int])));
        forms.insert(i, nf);
        assert(forms@ =~= before.update(i as int, nf));
        assert(form_views(forms@) =~= form_views(before).update(i as int, form_view(nf)));
        i += 1;
    }
    assert(form_views(forms@) =~= start.map_values(de_fix()));
}

/// Fixes the forms of an entry as its edition's tables require (see [`preprocessed_forms`]);
/// nothing else of the entry changes.
pub fn preprocess_forms(edition: Edition, source: Lang, entry: &mut WordEntry)
    ensures
        form_views(final(entry).forms@) == preprocessed_forms(edition, source, old(entry).pos@, old(entry).word@, form_views(old(entry).forms@)),
        *final(entry) == (WordEntry { forms: final(entry).forms, ..*old(entry) }),
        edition == Edition::Fr && source == Lang::Fr && old(entry).pos@ == "verb"@ ==> forall|k: int|
            0 <= k < final(entry).forms@.len() ==> from_fr_form(
                #[trigger] form_views(final(entry).forms@)[k],
                form_views(old(entry).forms@),
            ),
{
    let verb = str_eq(entry.pos.as_str(), "verb");
    if edition == Edition::De && source == Lang::De && verb {
        strip_prefixes(&mut entry.forms, &DE_PRONOUNS);
        retain_forms(&mut entry.forms, 0);
        fix_de_forms(&mut entry.forms);
    } else if edition == Edition::En && source == Lang::Ga {
        strip_prefixes(&mut entry.forms, &GA_PREFIXES);
    } else if edition == Edition::Es && source == Lang::Es && verb {
        if !str_eq(entry.word.as_str(), "haber") {
            retain_forms(&mut entry.forms, 1);
        }
    } else if edition == Edition::Fr && source == Lang::Fr && verb {
        strip_prefixes(&mut entry.forms, &FR_PRONOUNS);
        retain_forms(&mut entry.forms, 2);
        proof {
            let out = preprocessed_forms(edition, source, old(entry).pos@, old(entry).word@, form_views(old(entry).forms@));
            assert(form_views(entry.forms@) == out);
            lemma_fr_verb_forms_drop_pronouns(old(entry).pos@, old(entry).word@, form_views(old(entry).forms@));
            assert forall|k: int| 0 <= k < entry.forms@.len() implies from_fr_form(
                #[trigger] form_views(entry.forms@)[k],
                form_views(old(entry).forms@),
            ) by {
                assert(form_views(entry.forms@)[k] == out[k]);
            }
        }
    } else if edition == Edition::It && source == Lang::It && verb {
        strip_prefixes(&mut entry.forms, &AVERE_AUX);
        retain_forms(&mut entry.forms, 3);
    } else if edition == Edition::Pt && source == Lang::Pt && verb {
        strip_prefixes(&mut entry.forms, &PT_PREFIXES);
    }
}

} // verus!
