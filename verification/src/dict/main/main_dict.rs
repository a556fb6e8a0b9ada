//! The main dictionary: what it skips, how it prepares and reads an entry, how it tidies what
//! it read, and the Yomitan terms it makes.
use vstd::prelude::*;
use crate::cli::Options;
use crate::dict::common::Langs;
use crate::lang::Lang;
use crate::models::kaikki::WordEntry;
use crate::models::yomitan::{TermInfo, TermInfoForm};
use super::ir::{
    LemmaInfo, Tidy, entry_forms_inserted, form_map_view, lemma_info_is, lemma_inserted, lemma_map_view,
    lemma_reading, no_gloss, no_gloss_inserted, process_main, should_skip_entry,
};
use super::postprocess::{entry_tidied, postprocess_main};
use super::senses::{entry_preprocessed, preprocess_forms_added, preprocess_main};
use super::terms::{
    form_term_is, forms_renderable, lemma_map_ok, lemma_map_renderable, lemma_rows, lemma_term_is, to_yomitan_forms,
    to_yomitan_lemmas,
};

verus! {

/// The main dictionary.
#[derive(Debug, Clone, Copy)]
pub struct DMain;

impl DMain {
    /// Entries that are left out (see [`should_skip_entry`]).
    pub fn skip_if(&self, entry: &WordEntry) -> (r: bool)
        ensures
            r == (entry.pos@ == "romanization"@),
    {
        should_skip_entry(entry)
    }

    /// Prepares an entry before it is read (see [`preprocess_main`]).
    pub fn preprocess(&self, langs: Langs, entry: &mut WordEntry, opts: &Options, irs: &mut Tidy)
        ensures
            entry_preprocessed(langs.edition, langs.source, opts.experimental, *old(entry), *final(entry)),
            form_map_view(final(irs).form_map) == preprocess_forms_added(
                langs.edition,
                langs.source,
                opts.experimental,
                *old(entry),
                *final(entry),
                form_map_view(old(irs).form_map),
            ),
            final(irs).lemma_map == old(irs).lemma_map,
    {
        preprocess_main(langs.edition, langs.source, opts, entry, irs);
    }

    /// Reads an entry (see [`process_main`]).
    pub fn process(&self, langs: Langs, entry: &WordEntry, irs: &mut Tidy)
        requires
            !no_gloss(*entry) ==> entry.word@.len() > 0,
        ensures
            no_gloss(*entry) ==> form_map_view(final(irs).form_map) == no_gloss_inserted(
                langs.edition,
                *entry,
                entry_forms_inserted(langs.edition, langs.source, *entry, form_map_view(old(irs).form_map)),
            ) && final(irs).lemma_map == old(irs).lemma_map,
            !no_gloss(*entry) ==> form_map_view(final(irs).form_map) == entry_forms_inserted(
                langs.edition,
                langs.source,
                *entry,
                form_map_view(old(irs).form_map),
            ) && exists|info: LemmaInfo|
                lemma_info_is(info, langs.edition, langs.source, *entry) && lemma_map_view(final(irs).lemma_map)
                    == lemma_inserted(
                    lemma_map_view(old(irs).lemma_map),
                    (entry.word@, lemma_reading(langs.edition, langs.source, *entry), entry.pos@),
                    info,
                ),
    {
        process_main(langs.edition, langs.source, entry, irs);
    }

    /// Tidies what was read (see [`postprocess_main`]).
    pub fn postprocess(&self, irs: &mut Tidy)
        ensures
            form_map_view(final(irs).form_map) == form_map_view(old(irs).form_map).map_values(entry_tidied()),
            final(irs).lemma_map == old(irs).lemma_map,
    {
        postprocess_main(irs);
    }

    /// The Yomitan terms: one per lemma entry, in `target` (see [`lemma_term_is`]), then one per
    /// form of a `source` word (see [`form_term_is`]).
    pub fn to_yomitan(&self, source: Lang, target: Lang, irs: &Tidy) -> (r: (Vec<TermInfo>, Vec<TermInfoForm>))
        requires
            lemma_map_ok(lemma_map_view(irs.lemma_map)),
            forall|i: int| 0 <= i < form_map_view(irs.form_map).len() ==> (#[trigger] form_map_view(irs.form_map)[i]).0.1.len() > 0,
        ensures
            r.0@.len() == lemma_rows(lemma_map_view(irs.lemma_map)).len(),
            forall|k: int| 0 <= k < r.0@.len() ==> {
                let row = #[trigger] lemma_rows(lemma_map_view(irs.lemma_map))[k];
                lemma_term_is(r.0@[k], target, row.0.0, row.0.1, row.0.2, row.1)
            },
            r.1@.len() == form_map_view(irs.form_map).len(),
            forall|i: int| 0 <= i < r.1@.len() ==> form_term_is(#[trigger] r.1@[i], source, form_map_view(irs.form_map)[i]),
    {
        (to_yomitan_lemmas(target, &irs.lemma_map), to_yomitan_forms(source, &irs.form_map))
    }

    /// The Yomitan terms (see [`DMain::to_yomitan`]) when every lemma entry and form can be made
    /// a term (see [`lemma_map_ok`]); none otherwise.
    pub fn try_to_yomitan(&self, source: Lang, target: Lang, irs: &Tidy) -> (r: Option<(Vec<TermInfo>, Vec<TermInfoForm>)>)
        ensures
            r is Some <==> (lemma_map_ok(lemma_map_view(irs.lemma_map)) && forall|i: int|
                0 <= i < form_map_view(irs.form_map).len() ==> (#[trigger] form_map_view(irs.form_map)[i]).0.1.len() > 0),
            r is Some ==> {
                let t = r->0;
                &&& t.0@.len() == lemma_rows(lemma_map_view(irs.lemma_map)).len()
                &&& forall|k: int| 0 <= k < t.0@.len() ==> {
                    let row = #[trigger] lemma_rows(lemma_map_view(irs.lemma_map))[k];
                    lemma_term_is(t.0@[k], target, row.0.0, row.0.1, row.0.2, row.1)
                }
                &&& t.1@.len() == form_map_view(irs.form_map).len()
                &&& forall|i: int| 0 <= i < t.1@.len() ==> form_term_is(#[trigger] t.1@[i], source, form_map_view(irs.form_map)[i])
            },
    {
        if lemma_map_renderable(&irs.lemma_map) && forms_renderable(&irs.form_map) {
            Some(self.to_yomitan(source, target, irs))
        } else {
            None
        }
    }
}

} // verus!
