//! What every dictionary shares: its languages, and which entries it keeps.
use vstd::prelude::*;
use crate::cli::{Options, filter_field};
use crate::lang::{Edition, Lang};
use crate::models::kaikki::WordEntry;
use crate::text::str_eq;

verus! {

/// The edition, source and target of one pass over a dataset.
#[derive(Debug, Clone, Copy, PartialEq, Eq, Structural, Hash)]
pub struct Langs {
    pub edition: Edition,
    pub source: Lang,
    pub target: Lang,
}

impl Langs {
    pub fn new(edition: Edition, source: Lang, target: Lang) -> (r: Langs)
        ensures
            r == (Langs { edition, source, target }),
    {
        Langs { edition, source, target }
    }
}

/// An entry that some `--reject` filter matches, or that some `--filter` filter does not match.
pub open spec fn is_rejected(entry: WordEntry, opts: Options) -> bool {
    (exists|i: int| 0 <= i < opts.reject@.len() && filter_field(opts.reject@[i].0, entry) == #[trigger] opts.reject@[i].1@)
        || !(forall|i: int| 0 <= i < opts.filter@.len() ==> filter_field(opts.filter@[i].0, entry) == #[trigger] opts.filter@[i].1@)
}

/// Whether the options leave `entry` out (see [`is_rejected`]).
pub fn rejected(entry: &WordEntry, opts: &Options) -> (r: bool)
    ensures
        r == is_rejected(*entry, *opts),
{
    let mut i: usize = 0;
    while i < opts.reject.len()
        invariant
            i <= opts.reject@.len(),
            forall|j: int| 0 <= j < i ==> filter_field(opts.reject@[j].0, *entry) != #[trigger] opts.reject@[j].1@,
        decreases opts.reject@.len() - i,
    {
        let (k, v) = &opts.reject[i];
        if str_eq(k.field_value(entry), v.as_str()) {
            return true;
        }
        i += 1;
    }
    let mut j: usize = 0;
    while j < opts.filter.len()
        invariant
            j <= opts.filter@.len(),
            forall|m: int| 0 <= m < j ==> filter_field(opts.filter@[m].0, *entry) == #[trigger] opts.filter@[m].1@,
        decreases opts.filter@.len() - j,
    {
        let (k, v) = &opts.filter[j];
        if !str_eq(k.field_value(entry), v.as_str()) {
            assert(filter_field(opts.filter@[j as int].0, *entry) != opts.filter@[j as int].1@);
            return true;
        }
        j += 1;
    }
    false
}

/// A quick look at the language code of a dataset line, before it is read in full: the line is
/// skipped when the code is not that of `lang`.
pub fn probe_skips(lang_code: &str, lang: Lang) -> (r: bool)
    ensures
        r == (lang_code@ != crate::lang::lang_iso(lang)),
{
    !str_eq(lang_code, lang.iso())
}

/// What becomes of an entry read from a dataset.
#[derive(Debug, Clone, Copy, PartialEq, Eq, Structural)]
pub enum EntryAction {
    /// Not read: left out by the options, or skipped by the dictionary.
    Ignore,
    /// Reading stops here: this entry is accepted beyond the first `first` ones that were asked
    /// for, so it is not read, nor is any after it.
    Stop,
    /// Read into the dictionary.
    Read,
}

/// Decides what becomes of an entry (see [`EntryAction`]), given how many entries were accepted
/// before it; gives the new count. An entry that the options reject is ignored and not counted;
/// an accepted entry is counted, and reading stops at the first accepted entry beyond the first
/// `first` ones, so that those are kept (a negative `first` keeps all); an entry that the
/// dictionary skips is ignored.
pub fn entry_action(accepted: u64, first: i32, is_rejected: bool, skipped: bool) -> (r: (u64, EntryAction))
    ensures
        is_rejected ==> r == (accepted, EntryAction::Ignore),
        !is_rejected ==> r.0 == (if accepted < u64::MAX { accepted + 1 } else { accepted as int }),
        !is_rejected && first >= 0 && r.0 > first ==> r.1 == EntryAction::Stop,
        !is_rejected && !(first >= 0 && r.0 > first) && skipped ==> r.1 == EntryAction::Ignore,
        !is_rejected && !(first >= 0 && r.0 > first) && !skipped ==> r.1 == EntryAction::Read,
{
    if is_rejected {
        return (accepted, EntryAction::Ignore);
    }
    let count = accepted.saturating_add(1);
    if first >= 0 && count > first as u64 {
        return (count, EntryAction::Stop);
    }
    if skipped {
        (count, EntryAction::Ignore)
    } else {
        (count, EntryAction::Read)
    }
}

} // verus!
