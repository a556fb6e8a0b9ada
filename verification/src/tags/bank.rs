//! Lookups in the tag bank.
use vstd::prelude::*;
use crate::lang::Lang;
use crate::models::yomitan::{TagInfo, tag_info_is};
use crate::text::{owned, str_eq};
use super::data::{
    TAG_ALIAS, TAG_ALIAS_ENTRY, TAG_BANK_LEN, TAG_CATEGORY, TAG_LONG, TAG_POPULARITY, TAG_SHORT,
    TAG_SORT_ORDER,
};
use super::localization::{localize_tag, tag_localization};

verus! {

/// `t` is bank entry `i`, with its long form.
pub open spec fn bank_info_is(t: TagInfo, i: int) -> bool {
    tag_info_is(t, TAG_SHORT@[i]@, TAG_CATEGORY@[i]@, TAG_SORT_ORDER@[i], TAG_LONG@[i]@, TAG_POPULARITY@[i])
}

/// `t` is bank entry `i` as shown in `target`: its forms localized when there is a
/// localization, else the English ones.
pub open spec fn localized_bank_info_is(t: TagInfo, i: int, target: Lang) -> bool {
    match tag_localization(target, TAG_SHORT@[i]@) {
        Some((short_tag, long_tag)) => tag_info_is(
            t,
            short_tag,
            TAG_CATEGORY@[i]@,
            TAG_SORT_ORDER@[i],
            long_tag,
            TAG_POPULARITY@[i],
        ),
        None => bank_info_is(t, i),
    }
}

/// Every alias belongs to an entry of the bank.
proof fn lemma_alias_entries_in_bank()
    ensures
        forall|k: int| 0 <= k < TAG_ALIAS_ENTRY@.len() ==> TAG_ALIAS_ENTRY@[k] < TAG_BANK_LEN,
{
}

/// Bank entry `i`.
fn bank_tag_info(i: usize) -> (r: TagInfo)
    requires
        i < TAG_BANK_LEN,
    ensures
        bank_info_is(r, i as int),
{
    TagInfo {
        short_tag: owned(TAG_SHORT[i]),
        category: owned(TAG_CATEGORY[i]),
        sort_order: TAG_SORT_ORDER[i],
        long_tag: owned(TAG_LONG[i]),
        popularity_score: TAG_POPULARITY[i],
    }
}

/// The whole tag bank (the partial tables of [`crate::tags::data`]) as shown in `target`: each entry's forms are localized when `target` has
/// a localization for it, and stay English otherwise (always, for a language without locale).
pub fn get_tag_bank_as_tag_info(target: Lang) -> (r: Vec<TagInfo>)
    ensures
        r@.len() == TAG_BANK_LEN,
        forall|i: int| 0 <= i < TAG_BANK_LEN ==> localized_bank_info_is(#[trigger] r@[i], i, target),
{
    let mut r: Vec<TagInfo> = Vec::new();
    let mut i: usize = 0;
    while i < TAG_BANK_LEN
        invariant
            i <= TAG_BANK_LEN,
            r@.len() == i,
            forall|j: int| 0 <= j < i ==> localized_bank_info_is(#[trigger] r@[j], j, target),
        decreases TAG_BANK_LEN - i,
    {
        let info = match localize_tag(target, TAG_SHORT[i]) {
            Some((short_tag, long_tag)) => TagInfo {
                short_tag: owned(short_tag),
                category: owned(TAG_CATEGORY[i]),
                sort_order: TAG_SORT_ORDER[i],
                long_tag: owned(long_tag),
                popularity_score: TAG_POPULARITY[i],
            },
            None => bank_tag_info(i),
        };
        r.push(info);
        i += 1;
    }
    r
}

/// The first position, among the aliases of all entries, where `tag` is listed.
pub open spec fn first_alias_at(tag: Seq<char>, k: int) -> bool {
    &&& 0 <= k < TAG_ALIAS@.len()
    &&& TAG_ALIAS@[k]@ == tag
    &&& forall|j: int| 0 <= j < k ==> TAG_ALIAS@[j]@ != tag
}

/// The position of the first alias equal to `tag`, if any.
fn find_alias(tag: &str) -> (r: Option<usize>)
    ensures
        match r {
            Some(k) => first_alias_at(tag@, k as int),
            None => forall|j: int| 0 <= j < TAG_ALIAS@.len() ==> TAG_ALIAS@[j]@ != tag@,
        },
{
    let mut k: usize = 0;
    while k < TAG_ALIAS.len()
        invariant
            k <= TAG_ALIAS@.len(),
            forall|j: int| 0 <= j < k ==> TAG_ALIAS@[j]@ != tag@,
        decreases TAG_ALIAS@.len() - k,
    {
        if str_eq(TAG_ALIAS[k], tag) {
            return Some(k);
        }
        k += 1;
    }
    None
}

/// The bank entry of which `tag` is a long form (the entry of its first listing), if any. The bank
/// is partial (see [`crate::tags::data`]): a tag outside it gives `None`.
pub fn find_tag_in_bank(tag: &str) -> (r: Option<TagInfo>)
    ensures
        match r {
            Some(info) => exists|k: int|
                first_alias_at(tag@, k) && bank_info_is(info, TAG_ALIAS_ENTRY@[k] as int),
            None => forall|j: int| 0 <= j < TAG_ALIAS@.len() ==> TAG_ALIAS@[j]@ != tag@,
        },
{
    match find_alias(tag) {
        Some(k) => {
            proof { lemma_alias_entries_in_bank(); }
            let info = bank_tag_info(TAG_ALIAS_ENTRY[k]);
            assert(first_alias_at(tag@, k as int));
            Some(info)
        },
        None => None,
    }
}

/// The short form of the part of speech `pos`: the short form of the part-of-speech entry
/// of the first alias equal to `pos`.
pub open spec fn short_pos_at(pos: Seq<char>, k: int) -> bool {
    &&& 0 <= k < TAG_ALIAS@.len()
    &&& TAG_ALIAS@[k]@ == pos
    &&& TAG_CATEGORY@[TAG_ALIAS_ENTRY@[k] as int]@ == "partOfSpeech"@
    &&& forall|j: int| 0 <= j < k && TAG_ALIAS@[j]@ == pos
        ==> TAG_CATEGORY@[TAG_ALIAS_ENTRY@[j] as int]@ != "partOfSpeech"@
}

/// No part-of-speech entry has `pos` as a long form.
pub open spec fn no_short_pos(pos: Seq<char>) -> bool {
    forall|j: int| 0 <= j < TAG_ALIAS@.len() && TAG_ALIAS@[j]@ == pos
        ==> TAG_CATEGORY@[TAG_ALIAS_ENTRY@[j] as int]@ != "partOfSpeech"@
}

/// The short form of the part of speech `pos` (see [`short_pos_at`]), or `pos` itself when no
/// part-of-speech entry has it as a long form.
pub open spec fn short_pos_of(pos: Seq<char>) -> Seq<char> {
    if no_short_pos(pos) {
        pos
    } else {
        TAG_SHORT@[TAG_ALIAS_ENTRY@[choose|k: int| short_pos_at(pos, k)] as int]@
    }
}

/// A part of speech is listed at most once first as a part of speech.
pub proof fn lemma_short_pos_at_unique(pos: Seq<char>, k1: int, k2: int)
    requires
        short_pos_at(pos, k1),
        short_pos_at(pos, k2),
    ensures
        k1 == k2,
{
    if k1 < k2 {
        assert(TAG_CATEGORY@[TAG_ALIAS_ENTRY@[k1] as int]@ != "partOfSpeech"@);
    }
    if k2 < k1 {
        assert(TAG_CATEGORY@[TAG_ALIAS_ENTRY@[k2] as int]@ != "partOfSpeech"@);
    }
}

/// The short form of a part of speech, if the bank has it.
fn find_short_pos(pos: &str) -> (r: Option<&'static str>)
    ensures
        match r {
            Some(s) => exists|k: int| short_pos_at(pos@, k) && s@ == TAG_SHORT@[TAG_ALIAS_ENTRY@[k] as int]@,
            None => no_short_pos(pos@),
        },
{
    proof { lemma_alias_entries_in_bank(); }
    let mut k: usize = 0;
    while k < TAG_ALIAS.len()
        invariant
            k <= TAG_ALIAS@.len(),
            forall|j: int| 0 <= j < TAG_ALIAS_ENTRY@.len() ==> TAG_ALIAS_ENTRY@[j] < TAG_BANK_LEN,
            forall|j: int| 0 <= j < k && TAG_ALIAS@[j]@ == pos@
                ==> TAG_CATEGORY@[TAG_ALIAS_ENTRY@[j] as int]@ != "partOfSpeech"@,
        decreases TAG_ALIAS@.len() - k,
    {
        if str_eq(TAG_ALIAS[k], pos) {
            let e = TAG_ALIAS_ENTRY[k];
            if str_eq(TAG_CATEGORY[e], "partOfSpeech") {
                assert(short_pos_at(pos@, k as int));
                return Some(TAG_SHORT[e]);
            }
        }
        k += 1;
    }
    None
}

/// The short form of a part of speech (`"n"` for `"noun"`), or `pos` itself when the bank
/// does not have it.
pub fn find_short_pos_or_default(pos: &str) -> (r: &str)
    ensures
        r@ == short_pos_of(pos@),
        no_short_pos(pos@) ==> r@ == pos@,
        !no_short_pos(pos@) ==> exists|k: int| short_pos_at(pos@, k) && r@ == TAG_SHORT@[TAG_ALIAS_ENTRY@[k] as int]@,
{
    match find_short_pos(pos) {
        Some(s) => {
            proof {
                let k = choose|k: int| short_pos_at(pos@, k) && s@ == TAG_SHORT@[TAG_ALIAS_ENTRY@[k] as int]@;
                let c = choose|k: int| short_pos_at(pos@, k);
                lemma_short_pos_at_unique(pos@, k, c);
            }
            s
        },
        None => pos,
    }
}

/// The bank entry of a long form: the entry of its first listing, if it is listed.
pub open spec fn bank_entry_of(tag: Seq<char>) -> Option<int> {
    if exists|k: int| first_alias_at(tag, k) {
        Some(TAG_ALIAS_ENTRY@[choose|k: int| first_alias_at(tag, k)] as int)
    } else {
        None
    }
}

/// A tag is listed at most once first.
pub proof fn lemma_first_alias_unique(tag: Seq<char>, k1: int, k2: int)
    requires
        first_alias_at(tag, k1),
        first_alias_at(tag, k2),
    ensures
        k1 == k2,
{
    if k1 < k2 {
        assert(TAG_ALIAS@[k1]@ != tag);
    }
    if k2 < k1 {
        assert(TAG_ALIAS@[k2]@ != tag);
    }
}

/// The bank entry of a long form (see [`bank_entry_of`]).
pub fn find_tag_entry(tag: &str) -> (r: Option<usize>)
    ensures
        match r {
            Some(e) => bank_entry_of(tag@) == Some(e as int) && e < TAG_BANK_LEN,
            None => bank_entry_of(tag@) is None,
        },
{
    match find_alias(tag) {
        Some(k) => {
            proof {
                lemma_alias_entries_in_bank();
                let c = choose|j: int| first_alias_at(tag@, j);
                lemma_first_alias_unique(tag@, k as int, c);
            }
            Some(TAG_ALIAS_ENTRY[k])
        },
        None => None,
    }
}

/// The bank entry `i` as a tag.
pub fn bank_entry_info(i: usize) -> (r: TagInfo)
    requires
        i < TAG_BANK_LEN,
    ensures
        bank_info_is(r, i as int),
{
    bank_tag_info(i)
}

} // verus!
