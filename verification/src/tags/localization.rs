//! Localized short and long forms of bank tags.
use vstd::prelude::*;
use crate::lang::Lang;
use super::{position_in, rank_in};
use super::data::{LOC_DE_KEYS, LOC_DE_LONG, LOC_DE_SHORT, LOC_JA_KEYS, LOC_JA_LONG, LOC_JA_SHORT};
use crate::text::{owned, str_views};
use crate::models::yomitan::TagInfo;

verus! {

/// The languages that tags are localized into.
pub fn has_locale(lang: Lang) -> (r: bool)
    ensures
        r == (lang == Lang::De || lang == Lang::Ja),
{
    match lang {
        Lang::De => true,
        Lang::Ja => true,
        _ => false,
    }
}

/// What a table of localizations gives for `short_tag`: the forms at the first position of
/// `short_tag` among `keys`.
pub open spec fn table_localization(
    keys: Seq<&str>,
    shorts: Seq<&str>,
    longs: Seq<&str>,
    short_tag: Seq<char>,
) -> Option<(Seq<char>, Seq<char>)> {
    let i = rank_in(str_views(keys), short_tag);
    if i < keys.len() && i < shorts.len() && i < longs.len() {
        Some((shorts[i]@, longs[i]@))
    } else {
        None
    }
}

/// The localized (short, long) forms of a bank short tag in `lang`, if there are some.
pub open spec fn tag_localization(lang: Lang, short_tag: Seq<char>) -> Option<(Seq<char>, Seq<char>)> {
    match lang {
        Lang::De => table_localization(LOC_DE_KEYS@, LOC_DE_SHORT@, LOC_DE_LONG@, short_tag),
        Lang::Ja => table_localization(LOC_JA_KEYS@, LOC_JA_SHORT@, LOC_JA_LONG@, short_tag),
        _ => None,
    }
}

proof fn lemma_rank_in_bound(order: Seq<Seq<char>>, w: Seq<char>)
    ensures
        0 <= rank_in(order, w) <= order.len(),
    decreases order.len(),
{
    if order.len() > 0 {
        lemma_rank_in_bound(order.drop_first(), w);
    }
}

/// Looks `short_tag` up in one table.
fn localize_in(
    keys: &[&'static str],
    shorts: &[&'static str],
    longs: &[&'static str],
    short_tag: &str,
) -> (r: Option<(&'static str, &'static str)>)
    ensures
        match r {
            Some((a, b)) => table_localization(keys@, shorts@, longs@, short_tag@) == Some((a@, b@)),
            None => table_localization(keys@, shorts@, longs@, short_tag@) is None,
        },
{
    let i = position_in(keys, short_tag);
    proof { lemma_rank_in_bound(str_views(keys@), short_tag@); }
    if i < keys.len() && i < shorts.len() && i < longs.len() {
        Some((shorts[i], longs[i]))
    } else {
        None
    }
}

/// The localized (short, long) forms of a bank short tag in `lang`: `("動", "動詞")` for `"v"`
/// in Japanese.
pub fn localize_tag(lang: Lang, short_tag: &str) -> (r: Option<(&'static str, &'static str)>)
    ensures
        match r {
            Some((a, b)) => tag_localization(lang, short_tag@) == Some((a@, b@)),
            None => tag_localization(lang, short_tag@) is None,
        },
{
    match lang {
        Lang::De => localize_in(&LOC_DE_KEYS, &LOC_DE_SHORT, &LOC_DE_LONG, short_tag),
        Lang::Ja => localize_in(&LOC_JA_KEYS, &LOC_JA_SHORT, &LOC_JA_LONG, short_tag),
        _ => None,
    }
}

/// Localizes the short and long forms of `info` in `target` when there is a localization for
/// its short form; the other fields stay.
pub fn localize_tag_info(target: Lang, info: &mut TagInfo)
    ensures
        match tag_localization(target, old(info).short_tag@) {
            Some((short_tag, long_tag)) => final(info).short_tag@ == short_tag && final(info).long_tag@ == long_tag,
            None => final(info).short_tag@ == old(info).short_tag@ && final(info).long_tag@ == old(info).long_tag@,
        },
        final(info).category == old(info).category,
        final(info).sort_order == old(info).sort_order,
        final(info).popularity_score == old(info).popularity_score,
{
    match localize_tag(target, info.short_tag.as_str()) {
        Some((short_tag, long_tag)) => {
            info.short_tag = owned(short_tag);
            info.long_tag = owned(long_tag);
        },
        None => {},
    }
}

/// Only the languages with a locale localize tags.
pub proof fn lemma_no_locale_no_localization(lang: Lang, short_tag: Seq<char>)
    requires
        !(lang == Lang::De || lang == Lang::Ja),
    ensures
        tag_localization(lang, short_tag) is None,
{
}

} // verus!
