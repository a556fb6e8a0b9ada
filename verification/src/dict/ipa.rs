//! The IPA dictionaries: the phonetic transcriptions of each word.
use vstd::prelude::*;
use crate::dict::common::Langs;
use crate::dict::main::ir::{get_reading, reading_of};
use crate::lang::{Edition, Lang};
use crate::order::{lemma_pair_total_ordering, pair_before, pair_le, pair_order};
use vstd::relations::{sorted_by, total_ordering};
use crate::models::kaikki::{Sound, WordEntry};
use crate::models::yomitan::{Ipa, PhoneticTranscription, TermMeta, TermPhoneticTranscription};
use crate::seqs::{first_index, lemma_first_index, lemma_first_index_spec, lemma_filter_take};
use crate::tags::bank::{bank_info_is, find_tag_in_bank, first_alias_at, lemma_first_alias_unique};
use crate::tags::data::{TAG_ALIAS, TAG_ALIAS_ENTRY, TAG_SHORT};
use crate::tags::localization::{localize_tag, tag_localization};
use crate::text::{chars_of, clone_strings, owned, push_char, string_of_range, views};

verus! {

/// A transcription made uniform: `[X]` and `/X/` stay, `\X\` and a bare `X` become `/X/`.
/// (`\X\` is found in the French edition.) `/.../` is a phonemic transcription, `[...]` a
/// phonetic one.
pub open spec fn normalized_ipa(t: Seq<char>) -> Seq<char> {
    if t.len() > 0 && t[0] == '[' && t.last() == ']' {
        t
    } else if t.len() > 0 && t[0] == '/' && t.last() == '/' {
        t
    } else if t.len() > 1 && t[0] == '\\' && t.last() == '\\' {
        seq!['/'] + t.subrange(1, t.len() - 1) + seq!['/']
    } else {
        seq!['/'] + t + seq!['/']
    }
}

/// A transcription without its delimiters `[]`, `//` or `\\`, for comparing transcriptions.
pub open spec fn inner_ipa(t: Seq<char>) -> Seq<char> {
    if t.len() > 0 && t[0] == '[' && t.last() == ']' {
        t.subrange(1, t.len() - 1)
    } else if t.len() > 1 && ((t[0] == '/' && t.last() == '/') || (t[0] == '\\' && t.last() == '\\')) {
        t.subrange(1, t.len() - 1)
    } else {
        t
    }
}

/// A phonetic transcription: `[...]`.
pub open spec fn phonetic(t: Seq<char>) -> bool {
    t.len() > 0 && t[0] == '[' && t.last() == ']'
}

/// Normalizing keeps what a transcription says: its inner part is unchanged.
pub proof fn lemma_normalize_keeps_inner(t: Seq<char>)
    ensures
        inner_ipa(normalized_ipa(t)) == inner_ipa(t),
{
    let n = normalized_ipa(t);
    if t.len() > 0 && t[0] == '[' && t.last() == ']' {
    } else if t.len() > 0 && t[0] == '/' && t.last() == '/' {
    } else if t.len() > 1 && t[0] == '\\' && t.last() == '\\' {
        assert(n.subrange(1, n.len() - 1) =~= t.subrange(1, t.len() - 1));
    } else {
        assert(n.subrange(1, n.len() - 1) =~= t);
    }
}

/// Normalizing twice is normalizing once.
pub proof fn lemma_normalize_idempotent(t: Seq<char>)
    ensures
        normalized_ipa(normalized_ipa(t)) == normalized_ipa(t),
{
}

/// `t` made uniform (see [`normalized_ipa`]).
pub fn normalize_ipa(text: &str) -> (r: String)
    ensures
        r@ == normalized_ipa(text@),
{
    let cs = chars_of(text);
    let n = cs.len();
    if n > 0 && cs[0] == '[' && cs[n - 1] == ']' {
        owned(text)
    } else if n > 0 && cs[0] == '/' && cs[n - 1] == '/' {
        owned(text)
    } else if n > 1 && cs[0] == '\\' && cs[n - 1] == '\\' {
        let mut r = String::new();
        push_char(&mut r, '/');
        let mid = string_of_range(&cs, 1, n - 1);
        r.append(mid.as_str());
        push_char(&mut r, '/');
        assert(r@ =~= seq!['/'] + text@.subrange(1, text@.len() - 1) + seq!['/']);
        r
    } else {
        let mut r = String::new();
        push_char(&mut r, '/');
        r.append(text);
        push_char(&mut r, '/');
        assert(r@ =~= seq!['/'] + text@ + seq!['/']);
        r
    }
}

/// `t` without its delimiters (see [`inner_ipa`]).
pub fn ipa_inner(text: &str) -> (r: String)
    ensures
        r@ == inner_ipa(text@),
{
    let cs = chars_of(text);
    let n = cs.len();
    if n > 0 && cs[0] == '[' && cs[n - 1] == ']' {
        string_of_range(&cs, 1, n - 1)
    } else if n > 1 && ((cs[0] == '/' && cs[n - 1] == '/') || (cs[0] == '\\' && cs[n - 1] == '\\')) {
        string_of_range(&cs, 1, n - 1)
    } else {
        owned(text)
    }
}

/// Whether `t` is a phonetic transcription `[...]`.
pub fn is_phonetic(text: &str) -> (r: bool)
    ensures
        r == phonetic(text@),
{
    let cs = chars_of(text);
    let n = cs.len();
    n > 0 && cs[0] == '[' && cs[n - 1] == ']'
}

/// A transcription and its tags, as character sequences.
pub type IpaView = (Seq<char>, Seq<Seq<char>>);

/// The view of a transcription.
pub open spec fn ipa_view(i: Ipa) -> IpaView {
    (i.ipa@, views(i.tags@))
}

/// The views of transcriptions.
pub open spec fn ipa_views(s: Seq<Ipa>) -> Seq<IpaView> {
    s.map_values(|i: Ipa| ipa_view(i))
}

/// A sound with a transcription.
pub open spec fn sound_has_ipa() -> spec_fn(Sound) -> bool {
    |s: Sound| s.ipa@.len() > 0
}

/// The transcription of a sound: normalized, with the sound's tags and then its note, if any.
pub open spec fn sound_ipa() -> spec_fn(Sound) -> IpaView {
    |s: Sound| (
        normalized_ipa(s.ipa@),
        views(s.tags@) + (if s.note@.len() > 0 {
            seq![s.note@]
        } else {
            Seq::<Seq<char>>::empty()
        }),
    )
}

/// `v` keeps all that the sound `s` says: its transcription normalized, each of its tags, and its
/// note when it has one.
pub open spec fn keeps_sound(v: IpaView, s: Sound) -> bool {
    &&& s.ipa@.len() > 0
    &&& v.0 == normalized_ipa(s.ipa@)
    &&& s.note@.len() > 0 ==> v.1.contains(s.note@)
    &&& forall|t: int| 0 <= t < s.tags@.len() ==> v.1.contains(#[trigger] s.tags@[t]@)
}

/// The `k`-th transcription taken from the sounds keeps all that some sound says.
proof fn lemma_ipa_keeps_sound_at(sounds: Seq<Sound>, k: int)
    requires
        0 <= k < sounds.filter(sound_has_ipa()).len(),
    ensures
        exists|j: int| #![trigger sounds[j]]
            0 <= j < sounds.len() && keeps_sound(sounds.filter(sound_has_ipa()).map_values(sound_ipa())[k], sounds[j]),
{
    let f = sounds.filter(sound_has_ipa());
    assert(f.contains(f[k]));
    sounds.lemma_filter_contains_rev(sound_has_ipa(), f[k]);
    sounds.lemma_filter_pred(sound_has_ipa(), k);
    let j = choose|j: int| 0 <= j < sounds.len() && sounds[j] == f[k];
    let s = sounds[j];
    let v = sounds.filter(sound_has_ipa()).map_values(sound_ipa())[k];
    assert(v == sound_ipa()(s));
    let tags = v.1;
    assert(tags == views(s.tags@) + (if s.note@.len() > 0 { seq![s.note@] } else { Seq::<Seq<char>>::empty() }));
    if s.note@.len() > 0 {
        assert(tags[views(s.tags@).len() as int] == s.note@);
    }
    assert forall|t: int| 0 <= t < s.tags@.len() implies tags.contains(#[trigger] s.tags@[t]@) by {
        assert(tags[t] == views(s.tags@)[t]);
    }
    assert(keeps_sound(v, sounds[j]));
}

/// `v` keeps all that some sound of `sounds` says.
pub open spec fn from_some_sound(v: IpaView, sounds: Seq<Sound>) -> bool {
    exists|j: int| #![trigger sounds[j]] 0 <= j < sounds.len() && keeps_sound(v, sounds[j])
}

/// Each of `out` keeps all that some sound of `sounds` says.
pub open spec fn keeps_sounds(out: Seq<IpaView>, sounds: Seq<Sound>) -> bool {
    forall|k: int| 0 <= k < out.len() ==> from_some_sound(#[trigger] out[k], sounds)
}

/// Each transcription taken from an entry's sounds comes from one sound with a transcription and
/// keeps all that the sound says (see [`keeps_sound`]; the note says when the pronunciation
/// applies); and there is one for each sound with a transcription.
pub proof fn lemma_ipas_keep_sound_notes(sounds: Seq<Sound>)
    ensures
        keeps_sounds(sounds.filter(sound_has_ipa()).map_values(sound_ipa()), sounds),
        sounds.filter(sound_has_ipa()).map_values(sound_ipa()).len() == sounds.filter(|s: Sound| s.ipa@.len() > 0).len(),
{
    let out = sounds.filter(sound_has_ipa()).map_values(sound_ipa());
    assert forall|k: int| 0 <= k < out.len() implies from_some_sound(#[trigger] out[k], sounds) by {
        lemma_ipa_keeps_sound_at(sounds, k);
    }
    assert(sound_has_ipa() =~= (|s: Sound| s.ipa@.len() > 0));
}

/// The transcriptions of an entry's sounds, in order.
pub fn get_ipas(entry: &WordEntry) -> (r: Vec<Ipa>)
    ensures
        ipa_views(r@) == entry.sounds@.filter(sound_has_ipa()).map_values(sound_ipa()),
        keeps_sounds(ipa_views(r@), entry.sounds@),
{
    let mut r: Vec<Ipa> = Vec::new();
    let mut i: usize = 0;
    assert(entry.sounds@.take(0) =~= Seq::<Sound>::empty());
    while i < entry.sounds.len()
        invariant
            i <= entry.sounds@.len(),
            ipa_views(r@) == entry.sounds@.take(i as int).filter(sound_has_ipa()).map_values(sound_ipa()),
        decreases entry.sounds@.len() - i,
    {
        let sound = &entry.sounds[i];
        proof { lemma_filter_take(entry.sounds@, sound_has_ipa(), i as int); }
        if !sound.ipa.as_str().is_empty() {
            let mut tags = clone_strings(&sound.tags);
            if !sound.note.as_str().is_empty() {
                tags.push(sound.note.clone());
            }
            let ipa = Ipa { ipa: normalize_ipa(sound.ipa.as_str()), tags };
            assert(ipa_view(ipa) == sound_ipa()(*sound)) by {
                assert(views(ipa.tags@) =~= sound_ipa()(*sound).1);
            }
            let ghost before = r@;
            r.push(ipa);
            assert(ipa_views(r@) =~= ipa_views(before).push(ipa_view(ipa)));
            assert(entry.sounds@.take(i + 1).filter(sound_has_ipa()).map_values(sound_ipa())
                =~= entry.sounds@.take(i as int).filter(sound_has_ipa()).map_values(sound_ipa()).push(sound_ipa()(*sound)));
        }
        i += 1;
    }
    assert(entry.sounds@.take(entry.sounds@.len() as int) =~= entry.sounds@);
    proof { lemma_ipas_keep_sound_notes(entry.sounds@); }
    r
}

/// How a tag of a transcription is shown: a long form of the bank becomes its short form,
/// localized in `target` when there is a localization; any other tag stays.
pub open spec fn displayed_tag(tag: Seq<char>, target: Lang) -> Seq<char> {
    if exists|k: int| first_alias_at(tag, k) {
        let k = choose|k: int| first_alias_at(tag, k);
        let short = TAG_SHORT@[TAG_ALIAS_ENTRY@[k] as int]@;
        match tag_localization(target, short) {
            Some((s, _)) => s,
            None => short,
        }
    } else {
        tag
    }
}

/// How a tag of a transcription is shown (see [`displayed_tag`]).
fn display_tag(tag: &str, target: Lang) -> (r: String)
    ensures
        r@ == displayed_tag(tag@, target),
{
    match find_tag_in_bank(tag) {
        Some(info) => {
            proof {
                let k = choose|k: int| first_alias_at(tag@, k) && bank_info_is(info, TAG_ALIAS_ENTRY@[k] as int);
                let c = choose|k: int| first_alias_at(tag@, k);
                lemma_first_alias_unique(tag@, k, c);
            }
            match localize_tag(target, info.short_tag.as_str()) {
                Some((short, _)) => owned(short),
                None => info.short_tag,
            }
        },
        None => owned(tag),
    }
}

/// A transcription with its tags shown for `target`.
pub open spec fn displayed_ipa(target: Lang) -> spec_fn(IpaView) -> IpaView {
    |i: IpaView| (i.0, i.1.map_values(|t: Seq<char>| displayed_tag(t, target)))
}

/// A transcription with its tags shown for `target`.
fn display_ipa(ipa: Ipa, target: Lang) -> (r: Ipa)
    ensures
        ipa_view(r) == displayed_ipa(target)(ipa_view(ipa)),
{
    let mut tags: Vec<String> = Vec::new();
    let mut i: usize = 0;
    while i < ipa.tags.len()
        invariant
            i <= ipa.tags@.len(),
            views(tags@) == views(ipa.tags@).take(i as int).map_values(|t: Seq<char>| displayed_tag(t, target)),
        decreases ipa.tags@.len() - i,
    {
        let t = display_tag(ipa.tags[i].as_str(), target);
        let ghost before = views(tags@);
        tags.push(t);
        assert(views(tags@) =~= before.push(displayed_tag(ipa.tags@[i as int]@, target)));
        i += 1;
        assert(views(ipa.tags@).take(i as int).map_values(|t: Seq<char>| displayed_tag(t, target))
            =~= views(ipa.tags@).take(i - 1).map_values(|t: Seq<char>| displayed_tag(t, target)).push(
            displayed_tag(ipa.tags@[i - 1]@, target),
        ));
    }
    assert(views(ipa.tags@).take(ipa.tags@.len() as int) =~= views(ipa.tags@));
    Ipa { ipa: ipa.ipa, tags }
}

/// `tags` followed by the tags of `new` it lacks, each once.
pub open spec fn add_missing(tags: Seq<Seq<char>>, new: Seq<Seq<char>>) -> Seq<Seq<char>>
    decreases new.len(),
{
    if new.len() == 0 {
        tags
    } else {
        let prev = add_missing(tags, new.drop_last());
        if prev.contains(new.last()) {
            prev
        } else {
            prev.push(new.last())
        }
    }
}

/// A transcription that says the same as `t`.
pub open spec fn same_inner(t: Seq<char>) -> spec_fn(IpaView) -> bool {
    |e: IpaView| inner_ipa(e.0) == inner_ipa(t)
}

/// `list` with `x` added: into the first transcription that says the same (which takes `x`'s
/// notation when `x` is phonetic, and the tags it lacks), or at the end.
pub open spec fn merge_ipa(list: Seq<IpaView>, x: IpaView) -> Seq<IpaView> {
    let i = first_index(list, same_inner(x.0));
    if i < list.len() {
        let e = list[i];
        list.update(i, (if phonetic(x.0) { x.0 } else { e.0 }, add_missing(e.1, x.1)))
    } else {
        list.push(x)
    }
}

/// `list` with each of `xs` added in turn.
pub open spec fn merge_ipas(list: Seq<IpaView>, xs: Seq<IpaView>) -> Seq<IpaView>
    decreases xs.len(),
{
    if xs.len() == 0 {
        list
    } else {
        merge_ipa(merge_ipas(list, xs.drop_last()), xs.last())
    }
}

/// No two transcriptions say the same.
pub open spec fn distinct_inners(list: Seq<IpaView>) -> bool {
    forall|i: int, j: int| 0 <= i < j < list.len() ==> inner_ipa(#[trigger] list[i].0) != inner_ipa(#[trigger] list[j].0)
}

/// Merging keeps transcriptions that say different things apart.
pub proof fn lemma_merge_keeps_distinct(list: Seq<IpaView>, xs: Seq<IpaView>)
    requires
        distinct_inners(list),
    ensures
        distinct_inners(merge_ipas(list, xs)),
    decreases xs.len(),
{
    if xs.len() > 0 {
        lemma_merge_keeps_distinct(list, xs.drop_last());
        let l = merge_ipas(list, xs.drop_last());
        let x = xs.last();
        let i = first_index(l, same_inner(x.0));
        lemma_first_index_spec(l, same_inner(x.0));
        let r = merge_ipa(l, x);
        if i < l.len() {
            if phonetic(x.0) {
                assert forall|a: int, b: int| 0 <= a < b < r.len() implies inner_ipa(#[trigger] r[a].0) != inner_ipa(#[trigger] r[b].0) by {
                    if a == i {
                        assert(inner_ipa(l[b].0) != inner_ipa(l[i].0));
                    } else if b == i {
                        assert(inner_ipa(l[a].0) != inner_ipa(l[i].0));
                    } else {
                        assert(inner_ipa(l[a].0) != inner_ipa(l[b].0));
                    }
                }
            } else {
                assert forall|a: int, b: int| 0 <= a < b < r.len() implies inner_ipa(#[trigger] r[a].0) != inner_ipa(#[trigger] r[b].0) by {
                    assert(inner_ipa(l[a].0) != inner_ipa(l[b].0));
                }
            }
        } else {
            assert forall|a: int, b: int| 0 <= a < b < r.len() implies inner_ipa(#[trigger] r[a].0) != inner_ipa(#[trigger] r[b].0) by {
                if b == l.len() {
                    assert(!same_inner(x.0)(l[a]));
                } else {
                    assert(inner_ipa(l[a].0) != inner_ipa(l[b].0));
                }
            }
        }
    }
}

/// A copy of a transcription.
fn clone_ipa(i: &Ipa) -> (r: Ipa)
    ensures
        ipa_view(r) == ipa_view(*i),
{
    Ipa { ipa: i.ipa.clone(), tags: clone_strings(&i.tags) }
}

/// `tags` followed by the tags of `new` it lacks, each once (see [`add_missing`]).
fn add_missing_tags(tags: Vec<String>, new: &Vec<String>) -> (r: Vec<String>)
    ensures
        views(r@) == add_missing(views(tags@), views(new@)),
{
    let mut r = tags;
    let ghost start = views(r@);
    let mut i: usize = 0;
    assert(views(new@).take(0) =~= Seq::<Seq<char>>::empty());
    while i < new.len()
        invariant
            i <= new@.len(),
            views(r@) == add_missing(start, views(new@).take(i as int)),
        decreases new@.len() - i,
    {
        assert(views(new@).take(i + 1).drop_last() =~= views(new@).take(i as int));
        if !crate::text::string_in(&r, new[i].as_str()) {
            r.push(new[i].clone());
            assert(views(r@) =~= add_missing(start, views(new@).take(i as int)).push(new@[i as int]@));
        }
        i += 1;
    }
    assert(views(new@).take(new@.len() as int) =~= views(new@));
    r
}

/// `list` with `x` added (see [`merge_ipa`]).
fn merge_one(list: &mut Vec<Ipa>, x: Ipa)
    ensures
        ipa_views(final(list)@) == merge_ipa(ipa_views(old(list)@), ipa_view(x)),
{
    let ghost l = ipa_views(list@);
    let inner = ipa_inner(x.ipa.as_str());
    let mut i: usize = 0;
    while i < list.len()
        invariant
            i <= list@.len(),
            l == ipa_views(list@),
            l == ipa_views(old(list)@),
            inner@ == inner_ipa(x.ipa@),
            forall|j: int| 0 <= j < i ==> !same_inner(x.ipa@)(l[j]),
        decreases list@.len() - i,
    {
        let e_inner = ipa_inner(list[i].ipa.as_str());
        if e_inner == inner {
            proof { lemma_first_index(l, same_inner(x.ipa@), i as int); }
            let ghost xv = ipa_view(x);
            let e = list.remove(i);
            assert(ipa_view(e) == l[i as int]);
            let ph = is_phonetic(x.ipa.as_str());
            let ipa = if ph { x.ipa } else { e.ipa };
            let tags = add_missing_tags(e.tags, &x.tags);
            let merged = Ipa { ipa, tags };
            assert(ipa_view(merged) == (if phonetic(xv.0) { xv.0 } else { l[i as int].0 }, add_missing(l[i as int].1, xv.1)));
            list.insert(i, merged);
            assert(ipa_views(list@) =~= l.update(i as int, ipa_view(merged)));
            assert(ipa_views(list@) =~= merge_ipa(l, xv));
            return;
        }
        i += 1;
    }
    proof { lemma_first_index(l, same_inner(x.ipa@), i as int); }
    let ghost xv = ipa_view(x);
    list.push(x);
    assert(ipa_views(list@) =~= l.push(xv));
}

/// A key of the IPA dictionary: the word and its reading.
pub type IpaKey = (Seq<char>, Seq<char>);

/// Transcriptions by (word, reading), in the order the keys were first met; no key twice.
#[derive(Debug, Default)]
pub struct IIpa {
    pub entries: Vec<((String, String), Vec<Ipa>)>,
}

/// The keys and transcriptions, as character sequences.
pub open spec fn iipa_view(irs: IIpa) -> Seq<(IpaKey, Seq<IpaView>)> {
    irs.entries@.map_values(|e: ((String, String), Vec<Ipa>)| ((e.0.0@, e.0.1@), ipa_views(e.1@)))
}

/// An entry of the IPA dictionary with this key.
pub open spec fn has_ipa_key(key: IpaKey) -> spec_fn((IpaKey, Seq<IpaView>)) -> bool {
    |e: (IpaKey, Seq<IpaView>)| e.0 == key
}

/// `irs` with the transcriptions `ipas` of `key` added: merged into the entry of the key, or
/// into a new entry at the end when the key is new.
pub open spec fn add_ipas(irs: Seq<(IpaKey, Seq<IpaView>)>, key: IpaKey, ipas: Seq<IpaView>) -> Seq<(IpaKey, Seq<IpaView>)> {
    let i = first_index(irs, has_ipa_key(key));
    if i < irs.len() {
        irs.update(i, (key, merge_ipas(irs[i].1, ipas)))
    } else {
        irs.push((key, merge_ipas(Seq::<IpaView>::empty(), ipas)))
    }
}

/// The transcriptions that an entry adds, tags shown for `target`.
pub open spec fn entry_ipas(entry: WordEntry, target: Lang) -> Seq<IpaView> {
    entry.sounds@.filter(sound_has_ipa()).map_values(sound_ipa()).map_values(displayed_ipa(target))
}

/// The key of an entry: its word, and its reading (the word when there is none).
pub open spec fn ipa_key(edition: Edition, source: Lang, entry: WordEntry) -> IpaKey {
    (entry.word@, match reading_of(edition, source, entry) {
        Some(r) => r,
        None => entry.word@,
    })
}

/// `list` with each of `xs` added in turn (see [`merge_ipas`]).
fn merge_all(list: &mut Vec<Ipa>, xs: Vec<Ipa>)
    ensures
        ipa_views(final(list)@) == merge_ipas(ipa_views(old(list)@), ipa_views(xs@)),
{
    let ghost l0 = ipa_views(list@);
    let ghost xv = ipa_views(xs@);
    let mut xs = xs;
    let mut k: usize = 0;
    let n = xs.len();
    assert(xv.take(0) =~= Seq::<IpaView>::empty());
    while k < n
        invariant
            n == xs@.len(),
            k <= n,
            xv == ipa_views(xs@),
            ipa_views(list@) == merge_ipas(l0, xv.take(k as int)),
        decreases n - k,
    {
        let x = clone_ipa(&xs[k]);
        assert(xv.take(k + 1).drop_last() =~= xv.take(k as int));
        merge_one(list, x);
        k += 1;
    }
    assert(xv.take(n as int) =~= xv);
}

/// Adds the transcriptions of `entry` to `irs`: they are normalized, their tags shown for
/// `target`, and merged under (word, reading) (see [`add_ipas`]). An entry without
/// transcriptions adds nothing.
pub fn process_ipa(edition: Edition, source: Lang, target: Lang, entry: &WordEntry, irs: &mut IIpa)
    ensures
        entry_ipas(*entry, target).len() == 0 ==> iipa_view(*final(irs)) == iipa_view(*old(irs)),
        entry_ipas(*entry, target).len() > 0 ==> iipa_view(*final(irs)) == add_ipas(
            iipa_view(*old(irs)),
            ipa_key(edition, source, *entry),
            entry_ipas(*entry, target),
        ),
{
    let raw = get_ipas(entry);
    if raw.len() == 0 {
        return;
    }
    let mut ipas: Vec<Ipa> = Vec::new();
    let mut i: usize = 0;
    let ghost rv = ipa_views(raw@);
    while i < raw.len()
        invariant
            i <= raw@.len(),
            rv == ipa_views(raw@),
            ipa_views(ipas@) == rv.take(i as int).map_values(displayed_ipa(target)),
        decreases raw@.len() - i,
    {
        let d = display_ipa(clone_ipa(&raw[i]), target);
        let ghost before = ipa_views(ipas@);
        ipas.push(d);
        assert(ipa_views(ipas@) =~= before.push(ipa_view(d)));
        i += 1;
        assert(rv.take(i as int).map_values(displayed_ipa(target)) =~= rv.take(i - 1).map_values(displayed_ipa(target)).push(
            displayed_ipa(target)(rv[i - 1]),
        ));
    }
    assert(rv.take(raw@.len() as int) =~= rv);
    assert(ipa_views(ipas@) == entry_ipas(*entry, target));
    let reading = match get_reading(edition, source, entry) {
        Some(r) => r,
        None => entry.word.clone(),
    };
    let ghost key = ipa_key(edition, source, *entry);
    let ghost old_view = iipa_view(*irs);
    let mut k: usize = 0;
    while k < irs.entries.len()
        invariant
            k <= irs.entries@.len(),
            old_view == iipa_view(*irs),
            old_view == iipa_view(*old(irs)),
            key == ipa_key(edition, source, *entry),
            ipa_views(ipas@) == entry_ipas(*entry, target),
            key == (entry.word@, reading@),
            forall|j: int| 0 <= j < k ==> !has_ipa_key(key)(old_view[j]),
        decreases irs.entries@.len() - k,
    {
        if irs.entries[k].0.0 == entry.word && irs.entries[k].0.1 == reading {
            proof { lemma_first_index(old_view, has_ipa_key(key), k as int); }
            let (kk, mut list) = irs.entries.remove(k);
            assert((kk.0@, kk.1@) == key);
            assert(ipa_views(list@) == old_view[k as int].1);
            merge_all(&mut list, ipas);
            let ghost lv = ipa_views(list@);
            irs.entries.insert(k, (kk, list));
            assert(iipa_view(*irs) =~= old_view.update(k as int, (key, lv)));
            assert(iipa_view(*irs) =~= add_ipas(old_view, key, entry_ipas(*entry, target)));
            return;
        }
        k += 1;
    }
    proof { lemma_first_index(old_view, has_ipa_key(key), k as int); }
    let mut list: Vec<Ipa> = Vec::new();
    assert(ipa_views(list@) =~= Seq::<IpaView>::empty());
    merge_all(&mut list, ipas);
    irs.entries.push(((entry.word.clone(), reading), list));
    assert(iipa_view(*irs) =~= add_ipas(old_view, key, entry_ipas(*entry, target)));
}

/// The entry of the Yomitan dictionary made of an IPA entry.
pub open spec fn ipa_meta_is(m: TermMeta, e: (IpaKey, Seq<IpaView>)) -> bool {
    match m {
        TermMeta::TermPhoneticTranscription(t) => {
            &&& t.term@ == e.0.0
            &&& t.transcription.reading@ == e.0.1
            &&& ipa_views(t.transcription.transcriptions@) == e.1
        },
    }
}

/// One Yomitan meta entry per (word, reading), with its transcriptions, in order.
pub fn to_yomitan_ipa(irs: &IIpa) -> (r: Vec<TermMeta>)
    ensures
        r@.len() == iipa_view(*irs).len(),
        forall|i: int| 0 <= i < r@.len() ==> ipa_meta_is(#[trigger] r@[i], iipa_view(*irs)[i]),
{
    let mut r: Vec<TermMeta> = Vec::new();
    let mut i: usize = 0;
    while i < irs.entries.len()
        invariant
            i <= irs.entries@.len(),
            r@.len() == i,
            forall|j: int| 0 <= j < i ==> ipa_meta_is(#[trigger] r@[j], iipa_view(*irs)[j]),
        decreases irs.entries@.len() - i,
    {
        let ((lemma, reading), transcriptions) = &irs.entries[i];
        let mut ts: Vec<Ipa> = Vec::new();
        let mut k: usize = 0;
        while k < transcriptions.len()
            invariant
                k <= transcriptions@.len(),
                ipa_views(ts@) == ipa_views(transcriptions@).take(k as int),
            decreases transcriptions@.len() - k,
        {
            let c = clone_ipa(&transcriptions[k]);
            let ghost before = ipa_views(ts@);
            ts.push(c);
            assert(ipa_views(ts@) =~= before.push(ipa_view(c)));
            k += 1;
            assert(ipa_views(transcriptions@).take(k as int) =~= ipa_views(transcriptions@).take(k - 1).push(
                ipa_view(transcriptions@[k - 1]),
            ));
        }
        assert(ipa_views(transcriptions@).take(transcriptions@.len() as int) =~= ipa_views(transcriptions@));
        let m = TermMeta::TermPhoneticTranscription(TermPhoneticTranscription::new(
            lemma.clone(),
            PhoneticTranscription { reading: reading.clone(), transcriptions: ts },
        ));
        r.push(m);
        i += 1;
    }
    r
}

/// The IPA dictionary of one language pair.
#[derive(Debug, Clone, Copy)]
pub struct DIpa;

/// The IPA dictionary of one language, from every edition.
#[derive(Debug, Clone, Copy)]
pub struct DIpaMerged;

impl DIpa {
    /// Adds the transcriptions of an entry (see [`process_ipa`]).
    pub fn process(&self, langs: Langs, entry: &WordEntry, irs: &mut IIpa)
        ensures
            entry_ipas(*entry, langs.target).len() == 0 ==> iipa_view(*final(irs)) == iipa_view(*old(irs)),
            entry_ipas(*entry, langs.target).len() > 0 ==> iipa_view(*final(irs)) == add_ipas(
                iipa_view(*old(irs)),
                ipa_key(langs.edition, langs.source, *entry),
                entry_ipas(*entry, langs.target),
            ),
    {
        process_ipa(langs.edition, langs.source, langs.target, entry, irs);
    }

    /// The Yomitan entries (see [`to_yomitan_ipa`]).
    pub fn to_yomitan(&self, irs: &IIpa) -> (r: Vec<TermMeta>)
        ensures
            r@.len() == iipa_view(*irs).len(),
            forall|i: int| 0 <= i < r@.len() ==> ipa_meta_is(#[trigger] r@[i], iipa_view(*irs)[i]),
    {
        to_yomitan_ipa(irs)
    }
}

impl DIpaMerged {
    /// Adds the transcriptions of an entry (see [`process_ipa`]).
    pub fn process(&self, langs: Langs, entry: &WordEntry, irs: &mut IIpa)
        ensures
            entry_ipas(*entry, langs.target).len() == 0 ==> iipa_view(*final(irs)) == iipa_view(*old(irs)),
            entry_ipas(*entry, langs.target).len() > 0 ==> iipa_view(*final(irs)) == add_ipas(
                iipa_view(*old(irs)),
                ipa_key(langs.edition, langs.source, *entry),
                entry_ipas(*entry, langs.target),
            ),
    {
        process_ipa(langs.edition, langs.source, langs.target, entry, irs);
    }

    /// The Yomitan entries (see [`to_yomitan_ipa`]).
    pub fn to_yomitan(&self, irs: &IIpa) -> (r: Vec<TermMeta>)
        ensures
            r@.len() == iipa_view(*irs).len(),
            forall|i: int| 0 <= i < r@.len() ==> ipa_meta_is(#[trigger] r@[i], iipa_view(*irs)[i]),
    {
        to_yomitan_ipa(irs)
    }
}

/// The keys of the entries of an IPA dictionary, in order.
pub open spec fn ipa_keys(irs: Seq<(IpaKey, Seq<IpaView>)>) -> Seq<IpaKey> {
    irs.map_values(|e: (IpaKey, Seq<IpaView>)| e.0)
}

/// Sorts the entries by (word, reading).
pub fn sort_ipa_entries(irs: &mut IIpa)
    ensures
        iipa_view(*final(irs)).to_multiset() == iipa_view(*old(irs)).to_multiset(),
        sorted_by(ipa_keys(iipa_view(*final(irs))), pair_order()),
{
    broadcast use vstd::seq_lib::group_to_multiset_ensures;

    let mut rest: Vec<((String, String), Vec<Ipa>)> = Vec::new();
    std::mem::swap(&mut rest, &mut irs.entries);
    let ghost total = iipa_view(*old(irs)).to_multiset();
    let mut out: Vec<((String, String), Vec<Ipa>)> = Vec::new();
    proof { lemma_pair_total_ordering(); }
    while rest.len() > 0
        invariant
            total == iipa_view(*old(irs)).to_multiset(),
            total == iipa_view(IIpa { entries: out }).to_multiset().add(iipa_view(IIpa { entries: rest }).to_multiset()),
            sorted_by(ipa_keys(iipa_view(IIpa { entries: out })), pair_order()),
            total_ordering(pair_order()),
        decreases rest@.len(),
    {
        let ghost rv = iipa_view(IIpa { entries: rest });
        let x = rest.pop().unwrap();
        assert(rv =~= iipa_view(IIpa { entries: rest }).push(((x.0.0@, x.0.1@), ipa_views(x.1@))));
        let ghost ov = iipa_view(IIpa { entries: out });
        let ghost xk = (x.0.0@, x.0.1@);
        let mut p: usize = 0;
        while p < out.len() && pair_before((out[p].0.0.as_str(), out[p].0.1.as_str()), (x.0.0.as_str(), x.0.1.as_str()))
            invariant
                p <= out@.len(),
                ov == iipa_view(IIpa { entries: out }),
                xk == (x.0.0@, x.0.1@),
                forall|k: int| 0 <= k < p ==> pair_le(#[trigger] ipa_keys(ov)[k], xk),
            decreases out@.len() - p,
        {
            p += 1;
        }
        proof {
            let keys = ipa_keys(ov);
            if p < out@.len() {
                assert(!pair_le(keys[p as int], xk));
                assert forall|k: int| p <= k < keys.len() implies !pair_le(#[trigger] keys[k], xk) by {
                    if k > p {
                        assert(pair_order()(keys[p as int], keys[k]));
                        if pair_le(keys[k], xk) {
                            assert(pair_order()(keys[k], xk));
                        }
                    }
                }
            }
        }
        let ghost xv = ((x.0.0@, x.0.1@), ipa_views(x.1@));
        out.insert(p, x);
        proof {
            assert(iipa_view(IIpa { entries: out }) =~= ov.insert(p as int, xv));
            let nk = ipa_keys(iipa_view(IIpa { entries: out }));
            let keys = ipa_keys(ov);
            assert(nk =~= keys.insert(p as int, xk));
            assert forall|a: int, b: int| 0 <= a < b < nk.len() implies #[trigger] pair_order()(nk[a], nk[b]) by {
                if a < p && b < p {
                    assert(pair_order()(keys[a], keys[b]));
                } else if a < p && b == p {
                } else if a < p && b > p {
                    assert(pair_order()(keys[a], keys[b - 1]));
                } else if a == p {
                    assert(pair_order()(keys[b - 1], xk) || pair_order()(xk, keys[b - 1]));
                } else {
                    assert(pair_order()(keys[a - 1], keys[b - 1]));
                }
            }
            broadcast use vstd::multiset::group_multiset_axioms;
            let restv = iipa_view(IIpa { entries: rest });
            vstd::seq_lib::to_multiset_insert(ov, p as int, xv);
            vstd::seq_lib::to_multiset_build(restv, xv);
            assert(rv == restv.push(xv));
            assert(rv.to_multiset() == restv.to_multiset().insert(xv));
            assert(iipa_view(IIpa { entries: out }).to_multiset() == ov.to_multiset().insert(xv));
            assert(total =~= iipa_view(IIpa { entries: out }).to_multiset().add(restv.to_multiset()));
        }
    }
    proof {
        assert(iipa_view(IIpa { entries: rest }) =~= Seq::<(IpaKey, Seq<IpaView>)>::empty());
        assert(iipa_view(IIpa { entries: rest }).to_multiset() =~= vstd::multiset::Multiset::empty());
        assert(total =~= iipa_view(IIpa { entries: out }).to_multiset());
    }
    irs.entries = out;
}

impl DIpaMerged {
    /// Sorts the entries by (word, reading), for readability (see [`sort_ipa_entries`]).
    pub fn postprocess(&self, irs: &mut IIpa)
        ensures
            iipa_view(*final(irs)).to_multiset() == iipa_view(*old(irs)).to_multiset(),
            sorted_by(ipa_keys(iipa_view(*final(irs))), pair_order()),
    {
        sort_ipa_entries(irs);
    }
}

} // verus!
