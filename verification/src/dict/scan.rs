//! Diagnostics of a dataset: how well the tag bank and its localizations cover the parts of
//! speech and tags of its entries, with a link to a word that shows each tag.
use vstd::prelude::*;
use crate::dict::main::ir::{get_reading, reading_of};
use crate::lang::{Edition, Lang, edition_lang};
use crate::models::kaikki::{Sense, WordEntry};
use crate::tags::data::{TAG_ALIAS_ENTRY, TAG_SHORT};
use crate::tags::bank::{bank_entry_of, find_tag_in_bank, first_alias_at, lemma_first_alias_unique};
use crate::tags::localization::{localize_tag, tag_localization};
use crate::seqs::{first_index, lemma_first_index, lemma_first_index_spec};
use crate::sort::{insertion_sorted, stable_sort_by_key};
use crate::text::{str_eq, str_in, str_views, views};
use crate::utils::{link_wiktionary, wiktionary_link};

verus! {

/// Tags counted less often than this (or as often) are left out of the report: too rare to
/// care.
pub const MIN_COUNT_TO_SHOW: usize = 10;

/// How many links each counted tag keeps.
pub const N_LINKS_TO_SHOW: usize = 1;

/// Tags that are not looked at.
pub const TAGS_TO_IGNORE: [&'static str; 3] = ["unknown", "form-of", "alt-of"];

/// A counted tag: how often it was met, and links to the first words that showed it.
#[derive(Debug)]
pub struct TagCount {
    pub tag: String,
    pub count: usize,
    pub links: Vec<String>,
}

/// A counted tag as plain values: (tag, count, links).
pub type CountView = (Seq<char>, nat, Seq<Seq<char>>);

/// The view of a counted tag.
pub open spec fn count_view(c: TagCount) -> CountView {
    (c.tag@, c.count as nat, views(c.links@))
}

/// Counted tags, each once, in the order they were first met.
#[derive(Debug)]
pub struct TagCounterWithLink(pub Vec<TagCount>);

impl View for TagCounterWithLink {
    type V = Seq<CountView>;

    open spec fn view(&self) -> Seq<CountView> {
        self.0@.map_values(|c: TagCount| count_view(c))
    }
}

/// No tag is counted twice.
pub open spec fn tags_distinct(m: Seq<CountView>) -> bool {
    forall|i: int, j: int| 0 <= i < j < m.len() ==> m[i].0 != m[j].0
}

/// Every count is at most `bound`.
pub open spec fn counts_at_most(m: Seq<CountView>, bound: int) -> bool {
    forall|i: int| 0 <= i < m.len() ==> #[trigger] m[i].1 <= bound
}

/// A counted tag that is `key`.
pub open spec fn tag_is(key: Seq<char>) -> spec_fn(CountView) -> bool {
    |c: CountView| c.0 == key
}

/// How often `key` was counted (0 when it never was).
pub open spec fn count_of(m: Seq<CountView>, key: Seq<char>) -> nat {
    let i = first_index(m, tag_is(key));
    if i < m.len() {
        m[i].1
    } else {
        0
    }
}

/// The counted tags after meeting `key` once more in a word with the link `link`: its count
/// goes up by one and, while it has fewer than [`N_LINKS_TO_SHOW`] links, the link is added; a
/// tag met for the first time comes last, counted once with the link.
pub open spec fn counted(m: Seq<CountView>, key: Seq<char>, link: Seq<char>) -> Seq<CountView> {
    let i = first_index(m, tag_is(key));
    if i < m.len() {
        m.update(
            i,
            (key, m[i].1 + 1, if m[i].2.len() < N_LINKS_TO_SHOW { m[i].2.push(link) } else { m[i].2 }),
        )
    } else {
        m.push((key, 1nat, seq![link]))
    }
}

/// Meeting a tag adds one to its count and to no other, and keeps each tag counted once.
pub proof fn lemma_counted_counts(m: Seq<CountView>, key: Seq<char>, link: Seq<char>, other: Seq<char>)
    requires
        tags_distinct(m),
    ensures
        tags_distinct(counted(m, key, link)),
        count_of(counted(m, key, link), other) == count_of(m, other) + (if other == key { 1nat } else { 0nat }),
{
    let i = first_index(m, tag_is(key));
    let r = counted(m, key, link);
    lemma_first_index_spec(m, tag_is(key));
    let j = first_index(m, tag_is(other));
    lemma_first_index_spec(m, tag_is(other));
    let k = first_index(r, tag_is(other));
    lemma_first_index_spec(r, tag_is(other));
    if i < m.len() {
        assert(r.len() == m.len());
        assert forall|a: int| 0 <= a < r.len() implies #[trigger] r[a].0 == m[a].0 by {}
        if j < m.len() {
            assert(tag_is(other)(r[j]));
            assert(k == j) by {
                if k < j {
                    assert(tag_is(other)(m[k]));
                }
            }
        } else {
            assert(k == r.len()) by {
                if k < r.len() {
                    assert(tag_is(other)(m[k]));
                }
            }
        }
    } else {
        assert forall|a: int| 0 <= a < m.len() implies #[trigger] r[a] == m[a] by {}
        if j < m.len() {
            assert(tag_is(other)(r[j]));
            assert(k == j) by {
                if k < j {
                    assert(tag_is(other)(m[k]));
                }
            }
        } else if other == key {
            assert(tag_is(other)(r[m.len() as int]));
            assert(k == m.len()) by {
                if k < m.len() {
                    assert(tag_is(other)(m[k]));
                }
            }
        } else {
            assert(k == r.len()) by {
                if k < m.len() {
                    assert(tag_is(other)(m[k]));
                } else if k == m.len() {
                    assert(r[k].0 == key);
                }
            }
        }
    }
}

/// Meeting a tag raises no count above one more than the highest before.
proof fn lemma_counted_at_most(m: Seq<CountView>, key: Seq<char>, link: Seq<char>, bound: int)
    requires
        counts_at_most(m, bound),
        bound >= 0,
    ensures
        counts_at_most(counted(m, key, link), bound + 1),
{
    let i = first_index(m, tag_is(key));
    lemma_first_index_spec(m, tag_is(key));
    let r = counted(m, key, link);
    assert forall|a: int| 0 <= a < r.len() implies #[trigger] r[a].1 <= bound + 1 by {
        if a < m.len() {
            assert(m[a].1 <= bound);
        }
    }
}

impl TagCounterWithLink {
    /// Counts `key` once more, in `word` (see [`counted`]): the link to the word is made only
    /// when it is kept.
    pub fn increment(&mut self, key: String, edition: Edition, source: Lang, word: &str)
        requires
            tags_distinct(old(self)@),
            count_of(old(self)@, key@) < usize::MAX,
        ensures
            tags_distinct(final(self)@),
            final(self)@ == counted(old(self)@, key@, wiktionary_link(edition, source, word@)),
    {
        let ghost m = self@;
        let ghost link = wiktionary_link(edition, source, word@);
        proof {
            lemma_counted_counts(m, key@, link, key@);
        }
        let mut i: usize = 0;
        while i < self.0.len()
            invariant
                i <= self.0@.len(),
                self@ == m,
                m == old(self)@,
                tags_distinct(counted(m, key@, link)),
                link == wiktionary_link(edition, source, word@),
                count_of(m, key@) < usize::MAX,
                forall|j: int| 0 <= j < i ==> !tag_is(key@)(#[trigger] m[j]),
            decreases self.0@.len() - i,
        {
            if str_eq(self.0[i].tag.as_str(), key.as_str()) {
                proof {
                    lemma_first_index(m, tag_is(key@), i as int);
                }
                let ghost old_links = self.0@[i as int].links@;
                assert(count_of(m, key@) == self.0@[i as int].count);
                let count = self.0[i].count;
                self.0[i].count = count + 1;
                if self.0[i].links.len() < N_LINKS_TO_SHOW {
                    let l = link_wiktionary(edition, source, word);
                    self.0[i].links.push(l);
                    assert(self.0@[i as int].links@ == old_links.push(l));
                    assert(views(self.0@[i as int].links@) =~= views(old_links).push(link));
                }
                assert(self@ =~= counted(m, key@, link));
                return;
            }
            i += 1;
        }
        proof {
            lemma_first_index(m, tag_is(key@), i as int);
        }
        let l = link_wiktionary(edition, source, word);
        let c = TagCount { tag: key, count: 1, links: vec![l] };
        assert(views(c.links@) =~= seq![link]);
        self.0.push(c);
        assert(self@ =~= counted(m, key@, link));
    }
}

/// A tag that is not looked at (see [`TAGS_TO_IGNORE`]).
pub open spec fn ignored_tag(tag: Seq<char>) -> bool {
    str_views(TAGS_TO_IGNORE@).contains(tag)
}

/// The diagnostics of one kind of tag: the tags missing from the tag bank, and those in it
/// without a localization into the target language.
#[derive(Debug)]
pub struct TagDiagnostics {
    pub not_found: TagCounterWithLink,
    pub not_localized: TagCounterWithLink,
}

/// Diagnostics of one kind of tag as plain values: (not found, not localized).
pub type DiagView = (Seq<CountView>, Seq<CountView>);

/// The view of the diagnostics of one kind of tag.
pub open spec fn diag_view(d: TagDiagnostics) -> DiagView {
    (d.not_found@, d.not_localized@)
}

/// Each counter counts each tag once, and no count is above `bound`.
pub open spec fn diag_ok(d: DiagView, bound: int) -> bool {
    &&& tags_distinct(d.0)
    &&& tags_distinct(d.1)
    &&& counts_at_most(d.0, bound)
    &&& counts_at_most(d.1, bound)
}

/// What meeting `tag` in `word` does: an ignored tag nothing; a tag missing from the bank is
/// counted as not found; a tag of the bank whose short form has no localization into `target`
/// is counted as not localized, except in the English edition, which has no localizations.
pub open spec fn diag_step(
    d: DiagView,
    edition: Edition,
    source: Lang,
    target: Lang,
    tag: Seq<char>,
    word: Seq<char>,
) -> DiagView {
    let link = wiktionary_link(edition, source, word);
    if ignored_tag(tag) {
        d
    } else {
        match bank_entry_of(tag) {
            None => (counted(d.0, tag, link), d.1),
            Some(i) => if edition == Edition::En || tag_localization(target, TAG_SHORT@[i]@) is Some {
                d
            } else {
                (d.0, counted(d.1, tag, link))
            },
        }
    }
}

/// Meeting each of `tags` in turn, in `word`.
pub open spec fn diag_steps(
    d: DiagView,
    edition: Edition,
    source: Lang,
    target: Lang,
    tags: Seq<Seq<char>>,
    word: Seq<char>,
) -> DiagView
    decreases tags.len(),
{
    if tags.len() == 0 {
        d
    } else {
        diag_step(diag_steps(d, edition, source, target, tags.drop_last(), word), edition, source, target, tags.last(), word)
    }
}

/// A step keeps the counters well formed, raising the bound of the counts by one.
proof fn lemma_diag_step_ok(d: DiagView, edition: Edition, source: Lang, target: Lang, tag: Seq<char>, word: Seq<char>, bound: int)
    requires
        diag_ok(d, bound),
        bound >= 0,
    ensures
        diag_ok(diag_step(d, edition, source, target, tag, word), bound + 1),
{
    let link = wiktionary_link(edition, source, word);
    lemma_counted_counts(d.0, tag, link, tag);
    lemma_counted_counts(d.1, tag, link, tag);
    lemma_counted_at_most(d.0, tag, link, bound);
    lemma_counted_at_most(d.1, tag, link, bound);
    assert forall|i: int| 0 <= i < d.0.len() implies #[trigger] d.0[i].1 <= bound + 1 by {
        assert(d.0[i].1 <= bound);
    }
    assert forall|i: int| 0 <= i < d.1.len() implies #[trigger] d.1[i].1 <= bound + 1 by {
        assert(d.1[i].1 <= bound);
    }
}

/// Well formed counters with counts at most `bound` count any tag at most `bound` times.
proof fn lemma_count_of_at_most(m: Seq<CountView>, key: Seq<char>, bound: int)
    requires
        counts_at_most(m, bound),
        bound >= 0,
    ensures
        count_of(m, key) <= bound,
{
    lemma_first_index_spec(m, tag_is(key));
    let i = first_index(m, tag_is(key));
    if i < m.len() {
        assert(m[i].1 <= bound);
    }
}

impl TagDiagnostics {
    /// No tag counted yet.
    pub fn new() -> (r: TagDiagnostics)
        ensures
            diag_view(r) == (Seq::<CountView>::empty(), Seq::<CountView>::empty()),
    {
        let r = TagDiagnostics { not_found: TagCounterWithLink(Vec::new()), not_localized: TagCounterWithLink(Vec::new()) };
        assert(r.not_found@ =~= Seq::<CountView>::empty());
        assert(r.not_localized@ =~= Seq::<CountView>::empty());
        r
    }

    /// Meets `tag` in `word` (see [`diag_step`]).
    pub fn process(&mut self, edition: Edition, source: Lang, target: Lang, tag: String, word: &str)
        requires
            diag_ok(diag_view(*old(self)), usize::MAX - 1),
        ensures
            diag_view(*final(self)) == diag_step(diag_view(*old(self)), edition, source, target, tag@, word@),
    {
        proof {
            lemma_count_of_at_most(self.not_found@, tag@, usize::MAX - 1);
            lemma_count_of_at_most(self.not_localized@, tag@, usize::MAX - 1);
        }
        if str_in(&TAGS_TO_IGNORE, tag.as_str()) {
            return;
        }
        match find_tag_in_bank(tag.as_str()) {
            Some(info) => {
                proof {
                    let k = choose|k: int| first_alias_at(tag@, k) && crate::tags::bank::bank_info_is(info, TAG_ALIAS_ENTRY@[k] as int);
                    lemma_first_alias_unique(tag@, k, choose|k: int| first_alias_at(tag@, k));
                    assert(bank_entry_of(tag@) == Some(TAG_ALIAS_ENTRY@[k] as int));
                }
                if edition != Edition::En && localize_tag(target, info.short_tag.as_str()).is_none() {
                    self.not_localized.increment(tag, edition, source, word);
                }
            },
            None => {
                assert(bank_entry_of(tag@) is None);
                self.not_found.increment(tag, edition, source, word);
            },
        }
    }
}

/// The tags of the senses of an entry, sense after sense.
pub open spec fn sense_tags(senses: Seq<Sense>) -> Seq<Seq<char>>
    decreases senses.len(),
{
    if senses.len() == 0 {
        Seq::<Seq<char>>::empty()
    } else {
        sense_tags(senses.drop_last()) + views(senses.last().tags@)
    }
}

/// The diagnostics of a dataset: how many words it has, how many of them have no reading, and
/// the diagnostics of the parts of speech, of the tags of the entries, of the tags of their
/// senses and of the tags of their forms (these are never localized, and left uncounted).
#[derive(Debug)]
pub struct Diagnostics {
    pub words: i32,
    pub words_without_reading: i32,
    pub pos: TagDiagnostics,
    pub tags_top: TagDiagnostics,
    pub tags_inner: TagDiagnostics,
    pub tags_forms: TagDiagnostics,
}

/// Meeting the tags of `a`, then those of `b`, is meeting those of `a + b`.
pub proof fn lemma_diag_steps_append(
    d: DiagView,
    edition: Edition,
    source: Lang,
    target: Lang,
    a: Seq<Seq<char>>,
    b: Seq<Seq<char>>,
    word: Seq<char>,
)
    ensures
        diag_steps(d, edition, source, target, a + b, word) == diag_steps(
            diag_steps(d, edition, source, target, a, word),
            edition,
            source,
            target,
            b,
            word,
        ),
    decreases b.len(),
{
    if b.len() == 0 {
        assert(a + b =~= a);
    } else {
        assert((a + b).drop_last() =~= a + b.drop_last());
        assert((a + b).last() == b.last());
        lemma_diag_steps_append(d, edition, source, target, a, b.drop_last(), word);
    }
}

/// The tags of the first senses are no more than the tags of all of them.
proof fn lemma_sense_tags_take(senses: Seq<Sense>, j: int)
    requires
        0 <= j <= senses.len(),
    ensures
        sense_tags(senses.take(j)).len() <= sense_tags(senses).len(),
    decreases senses.len(),
{
    if j < senses.len() {
        assert(senses.drop_last().take(j) =~= senses.take(j));
        lemma_sense_tags_take(senses.drop_last(), j);
    } else {
        assert(senses.take(j) =~= senses);
    }
}

impl TagDiagnostics {
    /// Meets each of `tags` in turn, in `word` (see [`diag_steps`]).
    fn process_all(
        &mut self,
        edition: Edition,
        source: Lang,
        target: Lang,
        tags: &Vec<String>,
        word: &str,
        Ghost(bound): Ghost<int>,
    )
        requires
            diag_ok(diag_view(*old(self)), bound),
            0 <= bound,
            bound + tags@.len() <= usize::MAX,
        ensures
            diag_view(*final(self)) == diag_steps(diag_view(*old(self)), edition, source, target, views(tags@), word@),
            diag_ok(diag_view(*final(self)), bound + tags@.len()),
    {
        let ghost d0 = diag_view(*self);
        let ghost n = tags@.len();
        let mut i: usize = 0;
        assert(views(tags@).take(0) =~= Seq::<Seq<char>>::empty());
        while i < tags.len()
            invariant
                i <= n == tags@.len(),
                diag_view(*self) == diag_steps(d0, edition, source, target, views(tags@).take(i as int), word@),
                0 <= bound,
                bound + n <= usize::MAX,
                diag_ok(diag_view(*self), bound + i),
            decreases n - i,
        {
            let ghost d = diag_view(*self);
            assert forall|k: int| 0 <= k < d.0.len() implies #[trigger] d.0[k].1 <= usize::MAX - 1 by {
                assert(d.0[k].1 <= bound + i);
            }
            assert forall|k: int| 0 <= k < d.1.len() implies #[trigger] d.1[k].1 <= usize::MAX - 1 by {
                assert(d.1[k].1 <= bound + i);
            }
            let tag = tags[i].clone();
            self.process(edition, source, target, tag, word);
            proof {
                lemma_diag_step_ok(d, edition, source, target, tags@[i as int]@, word@, bound + i);
                assert(views(tags@).take(i + 1).drop_last() =~= views(tags@).take(i as int));
            }
            i += 1;
        }
        assert(views(tags@).take(n as int) =~= views(tags@));
    }
}

impl Diagnostics {
    /// Nothing counted yet.
    pub fn new() -> (r: Diagnostics)
        ensures
            r.words == 0,
            r.words_without_reading == 0,
            diag_view(r.pos) == (Seq::<CountView>::empty(), Seq::<CountView>::empty()),
            diag_view(r.tags_top) == (Seq::<CountView>::empty(), Seq::<CountView>::empty()),
            diag_view(r.tags_inner) == (Seq::<CountView>::empty(), Seq::<CountView>::empty()),
            diag_view(r.tags_forms) == (Seq::<CountView>::empty(), Seq::<CountView>::empty()),
    {
        Diagnostics {
            words: 0,
            words_without_reading: 0,
            pos: TagDiagnostics::new(),
            tags_top: TagDiagnostics::new(),
            tags_inner: TagDiagnostics::new(),
            tags_forms: TagDiagnostics::new(),
        }
    }

    /// Counts an entry of the edition `edition` in the language `source`: one word more, one
    /// more without a reading when it has none (see [`reading_of`]); then its part of speech, its
    /// tags and the tags of its senses, in the target language of the edition (see
    /// [`diag_step`]). The tags of its forms are left uncounted.
    pub fn process_entry(&mut self, edition: Edition, source: Lang, entry: WordEntry)
        requires
            old(self).words < i32::MAX,
            old(self).words_without_reading < i32::MAX,
            diag_ok(diag_view(old(self).pos), usize::MAX - 1),
            diag_ok(diag_view(old(self).tags_top), usize::MAX - entry.tags@.len()),
            sense_tags(entry.senses@).len() <= usize::MAX,
            diag_ok(diag_view(old(self).tags_inner), usize::MAX - sense_tags(entry.senses@).len()),
        ensures
            final(self).words == old(self).words + 1,
            final(self).words_without_reading == old(self).words_without_reading + (if reading_of(
                edition,
                source,
                entry,
            ) is None {
                1int
            } else {
                0int
            }),
            diag_view(final(self).pos) == diag_step(
                diag_view(old(self).pos),
                edition,
                source,
                edition_lang(edition),
                entry.pos@,
                entry.word@,
            ),
            diag_view(final(self).tags_top) == diag_steps(
                diag_view(old(self).tags_top),
                edition,
                source,
                edition_lang(edition),
                views(entry.tags@),
                entry.word@,
            ),
            diag_view(final(self).tags_inner) == diag_steps(
                diag_view(old(self).tags_inner),
                edition,
                source,
                edition_lang(edition),
                sense_tags(entry.senses@),
                entry.word@,
            ),
            diag_view(final(self).tags_forms) == diag_view(old(self).tags_forms),
            diag_ok(diag_view(final(self).pos), usize::MAX as int),
            diag_ok(diag_view(final(self).tags_top), usize::MAX as int),
            diag_ok(diag_view(final(self).tags_inner), usize::MAX as int),
    {
        self.words += 1;
        if get_reading(edition, source, &entry).is_none() {
            self.words_without_reading += 1;
        }
        let target = Lang::from(edition);
        let word = entry.word.as_str();
        proof {
            lemma_diag_step_ok(diag_view(self.pos), edition, source, target, entry.pos@, word@, usize::MAX - 1);
        }
        self.pos.process(edition, source, target, entry.pos.clone(), word);
        let n_tags = entry.tags.len();
        self.tags_top.process_all(edition, source, target, &entry.tags, word, Ghost(usize::MAX - n_tags));

        let ghost d0 = diag_view(self.tags_inner);
        let ghost before = *self;
        let ghost senses = entry.senses@;
        let ghost total = sense_tags(senses).len();
        let mut j: usize = 0;
        assert(senses.take(0) =~= Seq::<Sense>::empty());
        while j < entry.senses.len()
            invariant
                j <= senses.len(),
                senses == entry.senses@,
                total == sense_tags(senses).len(),
                total <= usize::MAX,
                self.words == before.words,
                self.words_without_reading == before.words_without_reading,
                diag_view(self.pos) == diag_view(before.pos),
                diag_view(self.tags_top) == diag_view(before.tags_top),
                diag_view(self.tags_forms) == diag_view(before.tags_forms),
                diag_view(self.tags_inner) == diag_steps(d0, edition, source, target, sense_tags(senses.take(j as int)), word@),
                diag_ok(diag_view(self.tags_inner), usize::MAX - total + sense_tags(senses.take(j as int)).len()),
            decreases senses.len() - j,
        {
            proof {
                assert(senses.take(j + 1).drop_last() =~= senses.take(j as int));
                lemma_sense_tags_take(senses, j + 1);
                lemma_diag_steps_append(
                    d0,
                    edition,
                    source,
                    target,
                    sense_tags(senses.take(j as int)),
                    views(senses[j as int].tags@),
                    word@,
                );
                assert(sense_tags(senses.take(j + 1)) == sense_tags(senses.take(j as int)) + views(senses[j as int].tags@));
            }
            self.tags_inner.process_all(
                edition,
                source,
                target,
                &entry.senses[j].tags,
                word,
                Ghost(usize::MAX - total + sense_tags(senses.take(j as int)).len()),
            );
            j += 1;
        }
        assert(senses.take(senses.len() as int) =~= senses);
    }
}

/// The counted tags a report shows, as (key, position) pairs: those counted more than
/// [`MIN_COUNT_TO_SHOW`] times among the first `n`, in their order, each keyed by how far its
/// count is below `usize::MAX` (so that a higher count has a lower key).
pub open spec fn shown_pairs(m: Seq<CountView>, n: int) -> Seq<(usize, usize)>
    decreases n,
{
    if n <= 0 {
        Seq::<(usize, usize)>::empty()
    } else if m[n - 1].1 > MIN_COUNT_TO_SHOW {
        shown_pairs(m, n - 1).push(((usize::MAX - m[n - 1].1) as usize, (n - 1) as usize))
    } else {
        shown_pairs(m, n - 1)
    }
}

/// The key of a shown pair.
pub open spec fn pair_key() -> spec_fn((usize, usize)) -> int {
    |p: (usize, usize)| p.0 as int
}

/// The position of a shown pair.
pub open spec fn pair_pos() -> spec_fn((usize, usize)) -> usize {
    |p: (usize, usize)| p.1
}

/// The positions of the tags a report shows, in the order it shows them: from the most counted
/// to the least, tags counted as often in the order they were first met.
pub open spec fn shown_order_of(m: Seq<CountView>) -> Seq<usize> {
    insertion_sorted(shown_pairs(m, m.len() as int), pair_key()).map_values(pair_pos())
}

/// The key of a shown pair (see [`pair_key`]).
fn pair_first(p: &(usize, usize)) -> (k: usize)
    ensures
        k == p.0,
{
    p.0
}

impl TagCounterWithLink {
    /// The positions of the tags a report shows, in its order (see [`shown_order_of`]).
    pub fn shown_order(&self) -> (r: Vec<usize>)
        ensures
            r@ == shown_order_of(self@),
    {
        let ghost m = self@;
        let mut pairs: Vec<(usize, usize)> = Vec::new();
        let mut i: usize = 0;
        while i < self.0.len()
            invariant
                i <= self.0@.len(),
                m == self@,
                pairs@ == shown_pairs(m, i as int),
            decreases self.0@.len() - i,
        {
            let count = self.0[i].count;
            if count > MIN_COUNT_TO_SHOW {
                pairs.push((usize::MAX - count, i));
            }
            i += 1;
        }
        stable_sort_by_key(&mut pairs, pair_first, Ghost(pair_key()));
        let mut r: Vec<usize> = Vec::new();
        let mut j: usize = 0;
        while j < pairs.len()
            invariant
                j <= pairs@.len(),
                r@ == pairs@.take(j as int).map_values(pair_pos()),
            decreases pairs@.len() - j,
        {
            r.push(pairs[j].1);
            assert(pairs@.take(j + 1).map_values(pair_pos()) =~= pairs@.take(j as int).map_values(pair_pos()).push(pairs@[j as int].1));
            j += 1;
        }
        assert(pairs@.take(pairs@.len() as int) =~= pairs@);
        r
    }
}

} // verus!
