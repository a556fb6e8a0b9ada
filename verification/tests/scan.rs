use wty::dict::scan::{Diagnostics, TagCount, TagCounterWithLink, TagDiagnostics};
use wty::lang::{Edition, Lang};
use wty::models::kaikki::{Sense, WordEntry};

fn count(tag: &str, count: usize) -> TagCount {
    TagCount { tag: tag.to_string(), count, links: vec![] }
}

#[test]
fn counter_counts_and_keeps_one_link() {
    let mut c = TagCounterWithLink(vec![]);
    c.increment("foo".to_string(), Edition::En, Lang::En, "cat");
    c.increment("bar".to_string(), Edition::En, Lang::En, "dog");
    c.increment("foo".to_string(), Edition::En, Lang::En, "ice cream");
    assert_eq!(c.0.len(), 2);
    assert_eq!(c.0[0].tag, "foo");
    assert_eq!(c.0[0].count, 2);
    assert_eq!(c.0[0].links, vec!["https://en.wiktionary.org/wiki/cat#English".to_string()]);
    assert_eq!(c.0[1].tag, "bar");
    assert_eq!(c.0[1].count, 1);
}

#[test]
fn tag_diagnostics_sorts_tags() {
    let mut d = TagDiagnostics::new();
    // Ignored.
    d.process(Edition::De, Lang::De, Lang::De, "unknown".to_string(), "x");
    // In the bank, localized into German.
    d.process(Edition::De, Lang::De, Lang::De, "noun".to_string(), "x");
    // In the bank, without a German localization.
    d.process(Edition::De, Lang::De, Lang::De, "adverb".to_string(), "schnell");
    // Not in the bank.
    d.process(Edition::De, Lang::De, Lang::De, "zzz-not-a-tag".to_string(), "x");
    // The English edition has no localizations to miss.
    d.process(Edition::En, Lang::En, Lang::En, "adverb".to_string(), "fast");
    assert_eq!(d.not_found.0.len(), 1);
    assert_eq!(d.not_found.0[0].tag, "zzz-not-a-tag");
    assert_eq!(d.not_localized.0.len(), 1);
    assert_eq!(d.not_localized.0[0].tag, "adverb");
    assert_eq!(d.not_localized.0[0].count, 1);
}

#[test]
fn diagnostics_process_entry() {
    let mut diag = Diagnostics::new();
    let mut e = WordEntry::default();
    e.word = "cat".to_string();
    e.pos = "zzz-pos".to_string();
    e.tags = vec!["zzz-top".to_string(), "noun".to_string()];
    e.senses = vec![
        Sense { tags: vec!["zzz-inner".to_string(), "unknown".to_string()], ..Default::default() },
        Sense { tags: vec!["zzz-inner".to_string()], ..Default::default() },
    ];
    diag.process_entry(Edition::En, Lang::En, e);
    assert_eq!(diag.words, 1);
    assert_eq!(diag.words_without_reading, 1);
    assert_eq!(diag.pos.not_found.0[0].tag, "zzz-pos");
    assert_eq!(diag.tags_top.not_found.0.len(), 1);
    assert_eq!(diag.tags_top.not_found.0[0].tag, "zzz-top");
    assert_eq!(diag.tags_inner.not_found.0.len(), 1);
    assert_eq!(diag.tags_inner.not_found.0[0].count, 2);
    assert!(diag.tags_forms.not_found.0.is_empty());
}

#[test]
fn shown_order_most_counted_first() {
    let c = TagCounterWithLink(vec![count("a", 11), count("b", 5), count("c", 20), count("d", 11), count("e", 10)]);
    assert_eq!(c.shown_order(), vec![2, 0, 3]);
}
