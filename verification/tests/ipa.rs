use wty::dict::common::Langs;
use wty::dict::ipa::{DIpa, DIpaMerged, IIpa, ipa_inner, is_phonetic, normalize_ipa};
use wty::lang::{Edition, Lang};
use wty::models::kaikki::{Sound, WordEntry};

fn sound(ipa: &str) -> Sound {
    Sound { ipa: ipa.into(), ..Default::default() }
}

fn sound_with_tag(ipa: &str, tag: &str) -> Sound {
    Sound { ipa: ipa.into(), tags: vec![tag.into()], ..Default::default() }
}

fn merged_basic() {
    let dict = DIpaMerged;
    let langs = Langs::new(Edition::En, Lang::Grc, Lang::Sh);
    let mut entry = WordEntry::default();
    entry.sounds = vec![
        sound("/ipa1/"), // '/' phonemic gets replaced by '[]' phonetic...
        sound("[ipa1]"),
        sound("/ipa1/"), // ...independently of order
        sound("[ipa2]"),
    ];

    let mut irs = IIpa::default();
    dict.process(langs, &entry, &mut irs);

    assert_eq!(irs.entries.len(), 1);

    let transcriptions = &irs.entries[0].1;
    assert_eq!(transcriptions.len(), 2);
    assert_eq!(&transcriptions[0].ipa, "[ipa1]");
    assert_eq!(&transcriptions[1].ipa, "[ipa2]");
}

fn ipa_tag() {
    let dict = DIpa;
    let langs = Langs::new(Edition::En, Lang::La, Lang::La); // irrelevant
    let mut entry = WordEntry::default();
    entry.sounds = vec![
        sound_with_tag("[ipa1]", "tag1"),
        sound_with_tag("[ipa2]", "modern Italianate Ecclesiastical"),
    ];

    let mut irs = IIpa::default();
    dict.process(langs, &entry, &mut irs);

    assert_eq!(irs.entries.len(), 1);

    let transcriptions = &irs.entries[0].1;
    assert_eq!(transcriptions.len(), 2);

    assert_eq!(&transcriptions[0].ipa, "[ipa1]");
    assert_eq!(&transcriptions[1].ipa, "[ipa2]");

    // Check that tags are properly simplified
    assert_eq!(&transcriptions[0].tags[0], "tag1");
    assert_eq!(&transcriptions[1].tags[0], "⛪");
}

fn merged_tag_merge() {
    let dict = DIpaMerged;
    let (source, target) = (Lang::La, Lang::La);

    let edition = Edition::En;
    let langs = Langs::new(edition, source, target);
    let mut entry = WordEntry::default();
    entry.sounds = vec![sound_with_tag("ipa1", "tag1")];

    let mut irs = IIpa::default();
    dict.process(langs, &entry, &mut irs);

    let edition = Edition::De;
    let langs = Langs::new(edition, source, target);
    let mut entry = WordEntry::default();
    // same ipa, different tag (coming from another edition)
    entry.sounds = vec![sound_with_tag("ipa1", "tag2")];
    dict.process(langs, &entry, &mut irs);

    let transcriptions = &irs.entries[0].1;
    assert_eq!(transcriptions.len(), 1);
    // Both tags should be present after merging
    assert!(transcriptions[0].tags.contains(&"tag1".to_string()));
    assert!(transcriptions[0].tags.contains(&"tag2".to_string()));
}

fn merged_postprocess_order() {
    let dict = DIpaMerged;
    let (source, target) = (Lang::La, Lang::La);
    let langs = Langs::new(Edition::En, source, target);

    let mut irs = IIpa::default();

    let mut entry = WordEntry::default();
    entry.word = "zebra".to_string();
    entry.sounds = vec![sound("ipa1")];
    dict.process(langs, &entry, &mut irs);

    let mut entry = WordEntry::default();
    entry.word = "apple".to_string();
    entry.sounds = vec![sound("ipa2")];
    dict.process(langs, &entry, &mut irs);

    dict.postprocess(&mut irs);

    let keys: Vec<&String> = irs.entries.iter().map(|((word, _), _)| word).collect();
    assert_eq!(keys, vec!["apple", "zebra"]);
}

#[test]
fn ipa_process_ipa_merged_basic() {
    merged_basic();
}

#[test]
fn ipa_process_ipa_tag() {
    ipa_tag();
}

#[test]
fn ipa_process_ipa_merged_tag_merge() {
    merged_tag_merge();
}

#[test]
fn ipa_process_ipa_merged_postprocess_order() {
    merged_postprocess_order();
}

#[test]
fn other_process_ipa_merged_basic() {
    merged_basic();
}

#[test]
fn other_process_ipa_tag() {
    ipa_tag();
}

#[test]
fn other_process_ipa_merged_tag_merge() {
    merged_tag_merge();
}

#[test]
fn other_process_ipa_merged_postprocess_order() {
    merged_postprocess_order();
}

#[test]
fn normalize_ipa_cases() {
    assert_eq!(normalize_ipa("[pʰɪn]"), "[pʰɪn]");
    assert_eq!(normalize_ipa("/pɪn/"), "/pɪn/");
    assert_eq!(normalize_ipa("\\pɛ̃\\"), "/pɛ̃/");
    assert_eq!(normalize_ipa("pɪn"), "/pɪn/");
    assert_eq!(normalize_ipa(""), "//");
    assert_eq!(normalize_ipa("\\"), "/\\/");
}

#[test]
fn ipa_inner_cases() {
    assert_eq!(ipa_inner("[pʰɪn]"), "pʰɪn");
    assert_eq!(ipa_inner("/pɪn/"), "pɪn");
    assert_eq!(ipa_inner("\\pɪn\\"), "pɪn");
    assert_eq!(ipa_inner("pɪn"), "pɪn");
    assert_eq!(ipa_inner("/"), "/");
    assert!(is_phonetic("[a]"));
    assert!(!is_phonetic("/a/"));
}

#[test]
fn normalizing_keeps_inner() {
    for t in ["[x]", "/x/", "\\x\\", "x", "", "/", "\\", "[", "x/", "/x"] {
        assert_eq!(ipa_inner(&normalize_ipa(t)), ipa_inner(t));
        assert_eq!(normalize_ipa(&normalize_ipa(t)), normalize_ipa(t));
    }
}
