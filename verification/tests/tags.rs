use wty::lang::Lang;
use wty::models::yomitan::TagInfo;
use wty::tags::bank::{find_tag_in_bank, get_tag_bank_as_tag_info};
use wty::tags::localization::localize_tag;
use wty::tags::{remove_redundant_tags, sort_tags, sort_tags_by_similar, tags_are_subset, TAG_ORDER};

fn to_string_vec(str_vec: &[&str]) -> Vec<String> {
    str_vec.iter().map(|s| (*s).to_string()).collect()
}

fn to_str_vec<'a>(str_vec: &[&'a str]) -> Vec<&'a str> {
    str_vec.to_vec()
}

#[test]
fn sort_tags_not_found() {
    let tag_not_found = "__sentinel";
    assert!(!TAG_ORDER.contains(&tag_not_found));
    let mut received = to_str_vec(&[tag_not_found, "Gheg"]);
    let expected = to_string_vec(&[tag_not_found, "Gheg"]);
    sort_tags(&mut received);
    assert_eq!(received, expected);
}

#[test]
fn sort_tags_base() {
    let tag1 = "genitive";
    let tag2 = "accusative";
    let index_1 = TAG_ORDER.iter().position(|&x| x == tag1).unwrap();
    let index_2 = TAG_ORDER.iter().position(|&x| x == tag2).unwrap();
    assert!(index_1 < index_2);

    let mut received = to_str_vec(&[tag2, tag1]);
    let expected = to_string_vec(&[tag1, tag2]);
    sort_tags(&mut received);
    assert_eq!(received, expected);
}

#[test]
fn sort_tags_with_separator() {
    let tag1 = "genitive/dative";
    let tag2 = "accusative";

    let mut received = to_str_vec(&[tag2, tag1]);
    let expected = to_string_vec(&[tag1, tag2]);
    sort_tags(&mut received);
    assert_eq!(received, expected);
}

fn make_test_sort_tags_by_similar(received: &[&str], expected: &[&str]) {
    let mut vreceived: Vec<String> = to_string_vec(received);
    let vexpected: Vec<String> = to_string_vec(expected);
    sort_tags_by_similar(&mut vreceived);
    assert_eq!(vreceived, vexpected);
}

#[test]
fn sort_tags_by_similar1() {
    make_test_sort_tags_by_similar(&["singular", "accusative"], &["accusative", "singular"]);
}

#[test]
fn sort_tags_by_similar2() {
    make_test_sort_tags_by_similar(
        &["accusative", "singular", "neuter", "nominative", "vocative"],
        &["accusative", "neuter", "nominative", "singular", "vocative"],
    );
}

#[test]
fn sort_tags_by_similar3() {
    make_test_sort_tags_by_similar(
        &["dual nominative", "accusative dual", "dual vocative"],
        &["accusative dual", "dual nominative", "dual vocative"],
    );
}

#[test]
fn remove_redundant_tags1() {
    let mut received = to_string_vec(&["foo", "bar", "foo bar", "foo bar zee"]);
    let expected = to_string_vec(&["foo bar zee"]);
    remove_redundant_tags(&mut received);
    assert_eq!(received, expected);
}

#[test]
fn remove_redundant_tags2() {
    let mut received = to_string_vec(&[
        "first-person singular indicative preterite",
        "first-person singular preterite",
    ]);
    let expected = to_string_vec(&["first-person singular indicative preterite"]);
    remove_redundant_tags(&mut received);
    assert_eq!(received, expected);
}

#[test]
fn remove_redundant_tags_duplicates1() {
    let mut received = to_string_vec(&["a b", "a b"]);
    let expected = to_string_vec(&["a b"]);
    remove_redundant_tags(&mut received);
    assert_eq!(received, expected);
}

#[test]
fn remove_redundant_tags_duplicates2() {
    let mut received = to_string_vec(&["a b", "b a"]);
    let expected = to_string_vec(&["b a"]);
    remove_redundant_tags(&mut received);
    assert_eq!(received, expected);
}

#[test]
fn remove_redundant_tags_duplicates3() {
    let mut received = to_string_vec(&["a b", "c a b", "b a", "b a c", "c b a"]);
    let expected = to_string_vec(&["c b a"]);
    remove_redundant_tags(&mut received);
    assert_eq!(received, expected);
}

#[test]
fn remove_redundant_tags_duplicates4() {
    let mut received = to_string_vec(&["s no ne", "ne s no", "ne", "no"]);
    let expected = to_string_vec(&["ne s no"]);
    remove_redundant_tags(&mut received);
    assert_eq!(received, expected);
}

#[test]
fn tags_subsets() {
    assert!(tags_are_subset("foo bar", "bar foo baz"));
    assert!(!tags_are_subset("foo qux", "foo bar baz"));
}

#[test]
fn locale_ja_tag_bank() {
    let tag_bank = get_tag_bank_as_tag_info(Lang::Ja);
    let entry = ("動", "partOfSpeech", -2, &["動詞"][..], 2);
    let loc_tag_info = TagInfo::new(&entry);
    assert!(tag_bank.contains(&loc_tag_info));
}

#[test]
fn locale_ja_translate_tag() {
    let loc_tag = localize_tag(Lang::Ja, "v");
    assert_eq!(loc_tag, Some(("動", "動詞")));
}

#[test]
fn tag_aliases_share_short_form() {
    for alias in ["abbreviation", "abbrev"] {
        let info = find_tag_in_bank(alias).expect("an alias of the bank");
        assert_eq!(info.short_tag, "abbv");
        assert_eq!(info.long_tag, "abbreviation");
    }
    assert!(find_tag_in_bank("not-a-tag-of-the-bank").is_none());
}
