use wty::tags::{merge_case_tags, merge_person_tags, merge_verb_form_tags};

fn to_string_vec(str_vec: &[&str]) -> Vec<String> {
    str_vec.iter().map(|s| (*s).to_string()).collect()
}

fn make_test_merge_person_tags(received: &[&str], expected: &[&str]) {
    let mut vreceived: Vec<String> = to_string_vec(received);
    let vexpected: Vec<String> = to_string_vec(expected);
    merge_person_tags(&mut vreceived);
    assert_eq!(vreceived, vexpected);
}

#[test]
fn merge_person_tags1() {
    make_test_merge_person_tags(
        &["first-person singular present", "third-person singular present"],
        &["singular present first/third-person"],
    );
}

#[test]
fn merge_person_tags2() {
    make_test_merge_person_tags(
        &["first-person singular past", "second-person singular past", "third-person singular past"],
        &["singular past first/second/third-person"],
    );
}

#[test]
fn merge_person_tags_keeps_others_first() {
    make_test_merge_person_tags(
        &["third-person plural", "infinitive", "first-person plural", "first-person third-person"],
        &["infinitive", "first-person third-person", "plural first/third-person"],
    );
}

#[test]
fn merge_case_tags_sorts_by_case_order() {
    let mut tags = to_string_vec(&["accusative plural", "nominative plural", "genitive singular"]);
    merge_case_tags(&mut tags);
    assert_eq!(tags, to_string_vec(&["plural nominative/accusative", "singular genitive"]));
}

#[test]
fn merge_verb_form_tags_base() {
    let mut tags = to_string_vec(&["subjunctive singular", "passive participle", "imperative singular"]);
    merge_verb_form_tags(&mut tags);
    assert_eq!(tags, to_string_vec(&["passive participle", "singular imperative/subjunctive"]));
}
