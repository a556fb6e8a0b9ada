use wty::dict::writer::{debug_forms_text, group_forms};
use wty::models::yomitan::{DetailedDefinition, TermInfoForm};

fn form(term: &str, rules: &str, from: &[&str]) -> TermInfoForm {
    TermInfoForm {
        term: term.to_string(),
        reading: term.to_string(),
        rules: rules.to_string(),
        definitions: from
            .iter()
            .map(|f| DetailedDefinition::Inflection((f.to_string(), vec!["plural".to_string()])))
            .collect(),
    }
}

#[test]
fn forms_grouped_by_lemma() {
    let forms = vec![form("cats", "n", &["cat"]), form("dogs", "n", &["dog"]), form("cats", "v", &["cat"]), form("cat's", "n", &["cat", "cat"])];
    let groups = group_forms(&forms);
    assert_eq!(groups.len(), 2);
    assert_eq!(groups[0].from, "cat");
    assert_eq!(groups[0].rules, vec!["n".to_string(), "v".to_string()]);
    assert_eq!(groups[0].tos, vec!["cats".to_string(), "cat's".to_string()]);
    assert_eq!(groups[1].from, "dog");
    assert_eq!(debug_forms_text(&groups), "cat | n, v\ncats\ncat's\n\ndog | n\ndogs\n\n");
}

#[test]
fn no_forms_no_text() {
    assert_eq!(debug_forms_text(&group_forms(&vec![])), "");
}
