use wty::lang::{Edition, Lang};
use wty::tags::bank::find_short_pos_or_default;
use wty::tags::localization::{has_locale, localize_tag};

#[test]
fn editions_round_trip_through_languages() {
    for edition in Edition::all() {
        assert_eq!(Lang::from(edition).to_edition(), Ok(edition));
    }
    assert!(Lang::Grc.to_edition().is_err());
}

#[test]
fn every_language_listed_once() {
    let all = Lang::all();
    for (i, l) in all.iter().enumerate() {
        assert_eq!(all.iter().position(|m| m == l), Some(i));
    }
    assert!(all.contains(&Lang::Grc));
}

#[test]
fn short_part_of_speech() {
    assert_eq!(find_short_pos_or_default("noun"), "n");
    assert_eq!(find_short_pos_or_default("nouns"), "n");
    assert_eq!(find_short_pos_or_default("not-a-pos"), "not-a-pos");
}

#[test]
fn only_locales_localize() {
    assert!(has_locale(Lang::De) && has_locale(Lang::Ja) && !has_locale(Lang::Fr));
    assert!(localize_tag(Lang::De, "n").is_some());
    assert!(localize_tag(Lang::Fr, "n").is_none());
}
