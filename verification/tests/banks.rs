use wty::dict::writer::{bank_name, bank_plan};

#[test]
fn groups_cut_into_banks() {
    // Lemmas fill two banks and a bit; no forms; three metas start a bank of their own.
    assert_eq!(
        bank_plan(&vec![50_001, 0, 3]),
        vec![(0, 0, 25_000), (0, 25_000, 50_000), (0, 50_000, 50_001), (2, 0, 3)]
    );
    // Forms start a new bank after the lemmas.
    assert_eq!(bank_plan(&vec![2, 25_000]), vec![(0, 0, 2), (1, 0, 25_000)]);
    assert_eq!(bank_plan(&vec![]), vec![]);
}

#[test]
fn bank_names() {
    assert_eq!(bank_name("term_bank", 1), "term_bank_1.json");
    assert_eq!(bank_name("term_meta_bank", 12), "term_meta_bank_12.json");
}
