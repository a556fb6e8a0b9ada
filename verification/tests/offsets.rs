use wty::dict::main::yomitan::sanitize_offsets;

#[test]
fn main_offset_base() {
    assert_eq!(sanitize_offsets(&[], 10), vec![]);
    assert_eq!(sanitize_offsets(&[(0, 2), (3, 5)], 10), vec![(0, 2), (3, 5)]);
}

#[test]
fn main_offset_out_of_bounds() {
    assert_eq!(sanitize_offsets(&[(0, 2), (3, 20)], 10), vec![(0, 2)]);
}

#[test]
fn main_offset_overlap() {
    // 1. b == c, treated as non-overlapping
    assert_eq!(sanitize_offsets(&[(0, 2), (2, 4)], 10), vec![(0, 2), (2, 4)]);

    // 2. a == c, keep larger
    assert_eq!(sanitize_offsets(&[(10, 12), (10, 13)], 20), vec![(10, 13)]);

    // 3. b == d, keep larger
    assert_eq!(sanitize_offsets(&[(10, 12), (11, 12)], 20), vec![(10, 12)]);

    // 4. Inner is smaller - discard it
    assert_eq!(sanitize_offsets(&[(0, 10), (2, 5)], 20), vec![(0, 10)]);

    // 5. a < c < b < d - merge into (a, d)
    assert_eq!(sanitize_offsets(&[(0, 5), (3, 8)], 20), vec![(0, 8)]);
}

#[test]
fn yomitan_offset_base() {
    assert_eq!(sanitize_offsets(&[], 10), vec![]);
    assert_eq!(sanitize_offsets(&[(0, 2), (3, 5)], 10), vec![(0, 2), (3, 5)]);
}

#[test]
fn yomitan_offset_out_of_bounds() {
    assert_eq!(sanitize_offsets(&[(0, 2), (3, 20)], 10), vec![(0, 2)]);
}

#[test]
fn yomitan_offset_overlap() {
    // 1. b == c, treated as non-overlapping
    assert_eq!(sanitize_offsets(&[(0, 2), (2, 4)], 10), vec![(0, 2), (2, 4)]);

    // 2. a == c, keep larger
    assert_eq!(sanitize_offsets(&[(10, 12), (10, 13)], 20), vec![(10, 13)]);

    // 3. b == d, keep larger
    assert_eq!(sanitize_offsets(&[(10, 12), (11, 12)], 20), vec![(10, 12)]);

    // 4. Inner is smaller - discard it
    assert_eq!(sanitize_offsets(&[(0, 10), (2, 5)], 20), vec![(0, 10)]);

    // 5. a < c < b < d - merge into (a, d)
    assert_eq!(sanitize_offsets(&[(0, 5), (3, 8)], 20), vec![(0, 8)]);
}
