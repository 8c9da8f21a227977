use cattocol::by_pairs;

#[test]
fn test_by_pairs_first_gt_second() {
    let iter = by_pairs("one\ntwo\nthree\nprimary\nsecondary\n", "first\nsecond\n");
    assert_eq!(
        &iter.collect(),
        "one first\ntwo second\n"
    );
}

#[test]
fn test_by_pairs_first_eq_second() {
    let iter = by_pairs("one\ntwo\nthree\n", "first\nsecond\nthird\n");
    assert_eq!(
        &iter.collect(),
        "one first\ntwo second\nthree third\n"
    );
}

#[test]
fn test_by_pairs_first_lt_second() {
    let iter = by_pairs("one\ntwo\nthree\n", "first\nsecond\nthird\nfourth\nfifth\n");
    assert_eq!(
        &iter.collect(),
        "one first\ntwo second\nthree third\n"
    );
}

#[test]
fn test_by_pairs_first_empty() {
    let iter = by_pairs("", "first\nsecond\nthird\nfourth\nfifth\n");
    assert_eq!(&iter.collect(), "");
}

#[test]
fn test_by_pairs_second_empty() {
    let iter = by_pairs("one\ntwo\nthree\n", "");
    assert_eq!(&iter.collect(), "");
}

#[test]
fn test_by_pairs_first_second_empty() {
    let iter = by_pairs("", "");
    assert_eq!(&iter.collect(), "");
}

#[test]
fn test_by_pairs_first_newline() {
    let iter = by_pairs("\n\n", "first\nsecond\n");
    assert_eq!(&iter.collect(), "");
}

#[test]
fn test_by_pairs_first_newline_gt_second() {
    let iter = by_pairs("one\ntwo\n\n\n", "first\nsecond\n");
    assert_eq!(&iter.collect(), "one first\ntwo second\n");
}

#[test]
fn test_by_pairs_newlines() {
    let iter = by_pairs("\n\n\n\n", "\n\n\n\n");
    assert_eq!(&iter.collect(), "");
}

#[test]
fn test_by_pairs_second_newline() {
    let iter = by_pairs("one\ntwo\n\n\n", "\n\n");
    assert_eq!(&iter.collect(), "");
}
