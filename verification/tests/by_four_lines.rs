use cattocol::by_four_lines;

#[test]
fn test_cat_four_lines_first_gt_second() {
    let iter = by_four_lines("one\ntwo\nthree\nfour\n", "first\nsecond\n", "primary\nsecondary\n", "uno\ndue\ntre\nquattro\n");
    let com_text = &iter.collect();

    assert_eq!(com_text, "one first primary uno\ntwo second secondary due\nthree tre\nfour quattro\n");

    println!("{:?}", com_text);
}

#[test]
fn test_cat_four_lines_first_empty() {
    let iter = by_four_lines("", "first\nsecond\n", "primary\nsecondary\n", "uno\ndue\ntre\nquattro\n");
    let com_text = &iter.collect();

    assert_eq!(com_text, "");

    println!("{:?}", com_text);
}

#[test]
fn test_cat_four_lines_second_empty() {
    let iter = by_four_lines("one\ntwo\nthree\nfour\n", "", "primary\nsecondary\n", "uno\ndue\ntre\nquattro\n");
    let com_text = &iter.collect();

    assert_eq!(com_text, "one primary uno\ntwo secondary due\nthree tre\nfour quattro\n");

    println!("{:?}", com_text);
}

#[test]
fn test_cat_four_lines_third_empty() {
    let iter = by_four_lines("one\ntwo\nthree\nfour\n", "first\nsecond\n", "", "uno\ndue\ntre\nquattro\n");
    let com_text = &iter.collect();

    assert_eq!(com_text, "one first uno\ntwo second due\nthree tre\nfour quattro\n");

    println!("{:?}", com_text);
}

#[test]
fn test_cat_four_lines_fourth_empty() {
    let iter = by_four_lines("one\ntwo\nthree\nfour\n", "first\nsecond\n", "primary\nsecondary\n", "");
    let com_text = &iter.collect();

    assert_eq!(com_text, "one first primary\ntwo second secondary\nthree\nfour\n");

    println!("{:?}", com_text);
}

#[test]
fn test_cat_four_lines_second_third_empty() {
    let iter = by_four_lines("one\ntwo\nthree\nfour\n", "", "", "uno\ndue\ntre\nquattro\n");
    let com_text = &iter.collect();

    assert_eq!(com_text, "one uno\ntwo due\nthree tre\nfour quattro\n");

    println!("{:?}", com_text);
}

#[test]
fn test_cat_four_lines_second_third_fourth_empty() {
    let iter = by_four_lines("one\ntwo\nthree\nfour\n", "", "", "");
    let com_text = &iter.collect();

    assert_eq!(com_text, "one\ntwo\nthree\nfour\n");

    println!("{:?}", com_text);
}

#[test]
fn test_cat_four_lines_second_fourth_empty() {
    let iter = by_four_lines("one\ntwo\nthree\nfour\n", "", "primary\nsecondary\n", "");
    let com_text = &iter.collect();

    assert_eq!(com_text, "one primary\ntwo secondary\nthree\nfour\n");

    println!("{:?}", com_text);
}

#[test]
fn test_cat_four_lines_first_newline() {
    let iter = by_four_lines("\n\n\n\n", "first\nsecond\n", "primary\nsecondary\n", "uno\ndue\ntre\nquattro\n");
    let com_text = &iter.collect();

    assert_eq!(com_text, "first primary uno\nsecond secondary due\ntre\nquattro\n");

    println!("{:?}", com_text);
}

#[test]
fn test_cat_four_lines_first_second_newline() {
    let iter = by_four_lines("\n\n\n\n", "\n\n", "primary\nsecondary\n", "uno\ndue\ntre\nquattro\n");
    let com_text = &iter.collect();

    assert_eq!(com_text, "primary uno\nsecondary due\ntre\nquattro\n");

    println!("{:?}", com_text);
}

#[test]
fn test_cat_four_lines_first_second_third_fourth_newline() {
    let iter = by_four_lines("\n\n\n\n", "\n\n", "\n\n", "\n\n\n\n");
    let com_text = &iter.collect();

    assert_eq!(com_text, "\n\n\n\n");

    println!("{:?}", com_text);
}

#[test]
fn test_cat_four_lines_fourth_newline() {
    let iter = by_four_lines("one\ntwo\nthree\nfour\n", "first\nsecond\n", "primary\nsecondary\n", "\n\n\n\n");
    let com_text = &iter.collect();

    assert_eq!(com_text, "one first primary\ntwo second secondary\nthree\nfour\n");

    println!("{:?}", com_text);
}

#[test]
fn test_cat_four_lines_third_fourth_newline() {
    let iter = by_four_lines("one\ntwo\nthree\nfour\n", "first\nsecond\n", "\n\n", "\n\n\n\n");
    let com_text = &iter.collect();

    assert_eq!(com_text, "one first\ntwo second\nthree\nfour\n");

    println!("{:?}", com_text);
}

#[test]
fn test_cat_four_lines_second_third_fourth_newline() {
    let iter = by_four_lines("one\ntwo\nthree\nfour\n", "\n\n", "\n\n", "\n\n\n\n");
    let com_text = &iter.collect();

    assert_eq!(com_text, "one\ntwo\nthree\nfour\n");

    println!("{:?}", com_text);
}

#[test]
fn test_cat_four_lines_second_fourth_newline() {
    let iter = by_four_lines("one\ntwo\nthree\nfour\n", "\n\n", "primary\nsecondary\n", "\n\n\n\n");
    let com_text = &iter.collect();

    assert_eq!(com_text, "one primary\ntwo secondary\nthree\nfour\n");

    println!("{:?}", com_text);
}

#[test]
fn test_cat_four_lines_first_thirdd_newline() {
    let iter = by_four_lines("\n\n\n\n", "first\nsecond\n", "\n\n", "uno\ndue\ntre\nquattro\n");
    let com_text = &iter.collect();

    assert_eq!(com_text, "first uno\nsecond due\ntre\nquattro\n");

    println!("{:?}", com_text);
}

#[test]
fn test_cat_four_lines_second_third() {
    let iter = by_four_lines("one\ntwo\nthree\nfour\n", "\n\n", "\n\n", "uno\ndue\ntre\nquattro\n");
    let com_text = &iter.collect();

    assert_eq!(com_text, "one uno\ntwo due\nthree tre\nfour quattro\n");

    println!("{:?}", com_text);
}

#[test]
fn test_cat_four_lines_fourth_skip() {
    let iter = by_four_lines("one\ntwo\nthree\nfour\n", "first\nsecond\n", "primary\nsecondary\n", "uno\n\n\nquattro\n");
    let com_text = &iter.collect();

    assert_eq!(com_text, "one first primary uno\ntwo second secondary\nthree\nfour quattro\n");

    println!("{:?}", com_text);
}
