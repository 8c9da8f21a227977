use cattocol::{by_lines, by_n_lines, by_pairs, by_three_lines, cat_to_col, CatToCol};

#[test]
fn column_pads_to_the_widest_line_and_keeps_the_column_for_leftovers() {
    let settings = CatToCol::new().fill(' ').repeat(1);
    let one = "Combine two texts\ninto one text\nfrom two columns.";
    let two = "Returns an iterator\nfrom one\ntext of two\nmerged columns.\nCollect to String.";
    let text = settings.combine_col(one, two).collect();
    let lines: Vec<&str> = text.lines().collect();
    assert_eq!(lines.len(), 5);
    assert_eq!(lines[0], "Combine two texts Returns an iterator");
    assert_eq!(lines[3], format!("{}merged columns.", " ".repeat(18)));
    assert_eq!(lines[4], format!("{}Collect to String.", " ".repeat(18)));
}

#[test]
fn by_lines_emits_the_extra_line_of_the_first_text_bare() {
    assert_eq!(by_lines("one\ntwo\nthree", "first\nsecond").collect(), "one first\ntwo second\nthree\n");
}

#[test]
fn by_pairs_with_an_empty_line_and_a_missing_line_is_empty() {
    assert_eq!(by_pairs("one\ntwo", "\n").collect(), "");
}

#[test]
fn an_empty_block_in_the_middle_adds_no_space() {
    assert_eq!(
        by_three_lines("one\ntwo", "\n\n", "primary\nsecondary").collect(),
        "one primary\ntwo secondary\n"
    );
    assert_eq!(
        by_n_lines(&["one\ntwo", "\n\n", "primary\nsecondary"]).collect(),
        "one primary\ntwo secondary\n"
    );
}

#[test]
fn column_beside_no_text_is_all_padding() {
    let settings = CatToCol::new().fill(' ').repeat(10);
    let text = settings.combine_col("", "Combine two texts\ninto one text\nfrom two columns.").collect();
    assert_eq!(
        text,
        "          Combine two texts\n          into one text\n          from two columns.\n"
    );
}

#[test]
fn by_n_lines_joins_five_texts() {
    let text = by_n_lines(&["a\n\nc\n", "1\n2\n", "\nx\ny\nz", "", "p\nq\nr"]).collect();
    assert_eq!(text, "a 1 p\n2 x q\nc y r\n");
}

#[test]
fn by_n_lines_of_one_text_is_its_lines() {
    assert_eq!(by_n_lines(&["a\n\nb"]).collect(), "a\n\nb\n");
}

#[test]
fn by_n_lines_of_no_text_is_empty() {
    assert_eq!(by_n_lines(&[]).collect(), "");
}

#[test]
fn by_n_lines_agrees_with_the_fixed_arities() {
    let (a, b, c, d) = ("one\n\nthree\n", "\nsecond\nthird\nfourth", "primary\nsecondary\n", "uno\n\n\nquattro");
    assert_eq!(by_n_lines(&[a, b]).collect(), by_lines(a, b).collect());
    assert_eq!(by_n_lines(&[a, b, c]).collect(), by_three_lines(a, b, c).collect());
    assert_eq!(by_n_lines(&[a, b, c, d]).collect(), cattocol::by_four_lines(a, b, c, d).collect());
}

#[test]
fn a_carriage_return_before_a_line_feed_ends_the_line_with_it() {
    assert_eq!(cat_to_col("a\r\nb\r\n", "c\r\nd").collect(), "a c\nb d\n");
}

#[test]
fn a_carriage_return_alone_stays_in_its_line() {
    assert_eq!(cat_to_col("a\rb", "c\r").collect(), "a\rb c\r\n");
    assert_eq!(by_lines("a\r", "").collect(), "a\r\n");
}

#[test]
fn a_text_that_ends_in_a_line_feed_has_no_empty_last_line() {
    assert_eq!(cat_to_col("a\n", "b\n").collect(), "a b\n");
    assert_eq!(cat_to_col("a\n\n", "b").collect(), "a b\n\n");
}

#[test]
fn settings_start_with_a_space_and_no_repeat() {
    assert_eq!(CatToCol::new().combine_col("ab\nc", "x\ny").collect(), "abx\nc y\n");
    assert_eq!(CatToCol::default(), CatToCol::new());
    assert_eq!(CatToCol::new().fill(' ').repeat(0), CatToCol::new());
    assert_ne!(CatToCol::new().fill('-'), CatToCol::new());
    assert_ne!(CatToCol::new().repeat(1), CatToCol::new());
}

#[test]
fn a_clone_of_the_settings_combines_alike() {
    let settings = CatToCol::new().fill('\u{254d}').repeat(3);
    let copy = settings.clone();
    assert_eq!(copy, settings);
    assert_eq!(copy.combine_col("ab\nc", "x\ny").collect(), settings.combine_col("ab\nc", "x\ny").collect());
    assert_eq!(copy.combine_col("a", "x").collect(), "a\u{254d}\u{254d}\u{254d}x\n");
}

#[test]
fn the_later_setting_wins() {
    let settings = CatToCol::new().fill('a').repeat(5).fill('b').repeat(2);
    assert_eq!(settings.combine_col("x", "y").collect(), "xbby\n");
}

#[test]
fn measured_lines_are_padded_by_the_widths_they_come_with() {
    let settings = CatToCol::new().fill('.').repeat(1);
    let measured = vec![("\u{4f60}\u{597d}", 4), ("abc", 3), ("", 0)];
    let text = settings.combine_measured(&measured, "x\ny\nz\nw").collect();
    assert_eq!(text, "\u{4f60}\u{597d}.x\nabc..y\n.....z\n.....w\n");
}

#[test]
fn measured_lines_beside_a_shorter_text_stand_alone() {
    let settings = CatToCol::new().fill('.').repeat(1);
    let measured = vec![("ab", 2), ("c", 1)];
    assert_eq!(settings.combine_measured(&measured, "x").collect(), "ab.x\nc\n");
    assert_eq!(settings.combine_measured(&vec![], "x").collect(), ".x\n");
}
