use cattocol::CatToCol;

#[test]
fn combine_one_two_txt() {
    let cat_to_col = CatToCol::new().fill(' ').repeat(1);
    let txt_col = "Combine two texts Returns an iterator\ninto one text     from one\nfrom two columns. text of two\n                  merged columns.\n                  Collect to String.\n";
    let txt_one = "Combine two texts\ninto one text\nfrom two columns.";
    let txt_two =
        "Returns an iterator\nfrom one\ntext of two\nmerged columns.\nCollect to String.";
    let texts = cat_to_col.combine_col(&txt_one, &txt_two).collect();
    println!("\n{txt_one}");
    println!("\n{txt_two}");
    println!("\n{texts}");
    assert_eq!(texts, txt_col);
}

#[test]
fn combine_one_newline_two_txt() {
    let cat_to_col = CatToCol::new().fill(' ').repeat(1);
    let txt_col = "                  Returns an iterator\nfrom two columns. text of two\n                  merged columns.\n                  Collect to String.\n";
    let txt_one = "\nfrom two columns.\n\n";
    let txt_two =
        "Returns an iterator\ntext of two\nmerged columns.\nCollect to String.";
    let texts = cat_to_col.combine_col(&txt_one, &txt_two).collect();
    println!("\n{txt_one}");
    println!("\n{txt_two}");
    println!("\n{texts}");
    assert_eq!(texts, txt_col);
}

#[test]
fn combine_two_one_txt() {
    let cat_to_col = CatToCol::new().fill(' ').repeat(1);
    let txt_col = "Returns an iterator Combine two texts\nfrom one            into one text\ntext of two         from two columns.\nmerged columns.\nCollect to String.\n";
    let txt_one = "Combine two texts\ninto one text\nfrom two columns.";
    let txt_two =
        "Returns an iterator\nfrom one\ntext of two\nmerged columns.\nCollect to String.";
    let texts = cat_to_col.combine_col(&txt_two, &txt_one).collect();
    println!("\n{txt_one}");
    println!("\n{txt_two}");
    println!("\n{texts}");
    assert_eq!(texts, txt_col);
}

#[test]
fn combine_one_two_repeat_txt() {
    let cat_to_col = CatToCol::new().fill(' ').repeat(10);
    let txt_col = "Combine two texts          Returns an iterator\ninto one text              from one\nfrom two columns.          text of two\n                           merged columns.\n                           Collect to String.\n";
    let txt_one = "Combine two texts\ninto one text\nfrom two columns.";
    let txt_two =
        "Returns an iterator\nfrom one\ntext of two\nmerged columns.\nCollect to String.";
    let texts = cat_to_col.combine_col(&txt_one, &txt_two).collect();
    println!("\n{txt_one}");
    println!("\n{txt_two}");
    println!("\n{texts}");
    assert_eq!(texts, txt_col);
}

#[test]
fn combine_one_empty_repeat_txt() {
    let cat_to_col = CatToCol::new().fill(' ').repeat(10);
    let txt_col = "Combine two texts\ninto one text\nfrom two columns.\n";
    let txt_one = "Combine two texts\ninto one text\nfrom two columns.";
    let texts = cat_to_col.combine_col(&txt_one, "").collect();
    println!("\n{txt_one}");
    println!("\n{texts}");
    assert_eq!(texts, txt_col);
}

#[test]
fn combine_empty_one_repeat_txt() {
    let cat_to_col = CatToCol::new().fill(' ').repeat(10);
    let txt_col = "          Combine two texts\n          into one text\n          from two columns.\n";
    let txt_one = "Combine two texts\ninto one text\nfrom two columns.";
    let texts = cat_to_col.combine_col("", &txt_one).collect();
    println!("\n{txt_one}");
    println!("\n{texts}");
    assert_eq!(texts, txt_col);
}

#[test]
fn combine_one_two_repeat_fill_txt() {
    let cat_to_col = CatToCol::new().repeat(10).fill('╍');
    let txt_col = "Combine two texts╍╍╍╍╍╍╍╍╍╍Returns an iterator\ninto one text╍╍╍╍╍╍╍╍╍╍╍╍╍╍from one\nfrom two columns.╍╍╍╍╍╍╍╍╍╍text of two\n╍╍╍╍╍╍╍╍╍╍╍╍╍╍╍╍╍╍╍╍╍╍╍╍╍╍╍merged columns.\n╍╍╍╍╍╍╍╍╍╍╍╍╍╍╍╍╍╍╍╍╍╍╍╍╍╍╍Collect to String.\n";
    let txt_one = "Combine two texts\ninto one text\nfrom two columns.";
    let txt_two =
        "Returns an iterator\nfrom one\ntext of two\nmerged columns.\nCollect to String.";
    let texts = cat_to_col.combine_col(&txt_one, &txt_two).collect();
    println!("\n{txt_one}");
    println!("\n{txt_two}");
    println!("\n{texts}");
    assert_eq!(texts, txt_col);
}

#[test]
fn combine_one_two_repeat_zero_fill_txt() {
    let cat_to_col = CatToCol::new().repeat(0).fill('╍');
    let txt_col = "Combine two textsReturns an iterator\ninto one text╍╍╍╍from one\nfrom two columns.text of two\n╍╍╍╍╍╍╍╍╍╍╍╍╍╍╍╍╍merged columns.\n╍╍╍╍╍╍╍╍╍╍╍╍╍╍╍╍╍Collect to String.\n";
    let txt_one = "Combine two texts\ninto one text\nfrom two columns.";
    let txt_two =
        "Returns an iterator\nfrom one\ntext of two\nmerged columns.\nCollect to String.";
    let texts = cat_to_col.combine_col(&txt_one, &txt_two).collect();
    println!("\n{txt_one}");
    println!("\n{txt_two}");
    println!("\n{txt_col}");
    println!("\n{texts}");
    assert_eq!(texts, txt_col);
}

#[test]
fn combine_esc_one_two_txt() {
    let cat_to_col = CatToCol::new().fill(' ').repeat(1);
    let txt_col = "\x1b[33mCombine\x1b[0m \x1b[36mtwo\x1b[0m texts Returns an iterator\ninto one text     from one\nfrom two columns. text of two\n                  merged columns.\n                  Collect to String.\n";
    let txt_one = "\x1b[33mCombine\x1b[0m \x1b[36mtwo\x1b[0m texts\ninto one text\nfrom two columns.";
    let txt_two =
        "Returns an iterator\nfrom one\ntext of two\nmerged columns.\nCollect to String.";
    let texts = cat_to_col.combine_col_esc(&txt_one, &txt_two).unwrap().collect();
    println!("\n{txt_one}");
    println!("\n{txt_two}");
    println!("\n{texts}");
    assert_eq!(texts, txt_col);
}
