use vstd::prelude::*;
use crate::fragments::Fragments;
use crate::plan::Layout;
use crate::layout::{first_driven_rows, paired_rows, simple_rows};
use crate::lines::{block_views, blocks_of, line_views, lines_of, split_lines};

verus! {

/// Joins two texts line by line, with one space between the two lines. Where one text
/// has more lines than the other, those lines stand alone.
pub fn cat_to_col<'a>(str_one: &'a str, str_two: &'a str) -> (fragments: Fragments<'a>)
    ensures
        fragments@ == simple_rows(split_lines(str_one@), split_lines(str_two@)).flatten(),
{
    Fragments::two_blocks(Layout::Simple, lines_of(str_one), lines_of(str_two))
}

/// Joins two texts along the lines of the first, with one space between two lines
/// that are not empty. Lines that the second text has beyond the first are left out.
pub fn by_lines<'a>(first_str: &'a str, second_str: &'a str) -> (fragments: Fragments<'a>)
    ensures
        fragments@ == first_driven_rows(blocks_of(seq![first_str@, second_str@])).flatten(),
{
    let mut blocks: Vec<Vec<&'a str>> = Vec::new();
    blocks.push(lines_of(first_str));
    blocks.push(lines_of(second_str));
    assert(block_views(blocks@) =~= blocks_of(seq![first_str@, second_str@]));
    Fragments::first_driven(blocks)
}

/// Joins two texts pair by pair: a line of the output for each index at which both
/// texts have a line that is not empty, and nothing for any other index.
pub fn by_pairs<'a>(first_str: &'a str, second_str: &'a str) -> (fragments: Fragments<'a>)
    ensures
        fragments@ == paired_rows(split_lines(first_str@), split_lines(second_str@)).flatten(),
{
    Fragments::two_blocks(Layout::Paired, lines_of(first_str), lines_of(second_str))
}

/// Joins three texts along the lines of the first, with one space before a line that
/// is not empty and has text before it.
pub fn by_three_lines<'a>(
    first_str: &'a str,
    second_str: &'a str,
    third_str: &'a str,
) -> (fragments: Fragments<'a>)
    ensures
        fragments@ == first_driven_rows(
            blocks_of(seq![first_str@, second_str@, third_str@]),
        ).flatten(),
{
    let mut blocks: Vec<Vec<&'a str>> = Vec::new();
    blocks.push(lines_of(first_str));
    blocks.push(lines_of(second_str));
    blocks.push(lines_of(third_str));
    assert(block_views(blocks@) =~= blocks_of(seq![first_str@, second_str@, third_str@]));
    Fragments::first_driven(blocks)
}

/// Joins four texts along the lines of the first, with one space before a line that
/// is not empty and has text before it.
pub fn by_four_lines<'a>(
    first_str: &'a str,
    second_str: &'a str,
    third_str: &'a str,
    fourth_str: &'a str,
) -> (fragments: Fragments<'a>)
    ensures
        fragments@ == first_driven_rows(
            blocks_of(seq![first_str@, second_str@, third_str@, fourth_str@]),
        ).flatten(),
{
    let mut blocks: Vec<Vec<&'a str>> = Vec::new();
    blocks.push(lines_of(first_str));
    blocks.push(lines_of(second_str));
    blocks.push(lines_of(third_str));
    blocks.push(lines_of(fourth_str));
    assert(block_views(blocks@) =~= blocks_of(
        seq![first_str@, second_str@, third_str@, fourth_str@],
    ));
    Fragments::first_driven(blocks)
}

/// Joins any number of texts along the lines of the first, with one space before a
/// line that is not empty and has text before it. No text gives no line.
pub fn by_n_lines<'a>(texts: &[&'a str]) -> (fragments: Fragments<'a>)
    ensures
        fragments@ == first_driven_rows(blocks_of(line_views(texts@))).flatten(),
{
    let mut blocks: Vec<Vec<&'a str>> = Vec::new();
    let mut j: usize = 0;
    while j < texts.len()
        invariant
            j <= texts@.len(),
            blocks@.len() == j,
            forall|k: int| 0 <= k < j ==> block_views(blocks@)[k] == split_lines(texts@[k]@),
        decreases texts@.len() - j,
    {
        let ghost before = blocks@;
        blocks.push(lines_of(texts[j]));
        assert forall|k: int| 0 <= k < j + 1 implies block_views(blocks@)[k] == split_lines(
            texts@[k]@,
        ) by {
            if k < j {
                assert(block_views(blocks@)[k] == block_views(before)[k]);
            }
        }
        j += 1;
    }
    assert(block_views(blocks@) =~= blocks_of(line_views(texts@)));
    Fragments::first_driven(blocks)
}

} // verus!
