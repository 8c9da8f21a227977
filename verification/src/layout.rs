use vstd::prelude::*;

verus! {

/// The fragment that ends every output line.
pub open spec fn newline() -> Seq<char> {
    seq!['\n']
}

/// The fragment that separates two joined lines.
pub open spec fn space() -> Seq<char> {
    seq![' ']
}

/// `count` copies of one fragment.
pub open spec fn run(piece: Seq<char>, count: nat) -> Seq<Seq<char>> {
    Seq::new(count, |k: int| piece)
}

/// Line `i` of a block, or the empty text where the block has no such line.
pub open spec fn line_at(block: Seq<Seq<char>>, i: int) -> Seq<char> {
    if 0 <= i < block.len() {
        block[i]
    } else {
        Seq::empty()
    }
}

/// The largest of the widths, or 0 where there is none.
pub open spec fn widest(widths: Seq<nat>) -> nat
    decreases widths.len(),
{
    if widths.len() == 0 {
        0
    } else {
        let before = widest(widths.drop_last());
        if widths.last() > before {
            widths.last()
        } else {
            before
        }
    }
}

/// How many fill fragments stand between line `i` of the first block and the second
/// block's line beside it: what line `i` lacks to the widest line, and `repeat` more.
pub open spec fn padding(widths: Seq<nat>, repeat: nat, i: int) -> nat {
    (widest(widths) - widths[i] + repeat) as nat
}

/// Output line `i` of the column layout. `widths` holds the width of each line of `one`.
pub open spec fn column_row(
    one: Seq<Seq<char>>,
    widths: Seq<nat>,
    two: Seq<Seq<char>>,
    fill: Seq<char>,
    repeat: nat,
    i: int,
) -> Seq<Seq<char>> {
    if i < one.len() && i < two.len() {
        seq![one[i]] + run(fill, padding(widths, repeat, i)) + seq![two[i], newline()]
    } else if i < one.len() {
        seq![one[i], newline()]
    } else {
        run(fill, widest(widths) + repeat) + seq![two[i], newline()]
    }
}

/// The output lines of the column layout: one for each line of the longer block.
pub open spec fn column_rows(
    one: Seq<Seq<char>>,
    widths: Seq<nat>,
    two: Seq<Seq<char>>,
    fill: Seq<char>,
    repeat: nat,
) -> Seq<Seq<Seq<char>>> {
    Seq::new(
        if one.len() >= two.len() {
            one.len()
        } else {
            two.len()
        },
        |i: int| column_row(one, widths, two, fill, repeat, i),
    )
}

/// Output line `i` of the simple layout: both lines with one space between them, or
/// the one line that there is.
pub open spec fn simple_row(one: Seq<Seq<char>>, two: Seq<Seq<char>>, i: int) -> Seq<Seq<char>> {
    if i < one.len() && i < two.len() {
        seq![one[i], space(), two[i], newline()]
    } else if i < one.len() {
        seq![one[i], newline()]
    } else {
        seq![two[i], newline()]
    }
}

/// The output lines of the simple layout: one for each line of the longer block.
pub open spec fn simple_rows(one: Seq<Seq<char>>, two: Seq<Seq<char>>) -> Seq<Seq<Seq<char>>> {
    Seq::new(
        if one.len() >= two.len() {
            one.len()
        } else {
            two.len()
        },
        |i: int| simple_row(one, two, i),
    )
}

/// Whether both blocks have a line `i` that is not empty.
pub open spec fn is_pair(one: Seq<Seq<char>>, two: Seq<Seq<char>>, i: int) -> bool {
    0 <= i < one.len() && i < two.len() && one[i].len() > 0 && two[i].len() > 0
}

/// What index `i` gives to the paired layout: both lines with one space between them
/// where they are a pair, and nothing at all where they are not.
pub open spec fn paired_row(one: Seq<Seq<char>>, two: Seq<Seq<char>>, i: int) -> Seq<Seq<char>> {
    if is_pair(one, two, i) {
        seq![one[i], space(), two[i], newline()]
    } else {
        Seq::empty()
    }
}

/// The paired layout, index by index of the first block.
pub open spec fn paired_rows(one: Seq<Seq<char>>, two: Seq<Seq<char>>) -> Seq<Seq<Seq<char>>> {
    Seq::new(one.len(), |i: int| paired_row(one, two, i))
}

/// Whether one of the first `upto` blocks has a line `i` that is not empty.
pub open spec fn has_text(blocks: Seq<Seq<Seq<char>>>, i: int, upto: int) -> bool
    decreases upto,
{
    if upto <= 0 {
        false
    } else {
        has_text(blocks, i, upto - 1) || line_at(blocks[upto - 1], i).len() > 0
    }
}

/// What block `j` adds to output line `i` behind the blocks before it: nothing where
/// its line is missing or empty, else the line, after a space where text stands before it.
pub open spec fn joined_part(blocks: Seq<Seq<Seq<char>>>, i: int, j: int) -> Seq<Seq<char>> {
    let line = line_at(blocks[j], i);
    if line.len() == 0 {
        Seq::empty()
    } else if has_text(blocks, i, j) {
        seq![space(), line]
    } else {
        seq![line]
    }
}

/// Output line `i` as far as the first `upto` blocks make it. The first block's line
/// is always there, empty or not.
pub open spec fn joined(blocks: Seq<Seq<Seq<char>>>, i: int, upto: int) -> Seq<Seq<char>>
    decreases upto,
{
    if upto <= 0 {
        Seq::empty()
    } else if upto == 1 {
        seq![line_at(blocks[0], i)]
    } else {
        joined(blocks, i, upto - 1) + joined_part(blocks, i, upto - 1)
    }
}

/// The lines `i` of the first `upto` blocks that are not empty, in order.
pub open spec fn present(blocks: Seq<Seq<Seq<char>>>, i: int, upto: int) -> Seq<Seq<char>>
    decreases upto,
{
    if upto <= 0 {
        Seq::empty()
    } else {
        let line = line_at(blocks[upto - 1], i);
        present(blocks, i, upto - 1) + if line.len() > 0 {
            seq![line]
        } else {
            Seq::empty()
        }
    }
}

/// The lines with one space between each two of them.
pub open spec fn spaced(lines: Seq<Seq<char>>) -> Seq<Seq<char>>
    decreases lines.len(),
{
    if lines.len() == 0 {
        Seq::empty()
    } else if lines.len() == 1 {
        seq![lines[0]]
    } else {
        spaced(lines.drop_last()) + seq![space(), lines.last()]
    }
}

/// Output line `i` of the layout that the first block drives.
pub open spec fn first_driven_row(blocks: Seq<Seq<Seq<char>>>, i: int) -> Seq<Seq<char>> {
    joined(blocks, i, blocks.len() as int) + seq![newline()]
}

/// The output lines of the layout that the first block drives: one for each of its
/// lines, and none where there is no block.
pub open spec fn first_driven_rows(blocks: Seq<Seq<Seq<char>>>) -> Seq<Seq<Seq<char>>> {
    Seq::new(
        if blocks.len() == 0 {
            0
        } else {
            blocks[0].len()
        },
        |i: int| first_driven_row(blocks, i),
    )
}

} // verus!
