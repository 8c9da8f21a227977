use vstd::prelude::*;
use vstd::seq_lib::lemma_flatten_concat;
use crate::layout::{
    column_row, column_rows, first_driven_row, first_driven_rows, has_text, is_pair, joined,
    joined_part, line_at, newline, padding, paired_row, paired_rows, present, run, simple_row,
    simple_rows, space, spaced, widest,
};
use crate::lines::{
    blocks_of, lemma_lines_hold_no_newline, no_newline, no_newlines, split_lines,
};
use crate::width::{all_visible, lemma_widest, plain_widths, visible_text, visible_widths};

verus! {

/// The number of line feeds in a text.
pub open spec fn count_newlines(text: Seq<char>) -> nat
    decreases text.len(),
{
    if text.len() == 0 {
        0
    } else {
        count_newlines(text.drop_last()) + if text.last() == '\n' {
            1nat
        } else {
            0nat
        }
    }
}

/// The line feeds of two texts, one after the other, are those of both.
pub proof fn lemma_count_concat(a: Seq<char>, b: Seq<char>)
    ensures
        count_newlines(a + b) == count_newlines(a) + count_newlines(b),
    decreases b.len(),
{
    if b.len() == 0 {
        assert(a + b =~= a);
    } else {
        assert((a + b).drop_last() =~= a + b.drop_last());
        lemma_count_concat(a, b.drop_last());
    }
}

/// A text that holds no line feed counts none.
pub proof fn lemma_count_none(text: Seq<char>)
    requires
        no_newline(text),
    ensures
        count_newlines(text) == 0,
    decreases text.len(),
{
    if text.len() > 0 {
        lemma_count_none(text.drop_last());
    }
}

/// Fragments without a line feed make a text without one.
pub proof fn lemma_flatten_no_newline(pieces: Seq<Seq<char>>)
    requires
        no_newlines(pieces),
    ensures
        no_newline(pieces.flatten()),
    decreases pieces.len(),
{
    if pieces.len() > 0 {
        let before = pieces.drop_last();
        assert forall|k: int| 0 <= k < before.len() implies no_newline(#[trigger] before[k]) by {
            assert(before[k] == pieces[k]);
        }
        lemma_flatten_no_newline(before);
        assert(pieces =~= before.push(pieces.last()));
        before.lemma_flatten_push(pieces.last());
        assert(no_newline(pieces.last()));
    }
}

/// Fragments without a line feed, and a line feed behind them, make one line.
pub proof fn lemma_one_line(body: Seq<Seq<char>>)
    requires
        no_newlines(body),
    ensures
        count_newlines((body + seq![newline()]).flatten()) == 1,
{
    lemma_flatten_no_newline(body);
    lemma_count_none(body.flatten());
    assert(body + seq![newline()] =~= body.push(newline()));
    body.lemma_flatten_push(newline());
    lemma_count_concat(body.flatten(), newline());
    assert(newline().drop_last() =~= Seq::<char>::empty());
    assert(count_newlines(newline()) == 1) by {
        reveal_with_fuel(count_newlines, 2);
    }
}

/// Rows of one line each make as many lines as there are rows.
pub proof fn lemma_one_line_per_row(rows: Seq<Seq<Seq<char>>>)
    requires
        forall|i: int| 0 <= i < rows.len() ==> count_newlines((#[trigger] rows[i]).flatten()) == 1,
    ensures
        count_newlines(rows.flatten().flatten()) == rows.len(),
    decreases rows.len(),
{
    if rows.len() == 0 {
        assert(rows.flatten() =~= Seq::<Seq<char>>::empty());
    } else {
        let before = rows.drop_last();
        assert forall|i: int| 0 <= i < before.len() implies count_newlines(
            (#[trigger] before[i]).flatten(),
        ) == 1 by {
            assert(before[i] == rows[i]);
        }
        lemma_one_line_per_row(before);
        assert(rows =~= before.push(rows.last()));
        before.lemma_flatten_push(rows.last());
        lemma_flatten_concat(before.flatten(), rows.last());
        lemma_count_concat(before.flatten().flatten(), rows.last().flatten());
    }
}

/// How many fill fragments output line `i` of the column layout holds.
pub open spec fn fills(
    one: Seq<Seq<char>>,
    widths: Seq<nat>,
    two: Seq<Seq<char>>,
    repeat: nat,
    i: int,
) -> nat {
    if i < one.len() && i < two.len() {
        padding(widths, repeat, i)
    } else if i < one.len() {
        0
    } else {
        widest(widths) + repeat
    }
}

/// Whether the fill adds no line feed to the columns: it is none, or no output line
/// holds a fill.
pub open spec fn fill_ends_no_line(
    one: Seq<Seq<char>>,
    widths: Seq<nat>,
    two: Seq<Seq<char>>,
    fill: char,
    repeat: nat,
) -> bool {
    fill == '\n' ==> forall|i: int|
        0 <= i < one.len() || 0 <= i < two.len() ==> fills(one, widths, two, repeat, i) == 0
}

/// In columns, the combined text has as many lines as the longer of the two texts,
/// whatever the widths, unless a fill that is a line feed adds lines of its own.
pub proof fn lemma_column_line_count(
    one: Seq<char>,
    widths: Seq<nat>,
    two: Seq<char>,
    fill: char,
    repeat: nat,
)
    requires
        fill_ends_no_line(split_lines(one), widths, split_lines(two), fill, repeat),
    ensures
        count_newlines(
            column_rows(
                split_lines(one),
                widths,
                split_lines(two),
                seq![fill],
                repeat,
            ).flatten().flatten(),
        ) == if split_lines(one).len() >= split_lines(two).len() {
            split_lines(one).len()
        } else {
            split_lines(two).len()
        },
{
    let first = split_lines(one);
    let second = split_lines(two);
    let rows = column_rows(first, widths, second, seq![fill], repeat);
    lemma_lines_hold_no_newline(one);
    lemma_lines_hold_no_newline(two);
    assert forall|i: int| 0 <= i < rows.len() implies count_newlines(
        (#[trigger] rows[i]).flatten(),
    ) == 1 by {
        let row = column_row(first, widths, second, seq![fill], repeat, i);
        let body = row.drop_last();
        assert(row =~= body + seq![newline()]);
        assert(fill == '\n' ==> fills(first, widths, second, repeat, i) == 0);
        assert forall|k: int| 0 <= k < body.len() implies no_newline(#[trigger] body[k]) by {
            assert(body[k] == row[k]);
            if i < first.len() {
                assert(no_newline(first[i]));
            }
            if i < second.len() {
                assert(no_newline(second[i]));
            }
            if fill != '\n' {
                assert(no_newline(seq![fill]));
            }
        }
        lemma_one_line(body);
    }
    lemma_one_line_per_row(rows);
}

/// Line by line, the combined text has as many lines as the longer of the two texts.
pub proof fn lemma_simple_line_count(one: Seq<char>, two: Seq<char>)
    ensures
        count_newlines(simple_rows(split_lines(one), split_lines(two)).flatten().flatten())
            == if split_lines(one).len() >= split_lines(two).len() {
            split_lines(one).len()
        } else {
            split_lines(two).len()
        },
{
    let first = split_lines(one);
    let second = split_lines(two);
    let rows = simple_rows(first, second);
    lemma_lines_hold_no_newline(one);
    lemma_lines_hold_no_newline(two);
    assert forall|i: int| 0 <= i < rows.len() implies count_newlines(
        (#[trigger] rows[i]).flatten(),
    ) == 1 by {
        let row = simple_row(first, second, i);
        let body = row.drop_last();
        assert(row =~= body + seq![newline()]);
        assert forall|k: int| 0 <= k < body.len() implies no_newline(#[trigger] body[k]) by {
            assert(body[k] == row[k]);
            if i < first.len() {
                assert(no_newline(first[i]));
            }
            if i < second.len() {
                assert(no_newline(second[i]));
            }
            assert(no_newline(space()));
        }
        lemma_one_line(body);
    }
    lemma_one_line_per_row(rows);
}

/// How many of the first `upto` indices are pairs.
pub open spec fn count_pairs(one: Seq<Seq<char>>, two: Seq<Seq<char>>, upto: int) -> nat
    decreases upto,
{
    if upto <= 0 {
        0
    } else {
        count_pairs(one, two, upto - 1) + if is_pair(one, two, upto - 1) {
            1nat
        } else {
            0nat
        }
    }
}

/// The first `upto` rows of the paired layout make as many lines as there are pairs
/// among them.
pub proof fn lemma_paired_rows_count(one: Seq<Seq<char>>, two: Seq<Seq<char>>, upto: int)
    requires
        0 <= upto <= one.len(),
        no_newlines(one),
        no_newlines(two),
    ensures
        count_newlines(paired_rows(one, two).take(upto).flatten().flatten()) == count_pairs(
            one,
            two,
            upto,
        ),
    decreases upto,
{
    let rows = paired_rows(one, two);
    if upto == 0 {
        assert(rows.take(0).flatten() =~= Seq::<Seq<char>>::empty());
    } else {
        lemma_paired_rows_count(one, two, upto - 1);
        let before = rows.take(upto - 1);
        let row = paired_row(one, two, upto - 1);
        assert(rows.take(upto) =~= before.push(row));
        before.lemma_flatten_push(row);
        lemma_flatten_concat(before.flatten(), row);
        lemma_count_concat(before.flatten().flatten(), row.flatten());
        if is_pair(one, two, upto - 1) {
            let body = row.drop_last();
            assert(row =~= body + seq![newline()]);
            assert forall|k: int| 0 <= k < body.len() implies no_newline(#[trigger] body[k]) by {
                assert(body[k] == row[k]);
                assert(no_newline(one[upto - 1]));
                assert(no_newline(two[upto - 1]));
                assert(no_newline(space()));
            }
            lemma_one_line(body);
        } else {
            assert(row.flatten() =~= Seq::<char>::empty());
        }
    }
}

/// Pair by pair, the combined text has a line for each index at which both texts have
/// a line that is not empty, and no other.
pub proof fn lemma_paired_line_count(one: Seq<char>, two: Seq<char>)
    ensures
        count_newlines(paired_rows(split_lines(one), split_lines(two)).flatten().flatten())
            == count_pairs(split_lines(one), split_lines(two), split_lines(one).len() as int),
{
    let first = split_lines(one);
    let second = split_lines(two);
    lemma_lines_hold_no_newline(one);
    lemma_lines_hold_no_newline(two);
    lemma_paired_rows_count(first, second, first.len() as int);
    assert(paired_rows(first, second).take(first.len() as int) =~= paired_rows(first, second));
}

/// The fragments that blocks of lines give to an output line hold no line feed.
pub proof fn lemma_joined_no_newlines(blocks: Seq<Seq<Seq<char>>>, i: int, upto: int)
    requires
        0 <= upto <= blocks.len(),
        forall|j: int| 0 <= j < blocks.len() ==> no_newlines(#[trigger] blocks[j]),
    ensures
        no_newlines(joined(blocks, i, upto)),
    decreases upto,
{
    if upto >= 1 {
        let line = line_at(blocks[upto - 1], i);
        assert(no_newlines(blocks[upto - 1]));
        assert(no_newline(line));
        assert(no_newline(space()));
        if upto > 1 {
            lemma_joined_no_newlines(blocks, i, upto - 1);
            let before = joined(blocks, i, upto - 1);
            let part = joined_part(blocks, i, upto - 1);
            assert forall|k: int| 0 <= k < joined(blocks, i, upto).len() implies no_newline(
                #[trigger] joined(blocks, i, upto)[k],
            ) by {
                if k < before.len() {
                    assert(joined(blocks, i, upto)[k] == before[k]);
                } else {
                    assert(joined(blocks, i, upto)[k] == part[k - before.len()]);
                }
            }
        }
    }
}

/// Along the lines of the first text, the combined text has as many lines as the first
/// text, however many the others have.
pub proof fn lemma_first_driven_line_count(texts: Seq<Seq<char>>)
    ensures
        count_newlines(first_driven_rows(blocks_of(texts)).flatten().flatten()) == if texts.len()
            == 0 {
            0
        } else {
            split_lines(texts[0]).len()
        },
{
    let blocks = blocks_of(texts);
    let rows = first_driven_rows(blocks);
    assert forall|j: int| 0 <= j < blocks.len() implies no_newlines(#[trigger] blocks[j]) by {
        lemma_lines_hold_no_newline(texts[j]);
    }
    assert forall|i: int| 0 <= i < rows.len() implies count_newlines(
        (#[trigger] rows[i]).flatten(),
    ) == 1 by {
        assert(rows[i] == first_driven_row(blocks, i));
        lemma_joined_no_newlines(blocks, i, blocks.len() as int);
        lemma_one_line(joined(blocks, i, blocks.len() as int));
    }
    lemma_one_line_per_row(rows);
}

/// In columns, the line of the second text begins at the same place in every output
/// line: the width of what stands before it, one for each fill, is the width of the
/// widest line of the first text and `repeat` more.
pub proof fn lemma_alignment(
    one: Seq<Seq<char>>,
    widths: Seq<nat>,
    two: Seq<Seq<char>>,
    fill: Seq<char>,
    repeat: nat,
    i: int,
)
    requires
        widths.len() == one.len(),
        0 <= i < two.len(),
    ensures
        i < one.len() ==> widths[i] <= widest(widths) && column_row(
            one,
            widths,
            two,
            fill,
            repeat,
            i,
        ) == seq![one[i]] + run(fill, (widest(widths) + repeat - widths[i]) as nat) + seq![
            two[i],
            newline(),
        ],
        i >= one.len() ==> column_row(one, widths, two, fill, repeat, i) == run(
            fill,
            widest(widths) + repeat,
        ) + seq![two[i], newline()],
{
    lemma_widest(widths);
}

/// `count` copies of one character, as one text.
pub proof fn lemma_run_text(fill: char, count: nat)
    ensures
        run(seq![fill], count).flatten() == Seq::new(count, |k: int| fill),
    decreases count,
{
    if count == 0 {
        assert(run(seq![fill], 0) =~= Seq::<Seq<char>>::empty());
        assert(run(seq![fill], 0).flatten() =~= Seq::new(0, |k: int| fill));
    } else {
        let before = (count - 1) as nat;
        lemma_run_text(fill, before);
        assert(run(seq![fill], count) =~= run(seq![fill], before).push(seq![fill]));
        run(seq![fill], before).lemma_flatten_push(seq![fill]);
        assert(run(seq![fill], count).flatten() =~= Seq::new(count, |k: int| fill));
    }
}

/// In columns of plain text, the line of the second text begins at the same column of
/// every output line: as many characters stand before it as the widest line of the
/// first text has, and `repeat` more.
pub proof fn lemma_second_column(
    one: Seq<Seq<char>>,
    two: Seq<Seq<char>>,
    fill: char,
    repeat: nat,
    i: int,
)
    requires
        0 <= i < two.len(),
    ensures
        ({
            let text = column_row(one, plain_widths(one), two, seq![fill], repeat, i).flatten();
            let start = widest(plain_widths(one)) + repeat;
            &&& text.len() == start + two[i].len() + 1
            &&& text.subrange(start as int, (start + two[i].len()) as int) == two[i]
            &&& text.last() == '\n'
            &&& forall|k: int|
                line_at(one, i).len() <= k < start ==> text[k] == fill
            &&& text.take(line_at(one, i).len() as int) == line_at(one, i)
        }),
{
    let widths = plain_widths(one);
    let row = column_row(one, widths, two, seq![fill], repeat, i);
    let start = widest(widths) + repeat;
    lemma_alignment(one, widths, two, seq![fill], repeat, i);
    let lead = if i < one.len() {
        seq![one[i]]
    } else {
        Seq::<Seq<char>>::empty()
    };
    let gap = (start - line_at(one, i).len()) as nat;
    let fills = run(seq![fill], gap);
    let tail = seq![two[i], newline()];
    assert(row =~= lead + fills + tail);
    lemma_flatten_concat(lead + fills, tail);
    lemma_flatten_concat(lead, fills);
    lemma_run_text(fill, gap);
    assert(lead.flatten() =~= line_at(one, i)) by {
        if i < one.len() {
            lead.lemma_flatten_singleton();
        }
    }
    assert(tail.flatten() =~= two[i] + newline()) by {
        assert(tail =~= seq![two[i]].push(newline()));
        seq![two[i]].lemma_flatten_push(newline());
        seq![two[i]].lemma_flatten_singleton();
    }
    let text = row.flatten();
    assert(text =~= line_at(one, i) + Seq::new(gap, |k: int| fill) + (two[i] + newline()));
    assert(text.subrange(start as int, (start + two[i].len()) as int) =~= two[i]);
    assert(text.take(line_at(one, i).len() as int) =~= line_at(one, i));
}

/// Lines with spaces between them: the lines stand at the even places, a space at each
/// odd place, and a line stands last.
pub proof fn lemma_spaced(lines: Seq<Seq<char>>)
    ensures
        spaced(lines).len() == if lines.len() == 0 {
            0
        } else {
            2 * lines.len() - 1
        },
        forall|p: int|
            0 <= p < spaced(lines).len() ==> #[trigger] spaced(lines)[p] == if p % 2 == 0 {
                lines[p / 2]
            } else {
                space()
            },
    decreases lines.len(),
{
    if lines.len() >= 2 {
        let before = lines.drop_last();
        lemma_spaced(before);
        assert forall|p: int| 0 <= p < spaced(lines).len() implies #[trigger] spaced(lines)[p]
            == if p % 2 == 0 {
            lines[p / 2]
        } else {
            space()
        } by {
            if p < spaced(before).len() {
                assert(spaced(lines)[p] == spaced(before)[p]);
                assert(before[p / 2] == lines[p / 2]);
            }
        }
    }
}

/// The lines that are present are not empty, and there is one as soon as a block has text.
pub proof fn lemma_present(blocks: Seq<Seq<Seq<char>>>, i: int, upto: int)
    ensures
        forall|q: int|
            0 <= q < present(blocks, i, upto).len() ==> present(blocks, i, upto)[q].len() > 0,
        has_text(blocks, i, upto) == (present(blocks, i, upto).len() > 0),
    decreases upto,
{
    if upto > 0 {
        lemma_present(blocks, i, upto - 1);
        let before = present(blocks, i, upto - 1);
        assert forall|q: int| 0 <= q < present(blocks, i, upto).len() implies present(
            blocks,
            i,
            upto,
        )[q].len() > 0 by {
            if q < before.len() {
                assert(present(blocks, i, upto)[q] == before[q]);
            }
        }
    }
}

/// Along the lines of the first text, an output line is the first text's line where
/// that is empty, and then the lines that are not empty with one space between each
/// two of them.
pub proof fn lemma_joined_spaced(blocks: Seq<Seq<Seq<char>>>, i: int, upto: int)
    requires
        1 <= upto <= blocks.len(),
    ensures
        joined(blocks, i, upto) == (if line_at(blocks[0], i).len() == 0 {
            seq![Seq::<char>::empty()]
        } else {
            Seq::<Seq<char>>::empty()
        }) + spaced(present(blocks, i, upto)),
    decreases upto,
{
    let lead = if line_at(blocks[0], i).len() == 0 {
        seq![Seq::<char>::empty()]
    } else {
        Seq::<Seq<char>>::empty()
    };
    if upto == 1 {
        reveal_with_fuel(present, 2);
        let line = line_at(blocks[0], i);
        if line.len() == 0 {
            assert(line =~= Seq::<char>::empty());
            assert(present(blocks, i, 1) =~= Seq::<Seq<char>>::empty());
        } else {
            assert(present(blocks, i, 1) =~= seq![line]);
        }
        assert(joined(blocks, i, 1) =~= lead + spaced(present(blocks, i, 1)));
    } else {
        lemma_joined_spaced(blocks, i, upto - 1);
        lemma_present(blocks, i, upto - 1);
        let line = line_at(blocks[upto - 1], i);
        let before = present(blocks, i, upto - 1);
        if line.len() > 0 {
            let now = before + seq![line];
            assert(now.drop_last() =~= before);
            assert(now.last() == line);
            if before.len() > 0 {
                assert(spaced(now) =~= spaced(before) + seq![space(), line]);
            } else {
                assert(spaced(now) =~= seq![line]);
                assert(spaced(before) =~= Seq::<Seq<char>>::empty());
            }
            assert(joined(blocks, i, upto) =~= lead + spaced(now));
        } else {
            assert(present(blocks, i, upto) =~= before);
            assert(joined(blocks, i, upto) =~= lead + spaced(before));
        }
    }
}

/// Along the lines of the first text, a space that joins stands only between two lines
/// that are not empty: never beside another space that joins, and never last before
/// the line feed. Of the fragments that follow the first text's line where that is
/// empty, those at the even places are the lines that are not empty and those at the
/// odd places are the spaces, and a line stands last.
pub proof fn lemma_no_double_space(blocks: Seq<Seq<Seq<char>>>, i: int)
    requires
        1 <= blocks.len(),
    ensures
        ({
            let lead: int = if line_at(blocks[0], i).len() == 0 {
                1
            } else {
                0
            };
            let row = first_driven_row(blocks, i);
            let lines = present(blocks, i, blocks.len() as int);
            &&& row.len() == lead + spaced(lines).len() + 1
            &&& row.last() == newline()
            &&& lead == 1 ==> row[0].len() == 0
            &&& forall|p: int|
                0 <= p < spaced(lines).len() ==> #[trigger] row[lead + p] == spaced(lines)[p]
            &&& forall|p: int|
                0 <= p < spaced(lines).len() && p % 2 == 0 ==> #[trigger] spaced(lines)[p].len() > 0
            &&& forall|p: int|
                0 <= p < spaced(lines).len() && p % 2 == 1 ==> #[trigger] spaced(lines)[p]
                    == space() && p + 1 < spaced(lines).len()
            &&& spaced(lines).len() % 2 == 1 || spaced(lines).len() == 0
        }),
{
    let lines = present(blocks, i, blocks.len() as int);
    lemma_joined_spaced(blocks, i, blocks.len() as int);
    lemma_spaced(lines);
    lemma_present(blocks, i, blocks.len() as int);
    assert forall|p: int| 0 <= p < spaced(lines).len() && p % 2 == 0 implies #[trigger] spaced(
        lines,
    )[p].len() > 0 by {
        assert(spaced(lines)[p] == lines[p / 2]);
    }
}

/// Escape sequences change no padding. Where `bare` holds the lines of `one` without
/// their escape sequences, the columns of `one`, measured as a terminal shows it, have
/// in every output line the fragments that the columns of `bare` have, measured by
/// code points; but for the line of the first text, which is that of `one` as it is.
pub proof fn lemma_escape_transparency(
    one: Seq<Seq<char>>,
    bare: Seq<Seq<char>>,
    two: Seq<Seq<char>>,
    fill: Seq<char>,
    repeat: nat,
    i: int,
)
    requires
        bare.len() == one.len(),
        forall|k: int| 0 <= k < one.len() ==> visible_text(#[trigger] one[k]) == Some(bare[k]),
        0 <= i,
        i < one.len() || i < two.len(),
    ensures
        all_visible(one),
        visible_widths(one) == plain_widths(bare),
        i < one.len() ==> column_row(one, visible_widths(one), two, fill, repeat, i) == column_row(
            bare,
            plain_widths(bare),
            two,
            fill,
            repeat,
            i,
        ).update(0, one[i]),
        i >= one.len() ==> column_row(one, visible_widths(one), two, fill, repeat, i) == column_row(
            bare,
            plain_widths(bare),
            two,
            fill,
            repeat,
            i,
        ),
{
    assert(visible_widths(one) =~= plain_widths(bare));
    let with_codes = column_row(one, visible_widths(one), two, fill, repeat, i);
    let without = column_row(bare, plain_widths(bare), two, fill, repeat, i);
    if i < one.len() {
        assert(with_codes =~= without.update(0, one[i]));
    }
}

} // verus!
