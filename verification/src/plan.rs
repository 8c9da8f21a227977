use vstd::prelude::*;
use crate::layout::{
    column_row, first_driven_row, has_text, joined, joined_part, line_at, newline, paired_row, run,
    simple_row, space, widest,
};

verus! {

/// The ways in which blocks are laid out.
#[derive(Clone, Copy, Debug, PartialEq, Eq)]
pub enum Layout {
    /// Two blocks in columns, padded with the fill.
    Column,
    /// Two blocks, line by line, with one space between them.
    Simple,
    /// Two blocks, only where both have a line that is not empty.
    Paired,
    /// Any number of blocks, along the lines of the first.
    FirstDriven,
}

/// What a cursor walks over. Every output line is a row of cells, two to a group, and a
/// cell is a run of one piece of text: `count` copies of it, often one and often none.
pub struct Plan {
    pub layout: Layout,
    pub blocks: Seq<Seq<Seq<char>>>,
    pub fill: Seq<char>,
    pub widths: Seq<nat>,
    pub widest: nat,
    pub repeat: nat,
}

impl Plan {
    /// Whether the plan has the blocks and widths that its layout asks for.
    pub open spec fn wf(self) -> bool {
        &&& self.layout != Layout::FirstDriven ==> self.blocks.len() == 2
        &&& self.layout == Layout::Column ==> {
            &&& self.widths.len() == self.blocks[0].len()
            &&& forall|i: int| 0 <= i < self.widths.len() ==> self.widths[i] <= self.widest
        }
    }

    /// The number of rows.
    pub open spec fn height(self) -> int {
        match self.layout {
            Layout::Column | Layout::Simple => if self.blocks[0].len() >= self.blocks[1].len() {
                self.blocks[0].len() as int
            } else {
                self.blocks[1].len() as int
            },
            Layout::Paired | Layout::FirstDriven => if self.blocks.len() == 0 {
                0
            } else {
                self.blocks[0].len() as int
            },
        }
    }

    /// The number of groups in a row.
    pub open spec fn groups(self) -> int {
        match self.layout {
            Layout::Column => 3,
            Layout::Simple | Layout::Paired => 2,
            Layout::FirstDriven => self.blocks.len() as int,
        }
    }

    /// The piece of text of a cell.
    pub open spec fn part_text(self, row: int, group: int, second: bool) -> Seq<char> {
        match self.layout {
            Layout::Column => if group == 0 && !second {
                line_at(self.blocks[0], row)
            } else if group == 1 && second {
                line_at(self.blocks[1], row)
            } else if group <= 1 {
                self.fill
            } else {
                newline()
            },
            Layout::Simple | Layout::Paired => if second {
                if group == 0 {
                    space()
                } else {
                    newline()
                }
            } else {
                line_at(self.blocks[group], row)
            },
            Layout::FirstDriven => if !second {
                line_at(self.blocks[group], row)
            } else if group + 1 == self.blocks.len() {
                newline()
            } else {
                space()
            },
        }
    }

    /// How many copies of its piece a cell holds.
    pub open spec fn part_count(self, row: int, group: int, second: bool) -> nat {
        let in_one = row < self.blocks[0].len();
        let in_two = row < self.blocks[1].len();
        match self.layout {
            Layout::Column => if group == 0 && !second {
                if in_one {
                    1
                } else {
                    0
                }
            } else if group == 0 {
                if !in_one {
                    self.widest
                } else if in_two {
                    (self.widest - self.widths[row]) as nat
                } else {
                    0
                }
            } else if group == 1 && !second {
                if in_two {
                    self.repeat
                } else {
                    0
                }
            } else if group == 1 {
                if in_two {
                    1
                } else {
                    0
                }
            } else if !second {
                1
            } else {
                0
            },
            Layout::Simple => if second && group == 0 {
                if in_one && in_two {
                    1
                } else {
                    0
                }
            } else if second {
                1
            } else if row < self.blocks[group].len() {
                1
            } else {
                0
            },
            Layout::Paired => if in_two && self.blocks[0][row].len() > 0
                && self.blocks[1][row].len() > 0 {
                1
            } else {
                0
            },
            Layout::FirstDriven => if !second {
                if group == 0 || line_at(self.blocks[group], row).len() > 0 {
                    1
                } else {
                    0
                }
            } else if group + 1 == self.blocks.len() {
                1
            } else if has_text(self.blocks, row, group + 1) && line_at(
                self.blocks[group + 1],
                row,
            ).len() > 0 {
                1
            } else {
                0
            },
        }
    }

    /// The fragments of cell `c` of a row, the cells counted from 0 through the groups.
    pub open spec fn cell(self, row: int, c: int) -> Seq<Seq<char>> {
        run(self.part_text(row, c / 2, c % 2 == 1), self.part_count(row, c / 2, c % 2 == 1))
    }

    /// The fragments of the first `cells` cells of a row.
    pub open spec fn row_upto(self, row: int, cells: int) -> Seq<Seq<char>>
        decreases cells,
    {
        if cells <= 0 {
            Seq::empty()
        } else {
            self.row_upto(row, cells - 1) + self.cell(row, cells - 1)
        }
    }

    /// The fragments of a row.
    pub open spec fn row(self, row: int) -> Seq<Seq<char>> {
        self.row_upto(row, 2 * self.groups())
    }

    /// The fragments of the first `rows` rows.
    pub open spec fn upto(self, rows: int) -> Seq<Seq<char>>
        decreases rows,
    {
        if rows <= 0 {
            Seq::empty()
        } else {
            self.upto(rows - 1) + self.row(rows - 1)
        }
    }

    /// All the fragments, in order.
    pub open spec fn all(self) -> Seq<Seq<char>> {
        self.upto(self.height())
    }

    /// How many fragments stand before copy `done` of cell `c` of a row.
    pub open spec fn offset(self, row: int, c: int, done: int) -> int {
        self.upto(row).len() + self.row_upto(row, c).len() + done
    }

    /// The cells of a row follow one another: fewer cells give a prefix of more cells.
    pub proof fn lemma_row_prefix(self, row: int, n: int, m: int)
        requires
            0 <= n <= m,
        ensures
            self.row_upto(row, n).len() <= self.row_upto(row, m).len(),
            forall|k: int|
                0 <= k < self.row_upto(row, n).len() ==> self.row_upto(row, m)[k] == self.row_upto(
                    row,
                    n,
                )[k],
        decreases m,
    {
        if n < m {
            self.lemma_row_prefix(row, n, m - 1);
        }
    }

    /// The rows follow one another: fewer rows give a prefix of more rows.
    pub proof fn lemma_upto_prefix(self, n: int, m: int)
        requires
            0 <= n <= m,
        ensures
            self.upto(n).len() <= self.upto(m).len(),
            forall|k: int| 0 <= k < self.upto(n).len() ==> self.upto(m)[k] == self.upto(n)[k],
        decreases m,
    {
        if n < m {
            self.lemma_upto_prefix(n, m - 1);
        }
    }

    /// The fragment at an offset is the piece of the cell that the offset lies in.
    pub proof fn lemma_fragment_at(self, row: int, c: int, done: int)
        requires
            0 <= row < self.height(),
            0 <= c < 2 * self.groups(),
            0 <= done < self.part_count(row, c / 2, c % 2 == 1),
        ensures
            0 <= self.offset(row, c, done) < self.all().len(),
            self.all()[self.offset(row, c, done)] == self.part_text(row, c / 2, c % 2 == 1),
    {
        let before = self.row_upto(row, c).len() as int;
        assert(self.row_upto(row, c + 1) == self.row_upto(row, c) + self.cell(row, c));
        assert(self.row_upto(row, c + 1)[before + done] == self.cell(row, c)[done]);
        self.lemma_row_prefix(row, c + 1, 2 * self.groups());
        assert(self.row(row)[before + done] == self.part_text(row, c / 2, c % 2 == 1));
        assert(self.upto(row + 1) == self.upto(row) + self.row(row));
        assert(self.upto(row + 1)[self.offset(row, c, done)] == self.row(row)[before + done]);
        self.lemma_upto_prefix(row + 1, self.height());
    }

    /// Where every row is as `rows` says, all the fragments are `rows` laid end to end.
    pub proof fn lemma_upto_flatten(self, rows: Seq<Seq<Seq<char>>>, n: int)
        requires
            0 <= n <= rows.len(),
            forall|i: int| 0 <= i < n ==> rows[i] == self.row(i),
        ensures
            self.upto(n) == rows.take(n).flatten(),
        decreases n,
    {
        if n == 0 {
            assert(rows.take(0) =~= Seq::empty());
        } else {
            self.lemma_upto_flatten(rows, n - 1);
            assert(rows.take(n) =~= rows.take(n - 1).push(rows[n - 1]));
            rows.take(n - 1).lemma_flatten_push(rows[n - 1]);
        }
    }

    /// A row of the column layout, cell by cell.
    pub proof fn lemma_column_row(self, i: int)
        requires
            self.wf(),
            self.layout == Layout::Column,
            self.widest == widest(self.widths),
            0 <= i < self.height(),
        ensures
            self.row(i) == column_row(
                self.blocks[0],
                self.widths,
                self.blocks[1],
                self.fill,
                self.repeat,
                i,
            ),
    {
        reveal_with_fuel(Plan::row_upto, 7);
        assert(self.row(i) =~= column_row(
            self.blocks[0],
            self.widths,
            self.blocks[1],
            self.fill,
            self.repeat,
            i,
        ));
    }

    /// A row of the simple layout, cell by cell.
    pub proof fn lemma_simple_row(self, i: int)
        requires
            self.wf(),
            self.layout == Layout::Simple,
            0 <= i < self.height(),
        ensures
            self.row(i) == simple_row(self.blocks[0], self.blocks[1], i),
    {
        reveal_with_fuel(Plan::row_upto, 5);
        assert(self.row(i) =~= simple_row(self.blocks[0], self.blocks[1], i));
    }

    /// A row of the paired layout, cell by cell.
    pub proof fn lemma_paired_row(self, i: int)
        requires
            self.wf(),
            self.layout == Layout::Paired,
            0 <= i < self.height(),
        ensures
            self.row(i) == paired_row(self.blocks[0], self.blocks[1], i),
    {
        reveal_with_fuel(Plan::row_upto, 5);
        assert(self.row(i) =~= paired_row(self.blocks[0], self.blocks[1], i));
    }

    /// A row of the first-driven layout as far as block `j`, without the cell behind it.
    pub proof fn lemma_joined_cells(self, i: int, j: int)
        requires
            self.layout == Layout::FirstDriven,
            1 <= j <= self.blocks.len(),
        ensures
            self.row_upto(i, 2 * j - 1) == joined(self.blocks, i, j),
        decreases j,
    {
        if j == 1 {
            reveal_with_fuel(Plan::row_upto, 2);
            assert(self.row_upto(i, 1) =~= joined(self.blocks, i, 1));
        } else {
            self.lemma_joined_cells(i, j - 1);
            reveal_with_fuel(Plan::row_upto, 3);
            assert(self.row_upto(i, 2 * j - 1) =~= self.row_upto(i, 2 * j - 3) + self.cell(
                i,
                2 * j - 3,
            ) + self.cell(i, 2 * j - 2));
            assert(self.cell(i, 2 * j - 3) + self.cell(i, 2 * j - 2) =~= joined_part(
                self.blocks,
                i,
                j - 1,
            ));
            assert(self.row_upto(i, 2 * j - 1) =~= joined(self.blocks, i, j));
        }
    }

    /// A row of the first-driven layout, cell by cell.
    pub proof fn lemma_first_driven_row(self, i: int)
        requires
            self.layout == Layout::FirstDriven,
            0 <= i < self.height(),
        ensures
            self.row(i) == first_driven_row(self.blocks, i),
    {
        let k = self.blocks.len() as int;
        self.lemma_joined_cells(i, k);
        assert(self.row_upto(i, 2 * k) == self.row_upto(i, 2 * k - 1) + self.cell(i, 2 * k - 1));
        assert(self.cell(i, 2 * k - 1) =~= seq![newline()]);
    }
}

/// The number of a cell in its row: two cells to a group.
pub open spec fn cell_number(group: int, second: bool) -> int {
    2 * group + if second {
        1int
    } else {
        0int
    }
}

/// Text among fewer blocks is text among more blocks.
pub proof fn lemma_has_text_grows(blocks: Seq<Seq<Seq<char>>>, i: int, n: int, m: int)
    requires
        n <= m,
        has_text(blocks, i, n),
    ensures
        has_text(blocks, i, m),
    decreases m,
{
    if n < m {
        lemma_has_text_grows(blocks, i, n, m - 1);
    }
}

} // verus!
