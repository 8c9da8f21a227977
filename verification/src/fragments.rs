use vstd::prelude::*;
use vstd::string::StringExecFns;
use crate::layout::{
    column_rows, first_driven_rows, has_text, line_at, newline, paired_rows, simple_rows, space,
};
use crate::lines::{block_views, line_views};
use crate::plan::{cell_number, lemma_has_text_grows, Layout, Plan};
use crate::width::{as_nats, lemma_widest, widest_of};

verus! {

/// Where a cursor stands: before copy `done` of a cell of a row.
#[derive(Clone, Copy, Debug)]
struct Place {
    row: usize,
    group: usize,
    second: bool,
    done: usize,
}

/// A cursor over the fragments of a combined text. Each call of `next` hands out one
/// fragment: a line of a block, the fill, a space or a line feed. The fragments, one
/// after the other, are the combined text.
#[derive(Debug)]
pub struct Fragments<'a> {
    layout: Layout,
    blocks: Vec<Vec<&'a str>>,
    fill: &'a str,
    widths: Vec<usize>,
    widest: usize,
    repeat: usize,
    at: Place,
}

impl<'a> View for Fragments<'a> {
    type V = Seq<Seq<char>>;

    /// The fragments that are still to come, in order.
    closed spec fn view(&self) -> Seq<Seq<char>> {
        self.plan().all().skip(
            self.plan().offset(self.at.row as int, self.cell_index(), self.at.done as int),
        )
    }
}

impl<'a> Fragments<'a> {
    spec fn plan(&self) -> Plan {
        Plan {
            layout: self.layout,
            blocks: block_views(self.blocks@),
            fill: self.fill@,
            widths: as_nats(self.widths@),
            widest: self.widest as nat,
            repeat: self.repeat as nat,
        }
    }

    spec fn cell_index(&self) -> int {
        cell_number(self.at.group as int, self.at.second)
    }

    #[verifier::type_invariant]
    spec fn inv(&self) -> bool {
        &&& self.plan().wf()
        &&& self.at.row <= self.plan().height()
        &&& self.at.group <= self.plan().groups()
        &&& self.at.row == self.plan().height() ==> self.at.group == 0
        &&& self.at.group == self.plan().groups() || self.at.row == self.plan().height()
            ==> !self.at.second && self.at.done == 0
        &&& self.at.row < self.plan().height() && self.at.group < self.plan().groups()
            ==> self.at.done <= self.plan().part_count(
            self.at.row as int,
            self.at.group as int,
            self.at.second,
        )
    }

    /// A cursor over two blocks in columns. `widths` holds the width of each line of `one`.
    pub(crate) fn column(
        one: Vec<&'a str>,
        widths: Vec<usize>,
        two: Vec<&'a str>,
        fill: &'a str,
        repeat: usize,
    ) -> (cursor: Self)
        requires
            widths@.len() == one@.len(),
        ensures
            cursor@ == column_rows(
                line_views(one@),
                as_nats(widths@),
                line_views(two@),
                fill@,
                repeat as nat,
            ).flatten(),
    {
        let most: usize = widest_of(&widths);
        let ghost rows = column_rows(
            line_views(one@),
            as_nats(widths@),
            line_views(two@),
            fill@,
            repeat as nat,
        );
        let ghost views = seq![line_views(one@), line_views(two@)];
        proof {
            lemma_widest(as_nats(widths@));
        }
        let mut blocks: Vec<Vec<&'a str>> = Vec::new();
        blocks.push(one);
        blocks.push(two);
        assert(block_views(blocks@) =~= views);
        let cursor = Fragments {
            layout: Layout::Column,
            blocks,
            fill,
            widths,
            widest: most,
            repeat,
            at: Place { row: 0, group: 0, second: false, done: 0 },
        };
        proof {
            let plan = cursor.plan();
            assert forall|i: int| 0 <= i < rows.len() implies rows[i] == plan.row(i) by {
                plan.lemma_column_row(i);
            }
            plan.lemma_upto_flatten(rows, rows.len() as int);
            assert(rows.take(rows.len() as int) =~= rows);
            assert(cursor@ =~= plan.all());
        }
        cursor
    }

    /// A cursor over two blocks, line by line (`Layout::Simple`), or pair by pair
    /// (`Layout::Paired`).
    pub(crate) fn two_blocks(layout: Layout, one: Vec<&'a str>, two: Vec<&'a str>) -> (cursor: Self)
        requires
            layout == Layout::Simple || layout == Layout::Paired,
        ensures
            layout == Layout::Simple ==> cursor@ == simple_rows(
                line_views(one@),
                line_views(two@),
            ).flatten(),
            layout == Layout::Paired ==> cursor@ == paired_rows(
                line_views(one@),
                line_views(two@),
            ).flatten(),
    {
        let ghost rows = if layout == Layout::Simple {
            simple_rows(line_views(one@), line_views(two@))
        } else {
            paired_rows(line_views(one@), line_views(two@))
        };
        let ghost views = seq![line_views(one@), line_views(two@)];
        let mut blocks: Vec<Vec<&'a str>> = Vec::new();
        blocks.push(one);
        blocks.push(two);
        assert(block_views(blocks@) =~= views);
        let cursor = Fragments {
            layout,
            blocks,
            fill: "",
            widths: Vec::new(),
            widest: 0,
            repeat: 0,
            at: Place { row: 0, group: 0, second: false, done: 0 },
        };
        proof {
            let plan = cursor.plan();
            assert forall|i: int| 0 <= i < rows.len() implies rows[i] == plan.row(i) by {
                if layout == Layout::Simple {
                    plan.lemma_simple_row(i);
                } else {
                    plan.lemma_paired_row(i);
                }
            }
            plan.lemma_upto_flatten(rows, rows.len() as int);
            assert(rows.take(rows.len() as int) =~= rows);
            assert(cursor@ =~= plan.all());
        }
        cursor
    }

    /// A cursor over any number of blocks, along the lines of the first.
    pub(crate) fn first_driven(blocks: Vec<Vec<&'a str>>) -> (cursor: Self)
        ensures
            cursor@ == first_driven_rows(block_views(blocks@)).flatten(),
    {
        let ghost rows = first_driven_rows(block_views(blocks@));
        let cursor = Fragments {
            layout: Layout::FirstDriven,
            blocks,
            fill: "",
            widths: Vec::new(),
            widest: 0,
            repeat: 0,
            at: Place { row: 0, group: 0, second: false, done: 0 },
        };
        proof {
            let plan = cursor.plan();
            assert forall|i: int| 0 <= i < rows.len() implies rows[i] == plan.row(i) by {
                plan.lemma_first_driven_row(i);
            }
            plan.lemma_upto_flatten(rows, rows.len() as int);
            assert(rows.take(rows.len() as int) =~= rows);
            assert(cursor@ =~= plan.all());
        }
        cursor
    }

    fn height(&self) -> (n: usize)
        ensures
            n == self.plan().height(),
    {
        proof {
            use_type_invariant(self);
        }
        match self.layout {
            Layout::Column | Layout::Simple => {
                let one: usize = self.blocks[0].len();
                let two: usize = self.blocks[1].len();
                if one >= two {
                    one
                } else {
                    two
                }
            },
            Layout::Paired | Layout::FirstDriven => {
                if self.blocks.len() == 0 {
                    0
                } else {
                    self.blocks[0].len()
                }
            },
        }
    }

    fn groups(&self) -> (n: usize)
        ensures
            n == self.plan().groups(),
    {
        match self.layout {
            Layout::Column => 3,
            Layout::Simple | Layout::Paired => 2,
            Layout::FirstDriven => self.blocks.len(),
        }
    }

    /// Line `row` of block `j`, or the empty text where the block has no such line.
    fn line(&self, j: usize, row: usize) -> (text: &'a str)
        requires
            j < self.blocks@.len(),
        ensures
            text@ == line_at(self.plan().blocks[j as int], row as int),
    {
        if row < self.blocks[j].len() {
            self.blocks[j][row]
        } else {
            proof {
                reveal_strlit("");
            }
            assert(""@ =~= Seq::<char>::empty());
            ""
        }
    }

    /// Whether one of the first `upto` blocks has a line `row` that is not empty.
    fn any_text(&self, row: usize, upto: usize) -> (found: bool)
        requires
            upto <= self.blocks@.len(),
        ensures
            found == has_text(self.plan().blocks, row as int, upto as int),
    {
        let mut j: usize = 0;
        while j < upto
            invariant
                j <= upto <= self.blocks@.len(),
                !has_text(self.plan().blocks, row as int, j as int),
            decreases upto - j,
        {
            if !self.line(j, row).is_empty() {
                proof {
                    lemma_has_text_grows(self.plan().blocks, row as int, j + 1, upto as int);
                }
                return true;
            }
            j += 1;
        }
        false
    }

    /// The piece and the count of a cell.
    fn part(&self, row: usize, group: usize, second: bool) -> (cell: (&'a str, usize))
        requires
            row < self.plan().height(),
            group < self.plan().groups(),
        ensures
            cell.0@ == self.plan().part_text(row as int, group as int, second),
            cell.1 == self.plan().part_count(row as int, group as int, second),
    {
        proof {
            use_type_invariant(self);
            reveal_strlit(" ");
            reveal_strlit("\n");
        }
        assert(" "@ =~= space());
        assert("\n"@ =~= newline());
        assert(self.plan().blocks.len() == self.blocks@.len());
        assert(self.layout == Layout::Column && row < self.widths@.len()
            ==> self.plan().widths[row as int] <= self.widest);
        match self.layout {
            Layout::Column => {
                let in_one = row < self.blocks[0].len();
                let in_two = row < self.blocks[1].len();
                if group == 0 && !second {
                    (self.line(0, row), if in_one { 1 } else { 0 })
                } else if group == 0 {
                    let gap: usize = if !in_one {
                        self.widest
                    } else if in_two {
                        self.widest - self.widths[row]
                    } else {
                        0
                    };
                    (self.fill, gap)
                } else if group == 1 && !second {
                    (self.fill, if in_two { self.repeat } else { 0 })
                } else if group == 1 {
                    (self.line(1, row), if in_two { 1 } else { 0 })
                } else {
                    ("\n", if second { 0 } else { 1 })
                }
            },
            Layout::Simple => {
                let in_one = row < self.blocks[0].len();
                let in_two = row < self.blocks[1].len();
                if second && group == 0 {
                    (" ", if in_one && in_two { 1 } else { 0 })
                } else if second {
                    ("\n", 1)
                } else {
                    (self.line(group, row), if row < self.blocks[group].len() { 1 } else { 0 })
                }
            },
            Layout::Paired => {
                let both: usize = if row < self.blocks[1].len() && !self.blocks[0][row].is_empty()
                    && !self.blocks[1][row].is_empty() {
                    1
                } else {
                    0
                };
                if second && group == 0 {
                    (" ", both)
                } else if second {
                    ("\n", both)
                } else {
                    (self.line(group, row), both)
                }
            },
            Layout::FirstDriven => {
                let count: usize = self.blocks.len();
                if !second {
                    let text = self.line(group, row);
                    (text, if group == 0 || !text.is_empty() { 1 } else { 0 })
                } else if group + 1 == count {
                    ("\n", 1)
                } else {
                    let joins = !self.line(group + 1, row).is_empty() && self.any_text(
                        row,
                        group + 1,
                    );
                    (" ", if joins { 1 } else { 0 })
                }
            },
        }
    }

    /// Hands out the next fragment, or `None` when none is left.
    pub fn next(&mut self) -> (piece: Option<&'a str>)
        ensures
            match piece {
                Some(text) => old(self)@.len() > 0 && text@ == old(self)@[0] && final(self)@ == old(
                    self,
                )@.skip(1),
                None => old(self)@.len() == 0 && final(self)@.len() == 0,
            },
    {
        proof {
            use_type_invariant(&*self);
        }
        let ghost plan = self.plan();
        let ghost start = plan.offset(self.at.row as int, self.cell_index(), self.at.done as int);
        let height: usize = self.height();
        let groups: usize = self.groups();
        let mut row: usize = self.at.row;
        let mut group: usize = self.at.group;
        let mut second: bool = self.at.second;
        let mut done: usize = self.at.done;
        while row < height
            invariant
                self.plan() == plan,
                *self == *old(self),
                plan.wf(),
                height == plan.height(),
                groups == plan.groups(),
                row <= height,
                group <= groups,
                row == height ==> group == 0,
                group == groups || row == height ==> !second && done == 0,
                row < height && group < groups ==> done <= plan.part_count(
                    row as int,
                    group as int,
                    second,
                ),
                plan.offset(row as int, cell_number(group as int, second), done as int) == start,
                old(self)@ == plan.all().skip(start),
            decreases height - row, groups - group, if second { 0int } else { 1int },
        {
            let ghost c = cell_number(group as int, second);
            if group < groups {
                let (text, count) = self.part(row, group, second);
                if done < count {
                    proof {
                        plan.lemma_fragment_at(row as int, c, done as int);
                    }
                    self.at = Place { row, group, second, done: done + 1 };
                    assert(self@ =~= old(self)@.skip(1));
                    return Some(text);
                }
                assert(plan.row_upto(row as int, c + 1) == plan.row_upto(row as int, c) + plan.cell(
                    row as int,
                    c,
                ));
                if second {
                    group += 1;
                    second = false;
                } else {
                    second = true;
                }
                done = 0;
            } else {
                assert(plan.upto(row + 1) == plan.upto(row as int) + plan.row(row as int));
                row += 1;
                group = 0;
            }
        }
        self.at = Place { row, group: 0, second: false, done: 0 };
        None
    }

    /// Hands out all the fragments that are left, in order.
    pub fn into_vec(self) -> (pieces: Vec<&'a str>)
        ensures
            line_views(pieces@) == self@,
    {
        let mut cursor = self;
        let mut pieces: Vec<&'a str> = Vec::new();
        loop
            invariant
                line_views(pieces@) + cursor@ == self@,
            decreases cursor@.len(),
        {
            let ghost before = (pieces@, cursor@);
            match cursor.next() {
                Some(piece) => {
                    pieces.push(piece);
                    assert(line_views(pieces@) + cursor@ =~= line_views(before.0) + before.1);
                },
                None => {
                    assert(line_views(pieces@) =~= line_views(pieces@) + cursor@);
                    return pieces;
                },
            }
        }
    }

    /// The text that the fragments that are left make, one after the other.
    pub fn collect(self) -> (text: String)
        ensures
            text@ == self@.flatten(),
    {
        let mut cursor = self;
        let mut text = String::new();
        loop
            invariant
                text@ + cursor@.flatten() == self@.flatten(),
            decreases cursor@.len(),
        {
            let ghost before = (text@, cursor@);
            match cursor.next() {
                Some(piece) => {
                    text.append(piece);
                    assert(before.1.drop_first() =~= before.1.skip(1));
                    assert(text@ + cursor@.flatten() =~= before.0 + before.1.flatten());
                },
                None => {
                    assert(text@ =~= text@ + cursor@.flatten());
                    return text;
                },
            }
        }
    }
}

} // verus!
