use vstd::prelude::*;
use smallstr::SmallString;
use crate::fragments::Fragments;
use crate::layout::column_rows;
use crate::lines::{line_views, lines_of, split_lines};
use crate::width::{
    all_visible, as_nats, line_lens, line_lens_no_esc, plain_widths, visible_widths, MeasureError,
};

verus! {

/// The text of a fill character, held in a `smallstr::SmallString`. What it holds is
/// known only through `fill_text`.
#[verifier::external_body]
#[derive(Debug, PartialEq, Eq)]
pub struct Fill {
    text: SmallString<[u8; 4]>,
}

/// The characters that a fill holds, in order.
pub uninterp spec fn fill_text(fill: Fill) -> Seq<char>;

/// `SmallString::clone`: a small string that holds what the given one holds.
#[verifier::external_body]
fn fill_copy(fill: &Fill) -> (copy: Fill)
    ensures
        fill_text(copy) == fill_text(*fill),
{
    Fill { text: fill.text.clone() }
}

/// `SmallString::from`, of a character: a small string that holds that character and
/// nothing else.
#[verifier::external_body]
fn fill_of(c: char) -> (fill: Fill)
    ensures
        fill_text(fill) == seq![c],
{
    Fill { text: SmallString::from(c) }
}

/// `SmallString::as_str`: a string slice over all that the small string holds.
#[verifier::external_body]
fn fill_str<'a>(fill: &'a Fill) -> (text: &'a str)
    ensures
        text@ == fill_text(*fill),
{
    fill.text.as_str()
}

/// The lines of a measured block.
pub open spec fn measured_lines(measured: Seq<(&str, usize)>) -> Seq<Seq<char>> {
    Seq::new(measured.len(), |i: int| measured[i].0@)
}

/// The width that each line of a measured block was given.
pub open spec fn measured_widths(measured: Seq<(&str, usize)>) -> Seq<nat> {
    Seq::new(measured.len(), |i: int| measured[i].1 as nat)
}

/// How two texts are set in columns: the character that fills the gap between the
/// columns, and how many of it stand between the widest line of the first column and
/// the second column.
#[derive(Debug, PartialEq, Eq)]
pub struct CatToCol {
    fill: Fill,
    repeat: usize,
}

impl Clone for CatToCol {
    fn clone(&self) -> (settings: Self)
        ensures
            settings.filler() == self.filler(),
            settings.repeats() == self.repeats(),
    {
        proof {
            use_type_invariant(self);
        }
        Self { fill: fill_copy(&self.fill), repeat: self.repeat }
    }
}

impl Default for CatToCol {
    fn default() -> (settings: Self)
        ensures
            settings.filler() == ' ',
            settings.repeats() == 0,
    {
        Self::new()
    }
}

impl CatToCol {
    #[verifier::type_invariant]
    spec fn inv(&self) -> bool {
        fill_text(self.fill).len() == 1
    }

    /// The fill character.
    pub closed spec fn filler(&self) -> char {
        fill_text(self.fill)[0]
    }

    /// How many fill characters stand behind the widest line.
    pub closed spec fn repeats(&self) -> nat {
        self.repeat as nat
    }

    /// Settings with a space as the fill character, repeated 0 times.
    pub fn new() -> (settings: Self)
        ensures
            settings.filler() == ' ',
            settings.repeats() == 0,
    {
        Self { fill: fill_of(' '), repeat: 0 }
    }

    /// The same settings with another fill character.
    pub fn fill(self, fill: char) -> (settings: Self)
        ensures
            settings.filler() == fill,
            settings.repeats() == self.repeats(),
    {
        Self { fill: fill_of(fill), repeat: self.repeat }
    }

    /// The same settings with another number of repetitions.
    pub fn repeat(self, repeat: usize) -> (settings: Self)
        ensures
            settings.filler() == self.filler(),
            settings.repeats() == repeat,
    {
        proof {
            use_type_invariant(&self);
        }
        Self { fill: self.fill, repeat }
    }

    /// Sets two texts in columns, a line of the first wide as the number of its code
    /// points.
    pub fn combine_col<'a>(&'a self, str_one: &'a str, str_two: &'a str) -> (fragments:
        Fragments<'a>)
        ensures
            fragments@ == column_rows(
                split_lines(str_one@),
                plain_widths(split_lines(str_one@)),
                split_lines(str_two@),
                seq![self.filler()],
                self.repeats(),
            ).flatten(),
    {
        proof {
            use_type_invariant(self);
        }
        let one = lines_of(str_one);
        let two = lines_of(str_two);
        let widths = line_lens(&one);
        assert(seq![self.filler()] =~= fill_text(self.fill));
        Fragments::column(one, widths, two, fill_str(&self.fill), self.repeat)
    }

    /// Sets two texts in columns, a line of the first as wide as it shows on a terminal:
    /// its escape sequences count for nothing, and stay in the line. Fails where a line of
    /// the first text has no visible width.
    pub fn combine_col_esc<'a>(&'a self, str_one: &'a str, str_two: &'a str) -> (fragments:
        Result<Fragments<'a>, MeasureError>)
        ensures
            match fragments {
                Ok(f) => all_visible(split_lines(str_one@)) && f@ == column_rows(
                    split_lines(str_one@),
                    visible_widths(split_lines(str_one@)),
                    split_lines(str_two@),
                    seq![self.filler()],
                    self.repeats(),
                ).flatten(),
                Err(e) => !all_visible(split_lines(str_one@)) && e == MeasureError::InvalidText,
            },
    {
        proof {
            use_type_invariant(self);
        }
        let one = lines_of(str_one);
        let two = lines_of(str_two);
        assert(seq![self.filler()] =~= fill_text(self.fill));
        match line_lens_no_esc(&one) {
            Ok(widths) => Ok(
                Fragments::column(one, widths, two, fill_str(&self.fill), self.repeat),
            ),
            Err(e) => Err(e),
        }
    }

    /// Sets lines that were measured elsewhere in columns beside a text: each line of
    /// the first column comes with the width that it counts for.
    pub fn combine_measured<'a>(
        &'a self,
        measured: &Vec<(&'a str, usize)>,
        str_two: &'a str,
    ) -> (fragments: Fragments<'a>)
        ensures
            fragments@ == column_rows(
                measured_lines(measured@),
                measured_widths(measured@),
                split_lines(str_two@),
                seq![self.filler()],
                self.repeats(),
            ).flatten(),
    {
        proof {
            use_type_invariant(self);
        }
        let mut one: Vec<&'a str> = Vec::new();
        let mut widths: Vec<usize> = Vec::new();
        let mut i: usize = 0;
        while i < measured.len()
            invariant
                i <= measured@.len(),
                one@.len() == i,
                widths@.len() == i,
                forall|k: int|
                    0 <= k < i ==> one@[k] == measured@[k].0 && widths@[k] == measured@[k].1,
            decreases measured@.len() - i,
        {
            one.push(measured[i].0);
            widths.push(measured[i].1);
            i += 1;
        }
        assert(line_views(one@) =~= measured_lines(measured@));
        assert(as_nats(widths@) =~= measured_widths(measured@));
        assert(seq![self.filler()] =~= fill_text(self.fill));
        let two = lines_of(str_two);
        Fragments::column(one, widths, two, fill_str(&self.fill), self.repeat)
    }
}

} // verus!
