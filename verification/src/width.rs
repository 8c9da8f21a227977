use vstd::prelude::*;
use vstd::string::StrSliceExecFns;
use vstd::utf8::{decode_utf8, valid_utf8};
use crate::layout::widest;
use crate::lines::{line_views, lines_of, split_lines};

verus! {

/// Why a line could not be measured.
#[derive(Clone, Copy, Debug, PartialEq, Eq)]
pub enum MeasureError {
    /// What is left of the line without its escape sequences is no valid text.
    InvalidText,
}

/// The bytes that are left of a text when `strip_ansi_escapes::strip` has taken its
/// escape sequences out, or nothing where that fails.
pub uninterp spec fn stripped(text: Seq<char>) -> Option<Seq<u8>>;

/// The text that bytes encode, where they are valid UTF-8.
pub open spec fn text_of_bytes(bytes: Seq<u8>) -> Option<Seq<char>> {
    if valid_utf8(bytes) {
        Some(decode_utf8(bytes))
    } else {
        None
    }
}

/// What is left of a line without its escape sequences, where that is valid text.
pub open spec fn visible_text(line: Seq<char>) -> Option<Seq<char>> {
    match stripped(line) {
        Some(bytes) => text_of_bytes(bytes),
        None => None,
    }
}

/// The width of a line as a terminal shows it: the number of code points that are left
/// without its escape sequences.
pub open spec fn visible_width(line: Seq<char>) -> Option<nat> {
    match visible_text(line) {
        Some(text) => Some(text.len()),
        None => None,
    }
}

/// The number of code points of each line.
pub open spec fn plain_widths(lines: Seq<Seq<char>>) -> Seq<nat> {
    Seq::new(lines.len(), |i: int| lines[i].len())
}

/// Whether every line has a visible width.
pub open spec fn all_visible(lines: Seq<Seq<char>>) -> bool {
    forall|i: int| 0 <= i < lines.len() ==> visible_width(#[trigger] lines[i]).is_some()
}

/// The visible width of each line.
pub open spec fn visible_widths(lines: Seq<Seq<char>>) -> Seq<nat> {
    Seq::new(lines.len(), |i: int| visible_width(lines[i]).unwrap())
}

/// The widths as numbers without a bound.
pub open spec fn as_nats(widths: Seq<usize>) -> Seq<nat> {
    Seq::new(widths.len(), |i: int| widths[i] as nat)
}

/// The widest line is as wide as every line, and where there is a line, one is as wide as it.
pub proof fn lemma_widest(widths: Seq<nat>)
    ensures
        forall|i: int| 0 <= i < widths.len() ==> widths[i] <= widest(widths),
        widths.len() > 0 ==> exists|i: int| 0 <= i < widths.len() && widths[i] == widest(widths),
        widths.len() == 0 ==> widest(widths) == 0,
    decreases widths.len(),
{
    if widths.len() > 0 {
        let before = widths.drop_last();
        lemma_widest(before);
        assert forall|i: int| 0 <= i < widths.len() implies widths[i] <= widest(widths) by {
            if i < before.len() {
                assert(widths[i] == before[i]);
            }
        }
        if widths.last() > widest(before) || before.len() == 0 {
            assert(widths[widths.len() - 1] == widest(widths));
        } else {
            let i = choose|i: int| 0 <= i < before.len() && before[i] == widest(before);
            assert(widths[i] == widest(widths));
        }
    }
}

/// `strip_ansi_escapes::strip`: the bytes of `text` without its escape sequences, or
/// nothing where the call reports an error.
#[verifier::external_body]
fn strip_escapes(text: &str) -> (bytes: Option<Vec<u8>>)
    ensures
        match bytes {
            Some(b) => stripped(text@) == Some(b@),
            None => stripped(text@).is_none(),
        },
{
    strip_ansi_escapes::strip(text).ok()
}

/// `core::str::from_utf8`: the text that the bytes encode, where they are valid UTF-8,
/// and nothing where they are not.
#[verifier::external_body]
fn text_of<'a>(bytes: &'a [u8]) -> (text: Option<&'a str>)
    ensures
        match text {
            Some(t) => valid_utf8(bytes@) && t@ == decode_utf8(bytes@),
            None => !valid_utf8(bytes@),
        },
{
    core::str::from_utf8(bytes).ok()
}

/// The number of code points of a line.
pub fn line_len(line: &str) -> (width: usize)
    ensures
        width == line@.len(),
{
    line.unicode_len()
}

/// The number of code points of text given as bytes. Bytes that are no valid UTF-8
/// have no width.
pub fn bytes_len(bytes: &[u8]) -> (width: Result<usize, MeasureError>)
    ensures
        match width {
            Ok(w) => text_of_bytes(bytes@).is_some() && w == text_of_bytes(bytes@).unwrap().len(),
            Err(e) => text_of_bytes(bytes@).is_none() && e == MeasureError::InvalidText,
        },
{
    match text_of(bytes) {
        Some(text) => Ok(text.unicode_len()),
        None => Err(MeasureError::InvalidText),
    }
}

/// The number of code points of a line, its escape sequences not counted.
pub fn line_len_no_esc(line: &str) -> (width: Result<usize, MeasureError>)
    ensures
        match width {
            Ok(w) => visible_width(line@) == Some(w as nat),
            Err(e) => visible_width(line@).is_none() && e == MeasureError::InvalidText,
        },
{
    match strip_escapes(line) {
        Some(bytes) => bytes_len(bytes.as_slice()),
        None => Err(MeasureError::InvalidText),
    }
}

/// The width of a line: its code points, with or without those of its escape sequences.
pub fn measure(line: &str, escape_aware: bool) -> (width: Result<usize, MeasureError>)
    ensures
        match width {
            Ok(w) => if escape_aware {
                visible_width(line@) == Some(w as nat)
            } else {
                w == line@.len()
            },
            Err(e) => escape_aware && visible_width(line@).is_none() && e
                == MeasureError::InvalidText,
        },
{
    if escape_aware {
        line_len_no_esc(line)
    } else {
        Ok(line_len(line))
    }
}

/// The largest of the widths, or 0 where there is none.
pub fn widest_of(widths: &Vec<usize>) -> (most: usize)
    ensures
        most == widest(as_nats(widths@)),
{
    let mut most: usize = 0;
    let mut i: usize = 0;
    while i < widths.len()
        invariant
            i <= widths@.len(),
            most == widest(as_nats(widths@).take(i as int)),
        decreases widths@.len() - i,
    {
        assert(as_nats(widths@).take(i + 1).drop_last() =~= as_nats(widths@).take(i as int));
        if widths[i] > most {
            most = widths[i];
        }
        i += 1;
    }
    assert(as_nats(widths@).take(i as int) =~= as_nats(widths@));
    most
}

/// The number of code points of each of the lines.
pub fn line_lens(lines: &Vec<&str>) -> (widths: Vec<usize>)
    ensures
        widths@.len() == lines@.len(),
        as_nats(widths@) == plain_widths(line_views(lines@)),
{
    let mut widths: Vec<usize> = Vec::new();
    let mut i: usize = 0;
    while i < lines.len()
        invariant
            i <= lines@.len(),
            widths@.len() == i,
            forall|k: int| 0 <= k < i ==> widths@[k] == lines@[k]@.len(),
        decreases lines@.len() - i,
    {
        widths.push(line_len(lines[i]));
        i += 1;
    }
    assert(as_nats(widths@) =~= plain_widths(line_views(lines@)));
    widths
}

/// The number of code points of each of the lines, escape sequences not counted.
/// Fails where one of the lines has no visible width.
pub fn line_lens_no_esc(lines: &Vec<&str>) -> (widths: Result<Vec<usize>, MeasureError>)
    ensures
        match widths {
            Ok(w) => w@.len() == lines@.len() && all_visible(line_views(lines@)) && as_nats(w@)
                == visible_widths(line_views(lines@)),
            Err(e) => !all_visible(line_views(lines@)) && e == MeasureError::InvalidText,
        },
{
    let mut widths: Vec<usize> = Vec::new();
    let mut i: usize = 0;
    while i < lines.len()
        invariant
            i <= lines@.len(),
            widths@.len() == i,
            forall|k: int| 0 <= k < i ==> visible_width(lines@[k]@) == Some(widths@[k] as nat),
        decreases lines@.len() - i,
    {
        match line_len_no_esc(lines[i]) {
            Ok(w) => widths.push(w),
            Err(e) => {
                assert(line_views(lines@)[i as int] == lines@[i as int]@);
                return Err(e);
            },
        }
        i += 1;
    }
    assert forall|k: int| 0 <= k < lines@.len() implies visible_width(
        #[trigger] line_views(lines@)[k],
    ).is_some() by {
        assert(line_views(lines@)[k] == lines@[k]@);
        assert(visible_width(lines@[k]@) == Some(widths@[k] as nat));
    }
    assert(as_nats(widths@) =~= visible_widths(line_views(lines@)));
    Ok(widths)
}

/// The number of code points of the longest line of a text, or 0 where it has no line.
pub fn max_line_len(text: &str) -> (most: usize)
    ensures
        most == widest(plain_widths(split_lines(text@))),
{
    let lines = lines_of(text);
    let widths = line_lens(&lines);
    widest_of(&widths)
}

/// The visible width of the widest line of a text, or 0 where it has no line. Fails
/// where one of the lines has no visible width.
pub fn max_line_len_no_esc(text: &str) -> (most: Result<usize, MeasureError>)
    ensures
        match most {
            Ok(w) => all_visible(split_lines(text@)) && w == widest(
                visible_widths(split_lines(text@)),
            ),
            Err(e) => !all_visible(split_lines(text@)) && e == MeasureError::InvalidText,
        },
{
    let lines = lines_of(text);
    match line_lens_no_esc(&lines) {
        Ok(widths) => Ok(widest_of(&widths)),
        Err(e) => Err(e),
    }
}

} // verus!
