use vstd::prelude::*;

verus! {

/// The index of the first line feed in `text`, or the length of `text` where it holds none.
pub open spec fn first_newline(text: Seq<char>) -> int
    decreases text.len(),
{
    if text.len() == 0 || text[0] == '\n' {
        0
    } else {
        1 + first_newline(text.drop_first())
    }
}

/// A line as it stood before its line feed, without the carriage return that may end it.
pub open spec fn without_carriage_return(line: Seq<char>) -> Seq<char> {
    if line.len() > 0 && line.last() == '\r' {
        line.drop_last()
    } else {
        line
    }
}

/// The lines of a text. A line ends at a line feed, or at a carriage return directly
/// followed by one; neither belongs to the line. The last line needs no line feed, and
/// a text that ends in one has no empty line after it.
pub open spec fn split_lines(text: Seq<char>) -> Seq<Seq<char>>
    decreases text.len(),
    via split_lines_shortens
{
    let end = first_newline(text);
    if text.len() == 0 {
        Seq::empty()
    } else if end >= text.len() {
        seq![text]
    } else {
        seq![without_carriage_return(text.take(end))] + split_lines(text.skip(end + 1))
    }
}

#[via_fn]
proof fn split_lines_shortens(text: Seq<char>) {
    lemma_first_newline(text);
}

/// The lines of each of the texts.
pub open spec fn blocks_of(texts: Seq<Seq<char>>) -> Seq<Seq<Seq<char>>> {
    Seq::new(texts.len(), |j: int| split_lines(texts[j]))
}

/// The texts that a sequence of string slices stands for.
pub open spec fn line_views(lines: Seq<&str>) -> Seq<Seq<char>> {
    Seq::new(lines.len(), |i: int| lines[i]@)
}

/// The lines of each block of string slices, as texts.
pub open spec fn block_views(blocks: Seq<Vec<&str>>) -> Seq<Seq<Seq<char>>> {
    Seq::new(blocks.len(), |j: int| line_views(blocks[j]@))
}

/// Where the first line feed stands: within the text, with no line feed before it.
pub proof fn lemma_first_newline(text: Seq<char>)
    ensures
        0 <= first_newline(text) <= text.len(),
        first_newline(text) < text.len() ==> text[first_newline(text)] == '\n',
        forall|i: int| 0 <= i < first_newline(text) ==> text[i] != '\n',
    decreases text.len(),
{
    if text.len() == 0 || text[0] == '\n' {
    } else {
        let rest = text.drop_first();
        lemma_first_newline(rest);
        assert forall|i: int| 0 <= i < first_newline(text) implies text[i] != '\n' by {
            if i > 0 {
                assert(text[i] == rest[i - 1]);
            }
        }
    }
}

/// Whether a text holds no line feed.
pub open spec fn no_newline(text: Seq<char>) -> bool {
    forall|k: int| 0 <= k < text.len() ==> text[k] != '\n'
}

/// Whether none of the texts holds a line feed.
pub open spec fn no_newlines(texts: Seq<Seq<char>>) -> bool {
    forall|i: int| 0 <= i < texts.len() ==> no_newline(#[trigger] texts[i])
}

/// No line holds a line feed.
pub proof fn lemma_lines_hold_no_newline(text: Seq<char>)
    ensures
        no_newlines(split_lines(text)),
    decreases text.len(),
{
    lemma_first_newline(text);
    let end = first_newline(text);
    if text.len() == 0 {
    } else if end >= text.len() {
    } else {
        let rest = text.skip(end + 1);
        lemma_lines_hold_no_newline(rest);
        let head = without_carriage_return(text.take(end));
        assert forall|i: int| 0 <= i < split_lines(text).len() implies no_newline(
            #[trigger] split_lines(text)[i],
        ) by {
            if i == 0 {
                assert(split_lines(text)[0] == head);
                assert forall|k: int| 0 <= k < head.len() implies head[k] != '\n' by {
                    assert(head[k] == text[k]);
                }
            } else {
                assert(split_lines(text)[i] == split_lines(rest)[i - 1]);
            }
        }
    }
}

/// `str::lines`, gathered in a vector: the lines of `text` in order, each a slice of it.
#[verifier::external_body]
pub(crate) fn lines_of<'a>(text: &'a str) -> (lines: Vec<&'a str>)
    ensures
        line_views(lines@) == split_lines(text@),
{
    text.lines().collect()
}

} // verus!
