//! Physical lines: where the line around an offset begins and ends, and
//! where the next line begins.
//!
//! A line ends at a line feed, or at the end of the text. A carriage return
//! just before the place where a line ends belongs to the line ending, not
//! to the line.

use vstd::prelude::*;
use vstd::string::StringSliceAdditionalSpecFns;
use vstd::utf8::*;

use crate::boundary::lemma_ascii_boundaries;

verus! {

/// The byte `\n`.
pub const LINE_FEED: u8 = 0x0A;

/// The byte `\r`.
pub const CARRIAGE_RETURN: u8 = 0x0D;

/// The offset of the first line feed at or after `index`, or the length of
/// the text where there is none.
pub open spec fn line_feed_from(text: Seq<u8>, index: int) -> int
    decreases text.len() - index,
{
    if index < 0 || index >= text.len() {
        text.len() as int
    } else if text[index] == LINE_FEED {
        index
    } else {
        line_feed_from(text, index + 1)
    }
}

/// The start of the line that holds `index`: the offset just after the last
/// line feed before `index`, or 0 where there is none.
pub open spec fn line_start(text: Seq<u8>, index: int) -> int
    decreases index,
{
    if index <= 0 {
        0
    } else if text[index - 1] == LINE_FEED {
        index
    } else {
        line_start(text, index - 1)
    }
}

/// The end of the line that holds `index`: the offset of the line feed that
/// ends it, or the end of the text, stepped back over one carriage return.
pub open spec fn line_end(text: Seq<u8>, index: int) -> int {
    let end = line_feed_from(text, index);
    if end > 0 && text[end - 1] == CARRIAGE_RETURN {
        end - 1
    } else {
        end
    }
}

/// The start of the line after the one that holds `index`, if there is one.
pub open spec fn next_line_start(text: Seq<u8>, index: int) -> Option<int> {
    let feed = line_feed_from(text, index);
    if feed < text.len() {
        Some(feed + 1)
    } else {
        None
    }
}

/// `line_feed_from` is the least offset from `index` on that holds a line
/// feed, and the length of the text where no such offset exists.
pub proof fn lemma_line_feed_from(text: Seq<u8>, index: int)
    requires
        0 <= index <= text.len(),
    ensures
        index <= line_feed_from(text, index) <= text.len(),
        line_feed_from(text, index) < text.len() ==> text[line_feed_from(text, index)] == LINE_FEED,
        forall|k: int| index <= k < line_feed_from(text, index) ==> text[k] != LINE_FEED,
    decreases text.len() - index,
{
    if index < text.len() && text[index] != LINE_FEED {
        lemma_line_feed_from(text, index + 1);
    }
}

/// `line_start` is at or before `index`, follows a line feed unless it is 0,
/// and no line feed lies between it and `index`.
pub proof fn lemma_line_start(text: Seq<u8>, index: int)
    requires
        0 <= index <= text.len(),
    ensures
        0 <= line_start(text, index) <= index,
        line_start(text, index) > 0 ==> text[line_start(text, index) - 1] == LINE_FEED,
        forall|k: int| line_start(text, index) <= k < index ==> text[k] != LINE_FEED,
    decreases index,
{
    if index > 0 && text[index - 1] != LINE_FEED {
        lemma_line_start(text, index - 1);
    }
}

/// The line around `index` is a span of the text: its start is not after its
/// end, its end is not after the line feed that closes it, and the end stays
/// at or after `index` unless the line ends at `index` itself and a carriage
/// return stands just before it.
pub proof fn lemma_line_span(text: Seq<u8>, index: int)
    requires
        0 <= index <= text.len(),
    ensures
        0 <= line_start(text, index) <= line_end(text, index) <= line_feed_from(text, index),
        line_end(text, index) >= index - 1,
        line_end(text, index) < index ==> (line_feed_from(text, index) == index && text[index
            - 1] == CARRIAGE_RETURN),
        line_feed_from(text, line_end(text, index)) == line_feed_from(text, index),
{
    lemma_line_feed_from(text, index);
    lemma_line_start(text, index);
    let feed = line_feed_from(text, index);
    let end = line_end(text, index);
    if end < feed {
        assert(text[end] == CARRIAGE_RETURN);
        if end < index {
        } else {
            lemma_line_feed_from(text, end);
            lemma_line_feed_from(text, end + 1);
        }
        if line_start(text, index) > end {
            assert(line_start(text, index) == index);
        }
        lemma_feed_unchanged(text, end, feed);
    }
}

/// From any offset at or before a line feed with no line feed in between,
/// the first line feed is that one.
proof fn lemma_feed_unchanged(text: Seq<u8>, from: int, feed: int)
    requires
        0 <= from <= feed <= text.len(),
        feed < text.len() ==> text[feed] == LINE_FEED,
        forall|k: int| from <= k < feed ==> text[k] != LINE_FEED,
    ensures
        line_feed_from(text, from) == feed,
    decreases feed - from,
{
    if from < feed {
        lemma_feed_unchanged(text, from + 1, feed);
    }
}

/// In a valid text, the bounds of the line around `index` and the start of
/// the next line are character boundaries.
pub proof fn lemma_line_boundaries(text: Seq<u8>, index: int)
    requires
        valid_utf8(text),
        0 <= index <= text.len(),
        is_char_boundary(text, index),
    ensures
        is_char_boundary(text, line_start(text, index)),
        is_char_boundary(text, line_end(text, index)),
        is_char_boundary(text, line_feed_from(text, index)),
        line_feed_from(text, index) < text.len() ==> is_char_boundary(
            text,
            line_feed_from(text, index) + 1,
        ),
{
    lemma_line_feed_from(text, index);
    lemma_line_start(text, index);
    let start = line_start(text, index);
    let feed = line_feed_from(text, index);
    let end = line_end(text, index);
    if start > 0 {
        lemma_ascii_boundaries(text, start - 1);
    } else {
        is_char_boundary_start_end_of_seq(text);
    }
    if feed < text.len() {
        lemma_ascii_boundaries(text, feed);
    } else {
        is_char_boundary_start_end_of_seq(text);
    }
    if end < feed {
        lemma_ascii_boundaries(text, end);
    }
}

/// Calls `line_span::find_line_range`, which gives the start and the end of
/// the line that holds `index`.
///
/// The claim: the start is the offset after the last `\n` before `index`, or
/// 0; the end is the offset of the first `\n` at or after `index`, or the
/// length of the text, less one if the byte before that place is `\r`. The
/// outside function slices the text at `index`, so `index` must be a
/// character boundary within the text.
#[verifier::external_body]
pub(crate) fn find_line_range(text: &str, index: usize) -> (range: (usize, usize))
    requires
        index <= text.spec_bytes().len(),
        is_char_boundary(text.spec_bytes(), index as int),
    ensures
        range.0 == line_start(text.spec_bytes(), index as int),
        range.1 == line_end(text.spec_bytes(), index as int),
{
    let range = line_span::find_line_range(text, index);
    (range.start, range.end)
}

/// Calls `line_span::find_next_line_start`, which gives the start of the
/// line after the one that holds `index`.
///
/// The claim: the result is the offset after the first `\n` at or after
/// `index`, and `None` where no `\n` follows. The outside function slices the
/// text at `index`, so `index` must be a character boundary within the text.
#[verifier::external_body]
pub(crate) fn find_next_line_start(text: &str, index: usize) -> (next: Option<usize>)
    requires
        index <= text.spec_bytes().len(),
        is_char_boundary(text.spec_bytes(), index as int),
    ensures
        match next {
            Some(start) => next_line_start(text.spec_bytes(), index as int) == Some(start as int),
            None => next_line_start(text.spec_bytes(), index as int) is None,
        },
{
    line_span::find_next_line_start(text, index)
}

} // verus!
