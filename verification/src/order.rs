//! The comments of a whole scan, and the order of their spans.

use vstd::prelude::*;

use crate::lines::{lemma_line_start, line_start};
use crate::scan::{
    lemma_next_comment, lemma_region_spans, next_comment, next_cursor, spans_valid, Region,
};
use crate::syntax::{rules_valid, Rule};

verus! {

/// All the comments that a scan from `cursor` on hands out, in the order in
/// which they come.
pub open spec fn comments(text: Seq<u8>, rules: Seq<Rule>, cursor: int) -> Seq<Region>
    decreases text.len() - cursor,
{
    match next_comment(text, rules, cursor) {
        None => Seq::empty(),
        Some(region) => if cursor < region.next <= text.len() {
            seq![region] + comments(text, rules, region.next)
        } else {
            seq![region]
        },
    }
}

/// A scan ends: every comment takes at least one byte of the text for
/// itself, so a scan from `cursor` on hands out no more comments than there
/// are bytes left.
pub proof fn lemma_scan_ends(text: Seq<u8>, rules: Seq<Rule>, cursor: int)
    requires
        rules_valid(rules),
        0 <= cursor <= text.len(),
    ensures
        comments(text, rules, cursor).len() <= text.len() - cursor,
    decreases text.len() - cursor,
{
    lemma_next_comment(text, rules, cursor);
    match next_comment(text, rules, cursor) {
        Some(region) => {
            lemma_scan_ends(text, rules, region.next);
        },
        None => {},
    }
}

/// `later` is a line comment that stands on the line on which the block
/// comment `earlier` ends. The raw span of such a line comment is its whole
/// line, and so reaches back into the block comment.
pub open spec fn trails_block(
    text: Seq<u8>,
    rules: Seq<Rule>,
    earlier: Region,
    later: Region,
) -> bool {
    &&& rules[earlier.rule] is Block
    &&& rules[later.rule] is Line
    &&& line_start(text, later.at) < earlier.raw_end
}

/// Span validity: the raw span of every comment is a span of the text, its
/// text span lies within the raw span, and the text stands between the
/// delimiters of the rule that matched. The text of a block comment begins
/// right after the start delimiter and runs up to the first end delimiter,
/// or to the end of the text where the comment is not closed. The text of a
/// line comment runs to the end of the line, and begins right after the
/// delimiter, provided that the delimiter ends within the line.
pub proof fn lemma_comment_spans(text: Seq<u8>, rules: Seq<Rule>, cursor: int)
    requires
        rules_valid(rules),
        0 <= cursor <= text.len(),
        next_comment(text, rules, cursor) is Some,
    ensures
        ({
            let comment = next_comment(text, rules, cursor).unwrap();
            &&& 0 <= comment.rule < rules.len()
            &&& !(rules[comment.rule] is Str)
            &&& spans_valid(text, rules[comment.rule], comment)
        }),
{
    lemma_next_comment(text, rules, cursor);
    let comment = next_comment(text, rules, cursor).unwrap();
    lemma_region_spans(text, rules, comment.at, comment.rule);
}

/// Of two comments that follow one another, the second is recognised at or
/// after the end of the raw span of the first.
pub proof fn lemma_comments_follow(text: Seq<u8>, rules: Seq<Rule>, cursor: int)
    requires
        rules_valid(rules),
        0 <= cursor <= text.len(),
        next_comment(text, rules, cursor) is Some,
        next_comment(text, rules, next_cursor(text, rules, cursor)) is Some,
    ensures
        ({
            let first = next_comment(text, rules, cursor).unwrap();
            let second = next_comment(text, rules, first.next).unwrap();
            first.raw_end <= first.next <= second.at
        }),
{
    let first = next_comment(text, rules, cursor).unwrap();
    lemma_next_comment(text, rules, cursor);
    lemma_region_spans(text, rules, first.at, first.rule);
    lemma_next_comment(text, rules, first.next);
}

/// Ordering of two comments that follow one another: the raw span of the
/// second begins at or after the end of the raw span of the first, so the
/// two do not overlap and their starts do not decrease.
///
/// This holds unless the second is a line comment on the line on which the
/// first, a block comment, ends.
pub proof fn lemma_raw_spans_ordered(text: Seq<u8>, rules: Seq<Rule>, cursor: int)
    requires
        rules_valid(rules),
        0 <= cursor <= text.len(),
        next_comment(text, rules, cursor) is Some,
        next_comment(text, rules, next_cursor(text, rules, cursor)) is Some,
        !trails_block(
            text,
            rules,
            next_comment(text, rules, cursor).unwrap(),
            next_comment(text, rules, next_cursor(text, rules, cursor)).unwrap(),
        ),
    ensures
        ({
            let first = next_comment(text, rules, cursor).unwrap();
            let second = next_comment(text, rules, first.next).unwrap();
            first.raw_start <= first.raw_end <= second.raw_start <= second.raw_end
        }),
{
    let first = next_comment(text, rules, cursor).unwrap();
    let second = next_comment(text, rules, first.next).unwrap();
    lemma_next_comment(text, rules, cursor);
    lemma_region_spans(text, rules, first.at, first.rule);
    lemma_next_comment(text, rules, first.next);
    lemma_region_spans(text, rules, second.at, second.rule);
    if rules[second.rule] is Line && rules[first.rule] is Line {
        lemma_line_start(text, second.at);
    }
}

/// The comments of a scan are chained: the first is the next comment from
/// `cursor` on, and each later one is the next comment from where the one
/// before it left the cursor.
pub proof fn lemma_comments_chain(text: Seq<u8>, rules: Seq<Rule>, cursor: int, k: int)
    requires
        rules_valid(rules),
        0 <= cursor <= text.len(),
        0 <= k < comments(text, rules, cursor).len(),
    ensures
        cursor <= comments(text, rules, cursor)[k].at < comments(text, rules, cursor)[k].next
            <= text.len(),
        k == 0 ==> next_comment(text, rules, cursor) == Some(comments(text, rules, cursor)[0]),
        k > 0 ==> next_comment(text, rules, comments(text, rules, cursor)[k - 1].next) == Some(
            comments(text, rules, cursor)[k],
        ),
    decreases k,
{
    lemma_next_comment(text, rules, cursor);
    let first = next_comment(text, rules, cursor).unwrap();
    lemma_region_spans(text, rules, first.at, first.rule);
    if k > 0 {
        let rest = comments(text, rules, first.next);
        assert(comments(text, rules, cursor) == seq![first] + rest);
        assert(comments(text, rules, cursor)[k] == rest[k - 1]);
        lemma_comments_chain(text, rules, first.next, k - 1);
        if k > 1 {
            assert(comments(text, rules, cursor)[k - 1] == rest[k - 2]);
        }
    }
}

/// Ordering of the comments of a scan: of any two comments, the raw span of
/// the later one begins at or after the end of the raw span of the earlier
/// one. Raw spans therefore do not overlap, and their starts do not
/// decrease.
///
/// This holds as long as, from the earlier comment to the later one, no line
/// comment stands on the line on which the block comment before it ends.
pub proof fn lemma_raw_spans_apart(text: Seq<u8>, rules: Seq<Rule>, cursor: int, i: int, j: int)
    requires
        rules_valid(rules),
        0 <= cursor <= text.len(),
        0 <= i < j < comments(text, rules, cursor).len(),
        forall|k: int|
            i < k <= j ==> !trails_block(
                text,
                rules,
                comments(text, rules, cursor)[k - 1],
                #[trigger] comments(text, rules, cursor)[k],
            ),
    ensures
        ({
            let all = comments(text, rules, cursor);
            all[i].raw_start <= all[i].raw_end <= all[j].raw_start <= all[j].raw_end
        }),
    decreases j - i,
{
    let all = comments(text, rules, cursor);
    lemma_comments_chain(text, rules, cursor, j - 1);
    lemma_comments_chain(text, rules, cursor, j);
    let before = all[j - 1];
    if j - 1 == 0 {
        assert(next_comment(text, rules, cursor) == Some(before));
        lemma_raw_spans_ordered(text, rules, cursor);
    } else {
        lemma_comments_chain(text, rules, cursor, j - 2);
        let from = all[j - 2].next;
        assert(next_comment(text, rules, from) == Some(before));
        lemma_raw_spans_ordered(text, rules, from);
    }
    if i < j - 1 {
        lemma_raw_spans_apart(text, rules, cursor, i, j - 1);
    }
}

} // verus!
