//! The scan, as mathematics: what one matching cycle finds in a text, given
//! a rule set and a cursor, and what holds of every scan.
//!
//! Everything here is stated over byte sequences and byte offsets. The
//! executable scanner is specified against these functions.

use vstd::prelude::*;

use crate::lines::{
    lemma_line_feed_from, lemma_line_span, lemma_line_start, line_end, line_feed_from, line_start,
    next_line_start, LINE_FEED,
};
use crate::syntax::{rules_valid, Rule};

verus! {

/// The byte `\`: standing immediately before the delimiter that would close
/// a string literal, it suppresses that delimiter.
pub const BACKSLASH: u8 = 0x5C;

/// `pattern` occurs in `text` at offset `at`.
pub open spec fn occurs_at(text: Seq<u8>, at: int, pattern: Seq<u8>) -> bool {
    &&& 0 <= at
    &&& at + pattern.len() <= text.len()
    &&& text.subrange(at, at + pattern.len()) == pattern
}

/// The first rule, from index `from` on, whose start delimiter occurs at
/// `at`.
pub open spec fn rule_from(text: Seq<u8>, rules: Seq<Rule>, at: int, from: int) -> Option<int>
    decreases rules.len() - from,
{
    if from < 0 || from >= rules.len() {
        None
    } else if occurs_at(text, at, rules[from].start()) {
        Some(from)
    } else {
        rule_from(text, rules, at, from + 1)
    }
}

/// The rule that matches at `at`: the first rule in rule-set order whose
/// start delimiter occurs there.
pub open spec fn rule_at(text: Seq<u8>, rules: Seq<Rule>, at: int) -> Option<int> {
    rule_from(text, rules, at, 0)
}

/// The earliest offset from `cursor` on at which a rule matches, with the
/// rule that matches there.
pub open spec fn first_match(text: Seq<u8>, rules: Seq<Rule>, cursor: int) -> Option<(int, int)>
    decreases text.len() - cursor,
{
    if cursor < 0 || cursor >= text.len() {
        None
    } else {
        match rule_at(text, rules, cursor) {
            Some(rule) => Some((cursor, rule)),
            None => first_match(text, rules, cursor + 1),
        }
    }
}

/// The first offset from `from` on at which `pattern` occurs.
pub open spec fn find_from(text: Seq<u8>, pattern: Seq<u8>, from: int) -> Option<int>
    decreases text.len() + 1 - from,
{
    if from < 0 || from + pattern.len() > text.len() {
        None
    } else if occurs_at(text, from, pattern) {
        Some(from)
    } else {
        find_from(text, pattern, from + 1)
    }
}

/// The delimiter of a string literal closes the literal at `at`: it occurs
/// there, and no backslash stands immediately before it.
pub open spec fn closes_at(text: Seq<u8>, at: int, delimiter: Seq<u8>) -> bool {
    &&& occurs_at(text, at, delimiter)
    &&& !(at > 0 && text[at - 1] == BACKSLASH)
}

/// The offset of the delimiter that closes a string literal whose content
/// begins at `from`: the first offset from `from` on at which the delimiter
/// occurs with no backslash immediately before it.
///
/// A backslash suppresses the delimiter that follows it, whatever stands
/// before the backslash: a backslash after a backslash still escapes.
pub open spec fn string_close(text: Seq<u8>, delimiter: Seq<u8>, from: int) -> Option<int>
    decreases text.len() + 1 - from,
{
    if from < 0 || from + delimiter.len() > text.len() {
        None
    } else if closes_at(text, from, delimiter) {
        Some(from)
    } else {
        string_close(text, delimiter, from + 1)
    }
}

/// What one matching cycle recognised: a comment or a string literal.
pub struct Region {
    /// The index of the rule that matched.
    pub rule: int,
    /// The offset at which the rule's start delimiter occurs.
    pub at: int,
    /// The raw span: delimiters included, and for a line comment the whole
    /// line.
    pub raw_start: int,
    pub raw_end: int,
    /// The text span: the payload between the delimiters.
    pub text_start: int,
    pub text_end: int,
    /// The cursor after the region.
    pub next: int,
}

/// The region of a line comment whose delimiter `start` occurs at `at`.
///
/// The raw span is the line around `at`. The text runs from the end of the
/// delimiter to the end of the line; where the delimiter itself runs past
/// the end of the line, the text is empty and stands at the end of the
/// line. The cursor moves to the start of the next line.
pub open spec fn line_region(text: Seq<u8>, rule: int, at: int, start: Seq<u8>) -> Region {
    let after = at + start.len();
    let end = line_end(text, at);
    Region {
        rule,
        at,
        raw_start: line_start(text, at),
        raw_end: end,
        text_start: if after <= end {
            after
        } else {
            end
        },
        text_end: end,
        next: match next_line_start(text, end) {
            Some(next) => next,
            None => text.len() as int,
        },
    }
}

/// The region between an opening delimiter of length `open` at `at` and the
/// closing delimiter of length `shut` found at `close`; where none was
/// found, the region runs to the end of the text.
pub open spec fn enclosed_region(
    text: Seq<u8>,
    rule: int,
    at: int,
    open: nat,
    shut: nat,
    close: Option<int>,
) -> Region {
    let after = at + open;
    match close {
        Some(close) => Region {
            rule,
            at,
            raw_start: at,
            raw_end: close + shut,
            text_start: after,
            text_end: close,
            next: close + shut,
        },
        None => Region {
            rule,
            at,
            raw_start: at,
            raw_end: text.len() as int,
            text_start: after,
            text_end: text.len() as int,
            next: text.len() as int,
        },
    }
}

/// The region that rule number `rule` recognises where its start delimiter
/// occurs at `at`.
pub open spec fn region_at(text: Seq<u8>, rules: Seq<Rule>, at: int, rule: int) -> Region {
    match rules[rule] {
        Rule::Line { start } => line_region(text, rule, at, start),
        Rule::Block { start, end } => enclosed_region(
            text,
            rule,
            at,
            start.len(),
            end.len(),
            find_from(text, end, at + start.len()),
        ),
        Rule::Str { delimiter } => enclosed_region(
            text,
            rule,
            at,
            delimiter.len(),
            delimiter.len(),
            string_close(text, delimiter, at + delimiter.len()),
        ),
    }
}

/// One matching cycle from `cursor`: the region of the earliest match, or
/// `None` where nothing matches in the rest of the text.
pub open spec fn step(text: Seq<u8>, rules: Seq<Rule>, cursor: int) -> Option<Region> {
    match first_match(text, rules, cursor) {
        Some((at, rule)) => Some(region_at(text, rules, at, rule)),
        None => None,
    }
}

/// The cursor after one matching cycle from `cursor`.
pub open spec fn step_cursor(text: Seq<u8>, rules: Seq<Rule>, cursor: int) -> int {
    match step(text, rules, cursor) {
        Some(region) => region.next,
        None => text.len() as int,
    }
}

/// The next comment from `cursor` on: matching cycles are repeated, and
/// string literals passed over, until a cycle recognises a comment or
/// nothing matches any more.
pub open spec fn next_comment(text: Seq<u8>, rules: Seq<Rule>, cursor: int) -> Option<Region>
    decreases text.len() - cursor,
{
    match step(text, rules, cursor) {
        None => None,
        Some(region) => if !(rules[region.rule] is Str) {
            Some(region)
        } else if cursor < region.next <= text.len() {
            next_comment(text, rules, region.next)
        } else {
            None
        },
    }
}

/// The cursor after the next comment from `cursor` on was asked for.
pub open spec fn next_cursor(text: Seq<u8>, rules: Seq<Rule>, cursor: int) -> int {
    match next_comment(text, rules, cursor) {
        Some(region) => region.next,
        None => text.len() as int,
    }
}

/// What `rule_from` returns is the least rule index from `from` on whose
/// start delimiter occurs at `at`.
pub proof fn lemma_rule_from(text: Seq<u8>, rules: Seq<Rule>, at: int, from: int)
    requires
        0 <= from,
    ensures
        match rule_from(text, rules, at, from) {
            Some(rule) => {
                &&& from <= rule < rules.len()
                &&& occurs_at(text, at, rules[rule].start())
                &&& forall|j: int|
                    from <= j < rule ==> !#[trigger] occurs_at(text, at, rules[j].start())
            },
            None => forall|j: int|
                from <= j < rules.len() ==> !#[trigger] occurs_at(text, at, rules[j].start()),
        },
    decreases rules.len() - from,
{
    if from < rules.len() && !occurs_at(text, at, rules[from].start()) {
        lemma_rule_from(text, rules, at, from + 1);
    }
}

/// Earliest offset first, then first rule: `first_match` gives the least
/// offset from `cursor` on at which any rule's start delimiter occurs, and
/// the least index among the rules that match there. It gives `None`
/// exactly when no rule matches anywhere from `cursor` on.
pub proof fn lemma_first_match(text: Seq<u8>, rules: Seq<Rule>, cursor: int)
    requires
        0 <= cursor,
    ensures
        match first_match(text, rules, cursor) {
            Some((at, rule)) => {
                &&& cursor <= at < text.len()
                &&& 0 <= rule < rules.len()
                &&& rule_at(text, rules, at) == Some(rule)
                &&& occurs_at(text, at, rules[rule].start())
                &&& forall|j: int|
                    0 <= j < rule ==> !#[trigger] occurs_at(text, at, rules[j].start())
                &&& forall|p: int, j: int|
                    cursor <= p < at && 0 <= j < rules.len() ==> !#[trigger] occurs_at(
                        text,
                        p,
                        rules[j].start(),
                    )
            },
            None => forall|p: int, j: int|
                cursor <= p < text.len() && 0 <= j < rules.len() ==> !#[trigger] occurs_at(
                    text,
                    p,
                    rules[j].start(),
                ),
        },
    decreases text.len() - cursor,
{
    if cursor < text.len() {
        lemma_rule_from(text, rules, cursor, 0);
        if rule_at(text, rules, cursor) is None {
            lemma_first_match(text, rules, cursor + 1);
        }
    }
}

/// `find_from` gives the least offset from `from` on at which `pattern`
/// occurs, and `None` exactly when it occurs nowhere from `from` on.
pub proof fn lemma_find_from(text: Seq<u8>, pattern: Seq<u8>, from: int)
    requires
        0 <= from,
    ensures
        match find_from(text, pattern, from) {
            Some(at) => {
                &&& from <= at
                &&& occurs_at(text, at, pattern)
                &&& forall|p: int| from <= p < at ==> !#[trigger] occurs_at(text, p, pattern)
            },
            None => forall|p: int| from <= p ==> !#[trigger] occurs_at(text, p, pattern),
        },
    decreases text.len() + 1 - from,
{
    if from + pattern.len() <= text.len() && !occurs_at(text, from, pattern) {
        lemma_find_from(text, pattern, from + 1);
    }
}

/// `string_close` gives the least offset from `from` on at which the
/// delimiter occurs with no backslash immediately before it, and `None`
/// exactly when there is no such offset from `from` on.
pub proof fn lemma_string_close(text: Seq<u8>, delimiter: Seq<u8>, from: int)
    requires
        0 <= from,
    ensures
        match string_close(text, delimiter, from) {
            Some(at) => {
                &&& from <= at
                &&& closes_at(text, at, delimiter)
                &&& forall|p: int| from <= p < at ==> !#[trigger] closes_at(text, p, delimiter)
            },
            None => forall|p: int| from <= p ==> !#[trigger] closes_at(text, p, delimiter),
        },
    decreases text.len() + 1 - from,
{
    if from + delimiter.len() <= text.len() && !closes_at(text, from, delimiter) {
        lemma_string_close(text, delimiter, from + 1);
    }
}

/// A region between two delimiters begins at the opening delimiter, its
/// text begins right after that delimiter, and it ends either with the
/// closing delimiter, which follows the text, or where the text ends.
pub open spec fn enclosed(text: Seq<u8>, region: Region, open: Seq<u8>, shut: Seq<u8>) -> bool {
    &&& region.raw_start == region.at
    &&& region.text_start == region.at + open.len()
    &&& region.next == region.raw_end
    &&& (occurs_at(text, region.text_end, shut) && region.raw_end == region.text_end
        + shut.len()) || (region.text_end == text.len() && region.raw_end == text.len())
}

/// The spans of `region` are valid for `rule`: the raw span is a span of
/// the text, the text span lies within it, and the text stands between the
/// delimiters of the rule.
///
/// A line comment spans the line around its delimiter and ends with its
/// text; the text begins right after the delimiter whenever the delimiter
/// ends within the line. The end delimiter of a block comment occurs nowhere
/// within its text: the comment ends at the first place where it can. A
/// string literal ends at the first delimiter after its opening that no
/// backslash immediately precedes; no such delimiter occurs within its text.
pub open spec fn spans_valid(text: Seq<u8>, rule: Rule, region: Region) -> bool {
    &&& 0 <= region.raw_start <= region.text_start <= region.text_end <= region.raw_end
        <= text.len()
    &&& occurs_at(text, region.at, rule.start())
    &&& match rule {
        Rule::Line { start } => {
            &&& region.raw_start == line_start(text, region.at)
            &&& region.raw_end == line_end(text, region.at)
            &&& region.text_end == region.raw_end
            &&& region.at + start.len() <= region.raw_end ==> region.text_start == region.at
                + start.len()
        },
        Rule::Block { start, end } => {
            &&& enclosed(text, region, start, end)
            &&& forall|p: int|
                region.text_start <= p < region.text_end ==> !#[trigger] occurs_at(text, p, end)
        },
        Rule::Str { delimiter } => {
            &&& enclosed(text, region, delimiter, delimiter)
            &&& region.text_end < text.len() ==> closes_at(text, region.text_end, delimiter)
            &&& forall|p: int|
                region.text_start <= p < region.text_end ==> !#[trigger] closes_at(
                    text,
                    p,
                    delimiter,
                )
        },
    }
}

/// The region of a well-formed rule at an occurrence of its start delimiter
/// has valid spans, and leaves the cursor beyond the place of the match, at
/// or after the end of the raw span. After a line comment the cursor stands
/// at the end of the text or just after the line feed that ends the line.
pub proof fn lemma_region_spans(text: Seq<u8>, rules: Seq<Rule>, at: int, rule: int)
    requires
        0 <= rule < rules.len(),
        rules[rule].well_formed(),
        occurs_at(text, at, rules[rule].start()),
    ensures
        ({
            let region = region_at(text, rules, at, rule);
            &&& region.rule == rule
            &&& region.at == at
            &&& spans_valid(text, rules[rule], region)
            &&& region.raw_start <= at < region.next <= text.len()
            &&& region.raw_end <= region.next
            &&& rules[rule] is Line ==> region.next == text.len() || (region.next
                == line_feed_from(text, at) + 1 && text[region.next - 1] == LINE_FEED)
        }),
{
    match rules[rule] {
        Rule::Line { start } => {
            lemma_line_span(text, at);
            lemma_line_start(text, at);
            lemma_line_feed_from(text, at);
        },
        Rule::Block { start, end } => {
            lemma_find_from(text, end, at + start.len());
        },
        Rule::Str { delimiter } => {
            lemma_string_close(text, delimiter, at + delimiter.len());
        },
    }
}

/// Progress: with a valid rule set, a matching cycle that recognises a
/// region leaves the cursor strictly beyond where it was, and within the
/// text; one that recognises nothing leaves it at the end of the text.
pub proof fn lemma_step_advances(text: Seq<u8>, rules: Seq<Rule>, cursor: int)
    requires
        rules_valid(rules),
        0 <= cursor <= text.len(),
    ensures
        cursor <= step_cursor(text, rules, cursor) <= text.len(),
        cursor < text.len() ==> cursor < step_cursor(text, rules, cursor),
        match step(text, rules, cursor) {
            Some(region) => {
                &&& cursor <= region.at < region.next
                &&& 0 <= region.rule < rules.len()
                &&& first_match(text, rules, cursor) == Some((region.at, region.rule))
                &&& region == region_at(text, rules, region.at, region.rule)
            },
            None => true,
        },
{
    lemma_first_match(text, rules, cursor);
    match first_match(text, rules, cursor) {
        Some((at, rule)) => {
            lemma_region_spans(text, rules, at, rule);
        },
        None => {},
    }
}

/// What `next_comment` gives is the region of a comment rule, recognised at
/// or after `cursor`, and the cursor after it is strictly beyond `cursor`.
pub proof fn lemma_next_comment(text: Seq<u8>, rules: Seq<Rule>, cursor: int)
    requires
        rules_valid(rules),
        0 <= cursor <= text.len(),
    ensures
        cursor <= next_cursor(text, rules, cursor) <= text.len(),
        cursor < text.len() ==> cursor < next_cursor(text, rules, cursor),
        match next_comment(text, rules, cursor) {
            Some(region) => {
                &&& cursor <= region.at < region.next
                &&& 0 <= region.rule < rules.len()
                &&& !(rules[region.rule] is Str)
                &&& occurs_at(text, region.at, rules[region.rule].start())
                &&& region == region_at(text, rules, region.at, region.rule)
            },
            None => true,
        },
    decreases text.len() - cursor,
{
    lemma_step_advances(text, rules, cursor);
    lemma_first_match(text, rules, cursor);
    match step(text, rules, cursor) {
        Some(region) => {
            if rules[region.rule] is Str {
                lemma_next_comment(text, rules, region.next);
            }
        },
        None => {},
    }
}

/// The end is final: at the end of the text nothing is recognised, and the
/// cursor stays where it is.
pub proof fn lemma_end_is_final(text: Seq<u8>, rules: Seq<Rule>)
    ensures
        step(text, rules, text.len() as int) is None,
        next_comment(text, rules, text.len() as int) is None,
        next_cursor(text, rules, text.len() as int) == text.len(),
{
}

} // verus!
