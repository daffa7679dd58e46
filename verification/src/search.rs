//! Searching a byte buffer: the executable counterparts of the matching
//! functions of the scan.

use vstd::prelude::*;

use crate::scan::{find_from, occurs_at, rule_at, rule_from, string_close, BACKSLASH};
use crate::syntax::{lemma_max_start_len, max_start_len, rules_model, Rule, SyntaxRule};

verus! {

/// An occurrence in a part of the text is an occurrence in the text, at the
/// offset moved by where the part begins, provided the part is long enough
/// to hold the pattern wherever the text is.
pub proof fn lemma_occurs_in_window(text: Seq<u8>, at: int, end: int, pattern: Seq<u8>)
    requires
        0 <= at <= end <= text.len(),
        end == text.len() || at + pattern.len() <= end,
    ensures
        occurs_at(text.subrange(at, end), 0, pattern) == occurs_at(text, at, pattern),
{
    let window = text.subrange(at, end);
    if at + pattern.len() <= end {
        assert(window.subrange(0, pattern.len() as int) =~= text.subrange(
            at,
            at + pattern.len(),
        ));
    }
}

/// A window that is as wide as the longest start delimiter, or runs to the
/// end of the text, matches the same rules as the text does at the offset
/// where the window begins.
pub proof fn lemma_rule_in_window(text: Seq<u8>, rules: Seq<Rule>, at: int, end: int, from: int)
    requires
        0 <= at <= end <= text.len(),
        end == text.len() || at + max_start_len(rules) <= end,
        0 <= from,
    ensures
        rule_from(text.subrange(at, end), rules, 0, from) == rule_from(text, rules, at, from),
    decreases rules.len() - from,
{
    if from < rules.len() {
        lemma_max_start_len(rules);
        lemma_occurs_in_window(text, at, end, rules[from].start());
        lemma_rule_in_window(text, rules, at, end, from + 1);
    }
}

/// Whether `window` begins with `pattern`.
pub fn starts_with(window: &[u8], pattern: &[u8]) -> (yes: bool)
    ensures
        yes == occurs_at(window@, 0, pattern@),
{
    if pattern.len() > window.len() {
        return false;
    }
    let mut i: usize = 0;
    while i < pattern.len()
        invariant
            i <= pattern.len() <= window.len(),
            forall|k: int| 0 <= k < i ==> window[k] == pattern[k],
        decreases pattern.len() - i,
    {
        if window[i] != pattern[i] {
            assert(window@.subrange(0, pattern.len() as int)[i as int] == window[i as int]);
            return false;
        }
        i += 1;
    }
    assert(window@.subrange(0, pattern.len() as int) =~= pattern@);
    true
}

/// The position of the first rule whose start delimiter `window` begins
/// with.
pub fn matching_rule(window: &[u8], rules: &[SyntaxRule<'_>]) -> (found: Option<usize>)
    ensures
        match found {
            Some(rule) => rule_at(window@, rules_model(rules@), 0) == Some(rule as int),
            None => rule_at(window@, rules_model(rules@), 0) is None,
        },
{
    let ghost model = rules_model(rules@);
    let mut rule: usize = 0;
    while rule < rules.len()
        invariant
            rule <= rules.len(),
            model == rules_model(rules@),
            rule_at(window@, model, 0) == rule_from(window@, model, 0, rule as int),
        decreases rules.len() - rule,
    {
        if starts_with(window, rules[rule].start()) {
            return Some(rule);
        }
        rule += 1;
    }
    None
}

/// The first offset from `from` on at which `pattern` occurs in `bytes`.
pub fn find(bytes: &[u8], pattern: &[u8], from: usize) -> (found: Option<usize>)
    requires
        from <= bytes.len(),
    ensures
        match found {
            Some(at) => find_from(bytes@, pattern@, from as int) == Some(at as int),
            None => find_from(bytes@, pattern@, from as int) is None,
        },
{
    let mut at: usize = from;
    while pattern.len() <= bytes.len() - at
        invariant
            from <= at <= bytes.len(),
            find_from(bytes@, pattern@, from as int) == find_from(bytes@, pattern@, at as int),
        decreases bytes.len() - at,
    {
        let window = &bytes[at..at + pattern.len()];
        proof {
            lemma_occurs_in_window(bytes@, at as int, at + pattern.len(), pattern@);
            if pattern.len() == 0 {
                assert(bytes@.subrange(at as int, at as int) =~= pattern@);
            }
        }
        if starts_with(window, pattern) {
            return Some(at);
        }
        at += 1;
    }
    None
}

/// The offset of the delimiter that closes a string literal whose content
/// begins at `from`: the first offset at which the delimiter occurs with no
/// backslash immediately before it.
pub fn find_string_close(bytes: &[u8], delimiter: &[u8], from: usize) -> (found: Option<usize>)
    requires
        from <= bytes.len(),
    ensures
        match found {
            Some(at) => string_close(bytes@, delimiter@, from as int) == Some(at as int),
            None => string_close(bytes@, delimiter@, from as int) is None,
        },
{
    let mut at: usize = from;
    while delimiter.len() <= bytes.len() - at
        invariant
            from <= at <= bytes.len(),
            string_close(bytes@, delimiter@, from as int) == string_close(
                bytes@,
                delimiter@,
                at as int,
            ),
        decreases bytes.len() - at,
    {
        let escaped = at > 0 && bytes[at - 1] == BACKSLASH;
        let window = &bytes[at..at + delimiter.len()];
        proof {
            lemma_occurs_in_window(bytes@, at as int, at + delimiter.len(), delimiter@);
        }
        if !escaped && starts_with(window, delimiter) {
            return Some(at);
        }
        if at == bytes.len() {
            assert(string_close(bytes@, delimiter@, at + 1) is None);
            return None;
        }
        at += 1;
    }
    None
}

} // verus!
