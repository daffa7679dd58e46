//! The rule model: the three kinds of lexical region the scanner can
//! recognise, their validation, and the width of the matching window.

use vstd::prelude::*;
use vstd::string::StringSliceAdditionalSpecFns;

verus! {

/// One lexical rule, as the caller writes it.
///
/// The order of rules in a rule set is their priority: where the start
/// delimiters of several rules match at the same offset, the first rule wins.
/// List `//!` before `//`.
///
/// Delimiters are string slices, so every delimiter is a whole number of
/// characters; a match of one inside a text therefore begins and ends on a
/// character boundary of that text.
#[derive(Clone, Copy, Debug)]
pub enum SyntaxRule<'a> {
    /// `LineComment(start)`: a comment that runs from `start` to the end of
    /// its line.
    LineComment(&'a str),
    /// `BlockComment(start, end)`: a comment between two delimiters, which
    /// may span lines.
    BlockComment(&'a str, &'a str),
    /// `String(delimiter)`: a string literal, opened and closed by the same
    /// delimiter.
    String(&'a str),
}

/// The kind of region a rule recognises.
#[derive(Clone, Copy, Debug, PartialEq, Eq, Structural)]
pub enum ParseRule {
    LineComment,
    BlockComment,
    String,
}

/// The mathematical model of a rule: its delimiters as byte sequences.
pub enum Rule {
    Line { start: Seq<u8> },
    Block { start: Seq<u8>, end: Seq<u8> },
    Str { delimiter: Seq<u8> },
}

impl Rule {
    /// The sequence that opens a region of this rule.
    pub open spec fn start(self) -> Seq<u8> {
        match self {
            Rule::Line { start } => start,
            Rule::Block { start, .. } => start,
            Rule::Str { delimiter } => delimiter,
        }
    }

    /// The kind of region this rule recognises.
    pub open spec fn kind(self) -> ParseRule {
        match self {
            Rule::Line { .. } => ParseRule::LineComment,
            Rule::Block { .. } => ParseRule::BlockComment,
            Rule::Str { .. } => ParseRule::String,
        }
    }

    /// A rule is well formed when none of its delimiters is empty.
    pub open spec fn well_formed(self) -> bool {
        match self {
            Rule::Line { start } => start.len() > 0,
            Rule::Block { start, end } => start.len() > 0 && end.len() > 0,
            Rule::Str { delimiter } => delimiter.len() > 0,
        }
    }
}

impl<'a> View for SyntaxRule<'a> {
    type V = Rule;

    open spec fn view(&self) -> Rule {
        match self {
            SyntaxRule::LineComment(start) => Rule::Line { start: start.spec_bytes() },
            SyntaxRule::BlockComment(start, end) => Rule::Block {
                start: start.spec_bytes(),
                end: end.spec_bytes(),
            },
            SyntaxRule::String(delimiter) => Rule::Str { delimiter: delimiter.spec_bytes() },
        }
    }
}

/// The model of a rule set: the models of its rules, in order.
pub open spec fn rules_model(rules: Seq<SyntaxRule<'_>>) -> Seq<Rule> {
    Seq::new(rules.len(), |i: int| rules[i]@)
}

/// A rule set is valid when every rule in it is well formed.
pub open spec fn rules_valid(rules: Seq<Rule>) -> bool {
    forall|i: int| 0 <= i < rules.len() ==> (#[trigger] rules[i]).well_formed()
}

/// The greatest length among the start delimiters of a rule set; 0 for the
/// empty rule set.
pub open spec fn max_start_len(rules: Seq<Rule>) -> nat
    decreases rules.len(),
{
    if rules.len() == 0 {
        0
    } else {
        let rest = max_start_len(rules.drop_last());
        let last = rules.last().start().len();
        if last > rest {
            last
        } else {
            rest
        }
    }
}

/// `max_start_len` bounds the length of every start delimiter, and some rule
/// of a non-empty rule set attains it.
pub proof fn lemma_max_start_len(rules: Seq<Rule>)
    ensures
        forall|i: int|
            0 <= i < rules.len() ==> (#[trigger] rules[i]).start().len() <= max_start_len(rules),
        rules.len() > 0 ==> exists|i: int|
            0 <= i < rules.len() && (#[trigger] rules[i]).start().len() == max_start_len(rules),
    decreases rules.len(),
{
    if rules.len() > 0 {
        let init = rules.drop_last();
        lemma_max_start_len(init);
        assert forall|i: int| 0 <= i < rules.len() implies (#[trigger] rules[i]).start().len()
            <= max_start_len(rules) by {
            if i < init.len() {
                assert(init[i] == rules[i]);
            }
        }
        if rules.last().start().len() > max_start_len(init) {
            assert(rules[rules.len() - 1].start().len() == max_start_len(rules));
        } else if init.len() > 0 {
            let i = choose|i: int|
                0 <= i < init.len() && (#[trigger] init[i]).start().len() == max_start_len(init);
            assert(rules[i] == init[i]);
        } else {
            assert(rules[0].start().len() == max_start_len(rules));
        }
    }
}

impl<'a> SyntaxRule<'a> {
    /// The kind of region this rule recognises.
    pub fn parse_rule(&self) -> (kind: ParseRule)
        ensures
            kind == self@.kind(),
    {
        match self {
            SyntaxRule::LineComment(..) => ParseRule::LineComment,
            SyntaxRule::BlockComment(..) => ParseRule::BlockComment,
            SyntaxRule::String(..) => ParseRule::String,
        }
    }

    /// The bytes of the delimiter that opens a region of this rule.
    pub fn start(&self) -> (bytes: &'a [u8])
        ensures
            bytes@ == self@.start(),
    {
        match self {
            SyntaxRule::LineComment(start) => start.as_bytes(),
            SyntaxRule::BlockComment(start, _) => start.as_bytes(),
            SyntaxRule::String(start) => start.as_bytes(),
        }
    }

    /// The bytes of the delimiter that closes a block comment.
    pub fn end(&self) -> (bytes: &'a [u8])
        requires
            self@ is Block,
        ensures
            bytes@ == self@->end,
    {
        match self {
            SyntaxRule::BlockComment(_, end) => end.as_bytes(),
            _ => vstd::pervasive::unreached(),
        }
    }

    /// The width of the matching window: the greatest length among the start
    /// delimiters of `rules`.
    pub fn max_rule_len(rules: &[SyntaxRule<'a>]) -> (width: usize)
        ensures
            width == max_start_len(rules_model(rules@)),
    {
        let ghost model = rules_model(rules@);
        let mut width: usize = 0;
        let mut i: usize = 0;
        while i < rules.len()
            invariant
                i <= rules.len(),
                model == rules_model(rules@),
                width == max_start_len(model.take(i as int)),
            decreases rules.len() - i,
        {
            let len = rules[i].start().len();
            proof {
                assert(model.take(i + 1).drop_last() =~= model.take(i as int));
                assert(model.take(i + 1).last() == rules[i as int]@);
            }
            if len > width {
                width = len;
            }
            i += 1;
        }
        proof {
            assert(model.take(i as int) =~= model);
        }
        width
    }

    /// Returns `true` if the rules are valid: no delimiter of any rule is
    /// empty.
    pub fn check_rules(rules: &[SyntaxRule<'a>]) -> (valid: bool)
        ensures
            valid == rules_valid(rules_model(rules@)),
    {
        let ghost model = rules_model(rules@);
        let mut i: usize = 0;
        while i < rules.len()
            invariant
                i <= rules.len(),
                model == rules_model(rules@),
                forall|j: int| 0 <= j < i ==> (#[trigger] model[j]).well_formed(),
            decreases rules.len() - i,
        {
            let empty = match &rules[i] {
                SyntaxRule::LineComment(start) => start.as_bytes().len() == 0,
                SyntaxRule::String(start) => start.as_bytes().len() == 0,
                SyntaxRule::BlockComment(start, end) => start.as_bytes().len() == 0
                    || end.as_bytes().len() == 0,
            };
            if empty {
                assert(!model[i as int].well_formed());
                return false;
            }
            assert(model[i as int].well_formed());
            i += 1;
        }
        true
    }
}

} // verus!
