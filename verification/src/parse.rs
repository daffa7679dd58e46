//! The scanner: a cursor over a text that hands out one comment at a time.

use vstd::prelude::*;
use vstd::string::StringSliceAdditionalSpecFns;
use vstd::utf8::{encode_utf8_valid_utf8, valid_utf8};

use crate::boundary::{lemma_occurrence_boundaries, lemma_str_valid, substring};
use crate::lines::{
    find_line_range, find_next_line_start, lemma_line_boundaries, lemma_line_span,
};
use crate::scan::{
    first_match, lemma_first_match, lemma_region_spans, lemma_step_advances, next_comment,
    next_cursor, occurs_at, region_at, step, Region,
};
use crate::search::{find, find_string_close, lemma_rule_in_window, matching_rule};
use crate::syntax::{max_start_len, rules_model, rules_valid, ParseRule, Rule, SyntaxRule};

verus! {

/// A comment found in a text.
///
/// An event holds two parts of the text, `raw` and `text`. `text` is the
/// content of the comment. `raw` is wider:
///
/// - the `raw` of a `LineComment` is the whole line the comment stands on,
/// - the `raw` of a `BlockComment` is the comment with its delimiters.
#[derive(PartialEq, Clone, Copy, Debug)]
pub enum Event<'a> {
    /// `LineComment(raw, text)`
    LineComment(&'a str, &'a str),
    /// `BlockComment(raw, text)`
    BlockComment(&'a str, &'a str),
}

impl<'a> Event<'a> {
    /// The raw part of the event.
    pub open spec fn spec_raw(&self) -> &str {
        match self {
            Event::LineComment(raw, _) => *raw,
            Event::BlockComment(raw, _) => *raw,
        }
    }

    /// The text part of the event.
    pub open spec fn spec_text(&self) -> &str {
        match self {
            Event::LineComment(_, text) => *text,
            Event::BlockComment(_, text) => *text,
        }
    }

    /// The kind of comment the event reports.
    pub open spec fn kind(&self) -> ParseRule {
        match self {
            Event::LineComment(..) => ParseRule::LineComment,
            Event::BlockComment(..) => ParseRule::BlockComment,
        }
    }

    /// The event shows `region` of `text` as a comment of kind `kind`: its
    /// parts are the raw span and the text span of the region.
    pub open spec fn shows(&self, text: Seq<u8>, kind: ParseRule, region: Region) -> bool {
        &&& self.kind() == kind
        &&& self.spec_raw().spec_bytes() == text.subrange(region.raw_start, region.raw_end)
        &&& self.spec_text().spec_bytes() == text.subrange(region.text_start, region.text_end)
    }

    /// Returns the raw part of an `Event`.
    #[verifier::when_used_as_spec(spec_raw)]
    pub fn raw(&self) -> (raw: &str)
        ensures
            raw == self.spec_raw(),
    {
        match self {
            Event::LineComment(raw, _) => raw,
            Event::BlockComment(raw, _) => raw,
        }
    }

    /// Returns the text part of an `Event`.
    #[verifier::when_used_as_spec(spec_text)]
    pub fn text(&self) -> (text: &str)
        ensures
            text == self.spec_text(),
    {
        match self {
            Event::LineComment(_, text) => text,
            Event::BlockComment(_, text) => text,
        }
    }
}

/// What one matching cycle recognised, string literals included.
enum RawEvent<'a> {
    LineComment(&'a str, &'a str),
    BlockComment(&'a str, &'a str),
    String(&'a str, &'a str),
}

impl<'a> RawEvent<'a> {
    spec fn kind(&self) -> ParseRule {
        match self {
            RawEvent::LineComment(..) => ParseRule::LineComment,
            RawEvent::BlockComment(..) => ParseRule::BlockComment,
            RawEvent::String(..) => ParseRule::String,
        }
    }

    spec fn raw(&self) -> &str {
        match self {
            RawEvent::LineComment(raw, _) => *raw,
            RawEvent::BlockComment(raw, _) => *raw,
            RawEvent::String(raw, _) => *raw,
        }
    }

    spec fn text(&self) -> &str {
        match self {
            RawEvent::LineComment(_, text) => *text,
            RawEvent::BlockComment(_, text) => *text,
            RawEvent::String(_, text) => *text,
        }
    }

    spec fn shows(&self, text: Seq<u8>, kind: ParseRule, region: Region) -> bool {
        &&& self.kind() == kind
        &&& self.raw().spec_bytes() == text.subrange(region.raw_start, region.raw_end)
        &&& self.text().spec_bytes() == text.subrange(region.text_start, region.text_end)
    }

    /// The event a caller sees: a comment is passed on, a string literal is
    /// dropped.
    fn into_event(self) -> (event: Option<Event<'a>>)
        ensures
            self.kind() == ParseRule::String ==> event is None,
            self.kind() != ParseRule::String ==> {
                &&& event matches Some(comment)
                &&& comment.kind() == self.kind()
                &&& comment.spec_raw() == self.raw()
                &&& comment.spec_text() == self.text()
            },
    {
        match self {
            RawEvent::LineComment(raw, text) => Some(Event::LineComment(raw, text)),
            RawEvent::BlockComment(raw, text) => Some(Event::BlockComment(raw, text)),
            RawEvent::String(..) => None,
        }
    }
}

/// The delimiters of a rule are valid texts.
proof fn lemma_delimiters_valid(rule: &SyntaxRule<'_>)
    ensures
        valid_utf8(rule@.start()),
        rule@ matches Rule::Block { end, .. } ==> valid_utf8(end),
{
    match rule {
        SyntaxRule::LineComment(start) => {
            encode_utf8_valid_utf8(start@);
        },
        SyntaxRule::BlockComment(start, end) => {
            encode_utf8_valid_utf8(start@);
            encode_utf8_valid_utf8(end@);
        },
        SyntaxRule::String(delimiter) => {
            encode_utf8_valid_utf8(delimiter@);
        },
    }
}

/// A rule set could not be used to build a scanner.
#[derive(Clone, Copy, Debug, PartialEq, Eq, Structural)]
pub enum ConfigError {
    /// A delimiter of some rule is empty.
    EmptyDelimiter,
}

/// A scanner over one text with one rule set.
///
/// The scanner holds a cursor, a byte offset into the text, which only moves
/// forward. Each call of [`next`](CommentParser::next) moves it past the next
/// comment and returns that comment. A scanner is never reset: to scan a text
/// again, build a new one.
pub struct CommentParser<'a> {
    text: &'a str,
    index: usize,
    rules: &'a [SyntaxRule<'a>],
    max_rule_len: usize,
}

impl<'a> CommentParser<'a> {
    #[verifier::type_invariant]
    spec fn well_formed(self) -> bool {
        &&& self.index <= self.text.spec_bytes().len()
        &&& rules_valid(rules_model(self.rules@))
        &&& self.max_rule_len == max_start_len(rules_model(self.rules@))
    }

    /// The bytes of the text being scanned.
    pub closed spec fn source(&self) -> Seq<u8> {
        self.text.spec_bytes()
    }

    /// The rule set in use.
    pub closed spec fn rules(&self) -> Seq<Rule> {
        rules_model(self.rules@)
    }

    /// The cursor: the offset from which the next matching cycle starts.
    pub closed spec fn cursor(&self) -> int {
        self.index as int
    }

    /// A scanner at the start of `text`.
    ///
    /// The rule set must be valid: no delimiter of any rule may be empty.
    /// [`try_new`](CommentParser::try_new) tests this.
    pub fn new(text: &'a str, rules: &'a [SyntaxRule<'a>]) -> (parser: Self)
        requires
            rules_valid(rules_model(rules@)),
        ensures
            parser.source() == text.spec_bytes(),
            parser.rules() == rules_model(rules@),
            parser.cursor() == 0,
    {
        Self { text, index: 0, rules, max_rule_len: SyntaxRule::max_rule_len(rules) }
    }

    /// A scanner at the start of `text`, or `EmptyDelimiter` if a delimiter
    /// of some rule is empty.
    pub fn try_new(text: &'a str, rules: &'a [SyntaxRule<'a>]) -> (made: Result<
        Self,
        ConfigError,
    >)
        ensures
            match made {
                Ok(parser) => {
                    &&& rules_valid(rules_model(rules@))
                    &&& parser.source() == text.spec_bytes()
                    &&& parser.rules() == rules_model(rules@)
                    &&& parser.cursor() == 0
                },
                Err(error) => !rules_valid(rules_model(rules@)) && error
                    == ConfigError::EmptyDelimiter,
            },
    {
        if SyntaxRule::check_rules(rules) {
            Ok(Self::new(text, rules))
        } else {
            Err(ConfigError::EmptyDelimiter)
        }
    }

    /// The earliest offset from the cursor on at which a rule matches, with
    /// the position of the first rule that matches there.
    ///
    /// At each offset the rules are tried on a window of `max_rule_len`
    /// bytes, or of what is left of the text.
    fn find_match(&self) -> (found: Option<(usize, usize)>)
        ensures
            match found {
                Some((at, rule)) => first_match(self.source(), self.rules(), self.cursor())
                    == Some((at as int, rule as int)),
                None => first_match(self.source(), self.rules(), self.cursor()) is None,
            },
    {
        proof {
            use_type_invariant(self);
        }
        let bytes = self.text.as_bytes();
        let mut at: usize = self.index;
        while at < bytes.len()
            invariant
                self.index <= at <= bytes.len(),
                bytes@ == self.source(),
                self.max_rule_len == max_start_len(self.rules()),
                first_match(self.source(), self.rules(), self.cursor()) == first_match(
                    self.source(),
                    self.rules(),
                    at as int,
                ),
            decreases bytes.len() - at,
        {
            let end = if self.max_rule_len < bytes.len() - at {
                at + self.max_rule_len
            } else {
                bytes.len()
            };
            let window = &bytes[at..end];
            proof {
                lemma_rule_in_window(self.source(), self.rules(), at as int, end as int, 0);
            }
            match matching_rule(window, self.rules) {
                Some(rule) => {
                    return Some((at, rule));
                },
                None => {},
            }
            at += 1;
        }
        None
    }

    /// One matching cycle: finds the earliest match from the cursor on,
    /// reads the region of the rule that matched, and moves the cursor past
    /// it. Where nothing matches, the cursor moves to the end of the text.
    fn next_event(&mut self) -> (event: Option<RawEvent<'a>>)
        ensures
            final(self).source() == old(self).source(),
            final(self).rules() == old(self).rules(),
            match step(old(self).source(), old(self).rules(), old(self).cursor()) {
                Some(region) => {
                    &&& event matches Some(raw)
                    &&& raw.shows(
                        old(self).source(),
                        old(self).rules()[region.rule].kind(),
                        region,
                    )
                    &&& final(self).cursor() == region.next
                },
                None => event is None && final(self).cursor() == old(self).source().len(),
            },
    {
        proof {
            use_type_invariant(&*self);
            lemma_first_match(self.source(), self.rules(), self.cursor());
        }
        let rules = self.rules;
        match self.find_match() {
            Some((start, number)) => {
                let rule = &rules[number];
                Some(
                    match rule.parse_rule() {
                        ParseRule::LineComment => self.parse_line_comment(
                            start,
                            rule,
                            Ghost(number as int),
                        ),
                        ParseRule::BlockComment => self.parse_block_comment(
                            start,
                            rule,
                            Ghost(number as int),
                        ),
                        ParseRule::String => self.parse_string(start, rule, Ghost(number as int)),
                    },
                )
            },
            None => {
                self.index = self.text.as_bytes().len();
                None
            },
        }
    }

    /// Reads the line comment whose delimiter occurs at `start`, and moves
    /// the cursor to the start of the next line.
    fn parse_line_comment(
        &mut self,
        start: usize,
        rule: &SyntaxRule<'a>,
        Ghost(number): Ghost<int>,
    ) -> (event: RawEvent<'a>)
        requires
            0 <= number < old(self).rules().len(),
            old(self).rules()[number] == rule@,
            rule@ is Line,
            occurs_at(old(self).source(), start as int, rule@.start()),
        ensures
            final(self).source() == old(self).source(),
            final(self).rules() == old(self).rules(),
            event.shows(
                old(self).source(),
                ParseRule::LineComment,
                region_at(old(self).source(), old(self).rules(), start as int, number),
            ),
            final(self).cursor() == region_at(
                old(self).source(),
                old(self).rules(),
                start as int,
                number,
            ).next,
    {
        proof {
            use_type_invariant(&*self);
            lemma_str_valid(self.text);
            lemma_delimiters_valid(rule);
            lemma_occurrence_boundaries(self.source(), start as int, rule@.start());
            lemma_line_boundaries(self.source(), start as int);
            lemma_line_span(self.source(), start as int);
            lemma_region_spans(self.source(), self.rules(), start as int, number);
        }
        let length = self.text.as_bytes().len();
        assert(length == self.source().len());
        let after_start = start + rule.start().len();
        let (line_start, end) = find_line_range(self.text, start);

        self.index = match find_next_line_start(self.text, end) {
            Some(next) => next,
            None => length,
        };

        let text_start = if after_start <= end {
            after_start
        } else {
            end
        };
        let line = substring(self.text, line_start, end);
        let comment = substring(self.text, text_start, end);

        RawEvent::LineComment(line, comment)
    }

    /// Reads the block comment whose opening delimiter occurs at `start`,
    /// and moves the cursor past it. A comment that is never closed runs to
    /// the end of the text.
    fn parse_block_comment(
        &mut self,
        start: usize,
        rule: &SyntaxRule<'a>,
        Ghost(number): Ghost<int>,
    ) -> (event: RawEvent<'a>)
        requires
            0 <= number < old(self).rules().len(),
            old(self).rules()[number] == rule@,
            rule@ is Block,
            occurs_at(old(self).source(), start as int, rule@.start()),
        ensures
            final(self).source() == old(self).source(),
            final(self).rules() == old(self).rules(),
            event.shows(
                old(self).source(),
                ParseRule::BlockComment,
                region_at(old(self).source(), old(self).rules(), start as int, number),
            ),
            final(self).cursor() == region_at(
                old(self).source(),
                old(self).rules(),
                start as int,
                number,
            ).next,
    {
        proof {
            use_type_invariant(&*self);
            lemma_str_valid(self.text);
            lemma_delimiters_valid(rule);
            lemma_occurrence_boundaries(self.source(), start as int, rule@.start());
            lemma_region_spans(self.source(), self.rules(), start as int, number);
        }
        let bytes = self.text.as_bytes();
        assert(bytes.len() == self.source().len());
        let after_start = start + rule.start().len();

        let rule_end = rule.end();

        let (before_end, end) = match find(bytes, rule_end, after_start) {
            Some(i) => {
                proof {
                    lemma_occurrence_boundaries(self.source(), i as int, rule_end@);
                }
                (i, i + rule_end.len())
            },
            None => {
                proof {
                    vstd::utf8::is_char_boundary_start_end_of_seq(self.source());
                }
                (bytes.len(), bytes.len())
            },
        };

        self.index = end;

        let lines = substring(self.text, start, end);
        let comment = substring(self.text, after_start, before_end);

        RawEvent::BlockComment(lines, comment)
    }

    /// Reads the string literal whose opening delimiter occurs at `start`,
    /// and moves the cursor past it. The literal ends with the first
    /// delimiter that no backslash immediately precedes; a literal that is
    /// never closed runs to the end of the text.
    fn parse_string(
        &mut self,
        start: usize,
        rule: &SyntaxRule<'a>,
        Ghost(number): Ghost<int>,
    ) -> (event: RawEvent<'a>)
        requires
            0 <= number < old(self).rules().len(),
            old(self).rules()[number] == rule@,
            rule@ is Str,
            occurs_at(old(self).source(), start as int, rule@.start()),
        ensures
            final(self).source() == old(self).source(),
            final(self).rules() == old(self).rules(),
            event.shows(
                old(self).source(),
                ParseRule::String,
                region_at(old(self).source(), old(self).rules(), start as int, number),
            ),
            final(self).cursor() == region_at(
                old(self).source(),
                old(self).rules(),
                start as int,
                number,
            ).next,
    {
        proof {
            use_type_invariant(&*self);
            lemma_str_valid(self.text);
            lemma_delimiters_valid(rule);
            lemma_occurrence_boundaries(self.source(), start as int, rule@.start());
            lemma_region_spans(self.source(), self.rules(), start as int, number);
        }
        let bytes = self.text.as_bytes();
        assert(bytes.len() == self.source().len());
        let after_start = start + rule.start().len();
        let rule_end = rule.start();

        let (before_end, end) = match find_string_close(bytes, rule_end, after_start) {
            Some(i) => {
                proof {
                    lemma_occurrence_boundaries(self.source(), i as int, rule_end@);
                }
                (i, i + rule_end.len())
            },
            None => {
                proof {
                    vstd::utf8::is_char_boundary_start_end_of_seq(self.source());
                }
                (bytes.len(), bytes.len())
            },
        };

        self.index = end;

        let lines = substring(self.text, start, end);
        let string = substring(self.text, after_start, before_end);

        RawEvent::String(lines, string)
    }

    /// The next comment of the text, or `None` when no comment is left.
    ///
    /// Matching cycles are run from the cursor on until one of them
    /// recognises a comment; string literals are passed over, so that
    /// nothing inside them is taken for a comment. The cursor ends up past
    /// the comment, or at the end of the text if there was none. Once `None`
    /// has come back, every later call gives `None` again.
    pub fn next(&mut self) -> (event: Option<Event<'a>>)
        ensures
            final(self).source() == old(self).source(),
            final(self).rules() == old(self).rules(),
            old(self).cursor() <= final(self).cursor() <= old(self).source().len(),
            old(self).cursor() < old(self).source().len() ==> old(self).cursor()
                < final(self).cursor(),
            final(self).cursor() == next_cursor(
                old(self).source(),
                old(self).rules(),
                old(self).cursor(),
            ),
            match next_comment(old(self).source(), old(self).rules(), old(self).cursor()) {
                Some(region) => {
                    &&& event matches Some(comment)
                    &&& comment.shows(
                        old(self).source(),
                        old(self).rules()[region.rule].kind(),
                        region,
                    )
                },
                None => event is None,
            },
    {
        proof {
            use_type_invariant(&*self);
        }
        if self.index == self.text.as_bytes().len() {
            return None;
        }
        loop
            invariant
                self.source() == old(self).source(),
                self.rules() == old(self).rules(),
                rules_valid(self.rules()),
                old(self).cursor() < old(self).source().len(),
                old(self).cursor() <= self.cursor() <= self.source().len(),
                old(self).cursor() < self.cursor() || self.cursor() < self.source().len(),
                next_comment(old(self).source(), old(self).rules(), old(self).cursor())
                    == next_comment(self.source(), self.rules(), self.cursor()),
            decreases self.source().len() - self.cursor(),
        {
            proof {
                lemma_step_advances(self.source(), self.rules(), self.cursor());
            }
            match self.next_event() {
                Some(raw) => {
                    match raw.into_event() {
                        Some(comment) => {
                            return Some(comment);
                        },
                        None => {},
                    }
                },
                None => {
                    return None;
                },
            }
        }
    }
}

} // verus!
