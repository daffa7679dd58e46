use comment_parser::{get_syntax, CommentParser, ConfigError, Event, SyntaxRule};

fn collect<'a>(text: &'a str, rules: &'a [SyntaxRule<'a>]) -> Vec<Event<'a>> {
    let mut parser = CommentParser::new(text, rules);
    let mut events = Vec::new();
    while let Some(event) = parser.next() {
        events.push(event);
    }
    events
}

#[test]
fn event_accessors() {
    let line = Event::LineComment("  // Foo Bar", " Foo Bar");
    assert_eq!(line.text(), " Foo Bar");
    assert_eq!(line.raw(), "  // Foo Bar");

    let block = Event::BlockComment("/* Foo\n  Bar */", " Foo\n  Bar ");
    assert_eq!(block.text(), " Foo\n  Bar ");
    assert_eq!(block.raw(), "/* Foo\n  Bar */");
}

#[test]
fn rust_line_and_block() {
    let line = Event::LineComment("  // Foo Bar", " Foo Bar");
    let block = Event::BlockComment("/* Foo\n  Bar */", " Foo\n  Bar ");
    let code = "  \n  // Foo Bar\r\n foo /* Foo\n  Bar */ foo\n";
    let rules = get_syntax("rust").unwrap();
    let mut parser = CommentParser::new(code, &rules);
    assert_eq!(parser.next(), Some(line));
    assert_eq!(parser.next(), Some(block));
    assert_eq!(parser.next(), None);
}

#[test]
fn rust_program() {
    let rust = r#"
/* This is
the main
function */
fn main() {
    // println! is a macro
    println!("Hello World"); // Prints "Hello World"
}
"#;
    let rules = get_syntax("rust").unwrap();
    let events = collect(rust, &rules);
    assert_eq!(events.len(), 3);
    assert_eq!(
        events[0],
        Event::BlockComment("/* This is\nthe main\nfunction */", " This is\nthe main\nfunction ")
    );
    assert_eq!(
        events[1],
        Event::LineComment("    // println! is a macro", " println! is a macro")
    );
    assert_eq!(
        events[2],
        Event::LineComment(
            "    println!(\"Hello World\"); // Prints \"Hello World\"",
            " Prints \"Hello World\""
        )
    );
}

#[test]
fn python_program() {
    let python = r#"
# In Python main is not a function
if __name__ == "__main__":
    # print is a function
    print("Hello World")  # Prints "Hello World"
"#;
    let rules = get_syntax("python").unwrap();
    let events = collect(python, &rules);
    let texts: Vec<&str> = events.iter().map(|event| event.text()).collect();
    assert_eq!(
        texts,
        vec![
            " In Python main is not a function",
            " print is a function",
            " Prints \"Hello World\"",
        ]
    );
    assert!(events.iter().all(|event| matches!(event, Event::LineComment(..))));
}

#[test]
fn precedence_by_declaration_order() {
    let rules = [SyntaxRule::LineComment("//!"), SyntaxRule::LineComment("//")];
    let events = collect("//! x", &rules);
    assert_eq!(events, vec![Event::LineComment("//! x", " x")]);
}

#[test]
fn general_rule_first_takes_the_match() {
    let rules = [SyntaxRule::LineComment("//"), SyntaxRule::LineComment("//!")];
    let events = collect("//! x", &rules);
    assert_eq!(events, vec![Event::LineComment("//! x", "! x")]);
}

#[test]
fn string_suppresses_comment_start() {
    let rules = [SyntaxRule::LineComment("//!"), SyntaxRule::String("\"")];
    let events = collect("\"foo //! bar\"", &rules);
    assert_eq!(events, vec![]);
}

#[test]
fn without_string_rule_the_comment_is_taken() {
    let rules = [SyntaxRule::LineComment("//!")];
    let events = collect("\"foo //! bar\"", &rules);
    assert_eq!(events, vec![Event::LineComment("\"foo //! bar\"", " bar\"")]);
}

#[test]
fn escaped_delimiter_inside_string() {
    let rules = [SyntaxRule::String("\""), SyntaxRule::LineComment("//")];
    let events = collect("\"a\\\"b\" // trailing", &rules);
    assert_eq!(events, vec![Event::LineComment("\"a\\\"b\" // trailing", " trailing")]);
}

#[test]
fn backslash_before_backslash_is_not_unescaped() {
    // The second backslash still escapes the quote after it: the string does
    // not end there, and runs on to the end of the text.
    let rules = [SyntaxRule::String("\""), SyntaxRule::LineComment("//")];
    let events = collect("\"a\\\\\" // x", &rules);
    assert_eq!(events, vec![]);
    let events = collect("\"a\\\\\" // c", &rules);
    assert_eq!(events, vec![]);
    // Three backslashes: the third escapes the quote just the same.
    let events = collect("\"a\\\\\\\" // x", &rules);
    assert_eq!(events, vec![]);
}

#[test]
fn string_after_doubled_backslash_ends_at_the_next_free_quote() {
    let rules = [SyntaxRule::String("\""), SyntaxRule::LineComment("//")];
    // "a\\" b" // c : the quote after the backslashes is suppressed, the
    // one after `b` closes the string.
    let events = collect("\"a\\\\\" b\" // c", &rules);
    assert_eq!(events, vec![Event::LineComment("\"a\\\\\" b\" // c", " c")]);
}

#[test]
fn backslash_outside_a_string_escapes_nothing() {
    // A backslash before the opening quote does not keep the string from
    // opening; only closing delimiters are suppressed.
    let rules = [SyntaxRule::String("\""), SyntaxRule::LineComment("//")];
    let events = collect("\\\"a // b\" // c", &rules);
    assert_eq!(events, vec![Event::LineComment("\\\"a // b\" // c", " c")]);
}

#[test]
fn backslash_escapes_a_long_delimiter() {
    let rules = [SyntaxRule::String("'''"), SyntaxRule::LineComment("#")];
    let events = collect("'''a\\''' # in''' # out", &rules);
    assert_eq!(events, vec![Event::LineComment("'''a\\''' # in''' # out", " out")]);
}

#[test]
fn unterminated_block_comment() {
    let rules = [SyntaxRule::BlockComment("/*", "*/")];
    let text = "/* never closed";
    let mut parser = CommentParser::new(text, &rules);
    assert_eq!(
        parser.next(),
        Some(Event::BlockComment("/* never closed", " never closed"))
    );
    assert_eq!(parser.next(), None);
    assert_eq!(parser.next(), None);
}

#[test]
fn unterminated_string_runs_to_the_end() {
    let rules = [SyntaxRule::String("\""), SyntaxRule::LineComment("//")];
    let events = collect("\"abc // not a comment\nnext // neither", &rules);
    assert_eq!(events, vec![]);
}

#[test]
fn unterminated_block_keeps_earlier_comments() {
    let rules = get_syntax("c").unwrap();
    let events = collect("// first\n/* open", &rules);
    assert_eq!(
        events,
        vec![
            Event::LineComment("// first", " first"),
            Event::BlockComment("/* open", " open"),
        ]
    );
}

#[test]
fn line_comment_spans_full_physical_line() {
    let rules = [SyntaxRule::LineComment("//")];
    let events = collect("foo(); // bar", &rules);
    assert_eq!(events.len(), 1);
    assert_eq!(events[0].raw(), "foo(); // bar");
    assert_eq!(events[0].text(), " bar");
    assert!(matches!(events[0], Event::LineComment(..)));
}

#[test]
fn line_comment_content_is_never_rescanned() {
    let rules = [SyntaxRule::LineComment("#"), SyntaxRule::String("\"")];
    let events = collect("# comment \"with quote\"", &rules);
    assert_eq!(
        events,
        vec![Event::LineComment("# comment \"with quote\"", " comment \"with quote\"")]
    );
}

#[test]
fn quote_inside_line_comment_does_not_open_a_string() {
    let rules = [SyntaxRule::LineComment("#"), SyntaxRule::String("\"")];
    let events = collect("# it's \"open\n# second", &rules);
    assert_eq!(
        events,
        vec![
            Event::LineComment("# it's \"open", " it's \"open"),
            Event::LineComment("# second", " second"),
        ]
    );
}

#[test]
fn line_endings() {
    let rules = [SyntaxRule::LineComment("//")];
    let events = collect("a // one\r\nb // two\nc // three\r", &rules);
    assert_eq!(
        events,
        vec![
            Event::LineComment("a // one", " one"),
            Event::LineComment("b // two", " two"),
            Event::LineComment("c // three", " three"),
        ]
    );
}

#[test]
fn carriage_return_alone_does_not_end_a_line() {
    let rules = [SyntaxRule::LineComment("//")];
    let events = collect("a // one\rb // two\n", &rules);
    assert_eq!(events, vec![Event::LineComment("a // one\rb // two", " one\rb // two")]);
}

#[test]
fn block_comment_spans_lines_and_leaves_the_rest() {
    let rules = get_syntax("c").unwrap();
    let events = collect("int a; /* one\ntwo */ int b; // tail\n", &rules);
    assert_eq!(
        events,
        vec![
            Event::BlockComment("/* one\ntwo */", " one\ntwo "),
            Event::LineComment("two */ int b; // tail", " tail"),
        ]
    );
}

#[test]
fn empty_block_comment() {
    let rules = [SyntaxRule::BlockComment("/*", "*/")];
    let events = collect("/**/x/*/", &rules);
    assert_eq!(
        events,
        vec![Event::BlockComment("/**/", ""), Event::BlockComment("/*/", "/")]
    );
}

#[test]
fn match_at_the_very_end_of_the_text() {
    // The start delimiter is shorter than the widest one and ends the text.
    let rules = get_syntax("rust").unwrap();
    let events = collect("x //", &rules);
    assert_eq!(events, vec![Event::LineComment("x //", "")]);
    let rules = get_syntax("python").unwrap();
    let events = collect("x = 1 #a", &rules);
    assert_eq!(events, vec![Event::LineComment("x = 1 #a", "a")]);
}

#[test]
fn empty_text_and_empty_rule_set() {
    let rules = get_syntax("rust").unwrap();
    assert_eq!(collect("", &rules), vec![]);
    let none: [SyntaxRule; 0] = [];
    assert_eq!(collect("// nothing is a comment", &none), vec![]);
}

#[test]
fn end_of_input_is_final() {
    let rules = get_syntax("c").unwrap();
    let mut parser = CommentParser::new("a // b\nc", &rules);
    assert_eq!(parser.next(), Some(Event::LineComment("a // b", " b")));
    for _ in 0..5 {
        assert_eq!(parser.next(), None);
    }
}

#[test]
fn text_of_many_bytes_per_character() {
    let rules = get_syntax("c").unwrap();
    let events = collect("let s = \"é // ü\"; // grüße ß\n/* 日本語 */", &rules);
    assert_eq!(
        events,
        vec![
            Event::LineComment("let s = \"é // ü\"; // grüße ß", " grüße ß"),
            Event::BlockComment("/* 日本語 */", " 日本語 "),
        ]
    );
}

#[test]
fn delimiters_of_many_bytes_per_character() {
    let rules = [
        SyntaxRule::LineComment("※"),
        SyntaxRule::BlockComment("«", "»"),
        SyntaxRule::String("„"),
    ];
    let events = collect("a «b» c ※ d\n„※ «x»„ «é", &rules);
    assert_eq!(
        events,
        vec![
            Event::BlockComment("«b»", "b"),
            Event::LineComment("a «b» c ※ d", " d"),
            Event::BlockComment("«é", "é"),
        ]
    );
}

#[test]
fn raw_spans_are_ordered_and_apart() {
    let text = "/* a */\nx(); // b\ny(); /* c */ z();\n// d";
    let rules = get_syntax("c").unwrap();
    let events = collect(text, &rules);
    let base = text.as_ptr() as usize;
    let spans: Vec<(usize, usize)> = events
        .iter()
        .map(|event| {
            let start = event.raw().as_ptr() as usize - base;
            (start, start + event.raw().len())
        })
        .collect();
    assert_eq!(spans, vec![(0, 7), (8, 17), (23, 30), (36, 40)]);
    for pair in spans.windows(2) {
        assert!(pair[0].1 <= pair[1].0);
    }
}

#[test]
fn line_comment_after_block_comment_shares_its_line() {
    // The raw span of the line comment is its whole line, and so holds the
    // block comment that stands before it on that line.
    let rules = get_syntax("c").unwrap();
    let events = collect("/* a */ // b", &rules);
    assert_eq!(
        events,
        vec![
            Event::BlockComment("/* a */", " a "),
            Event::LineComment("/* a */ // b", " b"),
        ]
    );
}

#[test]
fn text_lies_within_raw_between_the_delimiters() {
    let text = "code(); /* block */ more(); // line\n";
    let rules = get_syntax("c").unwrap();
    let events = collect(text, &rules);
    assert_eq!(events.len(), 2);
    for event in &events {
        let raw = event.raw();
        let inner = event.text();
        let offset = inner.as_ptr() as usize - raw.as_ptr() as usize;
        assert!(offset + inner.len() <= raw.len());
        assert_eq!(&raw[offset..offset + inner.len()], inner);
        match event {
            Event::BlockComment(..) => {
                assert_eq!(&raw[..offset], "/*");
                assert_eq!(&raw[offset + inner.len()..], "*/");
            }
            Event::LineComment(..) => {
                assert_eq!(&raw[offset - 2..offset], "//");
                assert_eq!(offset + inner.len(), raw.len());
            }
        }
    }
}

#[test]
fn every_call_moves_on() {
    let text = "a /* b */ \"c\" // d\n'e' # f\n";
    let rules = [
        SyntaxRule::LineComment("//"),
        SyntaxRule::LineComment("#"),
        SyntaxRule::BlockComment("/*", "*/"),
        SyntaxRule::String("\""),
        SyntaxRule::String("'"),
    ];
    let mut parser = CommentParser::new(text, &rules);
    let base = text.as_ptr() as usize;
    let mut last_end = 0;
    let mut count = 0;
    while let Some(event) = parser.next() {
        let end = event.text().as_ptr() as usize - base + event.text().len();
        assert!(end > last_end);
        last_end = end;
        count += 1;
        assert!(count <= text.len());
    }
    assert_eq!(count, 3);
}

#[test]
fn line_delimiter_that_runs_past_its_line() {
    // The delimiter holds the line feed that ends the line: the text of the
    // comment is empty.
    let rules = [SyntaxRule::LineComment("#\n")];
    let events = collect("a #\nb", &rules);
    assert_eq!(events, vec![Event::LineComment("a #", "")]);
    let rules = [SyntaxRule::LineComment("\n")];
    let events = collect("a\r\nb", &rules);
    assert_eq!(events, vec![Event::LineComment("a", "")]);
}

#[test]
fn try_new_rejects_empty_delimiters() {
    let good = [SyntaxRule::LineComment("//"), SyntaxRule::BlockComment("/*", "*/")];
    assert!(CommentParser::try_new("x", &good).is_ok());
    let none: [SyntaxRule; 0] = [];
    assert!(CommentParser::try_new("x", &none).is_ok());
    let bad = [SyntaxRule::LineComment("//"), SyntaxRule::LineComment("")];
    assert!(matches!(
        CommentParser::try_new("x", &bad),
        Err(ConfigError::EmptyDelimiter)
    ));
    let bad = [SyntaxRule::BlockComment("/*", "")];
    assert!(matches!(
        CommentParser::try_new("x", &bad),
        Err(ConfigError::EmptyDelimiter)
    ));
    let bad = [SyntaxRule::BlockComment("", "*/")];
    assert!(CommentParser::try_new("x", &bad).is_err());
    let bad = [SyntaxRule::String("")];
    assert!(CommentParser::try_new("x", &bad).is_err());
}

#[test]
fn try_new_scans_like_new() {
    let rules = get_syntax("shell").unwrap();
    let mut parser = CommentParser::try_new("echo 'a # b' # c", &rules).unwrap();
    assert_eq!(parser.next(), Some(Event::LineComment("echo 'a # b' # c", " c")));
    assert_eq!(parser.next(), None);
}

#[test]
fn cursor_moves_past_the_line_feed() {
    // After a line comment the scan resumes after the line feed, not at it:
    // the block comment rule below opens with a line feed and must not match
    // the one that ends the line of the comment.
    let rules = [SyntaxRule::LineComment("//"), SyntaxRule::BlockComment("\n", "!")];
    let events = collect("a // b\nc!", &rules);
    assert_eq!(events, vec![Event::LineComment("a // b", " b")]);
    let events = collect("a // b\r\n\nc!", &rules);
    assert_eq!(
        events,
        vec![Event::LineComment("a // b", " b"), Event::BlockComment("\nc!", "c")]
    );
}
