use comment_parser::languages::syntax_for_language;
use comment_parser::names::{rank, Rank};
use comment_parser::{
    get_syntax, get_syntax_from_extension, get_syntax_from_path, syntaxes, LanguageError,
    SyntaxRule,
};

fn show(rules: &[SyntaxRule]) -> String {
    format!("{:?}", rules)
}

const C: &str = "[LineComment(\"//\"), BlockComment(\"/*\", \"*/\"), String(\"\\\"\")]";
const PYTHON: &str =
    "[LineComment(\"#\"), String(\"\\\"\\\"\\\"\"), String(\"\\\"\"), String(\"'\")]";
const RUST: &str = "[LineComment(\"//!\"), LineComment(\"///\"), LineComment(\"//\"), \
                    BlockComment(\"/*\", \"*/\"), String(\"\\\"\")]";
const SHELL: &str = "[LineComment(\"#\"), String(\"\\\"\"), String(\"'\")]";

#[test]
fn check_order() {
    let table = syntaxes();
    for (a, b) in table.iter().zip(table.iter().skip(1)) {
        assert!(
            a.0 < b.0,
            "Syntaxes out of order - {:?} should come after {:?}",
            a,
            b,
        );
    }
}

#[test]
fn table_holds_fifteen_languages() {
    let names: Vec<&str> = syntaxes().iter().map(|entry| entry.0).collect();
    assert_eq!(
        names,
        vec![
            "c", "cpp", "css", "glsl", "java", "javascript", "json", "jsonc", "python", "rust",
            "scss", "shell", "toml", "typescript", "yaml",
        ]
    );
}

#[test]
fn get_syntax_knows_the_languages() {
    assert!(get_syntax("rust").is_some());
    assert!(get_syntax("c").is_some());
    assert!(get_syntax("cpp").is_some());
    assert!(get_syntax("python").is_some());
}

#[test]
fn get_syntax_gives_the_rules_of_the_entry() {
    assert_eq!(show(&get_syntax("c").unwrap()), C);
    assert_eq!(show(&get_syntax("python").unwrap()), PYTHON);
    assert_eq!(show(&get_syntax("rust").unwrap()), RUST);
    assert_eq!(show(&get_syntax("shell").unwrap()), SHELL);
    for name in ["cpp", "css", "glsl", "java", "javascript", "json", "jsonc", "scss", "toml",
        "typescript", "yaml"]
    {
        assert_eq!(show(&get_syntax(name).unwrap()), C);
    }
}

#[test]
fn get_syntax_agrees_with_the_table() {
    for (name, rules) in syntaxes() {
        assert_eq!(show(&get_syntax(name).unwrap()), show(&rules));
    }
}

#[test]
fn get_syntax_matches_names_exactly() {
    assert!(get_syntax("Rust").is_none());
    assert!(get_syntax("c++").is_none());
    assert!(get_syntax("").is_none());
    assert!(get_syntax("rus").is_none());
    assert!(get_syntax("rustt").is_none());
    assert!(get_syntax("markdown").is_none());
}

#[test]
fn rank_orders_names_byte_by_byte() {
    assert_eq!(rank("rust", "rust"), Rank::Same);
    assert_eq!(rank("", ""), Rank::Same);
    assert_eq!(rank("", "a"), Rank::Before);
    assert_eq!(rank("a", ""), Rank::After);
    assert_eq!(rank("c", "cpp"), Rank::Before);
    assert_eq!(rank("cpp", "c"), Rank::After);
    assert_eq!(rank("cpp", "css"), Rank::Before);
    assert_eq!(rank("json", "javascript"), Rank::After);
    assert_eq!(rank("Rust", "rust"), Rank::Before);
    assert_eq!(rank("z", "é"), Rank::Before);
}

#[test]
fn rank_agrees_with_the_order_of_strings() {
    let names: Vec<&str> = syntaxes().iter().map(|entry| entry.0).collect();
    for a in &names {
        for b in &names {
            let expected = if a < b {
                Rank::Before
            } else if a == b {
                Rank::Same
            } else {
                Rank::After
            };
            assert_eq!(rank(a, b), expected);
        }
    }
}

#[test]
fn get_syntax_finds_every_name_and_nothing_between() {
    for (name, _) in syntaxes() {
        assert!(get_syntax(name).is_some());
        assert!(get_syntax(&format!("{}0", name)).is_none());
        assert!(get_syntax(&name[..name.len() - 1]).is_none() || name == "jsonc");
    }
    assert!(get_syntax("a").is_none());
    assert!(get_syntax("zzz").is_none());
}

#[test]
fn from_path_by_extension() {
    assert!(get_syntax_from_path("foo.rs").is_ok());

    assert!(get_syntax_from_path("foo.c").is_ok());
    assert!(get_syntax_from_path("foo.h").is_ok());

    assert!(get_syntax_from_path("foo.cpp").is_ok());
    assert!(get_syntax_from_path("foo.hpp").is_ok());

    assert!(get_syntax_from_path("foo.py").is_ok());
}

#[test]
fn from_extension() {
    assert!(get_syntax_from_extension("rs").is_ok());

    assert!(get_syntax_from_extension("c").is_ok());
    assert!(get_syntax_from_extension("h").is_ok());

    assert!(get_syntax_from_extension("cpp").is_ok());
    assert!(get_syntax_from_extension("hpp").is_ok());

    assert!(get_syntax_from_extension("py").is_ok());
}

#[test]
fn from_extension_gives_the_rules_of_the_language() {
    assert_eq!(show(&get_syntax_from_extension("rs").unwrap()), RUST);
    assert_eq!(show(&get_syntax_from_extension("py").unwrap()), PYTHON);
    assert_eq!(show(&get_syntax_from_extension("sh").unwrap()), SHELL);
    assert_eq!(show(&get_syntax_from_extension("hpp").unwrap()), C);
    assert_eq!(show(&get_syntax_from_extension("yml").unwrap()), C);
    assert_eq!(show(&get_syntax_from_path("src/main.rs").unwrap()), RUST);
    assert_eq!(show(&get_syntax_from_path("a.b/tool.py").unwrap()), PYTHON);
}

#[test]
fn casing_of_the_extension_does_not_matter() {
    assert_eq!(show(&get_syntax_from_extension("jSoN").unwrap()), C);
    assert_eq!(show(&get_syntax_from_extension("RS").unwrap()), RUST);
    assert_eq!(show(&get_syntax_from_path("foo.Py").unwrap()), PYTHON);
}

#[test]
fn unknown_language() {
    assert!(matches!(
        get_syntax_from_extension("unknown"),
        Err(LanguageError::UnknownLanguage)
    ));
    assert!(matches!(get_syntax_from_extension(""), Err(LanguageError::UnknownLanguage)));
    assert!(matches!(
        get_syntax_from_path("foo.unknown"),
        Err(LanguageError::UnknownLanguage)
    ));
    assert!(matches!(get_syntax_from_path("foo"), Err(LanguageError::UnknownLanguage)));
    assert!(matches!(get_syntax_from_path(""), Err(LanguageError::UnknownLanguage)));
}

#[test]
fn unsupported_language() {
    assert!(matches!(
        get_syntax_from_extension("md"),
        Err(LanguageError::UnsupportedLanguage)
    ));
    assert!(matches!(
        get_syntax_from_extension("hlsl"),
        Err(LanguageError::UnsupportedLanguage)
    ));
    assert!(matches!(
        get_syntax_from_path("README.md"),
        Err(LanguageError::UnsupportedLanguage)
    ));
}

#[test]
fn syntax_for_language_tells_the_two_failures_apart() {
    assert!(matches!(syntax_for_language(None), Err(LanguageError::UnknownLanguage)));
    assert!(matches!(
        syntax_for_language(Some("markdown")),
        Err(LanguageError::UnsupportedLanguage)
    ));
    assert!(matches!(
        syntax_for_language(Some("rs")),
        Err(LanguageError::UnsupportedLanguage)
    ));
    assert_eq!(show(&syntax_for_language(Some("rust")).unwrap()), RUST);
}
