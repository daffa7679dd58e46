//! The registry of predefined rule sets, keyed by language name, and the
//! lookup of a rule set by file extension or path.

use vstd::prelude::*;
use vstd::string::StringSliceAdditionalSpecFns;

use crate::names::{
    lemma_names_in_order, lemma_precedes_irreflexive, lemma_precedes_transitive, precedes, rank,
    rank_of, Rank,
};
use crate::syntax::SyntaxRule;

verus! {

/// The rule set of C and of the languages that share its comments and
/// strings.
pub open spec fn c_syntax() -> Seq<SyntaxRule<'static>> {
    seq![
        SyntaxRule::LineComment("//"),
        SyntaxRule::BlockComment("/*", "*/"),
        SyntaxRule::String("\""),
    ]
}

/// The rule set of Python.
pub open spec fn python_syntax() -> Seq<SyntaxRule<'static>> {
    seq![
        SyntaxRule::LineComment("#"),
        SyntaxRule::String("\"\"\""),
        SyntaxRule::String("\""),
        SyntaxRule::String("'"),
    ]
}

/// The rule set of Rust.
pub open spec fn rust_syntax() -> Seq<SyntaxRule<'static>> {
    seq![
        SyntaxRule::LineComment("//!"),
        SyntaxRule::LineComment("///"),
        SyntaxRule::LineComment("//"),
        SyntaxRule::BlockComment("/*", "*/"),
        SyntaxRule::String("\""),
    ]
}

/// The rule set of shell scripts.
pub open spec fn shell_syntax() -> Seq<SyntaxRule<'static>> {
    seq![SyntaxRule::LineComment("#"), SyntaxRule::String("\""), SyntaxRule::String("'")]
}

/// The registry: each supported language name with its rule set, sorted by
/// name.
pub open spec fn registry() -> Seq<(&'static str, Seq<SyntaxRule<'static>>)> {
    seq![
        ("c", c_syntax()),
        ("cpp", c_syntax()),
        ("css", c_syntax()),
        ("glsl", c_syntax()),
        ("java", c_syntax()),
        ("javascript", c_syntax()),
        ("json", c_syntax()),
        ("jsonc", c_syntax()),
        ("python", python_syntax()),
        ("rust", rust_syntax()),
        ("scss", c_syntax()),
        ("shell", shell_syntax()),
        ("toml", c_syntax()),
        ("typescript", c_syntax()),
        ("yaml", c_syntax()),
    ]
}

/// The rule set of the first entry of `table`, from position `from` on,
/// whose name is `name`.
pub open spec fn lookup(
    table: Seq<(&'static str, Seq<SyntaxRule<'static>>)>,
    name: Seq<char>,
    from: int,
) -> Option<Seq<SyntaxRule<'static>>>
    decreases table.len() - from,
{
    if from < 0 || from >= table.len() {
        None
    } else if table[from].0@ == name {
        Some(table[from].1)
    } else {
        lookup(table, name, from + 1)
    }
}

/// The rule set registered under `name`, if there is one. Names are matched
/// exactly: they are lower case, and `cpp` stands for C++.
pub open spec fn syntax_of(name: Seq<char>) -> Option<Seq<SyntaxRule<'static>>> {
    lookup(registry(), name, 0)
}

/// The names of `table` stand in strictly ascending order.
pub open spec fn sorted_by_name(table: Seq<(&'static str, Seq<SyntaxRule<'static>>)>) -> bool {
    forall|i: int, j: int|
        #![trigger table[i], table[j]]
        0 <= i < j < table.len() ==> precedes(table[i].0.spec_bytes(), table[j].0.spec_bytes())
}

/// A table in which every name comes before the next one is sorted.
proof fn lemma_sorted_by_neighbours(
    table: Seq<(&'static str, Seq<SyntaxRule<'static>>)>,
    i: int,
    j: int,
)
    requires
        forall|k: int|
            #![trigger table[k]]
            0 <= k < table.len() - 1 ==> precedes(
                table[k].0.spec_bytes(),
                table[k + 1].0.spec_bytes(),
            ),
        0 <= i < j < table.len(),
    ensures
        precedes(table[i].0.spec_bytes(), table[j].0.spec_bytes()),
    decreases j - i,
{
    if i + 1 < j {
        lemma_sorted_by_neighbours(table, i, j - 1);
        assert(precedes(table[j - 1].0.spec_bytes(), table[j - 1 + 1].0.spec_bytes()));
        lemma_precedes_transitive(
            table[i].0.spec_bytes(),
            table[j - 1].0.spec_bytes(),
            table[j].0.spec_bytes(),
            0,
        );
    }
}

/// The registry is sorted by name, so no name stands in it twice.
pub proof fn lemma_registry_sorted()
    ensures
        sorted_by_name(registry()),
{
    let table = registry();
    assert forall|k: int| #![trigger table[k]] 0 <= k < table.len() - 1 implies precedes(
        table[k].0.spec_bytes(),
        table[k + 1].0.spec_bytes(),
    ) by {
        if k == 0 {
            reveal_strlit("c");
            reveal_strlit("cpp");
            lemma_names_in_order("c", "cpp", 1);
        } else if k == 1 {
            reveal_strlit("cpp");
            reveal_strlit("css");
            lemma_names_in_order("cpp", "css", 1);
        } else if k == 2 {
            reveal_strlit("css");
            reveal_strlit("glsl");
            lemma_names_in_order("css", "glsl", 0);
        } else if k == 3 {
            reveal_strlit("glsl");
            reveal_strlit("java");
            lemma_names_in_order("glsl", "java", 0);
        } else if k == 4 {
            reveal_strlit("java");
            reveal_strlit("javascript");
            lemma_names_in_order("java", "javascript", 4);
        } else if k == 5 {
            reveal_strlit("javascript");
            reveal_strlit("json");
            lemma_names_in_order("javascript", "json", 1);
        } else if k == 6 {
            reveal_strlit("json");
            reveal_strlit("jsonc");
            lemma_names_in_order("json", "jsonc", 4);
        } else if k == 7 {
            reveal_strlit("jsonc");
            reveal_strlit("python");
            lemma_names_in_order("jsonc", "python", 0);
        } else if k == 8 {
            reveal_strlit("python");
            reveal_strlit("rust");
            lemma_names_in_order("python", "rust", 0);
        } else if k == 9 {
            reveal_strlit("rust");
            reveal_strlit("scss");
            lemma_names_in_order("rust", "scss", 0);
        } else if k == 10 {
            reveal_strlit("scss");
            reveal_strlit("shell");
            lemma_names_in_order("scss", "shell", 1);
        } else if k == 11 {
            reveal_strlit("shell");
            reveal_strlit("toml");
            lemma_names_in_order("shell", "toml", 0);
        } else if k == 12 {
            reveal_strlit("toml");
            reveal_strlit("typescript");
            lemma_names_in_order("toml", "typescript", 1);
        } else {
            reveal_strlit("typescript");
            reveal_strlit("yaml");
            lemma_names_in_order("typescript", "yaml", 0);
        }
    }
    assert forall|i: int, j: int|
        #![trigger table[i], table[j]]
        0 <= i < j < table.len() implies precedes(
        table[i].0.spec_bytes(),
        table[j].0.spec_bytes(),
    ) by {
        lemma_sorted_by_neighbours(table, i, j);
    }
}

/// A name that no entry from `from` on bears is not found.
proof fn lemma_lookup_absent(
    table: Seq<(&'static str, Seq<SyntaxRule<'static>>)>,
    name: Seq<char>,
    from: int,
)
    requires
        0 <= from,
        forall|i: int| from <= i < table.len() ==> (#[trigger] table[i]).0@ != name,
    ensures
        lookup(table, name, from) is None,
    decreases table.len() - from,
{
    if from < table.len() {
        lemma_lookup_absent(table, name, from + 1);
    }
}

/// A name that the entry at `at` bears, and no entry before it, is found
/// there.
proof fn lemma_lookup_present(
    table: Seq<(&'static str, Seq<SyntaxRule<'static>>)>,
    name: Seq<char>,
    from: int,
    at: int,
)
    requires
        0 <= from <= at < table.len(),
        table[at].0@ == name,
        forall|i: int| from <= i < at ==> (#[trigger] table[i]).0@ != name,
    ensures
        lookup(table, name, from) == Some(table[at].1),
    decreases at - from,
{
    if from < at {
        lemma_lookup_present(table, name, from + 1, at);
    }
}

/// The outcome of a lookup by detected language: no language detected is
/// `UnknownLanguage`, a detected language without a registered rule set is
/// `UnsupportedLanguage`.
pub open spec fn syntax_for(language: Option<Seq<char>>) -> Result<
    Seq<SyntaxRule<'static>>,
    LanguageError,
> {
    match language {
        None => Err(LanguageError::UnknownLanguage),
        Some(name) => match syntax_of(name) {
            Some(rules) => Ok(rules),
            None => Err(LanguageError::UnsupportedLanguage),
        },
    }
}

/// `found` is the executable form of the outcome `expected`.
pub open spec fn same_outcome(
    found: Result<Vec<SyntaxRule<'static>>, LanguageError>,
    expected: Result<Seq<SyntaxRule<'static>>, LanguageError>,
) -> bool {
    match expected {
        Ok(rules) => found matches Ok(list) && list@ == rules,
        Err(error) => found matches Err(e) && e == error,
    }
}

/// Why a lookup by path or extension found no rule set.
#[derive(Debug, Clone, Copy, PartialEq, Eq, Structural)]
pub enum LanguageError {
    /// The language could not be identified.
    UnknownLanguage,
    /// The language was identified, but no rule set is registered for it.
    UnsupportedLanguage,
}

fn c() -> (rules: Vec<SyntaxRule<'static>>)
    ensures
        rules@ == c_syntax(),
{
    vec![
        SyntaxRule::LineComment("//"),
        SyntaxRule::BlockComment("/*", "*/"),
        SyntaxRule::String("\""),
    ]
}

fn python() -> (rules: Vec<SyntaxRule<'static>>)
    ensures
        rules@ == python_syntax(),
{
    vec![
        SyntaxRule::LineComment("#"),
        SyntaxRule::String("\"\"\""),
        SyntaxRule::String("\""),
        SyntaxRule::String("'"),
    ]
}

fn rust() -> (rules: Vec<SyntaxRule<'static>>)
    ensures
        rules@ == rust_syntax(),
{
    vec![
        SyntaxRule::LineComment("//!"),
        SyntaxRule::LineComment("///"),
        SyntaxRule::LineComment("//"),
        SyntaxRule::BlockComment("/*", "*/"),
        SyntaxRule::String("\""),
    ]
}

fn shell() -> (rules: Vec<SyntaxRule<'static>>)
    ensures
        rules@ == shell_syntax(),
{
    vec![SyntaxRule::LineComment("#"), SyntaxRule::String("\""), SyntaxRule::String("'")]
}

/// The registry as a table: each supported language name with its rule set,
/// sorted by name.
pub fn syntaxes() -> (table: Vec<(&'static str, Vec<SyntaxRule<'static>>)>)
    ensures
        table@.len() == registry().len(),
        forall|i: int|
            0 <= i < table@.len() ==> (#[trigger] table@[i]).0 == registry()[i].0 && table@[i].1@
                == registry()[i].1,
{
    vec![
        ("c", c()),
        ("cpp", c()),
        ("css", c()),
        ("glsl", c()),
        ("java", c()),
        ("javascript", c()),
        ("json", c()),
        ("jsonc", c()),
        ("python", python()),
        ("rust", rust()),
        ("scss", c()),
        ("shell", shell()),
        ("toml", c()),
        ("typescript", c()),
        ("yaml", c()),
    ]
}

/// Given a language name, gets the rule set registered for it, or `None`
/// if the language is not supported.
///
/// The name must be written in lower case and without special symbols:
/// `"cpp"`, not `"c++"`. The registry is sorted by name, and is searched by
/// halving.
pub fn get_syntax(name: &str) -> (rules: Option<Vec<SyntaxRule<'static>>>)
    ensures
        match syntax_of(name@) {
            Some(registered) => rules matches Some(list) && list@ == registered,
            None => rules is None,
        },
{
    let mut table = syntaxes();
    let ghost names = registry();
    let ghost wanted = name.spec_bytes();
    proof {
        lemma_registry_sorted();
    }
    let mut low: usize = 0;
    let mut high: usize = table.len();
    while low < high
        invariant
            low <= high <= table@.len() == names.len(),
            names == registry(),
            wanted == name.spec_bytes(),
            sorted_by_name(names),
            forall|k: int|
                0 <= k < table@.len() ==> (#[trigger] table@[k]).0 == names[k].0 && table@[k].1@
                    == names[k].1,
            forall|i: int|
                0 <= i < low ==> precedes((#[trigger] names[i]).0.spec_bytes(), wanted),
            forall|i: int|
                high <= i < names.len() ==> rank_of((#[trigger] names[i]).0.spec_bytes(), wanted)
                    == Rank::After,
        decreases high - low,
    {
        let mid = low + (high - low) / 2;
        let ghost middle = names[mid as int].0.spec_bytes();
        match rank(table[mid].0, name) {
            Rank::Before => {
                proof {
                    assert forall|i: int| 0 <= i < mid + 1 implies precedes(
                        (#[trigger] names[i]).0.spec_bytes(),
                        wanted,
                    ) by {
                        if i < mid {
                            assert(precedes(names[i].0.spec_bytes(), middle));
                            lemma_precedes_transitive(names[i].0.spec_bytes(), middle, wanted, 0);
                        }
                    }
                }
                low = mid + 1;
            },
            Rank::After => {
                proof {
                    assert forall|i: int| mid <= i < names.len() implies rank_of(
                        (#[trigger] names[i]).0.spec_bytes(),
                        wanted,
                    ) == Rank::After by {
                        if i > mid {
                            let other = names[i].0.spec_bytes();
                            assert(precedes(middle, other));
                            if precedes(other, wanted) {
                                lemma_precedes_transitive(middle, other, wanted, 0);
                            }
                        }
                    }
                }
                high = mid;
            },
            Rank::Same => {
                proof {
                    assert forall|i: int| 0 <= i < mid implies (#[trigger] names[i]).0@
                        != name@ by {
                        assert(precedes(names[i].0.spec_bytes(), middle));
                        lemma_precedes_irreflexive(middle, 0);
                    }
                    lemma_lookup_present(names, name@, 0, mid as int);
                }
                let entry = table.remove(mid);
                return Some(entry.1);
            },
        }
    }
    proof {
        assert forall|i: int| 0 <= i < names.len() implies (#[trigger] names[i]).0@ != name@ by {
            lemma_precedes_irreflexive(wanted, 0);
        }
        lemma_lookup_absent(names, name@, 0);
    }
    None
}

/// The language that a file extension stands for, as `detect_lang` knows
/// it: the identifier of the language, or `None` for an extension it does
/// not know.
pub uninterp spec fn detected_language(extension: Seq<char>) -> Option<Seq<char>>;

/// Calls `detect_lang::from_extension` and takes the identifier of the
/// language it returns.
///
/// The outside function lowers the case of the extension and looks it up in
/// a fixed table, so its result depends on the extension alone.
/// `detected_language` is the name of that result; nothing more is claimed.
#[verifier::external_body]
fn detect_from_extension(extension: &str) -> (language: Option<&'static str>)
    ensures
        match language {
            Some(id) => detected_language(extension@) == Some(id@),
            None => detected_language(extension@) is None,
        },
{
    detect_lang::from_extension(extension).map(|language| language.1)
}

/// `part` stands somewhere in `whole`, as one piece.
pub open spec fn part_of(part: Seq<char>, whole: Seq<char>) -> bool {
    exists|at: int|
        0 <= at && at + part.len() <= whole.len() && #[trigger] whole.subrange(
            at,
            at + part.len(),
        ) == part
}

/// Calls `detect_lang::from_path` and takes the identifier of the language
/// it returns.
///
/// The outside function takes the extension of the path as the platform
/// reads paths, and then looks it up as `detect_lang::from_extension` does.
/// The claim: a language that comes back is the one that some part of the
/// path stands for as an extension. Which part the extension is depends on
/// the platform, and is not claimed.
#[verifier::external_body]
fn detect_from_path(path: &str) -> (language: Option<&'static str>)
    ensures
        language matches Some(id) ==> exists|extension: Seq<char>|
            part_of(extension, path@) && #[trigger] detected_language(extension) == Some(id@),
{
    detect_lang::from_path(path).map(|language| language.1)
}

/// The rule set for a detected language.
///
/// `language` is what language detection gave: `None` yields
/// `UnknownLanguage`; a language without a registered rule set yields
/// `UnsupportedLanguage`.
pub fn syntax_for_language(language: Option<&str>) -> (found: Result<
    Vec<SyntaxRule<'static>>,
    LanguageError,
>)
    ensures
        same_outcome(
            found,
            syntax_for(
                match language {
                    Some(name) => Some(name@),
                    None => None,
                },
            ),
        ),
{
    match language {
        Some(name) => match get_syntax(name) {
            Some(rules) => Ok(rules),
            None => Err(LanguageError::UnsupportedLanguage),
        },
        None => Err(LanguageError::UnknownLanguage),
    }
}

/// Given a path, gets the rule set of the language that its extension
/// stands for. The casing of the extension does not matter. The path is not
/// opened, and need not exist.
///
/// How a path is split into name and extension is up to the platform, so
/// the contract says what holds whatever was detected: unless the outcome is
/// `UnknownLanguage`, it is the outcome for the language that some part of
/// the path stands for as an extension.
pub fn get_syntax_from_path(path: &str) -> (found: Result<Vec<SyntaxRule<'static>>, LanguageError>)
    ensures
        found matches Err(LanguageError::UnknownLanguage) || exists|extension: Seq<char>|
            {
                &&& part_of(extension, path@)
                &&& (#[trigger] detected_language(extension)) is Some
                &&& same_outcome(found, syntax_for(detected_language(extension)))
            },
{
    let language = detect_from_path(path);
    let found = syntax_for_language(language);
    proof {
        match language {
            Some(id) => {
                let extension = choose|extension: Seq<char>|
                    part_of(extension, path@) && #[trigger] detected_language(extension)
                        == Some(id@);
                assert(same_outcome(found, syntax_for(detected_language(extension))));
            },
            None => {},
        }
    }
    found
}

/// Given a file extension, gets the rule set of the language that it stands
/// for. The casing of the extension does not matter.
pub fn get_syntax_from_extension(extension: &str) -> (found: Result<
    Vec<SyntaxRule<'static>>,
    LanguageError,
>)
    ensures
        same_outcome(found, syntax_for(detected_language(extension@))),
{
    syntax_for_language(detect_from_extension(extension))
}

} // verus!
