//! A pull parser that extracts line and block comments from source text,
//! driven by a small set of lexical rules.
//!
//! A [`CommentParser`] walks a text once. It looks for the earliest place
//! where the start delimiter of a rule occurs, reads the line comment, block
//! comment or string literal that begins there, and moves its cursor past
//! it. Comments are handed to the caller; string literals are passed over,
//! so that what looks like a comment inside a string is not taken for one.
//!
//! The module [`scan`] states what a scan finds, over byte sequences; the
//! scanner in [`parse`] is proved against it. [`languages`] holds the rule
//! sets of some well-known languages.

pub mod boundary;
pub mod languages;
pub mod lines;
pub mod names;
pub mod order;
pub mod parse;
pub mod scan;
pub mod search;
pub mod syntax;

pub use languages::{
    get_syntax, get_syntax_from_extension, get_syntax_from_path, syntaxes, LanguageError,
};
pub use parse::{CommentParser, ConfigError, Event};
pub use syntax::SyntaxRule;
