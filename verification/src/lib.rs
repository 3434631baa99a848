//! A parser for Gherkin feature documents.
//!
//! A document is read line by line: an optional run of tags, the feature line,
//! an optional description, an optional background and one or more scenarios.
//! Tags are stored with their `@` marker, each once, in the order in which
//! they first stand. Whitespace is every character that Unicode counts as
//! white space but the line feed; lines are separated by the line feed alone.

pub mod dedent;
pub mod dedent_facts;
pub mod grammar;
pub mod grammar_facts;
pub mod model;
pub mod parser;
pub mod text;
