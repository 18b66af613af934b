//! Compiler and renderer for a small hypertext-authoring markup language.
//!
//! Documents are written in a keyword-prefixed markup (`p` for paragraphs,
//! `b`/`i`/`c` for inline formatting, `l` for links, `/`/`@` for locations)
//! and parsed by recursive descent into an abstract syntax tree.  Parsed
//! pages assemble into a document tree of named directories addressed by
//! paths, and every page renders to an HTML fragment relative to its own
//! position in that tree, with all text escaped.

pub mod ast;
pub mod blocking;
pub mod error;
pub mod inline;
pub mod location;
pub mod page;
pub mod render;
pub mod site;
pub mod text;
pub mod token;

