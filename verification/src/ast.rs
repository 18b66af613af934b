//! The abstract syntax tree the parser builds, and the recursive-descent
//! grammar itself.
//!
//! Every alternative at a choice point is tried by a non-consuming peek;
//! the first alternative that peeks true is parsed for real.  Keyword-led
//! forms peek an identifier equal to a fixed keyword, punctuation-led
//! forms peek their leading mark, so the grammar is determinate.  Each
//! `parse` function is verified against a specification parser written as
//! spec functions over the token sequence: the executable parser returns
//! exactly the tree and the final position the specification gives, and
//! exactly its error otherwise.

pub mod blocking;
pub mod inline;
pub mod page;
pub mod location;
pub mod rust;
