//! Structured parse errors: the failing position and what was legal there.

use vstd::prelude::*;

verus! {

/// A field name of a page or section record.
#[derive(Debug, Clone, Copy, PartialEq, Eq)]
pub enum FieldName {
    Id,
    Title,
    Body,
    Children,
}

impl FieldName {
    /// The name as written in the markup.
    pub open spec fn spec_name(&self) -> Seq<char> {
        match self {
            FieldName::Id => "id"@,
            FieldName::Title => "title"@,
            FieldName::Body => "body"@,
            FieldName::Children => "children"@,
        }
    }

    /// The name as written in the markup.
    pub fn name(&self) -> (r: &'static str)
        ensures
            r@ == self.spec_name(),
    {
        match self {
            FieldName::Id => "id",
            FieldName::Title => "title",
            FieldName::Body => "body",
            FieldName::Children => "children",
        }
    }
}

/// The legal continuations at a position where none of them stood.
#[derive(Debug, Clone, Copy, PartialEq, Eq)]
pub enum Expected {
    /// A blocking component: `p` or `img`.
    BlockingComp,
    /// An inline term: a string literal, `/`, `@`, `b`, `i`, `c` or `l`.
    InlineTerm,
    /// A location: `/` or `@`.
    Location,
    /// A string literal.
    StringLit,
    /// `:` after a field name.
    Colon,
    /// `[` opening a slot payload.
    OpenBracket,
    /// `]` closing a slot payload or a section record.
    CloseBracket,
    /// `)` closing an inline group.
    CloseParen,
    /// A page record field: `title`, `body` or `children`.
    PageField,
    /// A section record field: `id`, `title`, `body` or `children`.
    SectionField,
}

impl Expected {
    /// What was expected, in words.
    pub open spec fn spec_describe(&self) -> Seq<char> {
        match self {
            Expected::BlockingComp => "expected `p` or `img`"@,
            Expected::InlineTerm => "expected string literal, `/`, `@`, `b`, `i`, `c` or `l`"@,
            Expected::Location => "expected `/` or `@`"@,
            Expected::StringLit => "expected string literal"@,
            Expected::Colon => "expected `:`"@,
            Expected::OpenBracket => "expected `[`"@,
            Expected::CloseBracket => "expected `]`"@,
            Expected::CloseParen => "expected `)`"@,
            Expected::PageField => "expected `title`, `body` or `children`"@,
            Expected::SectionField => "expected `id`, `title`, `body` or `children`"@,
        }
    }

    /// What was expected, in words.
    pub fn describe(&self) -> (r: &'static str)
        ensures
            r@ == self.spec_describe(),
    {
        match self {
            Expected::BlockingComp => "expected `p` or `img`",
            Expected::InlineTerm => "expected string literal, `/`, `@`, `b`, `i`, `c` or `l`",
            Expected::Location => "expected `/` or `@`",
            Expected::StringLit => "expected string literal",
            Expected::Colon => "expected `:`",
            Expected::OpenBracket => "expected `[`",
            Expected::CloseBracket => "expected `]`",
            Expected::CloseParen => "expected `)`",
            Expected::PageField => "expected `title`, `body` or `children`",
            Expected::SectionField => "expected `id`, `title`, `body` or `children`",
        }
    }
}

/// Why a parse failed.
#[derive(Debug, Clone, Copy, PartialEq, Eq)]
pub enum ErrorKind {
    /// None of the legal continuations stood at the position.
    Expected(Expected),
    /// A record declared the field a second time.
    AlreadyDeclared(FieldName),
    /// A record ended without declaring the required field.
    Missing(FieldName),
}

/// A parse failure: the offending token position and what went wrong
/// there.  The first error aborts the whole parse; there is no recovery.
#[derive(Debug, Clone, Copy, PartialEq, Eq)]
pub struct ParseError {
    /// The index of the offending token; the input length when the input
    /// ended too early.
    pub pos: usize,
    /// What went wrong.
    pub kind: ErrorKind,
}

impl ParseError {
    /// The error in words: what was expected, or which field is missing
    /// or doubly declared.
    pub open spec fn spec_message(&self) -> Seq<char> {
        match self.kind {
            ErrorKind::Expected(e) => e.spec_describe(),
            ErrorKind::AlreadyDeclared(f) => f.spec_name() + " already declared"@,
            ErrorKind::Missing(f) => "missing "@ + f.spec_name(),
        }
    }

    /// The error in words.
    pub fn message(&self) -> (r: String)
        ensures
            r@ == self.spec_message(),
    {
        match self.kind {
            ErrorKind::Expected(e) => String::from_str(e.describe()),
            ErrorKind::AlreadyDeclared(f) => {
                let mut out = String::from_str(f.name());
                out.append(" already declared");
                out
            },
            ErrorKind::Missing(f) => {
                let mut out = String::from_str("missing ");
                out.append(f.name());
                out
            },
        }
    }
}

} // verus!
