//! Location literals: `/ "path"` for internal paths, `@ "url"` for URLs.
//!
//! The grammar admits exactly these two forms; an anchor-only form is not
//! part of this revision of the grammar.

use vstd::prelude::*;

use crate::error::{ErrorKind, Expected, ParseError};
use crate::token::{Cursor, Punct, TokenV};

verus! {

/// An internal location as written: `/` followed by a path literal.
#[derive(Debug, PartialEq, Eq)]
pub struct InternalLoc {
    /// The path literal, segments separated by `/`.
    pub literal: String,
}

/// A URL location as written: `@` followed by the URL text.
#[derive(Debug, PartialEq, Eq)]
pub struct Url {
    /// The URL text.
    pub literal: String,
}

/// A location as written: internal path or external URL.
#[derive(Debug, PartialEq, Eq)]
pub enum Location {
    Internal(InternalLoc),
    Url(Url),
}

/// The mathematical content of a parsed location.
pub enum LocV {
    Internal(Seq<char>),
    Url(Seq<char>),
}

impl View for InternalLoc {
    type V = Seq<char>;

    open spec fn view(&self) -> Seq<char> {
        self.literal@
    }
}

impl View for Url {
    type V = Seq<char>;

    open spec fn view(&self) -> Seq<char> {
        self.literal@
    }
}

impl View for Location {
    type V = LocV;

    open spec fn view(&self) -> LocV {
        match self {
            Location::Internal(l) => LocV::Internal(l@),
            Location::Url(u) => LocV::Url(u@),
        }
    }
}

/// A location can start here: the next token is `/` or `@`.
pub open spec fn spec_peek_location(toks: Seq<TokenV>, pos: int) -> bool {
    pos < toks.len() && (toks[pos] == TokenV::Slash || toks[pos] == TokenV::At)
}

/// The grammar of an internal location: `/`, then a path literal.
pub open spec fn spec_parse_internal_loc(toks: Seq<TokenV>, pos: int) -> Result<
    (Seq<char>, int),
    ParseError,
> {
    if pos < toks.len() && toks[pos] == TokenV::Slash {
        if pos + 1 < toks.len() && toks[pos + 1] matches TokenV::Str(_) {
            match toks[pos + 1] {
                TokenV::Str(s) => Ok((s, pos + 2)),
                _ => Err(
                    ParseError {
                        pos: (pos + 1) as usize,
                        kind: ErrorKind::Expected(Expected::StringLit),
                    },
                ),
            }
        } else {
            Err(
                ParseError {
                    pos: (pos + 1) as usize,
                    kind: ErrorKind::Expected(Expected::StringLit),
                },
            )
        }
    } else {
        Err(ParseError { pos: pos as usize, kind: ErrorKind::Expected(Expected::Location) })
    }
}

/// The grammar of a URL location: `@`, then the URL text.
pub open spec fn spec_parse_url(toks: Seq<TokenV>, pos: int) -> Result<
    (Seq<char>, int),
    ParseError,
> {
    if pos < toks.len() && toks[pos] == TokenV::At {
        if pos + 1 < toks.len() && toks[pos + 1] matches TokenV::Str(_) {
            match toks[pos + 1] {
                TokenV::Str(s) => Ok((s, pos + 2)),
                _ => Err(
                    ParseError {
                        pos: (pos + 1) as usize,
                        kind: ErrorKind::Expected(Expected::StringLit),
                    },
                ),
            }
        } else {
            Err(
                ParseError {
                    pos: (pos + 1) as usize,
                    kind: ErrorKind::Expected(Expected::StringLit),
                },
            )
        }
    } else {
        Err(ParseError { pos: pos as usize, kind: ErrorKind::Expected(Expected::Location) })
    }
}

/// The grammar of a location: the internal form at `/`, the URL form at
/// `@`, an error anywhere else.
pub open spec fn spec_parse_location(toks: Seq<TokenV>, pos: int) -> Result<
    (LocV, int),
    ParseError,
> {
    if pos < toks.len() && toks[pos] == TokenV::Slash {
        match spec_parse_internal_loc(toks, pos) {
            Ok((s, p)) => Ok((LocV::Internal(s), p)),
            Err(e) => Err(e),
        }
    } else if pos < toks.len() && toks[pos] == TokenV::At {
        match spec_parse_url(toks, pos) {
            Ok((s, p)) => Ok((LocV::Url(s), p)),
            Err(e) => Err(e),
        }
    } else {
        Err(ParseError { pos: pos as usize, kind: ErrorKind::Expected(Expected::Location) })
    }
}

impl InternalLoc {
    /// An internal location starts here.
    pub fn peek(c: &Cursor) -> (r: bool)
        requires
            c.wf(),
        ensures
            r == (c.at() < c.toks().len() && c.toks()[c.at()] == TokenV::Slash),
    {
        c.peek_punct(Punct::Slash)
    }

    /// Parses an internal location.
    pub fn parse(c: &mut Cursor) -> (r: Result<InternalLoc, ParseError>)
        requires
            old(c).wf(),
        ensures
            final(c).wf(),
            final(c).toks() == old(c).toks(),
            match r {
                Ok(l) => spec_parse_internal_loc(old(c).toks(), old(c).at()) == Ok::<
                    (Seq<char>, int),
                    ParseError,
                >((l@, final(c).at())),
                Err(e) => spec_parse_internal_loc(old(c).toks(), old(c).at()) == Err::<
                    (Seq<char>, int),
                    ParseError,
                >(e),
            },
    {
        if !c.peek_punct(Punct::Slash) {
            return Err(
                ParseError { pos: c.position(), kind: ErrorKind::Expected(Expected::Location) },
            );
        }
        c.advance();
        match c.next_str() {
            Some(lit) => Ok(InternalLoc { literal: lit }),
            None => Err(
                ParseError { pos: c.position(), kind: ErrorKind::Expected(Expected::StringLit) },
            ),
        }
    }
}

impl Url {
    /// A URL location starts here.
    pub fn peek(c: &Cursor) -> (r: bool)
        requires
            c.wf(),
        ensures
            r == (c.at() < c.toks().len() && c.toks()[c.at()] == TokenV::At),
    {
        c.peek_punct(Punct::At)
    }

    /// Parses a URL location.
    pub fn parse(c: &mut Cursor) -> (r: Result<Url, ParseError>)
        requires
            old(c).wf(),
        ensures
            final(c).wf(),
            final(c).toks() == old(c).toks(),
            match r {
                Ok(u) => spec_parse_url(old(c).toks(), old(c).at()) == Ok::<
                    (Seq<char>, int),
                    ParseError,
                >((u@, final(c).at())),
                Err(e) => spec_parse_url(old(c).toks(), old(c).at()) == Err::<
                    (Seq<char>, int),
                    ParseError,
                >(e),
            },
    {
        if !c.peek_punct(Punct::At) {
            return Err(
                ParseError { pos: c.position(), kind: ErrorKind::Expected(Expected::Location) },
            );
        }
        c.advance();
        match c.next_str() {
            Some(lit) => Ok(Url { literal: lit }),
            None => Err(
                ParseError { pos: c.position(), kind: ErrorKind::Expected(Expected::StringLit) },
            ),
        }
    }
}

impl Location {
    /// A location starts here.
    pub fn peek(c: &Cursor) -> (r: bool)
        requires
            c.wf(),
        ensures
            r == spec_peek_location(c.toks(), c.at()),
    {
        InternalLoc::peek(c) || Url::peek(c)
    }

    /// Parses a location, advancing the cursor exactly as the grammar
    /// says.
    pub fn parse(c: &mut Cursor) -> (r: Result<Location, ParseError>)
        requires
            old(c).wf(),
        ensures
            final(c).wf(),
            final(c).toks() == old(c).toks(),
            match r {
                Ok(loc) => spec_parse_location(old(c).toks(), old(c).at()) == Ok::<
                    (LocV, int),
                    ParseError,
                >((loc@, final(c).at())),
                Err(e) => spec_parse_location(old(c).toks(), old(c).at()) == Err::<
                    (LocV, int),
                    ParseError,
                >(e),
            },
    {
        if InternalLoc::peek(c) {
            match InternalLoc::parse(c) {
                Ok(l) => Ok(Location::Internal(l)),
                Err(e) => Err(e),
            }
        } else if Url::peek(c) {
            match Url::parse(c) {
                Ok(u) => Ok(Location::Url(u)),
                Err(e) => Err(e),
            }
        } else {
            Err(ParseError { pos: c.position(), kind: ErrorKind::Expected(Expected::Location) })
        }
    }
}

} // verus!
