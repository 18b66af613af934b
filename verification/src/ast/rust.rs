//! Host-expression slots: `$[ ... ]` splices a value supplied by the
//! embedding program at tree-assembly time.  The parser only records that
//! a slot exists, capturing the bracketed tokens as an opaque, unevaluated
//! payload for later resolution.

use vstd::prelude::*;

use crate::ast::location::{spec_parse_location, LocV, Location};
use crate::error::{ErrorKind, Expected, ParseError};
use crate::token::{toks_of, Cursor, Punct, Token, TokenV};

verus! {

/// A captured host-expression slot: the raw tokens between `$[` and the
/// matching `]`.
#[derive(Debug, PartialEq, Eq)]
pub struct InlineRust {
    /// The unevaluated payload.
    pub content: Vec<Token>,
}

impl View for InlineRust {
    type V = Seq<TokenV>;

    open spec fn view(&self) -> Seq<TokenV> {
        toks_of(self.content@)
    }
}

/// A value written literally, or a slot to be resolved by the embedding
/// program.
#[derive(Debug, PartialEq, Eq)]
pub enum Inlinable<T> {
    /// The value as written in the markup.
    Plain(T),
    /// A host-expression slot standing for the value.
    Inlined(InlineRust),
}

/// The mathematical content of a literal-or-slot value.
pub enum InlinableV<V> {
    Plain(V),
    Inlined(Seq<TokenV>),
}

impl<T: View> View for Inlinable<T> {
    type V = InlinableV<T::V>;

    open spec fn view(&self) -> InlinableV<T::V> {
        match self {
            Inlinable::Plain(v) => InlinableV::Plain(v@),
            Inlinable::Inlined(ir) => InlinableV::Inlined(ir@),
        }
    }
}

/// Captures tokens up to the bracket that closes the slot: `depth` open
/// brackets are still unmatched, `acc` has been captured so far.
pub open spec fn spec_capture(toks: Seq<TokenV>, pos: int, depth: int, acc: Seq<TokenV>) -> Result<
    (Seq<TokenV>, int),
    ParseError,
>
    decreases toks.len() - pos,
{
    if pos >= toks.len() {
        Err(ParseError { pos: pos as usize, kind: ErrorKind::Expected(Expected::CloseBracket) })
    } else if toks[pos] == TokenV::CloseBracket {
        if depth == 0 {
            Ok((acc, pos + 1))
        } else {
            spec_capture(toks, pos + 1, depth - 1, acc.push(toks[pos]))
        }
    } else if toks[pos] == TokenV::OpenBracket {
        spec_capture(toks, pos + 1, depth + 1, acc.push(toks[pos]))
    } else {
        spec_capture(toks, pos + 1, depth, acc.push(toks[pos]))
    }
}

/// A captured payload ends after the position it started at.
pub proof fn lemma_capture_advances(toks: Seq<TokenV>, pos: int, depth: int, acc: Seq<TokenV>)
    ensures
        spec_capture(toks, pos, depth, acc) matches Ok(r) ==> pos < r.1 <= toks.len(),
    decreases toks.len() - pos,
{
    if pos >= toks.len() {
    } else if toks[pos] == TokenV::CloseBracket {
        if depth != 0 {
            lemma_capture_advances(toks, pos + 1, depth - 1, acc.push(toks[pos]));
        }
    } else if toks[pos] == TokenV::OpenBracket {
        lemma_capture_advances(toks, pos + 1, depth + 1, acc.push(toks[pos]));
    } else {
        lemma_capture_advances(toks, pos + 1, depth, acc.push(toks[pos]));
    }
}

/// The grammar of a slot at `$`: `$`, `[`, a balanced payload, `]`.
pub open spec fn spec_parse_slot(toks: Seq<TokenV>, pos: int) -> Result<
    (Seq<TokenV>, int),
    ParseError,
> {
    if pos + 1 < toks.len() && toks[pos + 1] == TokenV::OpenBracket {
        spec_capture(toks, pos + 2, 0, Seq::empty())
    } else {
        Err(ParseError { pos: (pos + 1) as usize, kind: ErrorKind::Expected(Expected::OpenBracket) })
    }
}

/// Parses the slot payload after `$` has been peeked: consumes the `$`,
/// the opening bracket and everything up to the matching closing bracket.
pub fn parse_slot(c: &mut Cursor) -> (r: Result<InlineRust, ParseError>)
    requires
        old(c).wf(),
        old(c).at() < old(c).toks().len(),
        old(c).toks()[old(c).at()] == TokenV::Dollar,
    ensures
        final(c).wf(),
        final(c).toks() == old(c).toks(),
        match r {
            Ok(ir) => spec_parse_slot(old(c).toks(), old(c).at()) == Ok::<
                (Seq<TokenV>, int),
                ParseError,
            >((ir@, final(c).at())),
            Err(e) => spec_parse_slot(old(c).toks(), old(c).at()) == Err::<
                (Seq<TokenV>, int),
                ParseError,
            >(e),
        },
{
    c.advance();
    if !c.peek_punct(Punct::OpenBracket) {
        return Err(
            ParseError { pos: c.position(), kind: ErrorKind::Expected(Expected::OpenBracket) },
        );
    }
    c.advance();
    let mut acc: Vec<Token> = Vec::new();
    let mut depth: usize = 0;
    let ghost toks = c.toks();
    let ghost start = c.at();
    proof {
        assert(toks_of(acc@) =~= Seq::<TokenV>::empty());
    }
    loop
        invariant
            c.wf(),
            c.toks() == toks,
            toks == old(c).toks(),
            start <= c.at(),
            depth < c.at(),
            spec_parse_slot(old(c).toks(), old(c).at()) == spec_capture(
                toks,
                c.at(),
                depth as int,
                toks_of(acc@),
            ),
        decreases toks.len() - c.at(),
    {
        let ghost acc0 = toks_of(acc@);
        match c.next_token() {
            None => {
                return Err(
                    ParseError {
                        pos: c.position(),
                        kind: ErrorKind::Expected(Expected::CloseBracket),
                    },
                );
            },
            Some(t) => {
                match &t {
                    Token::CloseBracket => {
                        if depth == 0 {
                            return Ok(InlineRust { content: acc });
                        }
                        depth = depth - 1;
                        acc.push(t);
                        proof {
                            assert(toks_of(acc@) =~= acc0.push(toks[c.at() - 1]));
                        }
                    },
                    Token::OpenBracket => {
                        depth = depth + 1;
                        acc.push(t);
                        proof {
                            assert(toks_of(acc@) =~= acc0.push(toks[c.at() - 1]));
                        }
                    },
                    _ => {
                        acc.push(t);
                        proof {
                            assert(toks_of(acc@) =~= acc0.push(toks[c.at() - 1]));
                        }
                    },
                }
            },
        }
    }
}

/// The grammar of a location-or-slot value: a slot at `$`, a plain
/// location otherwise.
pub open spec fn spec_parse_loc_or_slot(toks: Seq<TokenV>, pos: int) -> Result<
    (InlinableV<LocV>, int),
    ParseError,
> {
    if pos < toks.len() && toks[pos] == TokenV::Dollar {
        match spec_parse_slot(toks, pos) {
            Ok((payload, p)) => Ok((InlinableV::Inlined(payload), p)),
            Err(e) => Err(e),
        }
    } else {
        match spec_parse_location(toks, pos) {
            Ok((l, p)) => Ok((InlinableV::Plain(l), p)),
            Err(e) => Err(e),
        }
    }
}

/// The grammar of a text-or-slot value: a slot at `$`, a string literal
/// otherwise.
pub open spec fn spec_parse_text_or_slot(toks: Seq<TokenV>, pos: int) -> Result<
    (InlinableV<Seq<char>>, int),
    ParseError,
> {
    if pos < toks.len() && toks[pos] == TokenV::Dollar {
        match spec_parse_slot(toks, pos) {
            Ok((payload, p)) => Ok((InlinableV::Inlined(payload), p)),
            Err(e) => Err(e),
        }
    } else if pos < toks.len() && toks[pos] matches TokenV::Str(_) {
        match toks[pos] {
            TokenV::Str(s) => Ok((InlinableV::Plain(s), pos + 1)),
            _ => Err(ParseError { pos: pos as usize, kind: ErrorKind::Expected(Expected::StringLit) }),
        }
    } else {
        Err(ParseError { pos: pos as usize, kind: ErrorKind::Expected(Expected::StringLit) })
    }
}

/// Parses a location written literally or supplied through a slot.
pub fn parse_loc_or_slot(c: &mut Cursor) -> (r: Result<Inlinable<Location>, ParseError>)
    requires
        old(c).wf(),
    ensures
        final(c).wf(),
        final(c).toks() == old(c).toks(),
        match r {
            Ok(v) => spec_parse_loc_or_slot(old(c).toks(), old(c).at()) == Ok::<
                (InlinableV<LocV>, int),
                ParseError,
            >((v@, final(c).at())),
            Err(e) => spec_parse_loc_or_slot(old(c).toks(), old(c).at()) == Err::<
                (InlinableV<LocV>, int),
                ParseError,
            >(e),
        },
{
    if c.peek_punct(Punct::Dollar) {
        match parse_slot(c) {
            Ok(ir) => Ok(Inlinable::Inlined(ir)),
            Err(e) => Err(e),
        }
    } else {
        match Location::parse(c) {
            Ok(loc) => Ok(Inlinable::Plain(loc)),
            Err(e) => Err(e),
        }
    }
}

/// Parses text written literally or supplied through a slot.
pub fn parse_text_or_slot(c: &mut Cursor) -> (r: Result<Inlinable<String>, ParseError>)
    requires
        old(c).wf(),
    ensures
        final(c).wf(),
        final(c).toks() == old(c).toks(),
        match r {
            Ok(v) => spec_parse_text_or_slot(old(c).toks(), old(c).at()) == Ok::<
                (InlinableV<Seq<char>>, int),
                ParseError,
            >((v@, final(c).at())),
            Err(e) => spec_parse_text_or_slot(old(c).toks(), old(c).at()) == Err::<
                (InlinableV<Seq<char>>, int),
                ParseError,
            >(e),
        },
{
    if c.peek_punct(Punct::Dollar) {
        match parse_slot(c) {
            Ok(ir) => Ok(Inlinable::Inlined(ir)),
            Err(e) => Err(e),
        }
    } else {
        match c.next_str() {
            Some(s) => Ok(Inlinable::Plain(s)),
            None => Err(
                ParseError { pos: c.position(), kind: ErrorKind::Expected(Expected::StringLit) },
            ),
        }
    }
}

/// A location-or-slot value ends after the position it started at.
pub proof fn lemma_loc_or_slot_advances(toks: Seq<TokenV>, pos: int)
    ensures
        spec_parse_loc_or_slot(toks, pos) matches Ok(r) ==> pos < r.1 <= toks.len(),
{
    if pos < toks.len() && toks[pos] == TokenV::Dollar {
        lemma_capture_advances(toks, pos + 2, 0, Seq::empty());
    }
}

/// A text-or-slot value ends after the position it started at.
pub proof fn lemma_text_or_slot_advances(toks: Seq<TokenV>, pos: int)
    ensures
        spec_parse_text_or_slot(toks, pos) matches Ok(r) ==> pos < r.1 <= toks.len(),
{
    if pos < toks.len() && toks[pos] == TokenV::Dollar {
        lemma_capture_advances(toks, pos + 2, 0, Seq::empty());
    }
}

} // verus!
