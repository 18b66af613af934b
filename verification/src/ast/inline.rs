//! Inline components as written: ordered sequences of terms, with
//! transparent parenthesized grouping.

use vstd::prelude::*;

use crate::ast::location::{spec_parse_location, spec_peek_location, LocV, Location};
use crate::ast::rust::{
    lemma_loc_or_slot_advances, parse_loc_or_slot, spec_parse_loc_or_slot, Inlinable, InlinableV,
};
use crate::error::{ErrorKind, Expected, ParseError};
use crate::token::{Cursor, Punct, TokenV};

verus! {

/// An inline component as written: an ordered sequence of terms.
/// Parenthesized groups are transparent: their terms are spliced into the
/// parent sequence at parse time, never retained as a node.
#[derive(Debug, PartialEq, Eq)]
pub struct Component {
    pub terms: Vec<ComponentTerm>,
}

/// One inline term as written.
#[derive(Debug, PartialEq, Eq)]
pub enum ComponentTerm {
    Text(Text),
    Location(Location),
    Bold(Bold),
    Italic(Italic),
    Preformatted(Preformatted),
    Link(Link),
}

/// A literal piece of text.
#[derive(Debug, PartialEq, Eq)]
pub struct Text {
    pub literal: String,
}

/// `b` followed by the inline component it wraps.
#[derive(Debug, PartialEq, Eq)]
pub struct Bold {
    pub target: Component,
}

/// `i` followed by the inline component it wraps.
#[derive(Debug, PartialEq, Eq)]
pub struct Italic {
    pub target: Component,
}

/// `c` followed by the inline component it wraps.
#[derive(Debug, PartialEq, Eq)]
pub struct Preformatted {
    pub target: Component,
}

/// `l` followed by the link text and its location (or a slot for it).
#[derive(Debug, PartialEq, Eq)]
pub struct Link {
    pub target: Component,
    pub location: Inlinable<Location>,
}

/// The mathematical content of one term.
pub enum TermV {
    Text(Seq<char>),
    Location(LocV),
    Bold(Seq<TermV>),
    Italic(Seq<TermV>),
    Preformatted(Seq<TermV>),
    Link { target: Seq<TermV>, location: InlinableV<LocV> },
}

/// The mathematical content of one term.
pub open spec fn term_view(t: ComponentTerm) -> TermV
    decreases t,
{
    match t {
        ComponentTerm::Text(x) => TermV::Text(x.literal@),
        ComponentTerm::Location(l) => TermV::Location(l@),
        ComponentTerm::Bold(b) => TermV::Bold(terms_view(b.target.terms@)),
        ComponentTerm::Italic(b) => TermV::Italic(terms_view(b.target.terms@)),
        ComponentTerm::Preformatted(b) => TermV::Preformatted(terms_view(b.target.terms@)),
        ComponentTerm::Link(l) => TermV::Link {
            target: terms_view(l.target.terms@),
            location: l.location@,
        },
    }
}

/// The mathematical content of a term sequence.
pub open spec fn terms_view(ts: Seq<ComponentTerm>) -> Seq<TermV>
    decreases ts,
{
    if ts.len() == 0 {
        Seq::empty()
    } else {
        seq![term_view(ts[0])] + terms_view(ts.skip(1))
    }
}

/// Viewing distributes over appending one term at the end.
proof fn lemma_terms_view_push(ts: Seq<ComponentTerm>, t: ComponentTerm)
    ensures
        terms_view(ts.push(t)) == terms_view(ts).push(term_view(t)),
    decreases ts.len(),
{
    if ts.len() == 0 {
        assert(ts.push(t)[0] == t);
        assert(ts.push(t).skip(1) =~= Seq::<ComponentTerm>::empty());
        assert(terms_view(Seq::<ComponentTerm>::empty()) =~= Seq::<TermV>::empty());
        assert(terms_view(ts.push(t)) == seq![term_view(t)] + terms_view(
            Seq::<ComponentTerm>::empty(),
        ));
        assert(terms_view(ts.push(t)) =~= terms_view(ts).push(term_view(t)));
    } else {
        assert(ts.push(t)[0] == ts[0]);
        assert(ts.push(t).skip(1) =~= ts.skip(1).push(t));
        lemma_terms_view_push(ts.skip(1), t);
        assert(terms_view(ts.push(t)) =~= terms_view(ts).push(term_view(t)));
    }
}

impl View for Component {
    type V = Seq<TermV>;

    open spec fn view(&self) -> Seq<TermV> {
        terms_view(self.terms@)
    }
}

impl View for ComponentTerm {
    type V = TermV;

    open spec fn view(&self) -> TermV {
        term_view(*self)
    }
}

/// An identifier equal to `kw` stands at `pos`.
pub open spec fn spec_peek_kw(toks: Seq<TokenV>, pos: int, kw: Seq<char>) -> bool {
    pos < toks.len() && toks[pos] == TokenV::Ident(kw)
}

/// An inline term can start here: a string literal, a location mark, or
/// one of the formatting keywords.
pub open spec fn spec_peek_term(toks: Seq<TokenV>, pos: int) -> bool {
    ||| (pos < toks.len() && toks[pos] matches TokenV::Str(_))
    ||| spec_peek_location(toks, pos)
    ||| spec_peek_kw(toks, pos, "b"@)
    ||| spec_peek_kw(toks, pos, "i"@)
    ||| spec_peek_kw(toks, pos, "c"@)
    ||| spec_peek_kw(toks, pos, "l"@)
}

/// An inline component continues here: another term, or a parenthesized
/// group.
pub open spec fn spec_peek_inline(toks: Seq<TokenV>, pos: int) -> bool {
    spec_peek_term(toks, pos) || (pos < toks.len() && toks[pos] == TokenV::OpenParen)
}

/// The grammar is determinate: no two alternatives at a choice point peek
/// true at the same position.  Keyword-led forms use distinct keywords,
/// punctuation-led forms distinct marks, and the two kinds never overlap.
pub proof fn lemma_choice_points_determinate(toks: Seq<TokenV>, pos: int)
    ensures
        !((pos < toks.len() && toks[pos] matches TokenV::Str(_)) && spec_peek_location(toks, pos)),
        !(spec_peek_location(toks, pos) && spec_peek_kw(toks, pos, "b"@)),
        !(spec_peek_kw(toks, pos, "b"@) && spec_peek_kw(toks, pos, "i"@)),
        !(spec_peek_kw(toks, pos, "b"@) && spec_peek_kw(toks, pos, "c"@)),
        !(spec_peek_kw(toks, pos, "b"@) && spec_peek_kw(toks, pos, "l"@)),
        !(spec_peek_kw(toks, pos, "i"@) && spec_peek_kw(toks, pos, "c"@)),
        !(spec_peek_kw(toks, pos, "i"@) && spec_peek_kw(toks, pos, "l"@)),
        !(spec_peek_kw(toks, pos, "c"@) && spec_peek_kw(toks, pos, "l"@)),
        !(spec_peek_kw(toks, pos, "p"@) && spec_peek_kw(toks, pos, "img"@)),
        !(spec_peek_term(toks, pos) && (pos < toks.len() && toks[pos] == TokenV::OpenParen)),
{
    reveal_strlit("b");
    reveal_strlit("i");
    reveal_strlit("c");
    reveal_strlit("l");
    reveal_strlit("p");
    reveal_strlit("img");
    assert("b"@.len() == 1 && "i"@.len() == 1 && "c"@.len() == 1 && "l"@.len() == 1);
    assert("b"@[0] == 'b' && "i"@[0] == 'i' && "c"@[0] == 'c' && "l"@[0] == 'l');
    assert("p"@.len() == 1 && "img"@.len() == 3);
}

/// The grammar of an inline component from `pos` with the terms `acc`
/// already collected: repeatedly a term or a parenthesized group, stopping
/// at the first position where neither stands.
pub open spec fn spec_parse_inline(toks: Seq<TokenV>, pos: int, acc: Seq<TermV>) -> Result<
    (Seq<TermV>, int),
    ParseError,
>
    decreases toks.len() - pos, 2int,
{
    if pos >= toks.len() {
        Ok((acc, pos))
    } else if toks[pos] == TokenV::OpenParen {
        match spec_parse_inline(toks, pos + 1, acc) {
            Err(e) => Err(e),
            Ok((acc2, p2)) => {
                if p2 < toks.len() && toks[p2] == TokenV::CloseParen {
                    if pos + 1 <= p2 {
                        spec_parse_inline(toks, p2 + 1, acc2)
                    } else {
                        // never reached: the parser only moves forward
                        // (lemma_inline_advances)
                        Err(
                            ParseError {
                                pos: p2 as usize,
                                kind: ErrorKind::Expected(Expected::CloseParen),
                            },
                        )
                    }
                } else {
                    Err(
                        ParseError {
                            pos: p2 as usize,
                            kind: ErrorKind::Expected(Expected::CloseParen),
                        },
                    )
                }
            },
        }
    } else if spec_peek_term(toks, pos) {
        match spec_parse_term(toks, pos) {
            Err(e) => Err(e),
            Ok((t, p2)) => {
                if pos < p2 <= toks.len() {
                    spec_parse_inline(toks, p2, acc.push(t))
                } else {
                    // never reached: a term always consumes at least one
                    // token (lemma_term_advances)
                    Err(
                        ParseError {
                            pos: p2 as usize,
                            kind: ErrorKind::Expected(Expected::InlineTerm),
                        },
                    )
                }
            },
        }
    } else {
        Ok((acc, pos))
    }
}

/// The grammar of one inline term: a text literal, a location, one of the
/// wrapping keywords over a nested inline component, or a link with its
/// location.
pub open spec fn spec_parse_term(toks: Seq<TokenV>, pos: int) -> Result<(TermV, int), ParseError>
    decreases toks.len() - pos, 1int,
{
    if pos >= toks.len() {
        Err(ParseError { pos: pos as usize, kind: ErrorKind::Expected(Expected::InlineTerm) })
    } else {
        match toks[pos] {
            TokenV::Str(s) => Ok((TermV::Text(s), pos + 1)),
            TokenV::Slash => match spec_parse_location(toks, pos) {
                Ok((l, p)) => Ok((TermV::Location(l), p)),
                Err(e) => Err(e),
            },
            TokenV::At => match spec_parse_location(toks, pos) {
                Ok((l, p)) => Ok((TermV::Location(l), p)),
                Err(e) => Err(e),
            },
            TokenV::Ident(kw) => {
                if kw == "b"@ {
                    match spec_parse_inline(toks, pos + 1, Seq::empty()) {
                        Ok((ts, p)) => Ok((TermV::Bold(ts), p)),
                        Err(e) => Err(e),
                    }
                } else if kw == "i"@ {
                    match spec_parse_inline(toks, pos + 1, Seq::empty()) {
                        Ok((ts, p)) => Ok((TermV::Italic(ts), p)),
                        Err(e) => Err(e),
                    }
                } else if kw == "c"@ {
                    match spec_parse_inline(toks, pos + 1, Seq::empty()) {
                        Ok((ts, p)) => Ok((TermV::Preformatted(ts), p)),
                        Err(e) => Err(e),
                    }
                } else if kw == "l"@ {
                    match spec_parse_inline(toks, pos + 1, Seq::empty()) {
                        Err(e) => Err(e),
                        Ok((ts, p)) => match spec_parse_loc_or_slot(toks, p) {
                            Err(e) => Err(e),
                            Ok((ls, p2)) => Ok(
                                (TermV::Link { target: ts, location: ls }, p2),
                            ),
                        },
                    }
                } else {
                    Err(
                        ParseError {
                            pos: pos as usize,
                            kind: ErrorKind::Expected(Expected::InlineTerm),
                        },
                    )
                }
            },
            _ => Err(
                ParseError { pos: pos as usize, kind: ErrorKind::Expected(Expected::InlineTerm) },
            ),
        }
    }
}

/// An inline component never moves the position backwards nor past the
/// end.
pub proof fn lemma_inline_advances(toks: Seq<TokenV>, pos: int, acc: Seq<TermV>)
    requires
        pos <= toks.len(),
    ensures
        spec_parse_inline(toks, pos, acc) matches Ok(r) ==> pos <= r.1 <= toks.len(),
    decreases toks.len() - pos, 2int,
{
    if pos >= toks.len() {
    } else if toks[pos] == TokenV::OpenParen {
        lemma_inline_advances(toks, pos + 1, acc);
        match spec_parse_inline(toks, pos + 1, acc) {
            Err(_) => {},
            Ok((acc2, p2)) => {
                if p2 < toks.len() && toks[p2] == TokenV::CloseParen && pos + 1 <= p2 {
                    lemma_inline_advances(toks, p2 + 1, acc2);
                }
            },
        }
    } else if spec_peek_term(toks, pos) {
        lemma_term_advances(toks, pos);
        match spec_parse_term(toks, pos) {
            Err(_) => {},
            Ok((t, p2)) => {
                if pos < p2 <= toks.len() {
                    lemma_inline_advances(toks, p2, acc.push(t));
                }
            },
        }
    } else {
    }
}

/// A term always consumes at least one token and never passes the end.
pub proof fn lemma_term_advances(toks: Seq<TokenV>, pos: int)
    requires
        pos <= toks.len(),
    ensures
        spec_parse_term(toks, pos) matches Ok(r) ==> pos < r.1 <= toks.len(),
    decreases toks.len() - pos, 1int,
{
    if pos >= toks.len() {
    } else {
        match toks[pos] {
            TokenV::Ident(kw) => {
                if kw == "b"@ || kw == "i"@ || kw == "c"@ {
                    lemma_inline_advances(toks, pos + 1, Seq::empty());
                } else if kw == "l"@ {
                    lemma_inline_advances(toks, pos + 1, Seq::empty());
                    match spec_parse_inline(toks, pos + 1, Seq::empty()) {
                        Err(_) => {},
                        Ok((ts, p)) => {
                            lemma_loc_or_slot_advances(toks, p);
                        },
                    }
                }
            },
            _ => {},
        }
    }
}

impl Text {
    /// A text term starts here.
    pub fn peek(c: &Cursor) -> (r: bool)
        requires
            c.wf(),
        ensures
            r == (c.at() < c.toks().len() && c.toks()[c.at()] matches TokenV::Str(_)),
    {
        c.peek_str()
    }
}

impl Bold {
    /// A bold term starts here.
    pub fn peek(c: &Cursor) -> (r: bool)
        requires
            c.wf(),
        ensures
            r == spec_peek_kw(c.toks(), c.at(), "b"@),
    {
        c.peek_ident_eq("b")
    }
}

impl Italic {
    /// An italic term starts here.
    pub fn peek(c: &Cursor) -> (r: bool)
        requires
            c.wf(),
        ensures
            r == spec_peek_kw(c.toks(), c.at(), "i"@),
    {
        c.peek_ident_eq("i")
    }
}

impl Preformatted {
    /// A preformatted term starts here.
    pub fn peek(c: &Cursor) -> (r: bool)
        requires
            c.wf(),
        ensures
            r == spec_peek_kw(c.toks(), c.at(), "c"@),
    {
        c.peek_ident_eq("c")
    }
}

impl Link {
    /// A link term starts here.
    pub fn peek(c: &Cursor) -> (r: bool)
        requires
            c.wf(),
        ensures
            r == spec_peek_kw(c.toks(), c.at(), "l"@),
    {
        c.peek_ident_eq("l")
    }
}

impl ComponentTerm {
    /// An inline term starts here.
    pub fn peek(c: &Cursor) -> (r: bool)
        requires
            c.wf(),
        ensures
            r == spec_peek_term(c.toks(), c.at()),
    {
        Text::peek(c) || Location::peek(c) || Bold::peek(c) || Italic::peek(c)
            || Preformatted::peek(c) || Link::peek(c)
    }

    /// Parses one inline term.
    pub fn parse(c: &mut Cursor) -> (r: Result<ComponentTerm, ParseError>)
        requires
            old(c).wf(),
        ensures
            final(c).wf(),
            final(c).toks() == old(c).toks(),
            match r {
                Ok(t) => spec_parse_term(old(c).toks(), old(c).at()) == Ok::<
                    (TermV, int),
                    ParseError,
                >((t@, final(c).at())),
                Err(e) => spec_parse_term(old(c).toks(), old(c).at()) == Err::<
                    (TermV, int),
                    ParseError,
                >(e),
            },
        decreases c.toks().len() - c.at(), 1int,
    {
        if Text::peek(c) {
            match c.next_str() {
                Some(s) => Ok(ComponentTerm::Text(Text { literal: s })),
                None => {
                    // never reached: the peek saw a string literal
                    proof {
                        assert(false);
                    }
                    Err(
                        ParseError {
                            pos: c.position(),
                            kind: ErrorKind::Expected(Expected::InlineTerm),
                        },
                    )
                },
            }
        } else if Location::peek(c) {
            match Location::parse(c) {
                Ok(l) => Ok(ComponentTerm::Location(l)),
                Err(e) => Err(e),
            }
        } else if Bold::peek(c) {
            c.advance();
            match Component::parse(c) {
                Ok(target) => Ok(ComponentTerm::Bold(Bold { target })),
                Err(e) => Err(e),
            }
        } else if Italic::peek(c) {
            c.advance();
            match Component::parse(c) {
                Ok(target) => Ok(ComponentTerm::Italic(Italic { target })),
                Err(e) => Err(e),
            }
        } else if Preformatted::peek(c) {
            c.advance();
            match Component::parse(c) {
                Ok(target) => Ok(ComponentTerm::Preformatted(Preformatted { target })),
                Err(e) => Err(e),
            }
        } else if Link::peek(c) {
            c.advance();
            match Component::parse(c) {
                Err(e) => Err(e),
                Ok(target) => {
                    match parse_loc_or_slot(c) {
                        Err(e) => Err(e),
                        Ok(location) => Ok(ComponentTerm::Link(Link { target, location })),
                    }
                },
            }
        } else {
            Err(ParseError { pos: c.position(), kind: ErrorKind::Expected(Expected::InlineTerm) })
        }
    }
}

/// Parses terms and transparent groups into `acc` until neither stands.
fn parse_inline_rec(c: &mut Cursor, acc: &mut Vec<ComponentTerm>) -> (r: Result<(), ParseError>)
    requires
        old(c).wf(),
    ensures
        final(c).wf(),
        final(c).toks() == old(c).toks(),
        match r {
            Ok(()) => spec_parse_inline(old(c).toks(), old(c).at(), terms_view(old(acc)@))
                == Ok::<(Seq<TermV>, int), ParseError>(
                (terms_view(final(acc)@), final(c).at()),
            ),
            Err(e) => spec_parse_inline(old(c).toks(), old(c).at(), terms_view(old(acc)@))
                == Err::<(Seq<TermV>, int), ParseError>(e),
        },
    decreases c.toks().len() - c.at(), 2int,
{
    let ghost toks = old(c).toks();
    let ghost pos0 = old(c).at();
    let ghost acc0 = terms_view(old(acc)@);
    loop
        invariant
            c.wf(),
            c.toks() == toks,
            toks == old(c).toks(),
            pos0 == old(c).at(),
            acc0 == terms_view(old(acc)@),
            pos0 <= c.at(),
            spec_parse_inline(toks, pos0, acc0) == spec_parse_inline(
                toks,
                c.at(),
                terms_view(acc@),
            ),
        decreases toks.len() - c.at(),
    {
        let ghost cur = c.at();
        let ghost accv = terms_view(acc@);
        if c.peek_punct(Punct::OpenParen) {
            c.advance();
            match parse_inline_rec(c, acc) {
                Err(e) => {
                    return Err(e);
                },
                Ok(()) => {
                    proof {
                        lemma_inline_advances(toks, cur + 1, accv);
                    }
                    if !c.peek_punct(Punct::CloseParen) {
                        return Err(
                            ParseError {
                                pos: c.position(),
                                kind: ErrorKind::Expected(Expected::CloseParen),
                            },
                        );
                    }
                    c.advance();
                },
            }
        } else if ComponentTerm::peek(c) {
            match ComponentTerm::parse(c) {
                Err(e) => {
                    return Err(e);
                },
                Ok(t) => {
                    proof {
                        lemma_term_advances(toks, cur);
                        lemma_terms_view_push(acc@, t);
                    }
                    acc.push(t);
                },
            }
        } else {
            return Ok(());
        }
    }
}

impl Component {
    /// An inline component continues here: a term or a group.
    pub fn peek(c: &Cursor) -> (r: bool)
        requires
            c.wf(),
        ensures
            r == spec_peek_inline(c.toks(), c.at()),
    {
        ComponentTerm::peek(c) || c.peek_punct(Punct::OpenParen)
    }

    /// Parses an inline component: terms and transparently spliced groups
    /// until the first position where neither stands.  An empty component
    /// is legal and consumes nothing.
    pub fn parse(c: &mut Cursor) -> (r: Result<Component, ParseError>)
        requires
            old(c).wf(),
        ensures
            final(c).wf(),
            final(c).toks() == old(c).toks(),
            match r {
                Ok(comp) => spec_parse_inline(old(c).toks(), old(c).at(), Seq::empty()) == Ok::<
                    (Seq<TermV>, int),
                    ParseError,
                >((comp@, final(c).at())),
                Err(e) => spec_parse_inline(old(c).toks(), old(c).at(), Seq::empty()) == Err::<
                    (Seq<TermV>, int),
                    ParseError,
                >(e),
            },
        decreases c.toks().len() - c.at(), 3int,
    {
        let mut terms: Vec<ComponentTerm> = Vec::new();
        proof {
            assert(terms_view(terms@) =~= Seq::<TermV>::empty());
        }
        match parse_inline_rec(c, &mut terms) {
            Ok(()) => Ok(Component { terms }),
            Err(e) => Err(e),
        }
    }
}

} // verus!
