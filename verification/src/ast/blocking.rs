//! Blocking components as written: paragraphs and images.

use vstd::prelude::*;

use crate::ast::inline::{
    lemma_inline_advances, spec_parse_inline, spec_peek_kw, Component as InlineComponent, TermV,
};
use crate::ast::rust::{
    lemma_text_or_slot_advances, parse_text_or_slot, spec_parse_text_or_slot, Inlinable,
    InlinableV,
};
use crate::error::{ErrorKind, Expected, ParseError};
use crate::token::{Cursor, TokenV};

verus! {

/// One blocking component as written.
#[derive(Debug, PartialEq, Eq)]
pub enum Component {
    Paragraph(Paragraph),
    Image(Image),
}

/// `p` followed by the paragraph's inline content.
#[derive(Debug, PartialEq, Eq)]
pub struct Paragraph {
    pub content: InlineComponent,
}

/// `img` followed by the alternative text (or a slot for it) and the
/// source as inline content.
#[derive(Debug, PartialEq, Eq)]
pub struct Image {
    pub alt: Inlinable<String>,
    pub link: InlineComponent,
}

/// The mathematical content of one blocking component.
pub enum BlockV {
    Paragraph(Seq<TermV>),
    Image { alt: InlinableV<Seq<char>>, link: Seq<TermV> },
}

/// The mathematical content of one blocking component.
pub open spec fn block_view(b: Component) -> BlockV {
    match b {
        Component::Paragraph(p) => BlockV::Paragraph(p.content@),
        Component::Image(i) => BlockV::Image { alt: i.alt@, link: i.link@ },
    }
}

/// The mathematical content of a sequence of blocking components.
pub open spec fn blocks_view(bs: Seq<Component>) -> Seq<BlockV>
    decreases bs.len(),
{
    if bs.len() == 0 {
        Seq::empty()
    } else {
        seq![block_view(bs[0])] + blocks_view(bs.skip(1))
    }
}

/// Viewing distributes over appending one component at the end.
pub proof fn lemma_blocks_view_push(bs: Seq<Component>, b: Component)
    ensures
        blocks_view(bs.push(b)) == blocks_view(bs).push(block_view(b)),
    decreases bs.len(),
{
    if bs.len() == 0 {
        assert(bs.push(b)[0] == b);
        assert(bs.push(b).skip(1) =~= Seq::<Component>::empty());
        assert(blocks_view(Seq::<Component>::empty()) =~= Seq::<BlockV>::empty());
        assert(blocks_view(bs.push(b)) == seq![block_view(b)] + blocks_view(
            Seq::<Component>::empty(),
        ));
        assert(blocks_view(bs.push(b)) =~= blocks_view(bs).push(block_view(b)));
    } else {
        assert(bs.push(b)[0] == bs[0]);
        assert(bs.push(b).skip(1) =~= bs.skip(1).push(b));
        lemma_blocks_view_push(bs.skip(1), b);
        assert(blocks_view(bs.push(b)) =~= blocks_view(bs).push(block_view(b)));
    }
}

impl View for Component {
    type V = BlockV;

    open spec fn view(&self) -> BlockV {
        block_view(*self)
    }
}

/// A blocking component can start here: `p` or `img`.
pub open spec fn spec_peek_blocking(toks: Seq<TokenV>, pos: int) -> bool {
    spec_peek_kw(toks, pos, "p"@) || spec_peek_kw(toks, pos, "img"@)
}

/// The grammar of one blocking component: `p` then an inline component,
/// or `img` then alternative text (or a slot) then an inline component.
pub open spec fn spec_parse_blocking(toks: Seq<TokenV>, pos: int) -> Result<
    (BlockV, int),
    ParseError,
> {
    if spec_peek_kw(toks, pos, "p"@) {
        match spec_parse_inline(toks, pos + 1, Seq::empty()) {
            Ok((ts, p)) => Ok((BlockV::Paragraph(ts), p)),
            Err(e) => Err(e),
        }
    } else if spec_peek_kw(toks, pos, "img"@) {
        match spec_parse_text_or_slot(toks, pos + 1) {
            Err(e) => Err(e),
            Ok((alt, p)) => {
                if p <= toks.len() {
                    match spec_parse_inline(toks, p, Seq::empty()) {
                        Ok((ts, p2)) => Ok((BlockV::Image { alt, link: ts }, p2)),
                        Err(e) => Err(e),
                    }
                } else {
                    // never reached: a text-or-slot value stays within the
                    // input (lemma_text_or_slot_advances)
                    Err(
                        ParseError {
                            pos: p as usize,
                            kind: ErrorKind::Expected(Expected::StringLit),
                        },
                    )
                }
            },
        }
    } else {
        Err(ParseError { pos: pos as usize, kind: ErrorKind::Expected(Expected::BlockingComp) })
    }
}

/// A blocking component always consumes at least one token and never
/// passes the end.
pub proof fn lemma_blocking_advances(toks: Seq<TokenV>, pos: int)
    requires
        pos <= toks.len(),
    ensures
        spec_parse_blocking(toks, pos) matches Ok(r) ==> pos < r.1 <= toks.len(),
{
    if spec_peek_kw(toks, pos, "p"@) {
        lemma_inline_advances(toks, pos + 1, Seq::empty());
    } else if spec_peek_kw(toks, pos, "img"@) {
        lemma_text_or_slot_advances(toks, pos + 1);
        match spec_parse_text_or_slot(toks, pos + 1) {
            Err(_) => {},
            Ok((alt, p)) => {
                if p <= toks.len() {
                    lemma_inline_advances(toks, p, Seq::empty());
                }
            },
        }
    }
}

impl Paragraph {
    /// A paragraph starts here.
    pub fn peek(c: &Cursor) -> (r: bool)
        requires
            c.wf(),
        ensures
            r == spec_peek_kw(c.toks(), c.at(), "p"@),
    {
        c.peek_ident_eq("p")
    }
}

impl Image {
    /// An image starts here.
    pub fn peek(c: &Cursor) -> (r: bool)
        requires
            c.wf(),
        ensures
            r == spec_peek_kw(c.toks(), c.at(), "img"@),
    {
        c.peek_ident_eq("img")
    }
}

impl Component {
    /// A blocking component starts here.
    pub fn peek(c: &Cursor) -> (r: bool)
        requires
            c.wf(),
        ensures
            r == spec_peek_blocking(c.toks(), c.at()),
    {
        Paragraph::peek(c) || Image::peek(c)
    }

    /// Parses one blocking component.
    pub fn parse(c: &mut Cursor) -> (r: Result<Component, ParseError>)
        requires
            old(c).wf(),
        ensures
            final(c).wf(),
            final(c).toks() == old(c).toks(),
            match r {
                Ok(b) => spec_parse_blocking(old(c).toks(), old(c).at()) == Ok::<
                    (BlockV, int),
                    ParseError,
                >((b@, final(c).at())),
                Err(e) => spec_parse_blocking(old(c).toks(), old(c).at()) == Err::<
                    (BlockV, int),
                    ParseError,
                >(e),
            },
    {
        if Paragraph::peek(c) {
            c.advance();
            match InlineComponent::parse(c) {
                Ok(content) => Ok(Component::Paragraph(Paragraph { content })),
                Err(e) => Err(e),
            }
        } else if Image::peek(c) {
            let ghost toks = c.toks();
            let ghost pos0 = c.at();
            c.advance();
            match parse_text_or_slot(c) {
                Err(e) => Err(e),
                Ok(alt) => {
                    proof {
                        lemma_text_or_slot_advances(toks, pos0 + 1);
                    }
                    match InlineComponent::parse(c) {
                        Ok(link) => Ok(Component::Image(Image { alt, link })),
                        Err(e) => Err(e),
                    }
                },
            }
        } else {
            Err(
                ParseError {
                    pos: c.position(),
                    kind: ErrorKind::Expected(Expected::BlockingComp),
                },
            )
        }
    }
}

} // verus!
