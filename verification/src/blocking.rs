//! Block-level content: the units a document body is made of.

use vstd::prelude::*;

use crate::inline::{render_terms, spec_html_terms, Term};
use crate::render::{escape, spec_escape, Context, Render};

verus! {

/// One block-level unit of a page or section body.
#[derive(Debug, PartialEq, Eq)]
pub enum Block {
    /// A paragraph of inline content.
    Paragraph(Vec<Term>),
    /// An image with alternative text and a source given as inline content.
    Image { alt: String, link: Vec<Term> },
}

/// The HTML fragment one block renders to.
pub open spec fn spec_html_block(b: Block, ctx: Seq<Seq<char>>) -> Seq<char> {
    match b {
        Block::Paragraph(ts) => "<p>"@ + spec_html_terms(ts@, ctx) + "</p>"@,
        Block::Image { alt, link } => "<img src=\""@ + spec_html_terms(link@, ctx) + "\" alt=\""@
            + spec_escape(alt@) + "\">"@,
    }
}

/// The concatenated renderings of a body's blocks, in order.
pub open spec fn spec_html_blocks(bs: Seq<Block>, ctx: Seq<Seq<char>>) -> Seq<char>
    decreases bs.len(),
{
    if bs.len() == 0 {
        Seq::empty()
    } else {
        spec_html_block(bs[0], ctx) + spec_html_blocks(bs.skip(1), ctx)
    }
}

/// Rendering a body through the generic sequence rendering and through
/// the concatenation of its blocks is one and the same.
pub proof fn lemma_html_seq_is_blocks(bs: Seq<Block>, ctx: Seq<Seq<char>>)
    ensures
        crate::render::spec_html_seq(bs, ctx) == spec_html_blocks(bs, ctx),
    decreases bs.len(),
{
    if bs.len() > 0 {
        lemma_html_seq_is_blocks(bs.skip(1), ctx);
    }
}

/// Renders one block.
pub fn render_block(b: &Block, ctx: &Context) -> (r: String)
    ensures
        r@ == spec_html_block(*b, ctx@),
{
    match b {
        Block::Paragraph(ts) => {
            let mut out = String::from_str("<p>");
            let inner = render_terms(ts, ctx);
            out.append(inner.as_str());
            out.append("</p>");
            out
        },
        Block::Image { alt, link } => {
            let mut out = String::from_str("<img src=\"");
            let src = render_terms(link, ctx);
            out.append(src.as_str());
            out.append("\" alt=\"");
            let alt_text = escape(alt.as_str());
            out.append(alt_text.as_str());
            out.append("\">");
            out
        },
    }
}

/// Renders a body: its blocks concatenated in order.
pub fn render_blocks(bs: &Vec<Block>, ctx: &Context) -> (r: String)
    ensures
        r@ == spec_html_blocks(bs@, ctx@),
{
    let mut out = String::new();
    let n = bs.len();
    let mut i: usize = 0;
    proof {
        assert(bs@.skip(0) =~= bs@);
        assert(out@ + spec_html_blocks(bs@, ctx@) =~= spec_html_blocks(bs@, ctx@));
    }
    while i < n
        invariant
            n == bs@.len(),
            i <= n,
            out@ + spec_html_blocks(bs@.skip(i as int), ctx@) == spec_html_blocks(bs@, ctx@),
        decreases n - i,
    {
        proof {
            assert(bs@.skip(i as int)[0] == bs@[i as int]);
            assert(bs@.skip(i as int).skip(1) =~= bs@.skip(i + 1 as int));
        }
        let piece = render_block(&bs[i], ctx);
        out.append(piece.as_str());
        proof {
            assert(out@ + spec_html_blocks(bs@.skip(i + 1 as int), ctx@) =~= spec_html_blocks(
                bs@,
                ctx@,
            ));
        }
        i = i + 1;
    }
    proof {
        assert(bs@.skip(n as int) =~= Seq::<Block>::empty());
        assert(out@ =~= out@ + spec_html_blocks(bs@.skip(n as int), ctx@));
    }
    out
}

impl Render for Block {
    /// A block renders as `spec_html_block` says.
    open spec fn spec_html(&self, ctx: Seq<Seq<char>>) -> Seq<char> {
        spec_html_block(*self, ctx)
    }

    fn to_html(&self, ctx: &Context) -> (r: String) {
        render_block(self, ctx)
    }
}

/// Marker for block-level renderable content.
pub trait Component: Render {

}

impl Component for Block {

}

impl<T: Component> Component for Vec<T> {

}

impl<T: Component> Component for Option<T> {

}

} // verus!
