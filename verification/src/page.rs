//! Whole documents: pages and their nested sections, and their rendering.

use vstd::prelude::*;

use crate::blocking::{render_blocks, spec_html_blocks, Block};
use crate::inline::{render_terms, spec_html_terms, Term};
use crate::render::{escape, spec_escape, Context, Render};

verus! {

/// A nested document inside a page; children recurse.
#[derive(Debug, PartialEq, Eq)]
pub struct Section {
    /// Anchor key, unique among siblings.
    pub id: String,
    /// Inline title content.
    pub title: Vec<Term>,
    /// Ordered block-level body.
    pub body: Vec<Block>,
    /// Nested subsections, possibly empty.
    pub children: Vec<Section>,
}

/// A root document: one authored top-level page.
#[derive(Debug, PartialEq, Eq)]
pub struct Page {
    /// Plain-text title.
    pub title: String,
    /// Ordered block-level body.
    pub body: Vec<Block>,
    /// Top-level sections, possibly empty.
    pub children: Vec<Section>,
}

/// The HTML fragment one section renders to: a section element carrying
/// the id as anchor, the title as a heading, then body and subsections.
pub open spec fn spec_html_section(s: Section, ctx: Seq<Seq<char>>) -> Seq<char>
    decreases s,
{
    "<section id=\""@ + spec_escape(s.id@) + "\"><h2>"@ + spec_html_terms(s.title@, ctx)
        + "</h2>"@ + spec_html_blocks(s.body@, ctx) + spec_html_sections(s.children@, ctx)
        + "</section>"@
}

/// The concatenated renderings of sibling sections, in order.
pub open spec fn spec_html_sections(ss: Seq<Section>, ctx: Seq<Seq<char>>) -> Seq<char>
    decreases ss,
{
    if ss.len() == 0 {
        Seq::empty()
    } else {
        spec_html_section(ss[0], ctx) + spec_html_sections(ss.skip(1), ctx)
    }
}

/// The HTML a whole page renders to: the escaped title as the top heading,
/// then the body's blocks, then the sections.
pub open spec fn spec_html_page(p: Page, ctx: Seq<Seq<char>>) -> Seq<char> {
    "<h1>"@ + spec_escape(p.title@) + "</h1>"@ + spec_html_blocks(p.body@, ctx)
        + spec_html_sections(p.children@, ctx)
}

/// Rendering sibling sections through the generic sequence rendering and
/// through their concatenation is one and the same.
pub proof fn lemma_html_seq_is_sections(ss: Seq<Section>, ctx: Seq<Seq<char>>)
    ensures
        crate::render::spec_html_seq(ss, ctx) == spec_html_sections(ss, ctx),
    decreases ss.len(),
{
    if ss.len() > 0 {
        lemma_html_seq_is_sections(ss.skip(1), ctx);
    }
}

/// Renders one section.
pub fn render_section(s: &Section, ctx: &Context) -> (r: String)
    ensures
        r@ == spec_html_section(*s, ctx@),
    decreases s,
{
    let mut out = String::from_str("<section id=\"");
    let id = escape(s.id.as_str());
    out.append(id.as_str());
    out.append("\"><h2>");
    let title = render_terms(&s.title, ctx);
    out.append(title.as_str());
    out.append("</h2>");
    let body = render_blocks(&s.body, ctx);
    out.append(body.as_str());
    let children = render_sections(&s.children, ctx);
    out.append(children.as_str());
    out.append("</section>");
    out
}

/// Renders sibling sections, concatenating in order.
pub fn render_sections(ss: &Vec<Section>, ctx: &Context) -> (r: String)
    ensures
        r@ == spec_html_sections(ss@, ctx@),
    decreases ss,
{
    let mut out = String::new();
    let n = ss.len();
    let mut i: usize = 0;
    proof {
        assert(ss@.skip(0) =~= ss@);
        assert(out@ + spec_html_sections(ss@, ctx@) =~= spec_html_sections(ss@, ctx@));
    }
    while i < n
        invariant
            n == ss@.len(),
            i <= n,
            out@ + spec_html_sections(ss@.skip(i as int), ctx@) == spec_html_sections(ss@, ctx@),
        decreases n - i,
    {
        proof {
            assert(ss@.skip(i as int)[0] == ss@[i as int]);
            assert(ss@.skip(i as int).skip(1) =~= ss@.skip(i + 1 as int));
            assert(decreases_to!(ss => ss@[i as int]));
        }
        let piece = render_section(&ss[i], ctx);
        out.append(piece.as_str());
        proof {
            assert(out@ + spec_html_sections(ss@.skip(i + 1 as int), ctx@) =~= spec_html_sections(
                ss@,
                ctx@,
            ));
        }
        i = i + 1;
    }
    proof {
        assert(ss@.skip(n as int) =~= Seq::<Section>::empty());
        assert(out@ =~= out@ + spec_html_sections(ss@.skip(n as int), ctx@));
    }
    out
}

/// Renders a whole page at its tree position.
pub fn render_page(p: &Page, ctx: &Context) -> (r: String)
    ensures
        r@ == spec_html_page(*p, ctx@),
{
    let mut out = String::from_str("<h1>");
    let title = escape(p.title.as_str());
    out.append(title.as_str());
    out.append("</h1>");
    let body = render_blocks(&p.body, ctx);
    out.append(body.as_str());
    let children = render_sections(&p.children, ctx);
    out.append(children.as_str());
    out
}

impl Render for Section {
    /// A section renders as `spec_html_section` says.
    open spec fn spec_html(&self, ctx: Seq<Seq<char>>) -> Seq<char> {
        spec_html_section(*self, ctx)
    }

    fn to_html(&self, ctx: &Context) -> (r: String) {
        render_section(self, ctx)
    }
}

impl Render for Page {
    /// A page renders as `spec_html_page` says.
    open spec fn spec_html(&self, ctx: Seq<Seq<char>>) -> Seq<char> {
        spec_html_page(*self, ctx)
    }

    fn to_html(&self, ctx: &Context) -> (r: String) {
        render_page(self, ctx)
    }
}

} // verus!
