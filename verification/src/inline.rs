//! Span-level content: the terms an inline component is made of.

use vstd::prelude::*;

use crate::location::Location;
use crate::render::{
    escape, href_of, spec_escape, spec_href, spec_html_seq, Context, Render,
};

verus! {

/// One span-level content unit.  An inline component is an ordered
/// `Vec<Term>`; the formatting terms recurse on their payload, so terms
/// nest arbitrarily.
#[derive(Debug, PartialEq, Eq)]
pub enum Term {
    /// A literal piece of text, escaped when rendered.
    Text(String),
    /// A reference rendered as its resolved target text.
    Location(Location),
    /// Bold wrapping of an inline component.
    Bold(Vec<Term>),
    /// Italic wrapping of an inline component.
    Italic(Vec<Term>),
    /// Preformatted (code) wrapping of an inline component.
    Preformatted(Vec<Term>),
    /// An anchor whose text is an inline component and whose target is a
    /// location.
    Link { target: Vec<Term>, location: Location },
}

/// The HTML fragment one term renders to at tree position `ctx`.
pub open spec fn spec_html_term(t: Term, ctx: Seq<Seq<char>>) -> Seq<char>
    decreases t,
{
    match t {
        Term::Text(s) => spec_escape(s@),
        Term::Location(loc) => spec_href(loc, ctx),
        Term::Bold(ts) => "<b>"@ + spec_html_terms(ts@, ctx) + "</b>"@,
        Term::Italic(ts) => "<i>"@ + spec_html_terms(ts@, ctx) + "</i>"@,
        Term::Preformatted(ts) => "<pre>"@ + spec_html_terms(ts@, ctx) + "</pre>"@,
        Term::Link { target, location } => "<a href=\""@ + spec_href(location, ctx) + "\">"@
            + spec_html_terms(target@, ctx) + "</a>"@,
    }
}

/// The concatenated renderings of a sequence of terms, in order.
pub open spec fn spec_html_terms(ts: Seq<Term>, ctx: Seq<Seq<char>>) -> Seq<char>
    decreases ts,
{
    if ts.len() == 0 {
        Seq::empty()
    } else {
        spec_html_term(ts[0], ctx) + spec_html_terms(ts.skip(1), ctx)
    }
}

/// The generic sequence rendering of terms is their concatenated term
/// renderings.
pub proof fn lemma_html_seq_is_terms(ts: Seq<Term>, ctx: Seq<Seq<char>>)
    ensures
        spec_html_seq(ts, ctx) == spec_html_terms(ts, ctx),
    decreases ts.len(),
{
    if ts.len() > 0 {
        lemma_html_seq_is_terms(ts.skip(1), ctx);
    }
}

/// Renders one term.
pub fn render_term(t: &Term, ctx: &Context) -> (r: String)
    ensures
        r@ == spec_html_term(*t, ctx@),
    decreases t,
{
    match t {
        Term::Text(s) => escape(s.as_str()),
        Term::Location(loc) => href_of(loc, ctx),
        Term::Bold(ts) => {
            let mut out = String::from_str("<b>");
            let inner = render_terms(ts, ctx);
            out.append(inner.as_str());
            out.append("</b>");
            out
        },
        Term::Italic(ts) => {
            let mut out = String::from_str("<i>");
            let inner = render_terms(ts, ctx);
            out.append(inner.as_str());
            out.append("</i>");
            out
        },
        Term::Preformatted(ts) => {
            let mut out = String::from_str("<pre>");
            let inner = render_terms(ts, ctx);
            out.append(inner.as_str());
            out.append("</pre>");
            out
        },
        Term::Link { target, location } => {
            let mut out = String::from_str("<a href=\"");
            let href = href_of(location, ctx);
            out.append(href.as_str());
            out.append("\">");
            let inner = render_terms(target, ctx);
            out.append(inner.as_str());
            out.append("</a>");
            out
        },
    }
}

/// Renders a sequence of terms, concatenating in order.
pub fn render_terms(ts: &Vec<Term>, ctx: &Context) -> (r: String)
    ensures
        r@ == spec_html_terms(ts@, ctx@),
    decreases ts,
{
    let mut out = String::new();
    let n = ts.len();
    let mut i: usize = 0;
    proof {
        assert(ts@.skip(0) =~= ts@);
        assert(out@ + spec_html_terms(ts@, ctx@) =~= spec_html_terms(ts@, ctx@));
    }
    while i < n
        invariant
            n == ts@.len(),
            i <= n,
            out@ + spec_html_terms(ts@.skip(i as int), ctx@) == spec_html_terms(ts@, ctx@),
        decreases n - i,
    {
        proof {
            assert(ts@.skip(i as int)[0] == ts@[i as int]);
            assert(ts@.skip(i as int).skip(1) =~= ts@.skip(i + 1 as int));
            assert(decreases_to!(ts => ts@[i as int]));
        }
        let piece = render_term(&ts[i], ctx);
        out.append(piece.as_str());
        proof {
            assert(out@ + spec_html_terms(ts@.skip(i + 1 as int), ctx@) =~= spec_html_terms(
                ts@,
                ctx@,
            ));
        }
        i = i + 1;
    }
    proof {
        assert(ts@.skip(n as int) =~= Seq::<Term>::empty());
        assert(out@ =~= out@ + spec_html_terms(ts@.skip(n as int), ctx@));
    }
    out
}

impl Render for Term {
    /// A term renders as `spec_html_term` says.
    open spec fn spec_html(&self, ctx: Seq<Seq<char>>) -> Seq<char> {
        spec_html_term(*self, ctx)
    }

    fn to_html(&self, ctx: &Context) -> (r: String) {
        render_term(self, ctx)
    }
}

impl Render for Location {
    /// A bare location renders as its resolved, escaped reference text.
    open spec fn spec_html(&self, ctx: Seq<Seq<char>>) -> Seq<char> {
        spec_href(*self, ctx)
    }

    fn to_html(&self, ctx: &Context) -> (r: String) {
        href_of(self, ctx)
    }
}

/// Marker for span-level renderable content.
pub trait Component: Render {

}

impl Component for String {

}

impl Component for Term {

}

impl Component for Location {

}

impl<T: Component> Component for Vec<T> {

}

impl<T: Component> Component for Option<T> {

}

} // verus!
