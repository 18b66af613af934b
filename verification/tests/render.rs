use staticpedia::blocking::Block;
use staticpedia::inline::Term;
use staticpedia::location::Fragment;
use staticpedia::location::InternalPath;
use staticpedia::location::Location;
use staticpedia::page::render_page;
use staticpedia::page::Page;
use staticpedia::page::Section;
use staticpedia::render::href_of;
use staticpedia::render::Context;
use staticpedia::render::Render;
use staticpedia::site::Directory;
use staticpedia::site::Node;
use staticpedia::site::Site;

fn path(segments: &[&str]) -> InternalPath {
    let mut fragments = Vec::new();
    for s in segments {
        fragments.push(Fragment::new((*s).to_string()));
    }
    InternalPath { fragments }
}

fn ctx_at(segments: &[&str]) -> Context {
    Context::new(path(segments))
}

#[test]
fn one_page_generates_one_file_with_a_paragraph() {
    // Page {title: "T", body: p "x"} with no children generates exactly one
    // output file whose content renders `x` inside a paragraph tag
    let page = Page {
        title: "T".to_string(),
        body: vec![Block::Paragraph(vec![Term::Text("x".to_string())])],
        children: Vec::new(),
    };
    let mut root = Directory::empty();
    assert_eq!(root.insert(&path(&["page1"]), Node::Page(page)), Ok(()));
    let site = Site { root };
    let out = site.render_pages();
    assert_eq!(out.len(), 1);
    assert_eq!(out[0].0, "page1");
    assert_eq!(out[0].1, "<h1>T</h1><p>x</p>");
}

#[test]
fn text_is_escaped_when_rendered() {
    let t = Term::Text("a < b & c".to_string());
    assert_eq!(t.to_html(&ctx_at(&["p"])), "a &lt; b &amp; c");
}

#[test]
fn bold_italic_preformatted_tags() {
    let t = Term::Bold(vec![Term::Italic(vec![Term::Text("x".to_string())])]);
    assert_eq!(t.to_html(&ctx_at(&["p"])), "<b><i>x</i></b>");
    let t = Term::Preformatted(vec![Term::Text("code".to_string())]);
    assert_eq!(t.to_html(&ctx_at(&["p"])), "<pre>code</pre>");
}

#[test]
fn url_location_renders_verbatim_escaped() {
    let t = Term::Location(Location::Url("https://example.org/?a=1&b=2".to_string()));
    assert_eq!(t.to_html(&ctx_at(&["p"])), "https://example.org/?a=1&amp;b=2");
}

#[test]
fn internal_location_resolves_relative_to_the_page() {
    // the page at a/b/c sits in directory a/b: two levels up to the root
    let loc = Location::internal("x/y");
    assert_eq!(href_of(&loc, &ctx_at(&["a", "b", "c"])), "../../x/y");
    assert_eq!(href_of(&loc, &ctx_at(&["c"])), "x/y");
}

#[test]
fn internal_path_literals_split_on_slashes() {
    assert_eq!(Location::internal("a/b/c"), Location::Internal(path(&["a", "b", "c"])));
    assert_eq!(Location::internal("/a//b/"), Location::Internal(path(&["a", "b"])));
    assert_eq!(Location::internal(""), Location::Internal(path(&[])));
}

#[test]
fn link_renders_an_anchor() {
    let t = Term::Link {
        target: vec![Term::Text("here".to_string())],
        location: Location::internal("x"),
    };
    assert_eq!(t.to_html(&ctx_at(&["a", "b"])), "<a href=\"../x\">here</a>");
}

#[test]
fn image_renders_source_and_alt() {
    let b = Block::Image {
        alt: "a \"cat\"".to_string(),
        link: vec![Term::Location(Location::internal("pics/cat.png"))],
    };
    assert_eq!(
        b.to_html(&ctx_at(&["page"])),
        "<img src=\"pics/cat.png\" alt=\"a &quot;cat&quot;\">"
    );
}

#[test]
fn sections_render_nested_with_anchors() {
    let page = Page {
        title: "Top".to_string(),
        body: Vec::new(),
        children: vec![Section {
            id: "s1".to_string(),
            title: vec![Term::Text("Outer".to_string())],
            body: vec![Block::Paragraph(vec![Term::Text("o".to_string())])],
            children: vec![Section {
                id: "s2".to_string(),
                title: vec![Term::Text("Inner".to_string())],
                body: Vec::new(),
                children: Vec::new(),
            }],
        }],
    };
    let html = render_page(&page, &ctx_at(&["page"]));
    assert_eq!(
        html,
        "<h1>Top</h1><section id=\"s1\"><h2>Outer</h2><p>o</p>\
         <section id=\"s2\"><h2>Inner</h2></section></section>"
    );
}

#[test]
fn page_title_is_escaped() {
    let page = Page { title: "a<b".to_string(), body: Vec::new(), children: Vec::new() };
    assert_eq!(render_page(&page, &ctx_at(&["p"])), "<h1>a&lt;b</h1>");
}

#[test]
fn vec_and_option_render_uniformly() {
    let terms = vec![Term::Text("a".to_string()), Term::Text("b".to_string())];
    assert_eq!(terms.to_html(&ctx_at(&["p"])), "ab");
    let some: Option<Term> = Some(Term::Text("x".to_string()));
    assert_eq!(some.to_html(&ctx_at(&["p"])), "x");
    let none: Option<Term> = None;
    assert_eq!(none.to_html(&ctx_at(&["p"])), "");
    let s = "q & r".to_string();
    assert_eq!(s.to_html(&ctx_at(&["p"])), "q &amp; r");
}

#[test]
fn renderer_carries_its_context() {
    let ctx = ctx_at(&["a", "b"]);
    assert_eq!(ctx.location(), &path(&["a", "b"]));
    let renderer = ctx.renderer(Term::Location(Location::internal("x")));
    assert_eq!(renderer.html(), "../x");
}

#[test]
fn pages_render_in_traversal_order_at_their_own_location() {
    let page = |title: &str, target: &str| Page {
        title: title.to_string(),
        body: vec![Block::Paragraph(vec![Term::Location(Location::internal(target))])],
        children: Vec::new(),
    };
    let mut root = Directory::empty();
    assert_eq!(root.insert(&path(&["top"]), Node::Page(page("T", "deep/other"))), Ok(()));
    assert_eq!(root.insert(&path(&["deep", "other"]), Node::Page(page("U", "top"))), Ok(()));
    let site = Site { root };
    let out = site.render_pages();
    assert_eq!(out.len(), 2);
    assert_eq!(out[0].0, "top");
    assert_eq!(out[0].1, "<h1>T</h1><p>deep/other</p>");
    assert_eq!(out[1].0, "deep/other");
    assert_eq!(out[1].1, "<h1>U</h1><p>../top</p>");
}
