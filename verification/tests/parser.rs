use staticpedia::ast::blocking::Component as BlockingComp;
use staticpedia::ast::blocking::Paragraph;
use staticpedia::ast::inline::Component as InlineComp;
use staticpedia::ast::inline::ComponentTerm;
use staticpedia::ast::inline::Text;
use staticpedia::ast::location::InternalLoc;
use staticpedia::ast::location::Location;
use staticpedia::ast::location::Url;
use staticpedia::ast::page::Page;
use staticpedia::ast::page::Section;
use staticpedia::ast::rust::Inlinable;
use staticpedia::error::ErrorKind;
use staticpedia::error::Expected;
use staticpedia::error::FieldName;
use staticpedia::token::Cursor;
use staticpedia::token::Token;

fn ident(s: &str) -> Token {
    Token::Ident(s.to_string())
}

fn lit(s: &str) -> Token {
    Token::Str(s.to_string())
}

fn text(s: &str) -> ComponentTerm {
    ComponentTerm::Text(Text { literal: s.to_string() })
}

#[test]
fn paragraph_with_one_text_term() {
    // `p "hello"` yields one Paragraph whose inline content is exactly the
    // text term "hello"
    let mut c = Cursor::new(vec![ident("p"), lit("hello")]);
    let got = BlockingComp::parse(&mut c).unwrap();
    assert_eq!(
        got,
        BlockingComp::Paragraph(Paragraph { content: InlineComp { terms: vec![text("hello")] } })
    );
    assert!(c.at_end());
}

#[test]
fn bold_wraps_italic_wraps_text() {
    // `b i "x"` yields Bold wrapping Italic wrapping text "x"
    let mut c = Cursor::new(vec![ident("b"), ident("i"), lit("x")]);
    let got = ComponentTerm::parse(&mut c).unwrap();
    match got {
        ComponentTerm::Bold(b) => {
            assert_eq!(b.target.terms.len(), 1);
            match &b.target.terms[0] {
                ComponentTerm::Italic(i) => {
                    assert_eq!(i.target.terms, vec![text("x")]);
                },
                other => panic!("expected italic inside bold, found {:?}", other),
            }
        },
        other => panic!("expected bold, found {:?}", other),
    }
}

#[test]
fn parenthesized_group_is_flattened() {
    // `"a" ("b" "c")` yields three sequential text terms
    let mut c = Cursor::new(vec![
        lit("a"),
        Token::OpenParen,
        lit("b"),
        lit("c"),
        Token::CloseParen,
    ]);
    let got = InlineComp::parse(&mut c).unwrap();
    assert_eq!(got.terms, vec![text("a"), text("b"), text("c")]);
}

#[test]
fn nested_groups_flatten_too() {
    let mut c = Cursor::new(vec![
        Token::OpenParen,
        Token::OpenParen,
        lit("a"),
        Token::CloseParen,
        lit("b"),
        Token::CloseParen,
        lit("c"),
    ]);
    let got = InlineComp::parse(&mut c).unwrap();
    assert_eq!(got.terms, vec![text("a"), text("b"), text("c")]);
}

#[test]
fn empty_inline_component_is_legal() {
    let mut c = Cursor::new(vec![Token::Semi]);
    let got = InlineComp::parse(&mut c).unwrap();
    assert_eq!(got.terms, Vec::new());
}

#[test]
fn unclosed_group_is_an_error() {
    let mut c = Cursor::new(vec![Token::OpenParen, lit("a")]);
    let err = InlineComp::parse(&mut c).unwrap_err();
    assert_eq!(err.kind, ErrorKind::Expected(Expected::CloseParen));
    assert_eq!(err.pos, 2);
}

#[test]
fn internal_location_term() {
    let mut c = Cursor::new(vec![Token::Slash, lit("a/b")]);
    let got = Location::parse(&mut c).unwrap();
    assert_eq!(got, Location::Internal(InternalLoc { literal: "a/b".to_string() }));
}

#[test]
fn url_location_term() {
    let mut c = Cursor::new(vec![Token::At, lit("https://example.org")]);
    let got = Location::parse(&mut c).unwrap();
    assert_eq!(got, Location::Url(Url { literal: "https://example.org".to_string() }));
}

#[test]
fn location_needs_its_literal() {
    let mut c = Cursor::new(vec![Token::Slash, Token::Semi]);
    let err = Location::parse(&mut c).unwrap_err();
    assert_eq!(err.kind, ErrorKind::Expected(Expected::StringLit));
    assert_eq!(err.pos, 1);
}

#[test]
fn location_expects_its_marks() {
    let mut c = Cursor::new(vec![Token::Colon]);
    let err = Location::parse(&mut c).unwrap_err();
    assert_eq!(err.kind, ErrorKind::Expected(Expected::Location));
    assert_eq!(err.pos, 0);
}

#[test]
fn link_with_slot_location() {
    // `l "click" $[ target ]`
    let mut c = Cursor::new(vec![
        ident("l"),
        lit("click"),
        Token::Dollar,
        Token::OpenBracket,
        ident("target"),
        Token::CloseBracket,
    ]);
    let got = ComponentTerm::parse(&mut c).unwrap();
    match got {
        ComponentTerm::Link(l) => {
            assert_eq!(l.target.terms, vec![text("click")]);
            match l.location {
                Inlinable::Inlined(ir) => assert_eq!(ir.content, vec![ident("target")]),
                other => panic!("expected a slot, found {:?}", other),
            }
        },
        other => panic!("expected a link, found {:?}", other),
    }
}

#[test]
fn slot_capture_balances_brackets() {
    // `$[ a [ b ] c ]` captures `a [ b ] c`
    let mut c = Cursor::new(vec![
        ident("img"),
        Token::Dollar,
        Token::OpenBracket,
        ident("a"),
        Token::OpenBracket,
        ident("b"),
        Token::CloseBracket,
        ident("c"),
        Token::CloseBracket,
        lit("src"),
    ]);
    let got = BlockingComp::parse(&mut c).unwrap();
    match got {
        BlockingComp::Image(img) => {
            match img.alt {
                Inlinable::Inlined(ir) => assert_eq!(
                    ir.content,
                    vec![
                        ident("a"),
                        Token::OpenBracket,
                        ident("b"),
                        Token::CloseBracket,
                        ident("c"),
                    ]
                ),
                other => panic!("expected a slot, found {:?}", other),
            }
            assert_eq!(img.link.terms, vec![text("src")]);
        },
        other => panic!("expected an image, found {:?}", other),
    }
}

#[test]
fn unbalanced_slot_is_an_error() {
    let mut c = Cursor::new(vec![Token::Dollar, Token::OpenBracket, ident("a")]);
    let err = staticpedia::ast::rust::parse_slot(&mut c).unwrap_err();
    assert_eq!(err.kind, ErrorKind::Expected(Expected::CloseBracket));
    assert_eq!(err.pos, 3);
}

#[test]
fn body_splits_on_semicolons() {
    // `p "a" ; p "b"`
    let mut c = Cursor::new(vec![ident("p"), lit("a"), Token::Semi, ident("p"), lit("b")]);
    let got = staticpedia::ast::page::Body::parse(&mut c).unwrap();
    assert_eq!(got.terms.len(), 2);
}

#[test]
fn semicolon_demands_another_component() {
    let mut c = Cursor::new(vec![ident("p"), lit("a"), Token::Semi]);
    let err = staticpedia::ast::page::Body::parse(&mut c).unwrap_err();
    assert_eq!(err.kind, ErrorKind::Expected(Expected::BlockingComp));
    assert_eq!(err.pos, 3);
}

#[test]
fn page_record_with_title_and_body() {
    // `title: "T" body: p "x"`
    let mut c = Cursor::new(vec![
        ident("title"),
        Token::Colon,
        lit("T"),
        ident("body"),
        Token::Colon,
        ident("p"),
        lit("x"),
    ]);
    let got = Page::parse(&mut c).unwrap();
    assert_eq!(got.title, "T");
    assert_eq!(got.body.terms.len(), 1);
    assert!(got.children.is_none());
}

#[test]
fn field_order_is_irrelevant() {
    // `body: p "x" title: "T"`
    let mut c = Cursor::new(vec![
        ident("body"),
        Token::Colon,
        ident("p"),
        lit("x"),
        ident("title"),
        Token::Colon,
        lit("T"),
    ]);
    let got = Page::parse(&mut c).unwrap();
    assert_eq!(got.title, "T");
    assert_eq!(got.body.terms.len(), 1);
}

#[test]
fn missing_body_fails_with_missing_body() {
    // a record missing required `body` fails with "missing body"
    let mut c = Cursor::new(vec![ident("title"), Token::Colon, lit("T")]);
    let err = Page::parse(&mut c).unwrap_err();
    assert_eq!(err.kind, ErrorKind::Missing(FieldName::Body));
    assert_eq!(err.message(), "missing body");
}

#[test]
fn missing_title_fails_with_missing_title() {
    let mut c = Cursor::new(vec![ident("body"), Token::Colon, ident("p"), lit("x")]);
    let err = Page::parse(&mut c).unwrap_err();
    assert_eq!(err.kind, ErrorKind::Missing(FieldName::Title));
    assert_eq!(err.message(), "missing title");
}

#[test]
fn doubly_declared_title_fails_with_already_declared() {
    // a record declaring `title` twice fails with "already declared"
    let mut c = Cursor::new(vec![
        ident("title"),
        Token::Colon,
        lit("T"),
        ident("title"),
        Token::Colon,
        lit("U"),
    ]);
    let err = Page::parse(&mut c).unwrap_err();
    assert_eq!(err.kind, ErrorKind::AlreadyDeclared(FieldName::Title));
    assert_eq!(err.pos, 3);
    assert_eq!(err.message(), "title already declared");
}

#[test]
fn unknown_page_field_is_an_error() {
    let mut c = Cursor::new(vec![ident("subtitle"), Token::Colon, lit("T")]);
    let err = Page::parse(&mut c).unwrap_err();
    assert_eq!(err.kind, ErrorKind::Expected(Expected::PageField));
    assert_eq!(err.pos, 0);
    assert_eq!(err.message(), "expected `title`, `body` or `children`");
}

#[test]
fn missing_colon_is_an_error() {
    let mut c = Cursor::new(vec![ident("title"), lit("T")]);
    let err = Page::parse(&mut c).unwrap_err();
    assert_eq!(err.kind, ErrorKind::Expected(Expected::Colon));
    assert_eq!(err.pos, 1);
}

#[test]
fn page_with_children_sections() {
    // `title: "T" body: p "x" children: [ id: "s1" title: "inner" body: p "y" ]`
    let mut c = Cursor::new(vec![
        ident("title"),
        Token::Colon,
        lit("T"),
        ident("body"),
        Token::Colon,
        ident("p"),
        lit("x"),
        ident("children"),
        Token::Colon,
        Token::OpenBracket,
        ident("id"),
        Token::Colon,
        lit("s1"),
        ident("title"),
        Token::Colon,
        lit("inner"),
        ident("body"),
        Token::Colon,
        ident("p"),
        lit("y"),
        Token::CloseBracket,
    ]);
    let got = Page::parse(&mut c).unwrap();
    let children = got.children.expect("children were declared");
    assert_eq!(children.sections.len(), 1);
    let s = &children.sections[0];
    assert_eq!(s.id, "s1");
    assert_eq!(s.title.terms, vec![text("inner")]);
    assert_eq!(s.body.terms.len(), 1);
}

#[test]
fn section_missing_id_fails() {
    let mut c = Cursor::new(vec![
        ident("title"),
        Token::Colon,
        lit("t"),
        ident("body"),
        Token::Colon,
    ]);
    let err = Section::parse(&mut c).unwrap_err();
    assert_eq!(err.kind, ErrorKind::Missing(FieldName::Id));
    assert_eq!(err.message(), "missing id");
}

#[test]
fn inline_term_expects_its_alternatives() {
    let mut c = Cursor::new(vec![Token::Colon]);
    let err = ComponentTerm::parse(&mut c).unwrap_err();
    assert_eq!(err.kind, ErrorKind::Expected(Expected::InlineTerm));
    assert_eq!(err.message(), "expected string literal, `/`, `@`, `b`, `i`, `c` or `l`");
}

#[test]
fn slot_expects_its_opening_bracket() {
    let mut c = Cursor::new(vec![Token::Dollar, ident("x")]);
    let err = staticpedia::ast::rust::parse_slot(&mut c).unwrap_err();
    assert_eq!(err.kind, ErrorKind::Expected(Expected::OpenBracket));
    assert_eq!(err.pos, 1);
}

#[test]
fn stray_token_in_section_record_is_an_error() {
    let mut c = Cursor::new(vec![Token::Semi]);
    let err = Section::parse(&mut c).unwrap_err();
    assert_eq!(err.kind, ErrorKind::Expected(Expected::SectionField));
    assert_eq!(err.message(), "expected `id`, `title`, `body` or `children`");
}

#[test]
fn children_need_their_closing_bracket() {
    let mut c = Cursor::new(vec![
        ident("children"),
        Token::Colon,
        Token::OpenBracket,
        ident("id"),
        Token::Colon,
        lit("s"),
        ident("title"),
        Token::Colon,
        ident("body"),
        Token::Colon,
    ]);
    let err = Page::parse(&mut c).unwrap_err();
    assert_eq!(err.kind, ErrorKind::Expected(Expected::CloseBracket));
}

#[test]
fn blocking_component_expects_its_keywords() {
    let mut c = Cursor::new(vec![ident("q")]);
    let err = BlockingComp::parse(&mut c).unwrap_err();
    assert_eq!(err.kind, ErrorKind::Expected(Expected::BlockingComp));
    assert_eq!(err.message(), "expected `p` or `img`");
}
