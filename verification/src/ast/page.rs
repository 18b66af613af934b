//! Page and section records: unordered `name: value` fields, each required
//! field exactly once, terminated by the enclosing delimiter.

use vstd::prelude::*;

use crate::ast::blocking;
use crate::ast::blocking::{
    blocks_view, lemma_blocking_advances, lemma_blocks_view_push, spec_parse_blocking,
    spec_peek_blocking, BlockV,
};
use crate::ast::inline::{
    lemma_inline_advances, spec_parse_inline, Component as InlineComponent, TermV,
};
use crate::error::{ErrorKind, Expected, FieldName, ParseError};
use crate::text::str_eq;
use crate::token::{Cursor, Punct, TokenV};

verus! {

/// The `id` field of a section record.
#[derive(Debug, Clone, Copy, PartialEq, Eq)]
pub struct IdField;

impl IdField {
    /// The field's name as written.
    pub fn name() -> (r: &'static str)
        ensures
            r@ == "id"@,
    {
        "id"
    }
}

/// The `title` field of a page record; its value is a string literal.
#[derive(Debug, Clone, Copy, PartialEq, Eq)]
pub struct PageTitleField;

impl PageTitleField {
    /// The field's name as written.
    pub fn name() -> (r: &'static str)
        ensures
            r@ == "title"@,
    {
        "title"
    }
}

/// The `title` field of a section record; its value is an inline
/// component.
#[derive(Debug, Clone, Copy, PartialEq, Eq)]
pub struct SectionTitleField;

impl SectionTitleField {
    /// The field's name as written.
    pub fn name() -> (r: &'static str)
        ensures
            r@ == "title"@,
    {
        "title"
    }
}

/// The `body` field of a page or section record.
#[derive(Debug, Clone, Copy, PartialEq, Eq)]
pub struct BodyField;

impl BodyField {
    /// The field's name as written.
    pub fn name() -> (r: &'static str)
        ensures
            r@ == "body"@,
    {
        "body"
    }
}

/// The optional `children` field of a page or section record.
#[derive(Debug, Clone, Copy, PartialEq, Eq)]
pub struct ChildrenField;

impl ChildrenField {
    /// The field's name as written.
    pub fn name() -> (r: &'static str)
        ensures
            r@ == "children"@,
    {
        "children"
    }
}

/// A body as written: blocking components separated by `;`.
#[derive(Debug, PartialEq, Eq)]
pub struct Body {
    pub terms: Vec<blocking::Component>,
}

/// A `children` value as written: a sequence of bracketed section records.
#[derive(Debug, PartialEq, Eq)]
pub struct Children {
    pub sections: Vec<Section>,
}

/// A page record as written.
#[derive(Debug, PartialEq, Eq)]
pub struct Page {
    pub title: String,
    pub body: Body,
    pub children: Option<Children>,
}

/// A section record as written.
#[derive(Debug, PartialEq, Eq)]
pub struct Section {
    pub id: String,
    pub title: InlineComponent,
    pub body: Body,
    pub children: Option<Children>,
}

/// The mathematical content of a parsed section.
pub struct SectionV {
    pub id: Seq<char>,
    pub title: Seq<TermV>,
    pub body: Seq<BlockV>,
    pub children: Option<Seq<SectionV>>,
}

/// The mathematical content of a parsed page.
pub struct PageV {
    pub title: Seq<char>,
    pub body: Seq<BlockV>,
    pub children: Option<Seq<SectionV>>,
}

/// The mathematical content of one section.
pub open spec fn section_view(s: Section) -> SectionV
    decreases s,
{
    SectionV {
        id: s.id@,
        title: s.title@,
        body: blocks_view(s.body.terms@),
        children: match s.children {
            None => None,
            Some(cs) => Some(sections_view(cs.sections@)),
        },
    }
}

/// The mathematical content of a section sequence.
pub open spec fn sections_view(ss: Seq<Section>) -> Seq<SectionV>
    decreases ss,
{
    if ss.len() == 0 {
        Seq::empty()
    } else {
        seq![section_view(ss[0])] + sections_view(ss.skip(1))
    }
}

/// Viewing distributes over appending one section at the end.
proof fn lemma_sections_view_push(ss: Seq<Section>, s: Section)
    ensures
        sections_view(ss.push(s)) == sections_view(ss).push(section_view(s)),
    decreases ss.len(),
{
    if ss.len() == 0 {
        assert(ss.push(s)[0] == s);
        assert(ss.push(s).skip(1) =~= Seq::<Section>::empty());
        assert(sections_view(Seq::<Section>::empty()) =~= Seq::<SectionV>::empty());
        assert(sections_view(ss.push(s)) == seq![section_view(s)] + sections_view(
            Seq::<Section>::empty(),
        ));
        assert(sections_view(ss.push(s)) =~= sections_view(ss).push(section_view(s)));
    } else {
        assert(ss.push(s)[0] == ss[0]);
        assert(ss.push(s).skip(1) =~= ss.skip(1).push(s));
        lemma_sections_view_push(ss.skip(1), s);
        assert(sections_view(ss.push(s)) =~= sections_view(ss).push(section_view(s)));
    }
}

/// The mathematical content of a body.
pub open spec fn body_view(b: Body) -> Seq<BlockV> {
    blocks_view(b.terms@)
}

/// The mathematical content of a children value.
pub open spec fn children_view(cs: Children) -> Seq<SectionV> {
    sections_view(cs.sections@)
}

/// The mathematical content of a page.
pub open spec fn page_view(p: Page) -> PageV {
    PageV {
        title: p.title@,
        body: blocks_view(p.body.terms@),
        children: match p.children {
            None => None,
            Some(cs) => Some(sections_view(cs.sections@)),
        },
    }
}

impl View for Section {
    type V = SectionV;

    open spec fn view(&self) -> SectionV {
        section_view(*self)
    }
}

impl View for Page {
    type V = PageV;

    open spec fn view(&self) -> PageV {
        page_view(*self)
    }
}

/// The grammar of a body: blocking components separated by `;`, possibly
/// none at all.  The separator stands strictly between components.
pub open spec fn spec_parse_body(toks: Seq<TokenV>, pos: int) -> Result<
    (Seq<BlockV>, int),
    ParseError,
> {
    if spec_peek_blocking(toks, pos) {
        spec_parse_body_list(toks, pos, Seq::empty())
    } else {
        Ok((Seq::empty(), pos))
    }
}

/// One blocking component, then more after each `;`.
pub open spec fn spec_parse_body_list(toks: Seq<TokenV>, pos: int, acc: Seq<BlockV>) -> Result<
    (Seq<BlockV>, int),
    ParseError,
>
    decreases toks.len() - pos,
{
    match spec_parse_blocking(toks, pos) {
        Err(e) => Err(e),
        Ok((b, p2)) => {
            if p2 < toks.len() && toks[p2] == TokenV::Semi {
                if pos < p2 {
                    spec_parse_body_list(toks, p2 + 1, acc.push(b))
                } else {
                    // never reached: a blocking component always advances
                    // (lemma_blocking_advances)
                    Err(
                        ParseError {
                            pos: p2 as usize,
                            kind: ErrorKind::Expected(Expected::BlockingComp),
                        },
                    )
                }
            } else {
                Ok((acc.push(b), p2))
            }
        },
    }
}

/// A non-empty body ends after the position it started at.
pub proof fn lemma_body_list_advances(toks: Seq<TokenV>, pos: int, acc: Seq<BlockV>)
    requires
        pos <= toks.len(),
    ensures
        spec_parse_body_list(toks, pos, acc) matches Ok(r) ==> pos < r.1 <= toks.len(),
    decreases toks.len() - pos,
{
    lemma_blocking_advances(toks, pos);
    match spec_parse_blocking(toks, pos) {
        Err(_) => {},
        Ok((b, p2)) => {
            if p2 < toks.len() && toks[p2] == TokenV::Semi && pos < p2 {
                lemma_body_list_advances(toks, p2 + 1, acc.push(b));
            }
        },
    }
}

/// A body never moves the position backwards nor past the end.
pub proof fn lemma_body_advances(toks: Seq<TokenV>, pos: int)
    requires
        pos <= toks.len(),
    ensures
        spec_parse_body(toks, pos) matches Ok(r) ==> pos <= r.1 <= toks.len(),
{
    if spec_peek_blocking(toks, pos) {
        lemma_body_list_advances(toks, pos, Seq::empty());
    }
}

/// The fields a section record has declared so far.
pub struct SectionFieldsV {
    pub id: Option<Seq<char>>,
    pub title: Option<Seq<TermV>>,
    pub body: Option<Seq<BlockV>>,
    pub children: Option<Seq<SectionV>>,
}

/// The fields a page record has declared so far.
pub struct PageFieldsV {
    pub title: Option<Seq<char>>,
    pub body: Option<Seq<BlockV>>,
    pub children: Option<Seq<SectionV>>,
}

/// The grammar of a children value: bracketed section records, zero or
/// more.
pub open spec fn spec_parse_sections(toks: Seq<TokenV>, pos: int, acc: Seq<SectionV>) -> Result<
    (Seq<SectionV>, int),
    ParseError,
>
    decreases toks.len() - pos, 3int,
{
    if pos < toks.len() && toks[pos] == TokenV::OpenBracket {
        match spec_parse_section(toks, pos + 1) {
            Err(e) => Err(e),
            Ok((sv, p2)) => {
                if p2 < toks.len() && toks[p2] == TokenV::CloseBracket {
                    if pos + 1 <= p2 {
                        spec_parse_sections(toks, p2 + 1, acc.push(sv))
                    } else {
                        // never reached: a record's fields only move the
                        // position forward (lemma_section_advances)
                        Err(
                            ParseError {
                                pos: p2 as usize,
                                kind: ErrorKind::Expected(Expected::CloseBracket),
                            },
                        )
                    }
                } else {
                    Err(
                        ParseError {
                            pos: p2 as usize,
                            kind: ErrorKind::Expected(Expected::CloseBracket),
                        },
                    )
                }
            },
        }
    } else {
        Ok((acc, pos))
    }
}

/// The grammar of one section record: its fields until `]` or the end,
/// then the check that `id`, `title` and `body` each appeared.
pub open spec fn spec_parse_section(toks: Seq<TokenV>, pos: int) -> Result<
    (SectionV, int),
    ParseError,
>
    decreases toks.len() - pos, 2int,
{
    if pos > toks.len() {
        // never reached from within the input
        Err(ParseError { pos: pos as usize, kind: ErrorKind::Expected(Expected::SectionField) })
    } else {
        match spec_parse_section_fields(
            toks,
            pos,
            SectionFieldsV { id: None, title: None, body: None, children: None },
        ) {
            Err(e) => Err(e),
            Ok((acc, p)) => match acc.id {
                None => Err(
                    ParseError { pos: p as usize, kind: ErrorKind::Missing(FieldName::Id) },
                ),
                Some(id) => match acc.title {
                    None => Err(
                        ParseError { pos: p as usize, kind: ErrorKind::Missing(FieldName::Title) },
                    ),
                    Some(title) => match acc.body {
                        None => Err(
                            ParseError {
                                pos: p as usize,
                                kind: ErrorKind::Missing(FieldName::Body),
                            },
                        ),
                        Some(body) => Ok(
                            (SectionV { id, title, body, children: acc.children }, p),
                        ),
                    },
                },
            },
        }
    }
}

/// The fields of a section record, an unordered set of `name: value`
/// pairs, each name at most once, until `]` or the end of the input.
pub open spec fn spec_parse_section_fields(
    toks: Seq<TokenV>,
    pos: int,
    acc: SectionFieldsV,
) -> Result<(SectionFieldsV, int), ParseError>
    decreases toks.len() - pos, 1int,
{
    if pos >= toks.len() {
        Ok((acc, pos))
    } else if toks[pos] == TokenV::CloseBracket {
        Ok((acc, pos))
    } else {
        match toks[pos] {
            TokenV::Ident(key) => {
                if key == "id"@ {
                    if acc.id is Some {
                        Err(
                            ParseError {
                                pos: pos as usize,
                                kind: ErrorKind::AlreadyDeclared(FieldName::Id),
                            },
                        )
                    } else if !(pos + 1 < toks.len() && toks[pos + 1] == TokenV::Colon) {
                        Err(
                            ParseError {
                                pos: (pos + 1) as usize,
                                kind: ErrorKind::Expected(Expected::Colon),
                            },
                        )
                    } else if pos + 2 < toks.len() && toks[pos + 2] matches TokenV::Str(_) {
                        match toks[pos + 2] {
                            TokenV::Str(s) => spec_parse_section_fields(
                                toks,
                                pos + 3,
                                SectionFieldsV {
                                    id: Some(s),
                                    title: acc.title,
                                    body: acc.body,
                                    children: acc.children,
                                },
                            ),
                            _ => Err(
                                ParseError {
                                    pos: (pos + 2) as usize,
                                    kind: ErrorKind::Expected(Expected::StringLit),
                                },
                            ),
                        }
                    } else {
                        Err(
                            ParseError {
                                pos: (pos + 2) as usize,
                                kind: ErrorKind::Expected(Expected::StringLit),
                            },
                        )
                    }
                } else if key == "title"@ {
                    if acc.title is Some {
                        Err(
                            ParseError {
                                pos: pos as usize,
                                kind: ErrorKind::AlreadyDeclared(FieldName::Title),
                            },
                        )
                    } else if !(pos + 1 < toks.len() && toks[pos + 1] == TokenV::Colon) {
                        Err(
                            ParseError {
                                pos: (pos + 1) as usize,
                                kind: ErrorKind::Expected(Expected::Colon),
                            },
                        )
                    } else {
                        match spec_parse_inline(toks, pos + 2, Seq::empty()) {
                            Err(e) => Err(e),
                            Ok((ts, p2)) => {
                                if pos + 2 <= p2 <= toks.len() {
                                    spec_parse_section_fields(
                                        toks,
                                        p2,
                                        SectionFieldsV {
                                            id: acc.id,
                                            title: Some(ts),
                                            body: acc.body,
                                            children: acc.children,
                                        },
                                    )
                                } else {
                                    // never reached (lemma_inline_advances)
                                    Err(
                                        ParseError {
                                            pos: p2 as usize,
                                            kind: ErrorKind::Expected(Expected::SectionField),
                                        },
                                    )
                                }
                            },
                        }
                    }
                } else if key == "body"@ {
                    if acc.body is Some {
                        Err(
                            ParseError {
                                pos: pos as usize,
                                kind: ErrorKind::AlreadyDeclared(FieldName::Body),
                            },
                        )
                    } else if !(pos + 1 < toks.len() && toks[pos + 1] == TokenV::Colon) {
                        Err(
                            ParseError {
                                pos: (pos + 1) as usize,
                                kind: ErrorKind::Expected(Expected::Colon),
                            },
                        )
                    } else {
                        match spec_parse_body(toks, pos + 2) {
                            Err(e) => Err(e),
                            Ok((bs, p2)) => {
                                if pos + 2 <= p2 <= toks.len() {
                                    spec_parse_section_fields(
                                        toks,
                                        p2,
                                        SectionFieldsV {
                                            id: acc.id,
                                            title: acc.title,
                                            body: Some(bs),
                                            children: acc.children,
                                        },
                                    )
                                } else {
                                    // never reached (lemma_body_advances)
                                    Err(
                                        ParseError {
                                            pos: p2 as usize,
                                            kind: ErrorKind::Expected(Expected::SectionField),
                                        },
                                    )
                                }
                            },
                        }
                    }
                } else if key == "children"@ {
                    if acc.children is Some {
                        Err(
                            ParseError {
                                pos: pos as usize,
                                kind: ErrorKind::AlreadyDeclared(FieldName::Children),
                            },
                        )
                    } else if !(pos + 1 < toks.len() && toks[pos + 1] == TokenV::Colon) {
                        Err(
                            ParseError {
                                pos: (pos + 1) as usize,
                                kind: ErrorKind::Expected(Expected::Colon),
                            },
                        )
                    } else {
                        match spec_parse_sections(toks, pos + 2, Seq::empty()) {
                            Err(e) => Err(e),
                            Ok((ss, p2)) => {
                                if pos + 2 <= p2 <= toks.len() {
                                    spec_parse_section_fields(
                                        toks,
                                        p2,
                                        SectionFieldsV {
                                            id: acc.id,
                                            title: acc.title,
                                            body: acc.body,
                                            children: Some(ss),
                                        },
                                    )
                                } else {
                                    // never reached (lemma_sections_advances)
                                    Err(
                                        ParseError {
                                            pos: p2 as usize,
                                            kind: ErrorKind::Expected(Expected::SectionField),
                                        },
                                    )
                                }
                            },
                        }
                    }
                } else {
                    Err(
                        ParseError {
                            pos: pos as usize,
                            kind: ErrorKind::Expected(Expected::SectionField),
                        },
                    )
                }
            },
            _ => Err(
                ParseError {
                    pos: pos as usize,
                    kind: ErrorKind::Expected(Expected::SectionField),
                },
            ),
        }
    }
}

/// A children value never moves the position backwards nor past the end.
pub proof fn lemma_sections_advances(toks: Seq<TokenV>, pos: int, acc: Seq<SectionV>)
    requires
        pos <= toks.len(),
    ensures
        spec_parse_sections(toks, pos, acc) matches Ok(r) ==> pos <= r.1 <= toks.len(),
    decreases toks.len() - pos, 3int,
{
    if pos < toks.len() && toks[pos] == TokenV::OpenBracket {
        lemma_section_advances(toks, pos + 1);
        match spec_parse_section(toks, pos + 1) {
            Err(_) => {},
            Ok((sv, p2)) => {
                if p2 < toks.len() && toks[p2] == TokenV::CloseBracket && pos + 1 <= p2 {
                    lemma_sections_advances(toks, p2 + 1, acc.push(sv));
                }
            },
        }
    }
}

/// A section record never moves the position backwards nor past the end.
pub proof fn lemma_section_advances(toks: Seq<TokenV>, pos: int)
    requires
        pos <= toks.len(),
    ensures
        spec_parse_section(toks, pos) matches Ok(r) ==> pos <= r.1 <= toks.len(),
    decreases toks.len() - pos, 2int,
{
    lemma_section_fields_advances(
        toks,
        pos,
        SectionFieldsV { id: None, title: None, body: None, children: None },
    );
}

/// A record's fields never move the position backwards nor past the end.
pub proof fn lemma_section_fields_advances(toks: Seq<TokenV>, pos: int, acc: SectionFieldsV)
    requires
        pos <= toks.len(),
    ensures
        spec_parse_section_fields(toks, pos, acc) matches Ok(r) ==> pos <= r.1 <= toks.len(),
    decreases toks.len() - pos, 1int,
{
    if pos >= toks.len() {
    } else if toks[pos] == TokenV::CloseBracket {
    } else {
        match toks[pos] {
            TokenV::Ident(key) => {
                if key == "id"@ {
                    if acc.id is None && pos + 1 < toks.len() && toks[pos + 1] == TokenV::Colon
                        && pos + 2 < toks.len() && toks[pos + 2] matches TokenV::Str(_) {
                        match toks[pos + 2] {
                            TokenV::Str(s) => {
                                lemma_section_fields_advances(
                                    toks,
                                    pos + 3,
                                    SectionFieldsV {
                                        id: Some(s),
                                        title: acc.title,
                                        body: acc.body,
                                        children: acc.children,
                                    },
                                );
                            },
                            _ => {},
                        }
                    }
                } else if key == "title"@ {
                    if acc.title is None && pos + 1 < toks.len() && toks[pos + 1]
                        == TokenV::Colon {
                        lemma_inline_advances(toks, pos + 2, Seq::empty());
                        match spec_parse_inline(toks, pos + 2, Seq::empty()) {
                            Err(_) => {},
                            Ok((ts, p2)) => {
                                if pos + 2 <= p2 <= toks.len() {
                                    lemma_section_fields_advances(
                                        toks,
                                        p2,
                                        SectionFieldsV {
                                            id: acc.id,
                                            title: Some(ts),
                                            body: acc.body,
                                            children: acc.children,
                                        },
                                    );
                                }
                            },
                        }
                    }
                } else if key == "body"@ {
                    if acc.body is None && pos + 1 < toks.len() && toks[pos + 1] == TokenV::Colon {
                        lemma_body_advances(toks, pos + 2);
                        match spec_parse_body(toks, pos + 2) {
                            Err(_) => {},
                            Ok((bs, p2)) => {
                                if pos + 2 <= p2 <= toks.len() {
                                    lemma_section_fields_advances(
                                        toks,
                                        p2,
                                        SectionFieldsV {
                                            id: acc.id,
                                            title: acc.title,
                                            body: Some(bs),
                                            children: acc.children,
                                        },
                                    );
                                }
                            },
                        }
                    }
                } else if key == "children"@ {
                    if acc.children is None && pos + 1 < toks.len() && toks[pos + 1]
                        == TokenV::Colon {
                        lemma_sections_advances(toks, pos + 2, Seq::empty());
                        match spec_parse_sections(toks, pos + 2, Seq::empty()) {
                            Err(_) => {},
                            Ok((ss, p2)) => {
                                if pos + 2 <= p2 <= toks.len() {
                                    lemma_section_fields_advances(
                                        toks,
                                        p2,
                                        SectionFieldsV {
                                            id: acc.id,
                                            title: acc.title,
                                            body: acc.body,
                                            children: Some(ss),
                                        },
                                    );
                                }
                            },
                        }
                    }
                }
            },
            _ => {},
        }
    }
}

/// The fields of a page record, an unordered set of `name: value` pairs,
/// each name at most once, until the end of the input.
pub open spec fn spec_parse_page_fields(toks: Seq<TokenV>, pos: int, acc: PageFieldsV) -> Result<
    (PageFieldsV, int),
    ParseError,
>
    decreases toks.len() - pos,
{
    if pos >= toks.len() {
        Ok((acc, pos))
    } else {
        match toks[pos] {
            TokenV::Ident(key) => {
                if key == "title"@ {
                    if acc.title is Some {
                        Err(
                            ParseError {
                                pos: pos as usize,
                                kind: ErrorKind::AlreadyDeclared(FieldName::Title),
                            },
                        )
                    } else if !(pos + 1 < toks.len() && toks[pos + 1] == TokenV::Colon) {
                        Err(
                            ParseError {
                                pos: (pos + 1) as usize,
                                kind: ErrorKind::Expected(Expected::Colon),
                            },
                        )
                    } else if pos + 2 < toks.len() && toks[pos + 2] matches TokenV::Str(_) {
                        match toks[pos + 2] {
                            TokenV::Str(s) => spec_parse_page_fields(
                                toks,
                                pos + 3,
                                PageFieldsV {
                                    title: Some(s),
                                    body: acc.body,
                                    children: acc.children,
                                },
                            ),
                            _ => Err(
                                ParseError {
                                    pos: (pos + 2) as usize,
                                    kind: ErrorKind::Expected(Expected::StringLit),
                                },
                            ),
                        }
                    } else {
                        Err(
                            ParseError {
                                pos: (pos + 2) as usize,
                                kind: ErrorKind::Expected(Expected::StringLit),
                            },
                        )
                    }
                } else if key == "body"@ {
                    if acc.body is Some {
                        Err(
                            ParseError {
                                pos: pos as usize,
                                kind: ErrorKind::AlreadyDeclared(FieldName::Body),
                            },
                        )
                    } else if !(pos + 1 < toks.len() && toks[pos + 1] == TokenV::Colon) {
                        Err(
                            ParseError {
                                pos: (pos + 1) as usize,
                                kind: ErrorKind::Expected(Expected::Colon),
                            },
                        )
                    } else {
                        match spec_parse_body(toks, pos + 2) {
                            Err(e) => Err(e),
                            Ok((bs, p2)) => {
                                if pos + 2 <= p2 <= toks.len() {
                                    spec_parse_page_fields(
                                        toks,
                                        p2,
                                        PageFieldsV {
                                            title: acc.title,
                                            body: Some(bs),
                                            children: acc.children,
                                        },
                                    )
                                } else {
                                    // never reached (lemma_body_advances)
                                    Err(
                                        ParseError {
                                            pos: p2 as usize,
                                            kind: ErrorKind::Expected(Expected::PageField),
                                        },
                                    )
                                }
                            },
                        }
                    }
                } else if key == "children"@ {
                    if acc.children is Some {
                        Err(
                            ParseError {
                                pos: pos as usize,
                                kind: ErrorKind::AlreadyDeclared(FieldName::Children),
                            },
                        )
                    } else if !(pos + 1 < toks.len() && toks[pos + 1] == TokenV::Colon) {
                        Err(
                            ParseError {
                                pos: (pos + 1) as usize,
                                kind: ErrorKind::Expected(Expected::Colon),
                            },
                        )
                    } else {
                        match spec_parse_sections(toks, pos + 2, Seq::empty()) {
                            Err(e) => Err(e),
                            Ok((ss, p2)) => {
                                if pos + 2 <= p2 <= toks.len() {
                                    spec_parse_page_fields(
                                        toks,
                                        p2,
                                        PageFieldsV {
                                            title: acc.title,
                                            body: acc.body,
                                            children: Some(ss),
                                        },
                                    )
                                } else {
                                    // never reached (lemma_sections_advances)
                                    Err(
                                        ParseError {
                                            pos: p2 as usize,
                                            kind: ErrorKind::Expected(Expected::PageField),
                                        },
                                    )
                                }
                            },
                        }
                    }
                } else {
                    Err(
                        ParseError {
                            pos: pos as usize,
                            kind: ErrorKind::Expected(Expected::PageField),
                        },
                    )
                }
            },
            _ => Err(
                ParseError { pos: pos as usize, kind: ErrorKind::Expected(Expected::PageField) },
            ),
        }
    }
}

/// The grammar of a whole page record: its fields until the end of the
/// input, then the check that `title` and `body` each appeared.
pub open spec fn spec_parse_page(toks: Seq<TokenV>, pos: int) -> Result<(PageV, int), ParseError> {
    match spec_parse_page_fields(toks, pos, PageFieldsV { title: None, body: None, children: None }) {
        Err(e) => Err(e),
        Ok((acc, p)) => match acc.title {
            None => Err(ParseError { pos: p as usize, kind: ErrorKind::Missing(FieldName::Title) }),
            Some(title) => match acc.body {
                None => Err(
                    ParseError { pos: p as usize, kind: ErrorKind::Missing(FieldName::Body) },
                ),
                Some(body) => Ok((PageV { title, body, children: acc.children }, p)),
            },
        },
    }
}

/// The accumulator the executable section parser carries, viewed.
pub open spec fn section_fields_of(
    id: Option<String>,
    title: Option<InlineComponent>,
    body: Option<Body>,
    children: Option<Children>,
) -> SectionFieldsV {
    SectionFieldsV {
        id: match id {
            Some(s) => Some(s@),
            None => None,
        },
        title: match title {
            Some(t) => Some(t@),
            None => None,
        },
        body: match body {
            Some(b) => Some(body_view(b)),
            None => None,
        },
        children: match children {
            Some(c) => Some(children_view(c)),
            None => None,
        },
    }
}

/// The accumulator the executable page parser carries, viewed.
pub open spec fn page_fields_of(
    title: Option<String>,
    body: Option<Body>,
    children: Option<Children>,
) -> PageFieldsV {
    PageFieldsV {
        title: match title {
            Some(s) => Some(s@),
            None => None,
        },
        body: match body {
            Some(b) => Some(body_view(b)),
            None => None,
        },
        children: match children {
            Some(c) => Some(children_view(c)),
            None => None,
        },
    }
}

impl Body {
    /// A body can start here.
    pub fn peek(c: &Cursor) -> (r: bool)
        requires
            c.wf(),
        ensures
            r == spec_peek_blocking(c.toks(), c.at()),
    {
        blocking::Component::peek(c)
    }

    /// Parses a body: blocking components separated by `;`, possibly none.
    pub fn parse(c: &mut Cursor) -> (r: Result<Body, ParseError>)
        requires
            old(c).wf(),
        ensures
            final(c).wf(),
            final(c).toks() == old(c).toks(),
            match r {
                Ok(b) => spec_parse_body(old(c).toks(), old(c).at()) == Ok::<
                    (Seq<BlockV>, int),
                    ParseError,
                >((body_view(b), final(c).at())),
                Err(e) => spec_parse_body(old(c).toks(), old(c).at()) == Err::<
                    (Seq<BlockV>, int),
                    ParseError,
                >(e),
            },
        decreases c.toks().len() - c.at(),
    {
        let ghost toks = old(c).toks();
        let ghost pos0 = old(c).at();
        if !blocking::Component::peek(c) {
            let terms: Vec<blocking::Component> = Vec::new();
            proof {
                assert(blocks_view(terms@) =~= Seq::<BlockV>::empty());
            }
            return Ok(Body { terms });
        }
        let mut terms: Vec<blocking::Component> = Vec::new();
        proof {
            assert(blocks_view(terms@) =~= Seq::<BlockV>::empty());
        }
        loop
            invariant
                c.wf(),
                c.toks() == toks,
                toks == old(c).toks(),
                pos0 == old(c).at(),
                pos0 <= c.at(),
                spec_parse_body(toks, pos0) == spec_parse_body_list(
                    toks,
                    c.at(),
                    blocks_view(terms@),
                ),
            decreases toks.len() - c.at(),
        {
            let ghost cur = c.at();
            let ghost accv = blocks_view(terms@);
            match blocking::Component::parse(c) {
                Err(e) => {
                    return Err(e);
                },
                Ok(b) => {
                    proof {
                        lemma_blocking_advances(toks, cur);
                        lemma_blocks_view_push(terms@, b);
                    }
                    terms.push(b);
                    if c.peek_punct(Punct::Semi) {
                        c.advance();
                    } else {
                        return Ok(Body { terms });
                    }
                },
            }
        }
    }
}

impl Children {
    /// A children value continues here: another bracketed section record.
    pub fn peek(c: &Cursor) -> (r: bool)
        requires
            c.wf(),
        ensures
            r == (c.at() < c.toks().len() && c.toks()[c.at()] == TokenV::OpenBracket),
    {
        c.peek_punct(Punct::OpenBracket)
    }

    /// Parses a children value: bracketed section records, zero or more.
    pub fn parse(c: &mut Cursor) -> (r: Result<Children, ParseError>)
        requires
            old(c).wf(),
        ensures
            final(c).wf(),
            final(c).toks() == old(c).toks(),
            match r {
                Ok(cs) => spec_parse_sections(old(c).toks(), old(c).at(), Seq::empty()) == Ok::<
                    (Seq<SectionV>, int),
                    ParseError,
                >((children_view(cs), final(c).at())),
                Err(e) => spec_parse_sections(old(c).toks(), old(c).at(), Seq::empty()) == Err::<
                    (Seq<SectionV>, int),
                    ParseError,
                >(e),
            },
        decreases c.toks().len() - c.at(), 3int,
    {
        let ghost toks = old(c).toks();
        let ghost pos0 = old(c).at();
        let mut sections: Vec<Section> = Vec::new();
        proof {
            assert(sections_view(sections@) =~= Seq::<SectionV>::empty());
        }
        loop
            invariant
                c.wf(),
                c.toks() == toks,
                toks == old(c).toks(),
                pos0 == old(c).at(),
                pos0 <= c.at(),
                spec_parse_sections(toks, pos0, Seq::empty()) == spec_parse_sections(
                    toks,
                    c.at(),
                    sections_view(sections@),
                ),
            decreases toks.len() - c.at(),
        {
            let ghost cur = c.at();
            if !c.peek_punct(Punct::OpenBracket) {
                return Ok(Children { sections });
            }
            c.advance();
            match Section::parse(c) {
                Err(e) => {
                    return Err(e);
                },
                Ok(s) => {
                    proof {
                        lemma_section_advances(toks, cur + 1);
                    }
                    if !c.peek_punct(Punct::CloseBracket) {
                        return Err(
                            ParseError {
                                pos: c.position(),
                                kind: ErrorKind::Expected(Expected::CloseBracket),
                            },
                        );
                    }
                    c.advance();
                    proof {
                        lemma_sections_view_push(sections@, s);
                    }
                    sections.push(s);
                },
            }
        }
    }
}

impl Section {
    /// Parses one section record: fields until `]` or the end, with `id`,
    /// `title` and `body` each required exactly once and `children`
    /// optional; a repeated field and a missing field are errors.
    #[verifier::rlimit(40)]
    pub fn parse(c: &mut Cursor) -> (r: Result<Section, ParseError>)
        requires
            old(c).wf(),
        ensures
            final(c).wf(),
            final(c).toks() == old(c).toks(),
            match r {
                Ok(s) => spec_parse_section(old(c).toks(), old(c).at()) == Ok::<
                    (SectionV, int),
                    ParseError,
                >((s@, final(c).at())),
                Err(e) => spec_parse_section(old(c).toks(), old(c).at()) == Err::<
                    (SectionV, int),
                    ParseError,
                >(e),
            },
        decreases c.toks().len() - c.at(), 2int,
    {
        let ghost toks = old(c).toks();
        let ghost pos0 = old(c).at();
        let mut id: Option<String> = None;
        let mut title: Option<InlineComponent> = None;
        let mut body: Option<Body> = None;
        let mut children: Option<Children> = None;
        loop
            invariant
                c.wf(),
                c.toks() == toks,
                toks == old(c).toks(),
                pos0 == old(c).at(),
                pos0 <= c.at(),
                spec_parse_section_fields(
                    toks,
                    pos0,
                    SectionFieldsV { id: None, title: None, body: None, children: None },
                ) == spec_parse_section_fields(
                    toks,
                    c.at(),
                    section_fields_of(id, title, body, children),
                ),
            decreases toks.len() - c.at(),
        {
            let ghost cur = c.at();
            let ghost accv = section_fields_of(id, title, body, children);
            if c.at_end() || c.peek_punct(Punct::CloseBracket) {
                let end = c.position();
                match id {
                    None => {
                        return Err(
                            ParseError { pos: end, kind: ErrorKind::Missing(FieldName::Id) },
                        );
                    },
                    Some(id_text) => {
                        match title {
                            None => {
                                return Err(
                                    ParseError {
                                        pos: end,
                                        kind: ErrorKind::Missing(FieldName::Title),
                                    },
                                );
                            },
                            Some(title_comp) => {
                                match body {
                                    None => {
                                        return Err(
                                            ParseError {
                                                pos: end,
                                                kind: ErrorKind::Missing(FieldName::Body),
                                            },
                                        );
                                    },
                                    Some(body_val) => {
                                        return Ok(
                                            Section {
                                                id: id_text,
                                                title: title_comp,
                                                body: body_val,
                                                children,
                                            },
                                        );
                                    },
                                }
                            },
                        }
                    },
                }
            }
            let key_pos = c.position();
            match c.next_ident() {
                None => {
                    return Err(
                        ParseError {
                            pos: key_pos,
                            kind: ErrorKind::Expected(Expected::SectionField),
                        },
                    );
                },
                Some(key) => {
                    if str_eq(key.as_str(), IdField::name()) {
                        if id.is_some() {
                            return Err(
                                ParseError {
                                    pos: key_pos,
                                    kind: ErrorKind::AlreadyDeclared(FieldName::Id),
                                },
                            );
                        }
                        if !c.peek_punct(Punct::Colon) {
                            return Err(
                                ParseError {
                                    pos: c.position(),
                                    kind: ErrorKind::Expected(Expected::Colon),
                                },
                            );
                        }
                        c.advance();
                        match c.next_str() {
                            None => {
                                return Err(
                                    ParseError {
                                        pos: c.position(),
                                        kind: ErrorKind::Expected(Expected::StringLit),
                                    },
                                );
                            },
                            Some(s) => {
                                id = Some(s);
                            },
                        }
                    } else if str_eq(key.as_str(), SectionTitleField::name()) {
                        if title.is_some() {
                            return Err(
                                ParseError {
                                    pos: key_pos,
                                    kind: ErrorKind::AlreadyDeclared(FieldName::Title),
                                },
                            );
                        }
                        if !c.peek_punct(Punct::Colon) {
                            return Err(
                                ParseError {
                                    pos: c.position(),
                                    kind: ErrorKind::Expected(Expected::Colon),
                                },
                            );
                        }
                        c.advance();
                        match InlineComponent::parse(c) {
                            Err(e) => {
                                return Err(e);
                            },
                            Ok(t) => {
                                proof {
                                    lemma_inline_advances(toks, cur + 2, Seq::empty());
                                }
                                title = Some(t);
                            },
                        }
                    } else if str_eq(key.as_str(), BodyField::name()) {
                        if body.is_some() {
                            return Err(
                                ParseError {
                                    pos: key_pos,
                                    kind: ErrorKind::AlreadyDeclared(FieldName::Body),
                                },
                            );
                        }
                        if !c.peek_punct(Punct::Colon) {
                            return Err(
                                ParseError {
                                    pos: c.position(),
                                    kind: ErrorKind::Expected(Expected::Colon),
                                },
                            );
                        }
                        c.advance();
                        match Body::parse(c) {
                            Err(e) => {
                                return Err(e);
                            },
                            Ok(b) => {
                                proof {
                                    lemma_body_advances(toks, cur + 2);
                                }
                                body = Some(b);
                            },
                        }
                    } else if str_eq(key.as_str(), ChildrenField::name()) {
                        if children.is_some() {
                            return Err(
                                ParseError {
                                    pos: key_pos,
                                    kind: ErrorKind::AlreadyDeclared(FieldName::Children),
                                },
                            );
                        }
                        if !c.peek_punct(Punct::Colon) {
                            return Err(
                                ParseError {
                                    pos: c.position(),
                                    kind: ErrorKind::Expected(Expected::Colon),
                                },
                            );
                        }
                        c.advance();
                        match Children::parse(c) {
                            Err(e) => {
                                return Err(e);
                            },
                            Ok(cs) => {
                                proof {
                                    lemma_sections_advances(toks, cur + 2, Seq::empty());
                                }
                                children = Some(cs);
                            },
                        }
                    } else {
                        return Err(
                            ParseError {
                                pos: key_pos,
                                kind: ErrorKind::Expected(Expected::SectionField),
                            },
                        );
                    }
                },
            }
        }
    }
}

impl Page {
    /// Parses one page record: fields until the end of the input, with
    /// `title` and `body` each required exactly once and `children`
    /// optional; a repeated field and a missing field are errors.
    #[verifier::rlimit(40)]
    pub fn parse(c: &mut Cursor) -> (r: Result<Page, ParseError>)
        requires
            old(c).wf(),
        ensures
            final(c).wf(),
            final(c).toks() == old(c).toks(),
            match r {
                Ok(p) => spec_parse_page(old(c).toks(), old(c).at()) == Ok::<
                    (PageV, int),
                    ParseError,
                >((p@, final(c).at())),
                Err(e) => spec_parse_page(old(c).toks(), old(c).at()) == Err::<
                    (PageV, int),
                    ParseError,
                >(e),
            },
    {
        let ghost toks = old(c).toks();
        let ghost pos0 = old(c).at();
        let mut title: Option<String> = None;
        let mut body: Option<Body> = None;
        let mut children: Option<Children> = None;
        loop
            invariant
                c.wf(),
                c.toks() == toks,
                toks == old(c).toks(),
                pos0 == old(c).at(),
                pos0 <= c.at(),
                spec_parse_page_fields(
                    toks,
                    pos0,
                    PageFieldsV { title: None, body: None, children: None },
                ) == spec_parse_page_fields(toks, c.at(), page_fields_of(title, body, children)),
            decreases toks.len() - c.at(),
        {
            let ghost cur = c.at();
            let ghost accv = page_fields_of(title, body, children);
            if c.at_end() {
                let end = c.position();
                match title {
                    None => {
                        return Err(
                            ParseError { pos: end, kind: ErrorKind::Missing(FieldName::Title) },
                        );
                    },
                    Some(title_text) => {
                        match body {
                            None => {
                                return Err(
                                    ParseError {
                                        pos: end,
                                        kind: ErrorKind::Missing(FieldName::Body),
                                    },
                                );
                            },
                            Some(body_val) => {
                                return Ok(Page { title: title_text, body: body_val, children });
                            },
                        }
                    },
                }
            }
            let key_pos = c.position();
            match c.next_ident() {
                None => {
                    return Err(
                        ParseError {
                            pos: key_pos,
                            kind: ErrorKind::Expected(Expected::PageField),
                        },
                    );
                },
                Some(key) => {
                    if str_eq(key.as_str(), PageTitleField::name()) {
                        if title.is_some() {
                            return Err(
                                ParseError {
                                    pos: key_pos,
                                    kind: ErrorKind::AlreadyDeclared(FieldName::Title),
                                },
                            );
                        }
                        if !c.peek_punct(Punct::Colon) {
                            return Err(
                                ParseError {
                                    pos: c.position(),
                                    kind: ErrorKind::Expected(Expected::Colon),
                                },
                            );
                        }
                        c.advance();
                        match c.next_str() {
                            None => {
                                return Err(
                                    ParseError {
                                        pos: c.position(),
                                        kind: ErrorKind::Expected(Expected::StringLit),
                                    },
                                );
                            },
                            Some(s) => {
                                title = Some(s);
                            },
                        }
                    } else if str_eq(key.as_str(), BodyField::name()) {
                        if body.is_some() {
                            return Err(
                                ParseError {
                                    pos: key_pos,
                                    kind: ErrorKind::AlreadyDeclared(FieldName::Body),
                                },
                            );
                        }
                        if !c.peek_punct(Punct::Colon) {
                            return Err(
                                ParseError {
                                    pos: c.position(),
                                    kind: ErrorKind::Expected(Expected::Colon),
                                },
                            );
                        }
                        c.advance();
                        match Body::parse(c) {
                            Err(e) => {
                                return Err(e);
                            },
                            Ok(b) => {
                                proof {
                                    lemma_body_advances(toks, cur + 2);
                                }
                                body = Some(b);
                            },
                        }
                    } else if str_eq(key.as_str(), ChildrenField::name()) {
                        if children.is_some() {
                            return Err(
                                ParseError {
                                    pos: key_pos,
                                    kind: ErrorKind::AlreadyDeclared(FieldName::Children),
                                },
                            );
                        }
                        if !c.peek_punct(Punct::Colon) {
                            return Err(
                                ParseError {
                                    pos: c.position(),
                                    kind: ErrorKind::Expected(Expected::Colon),
                                },
                            );
                        }
                        c.advance();
                        match Children::parse(c) {
                            Err(e) => {
                                return Err(e);
                            },
                            Ok(cs) => {
                                proof {
                                    lemma_sections_advances(toks, cur + 2, Seq::empty());
                                }
                                children = Some(cs);
                            },
                        }
                    } else {
                        return Err(
                            ParseError {
                                pos: key_pos,
                                kind: ErrorKind::Expected(Expected::PageField),
                            },
                        );
                    }
                },
            }
        }
    }
}

} // verus!
