//! Tokens of the markup language and the cursor the parser reads them
//! through.

use vstd::prelude::*;

use crate::text::str_eq;

verus! {

/// One lexical unit of the markup language.
#[derive(Debug, PartialEq, Eq)]
pub enum Token {
    /// An identifier: a keyword such as `p` or `img`, or a field name.
    Ident(String),
    /// A string literal's content.
    Str(String),
    /// `:` between a field name and its value.
    Colon,
    /// `;` between blocking components of a body.
    Semi,
    /// `/` starting an internal location.
    Slash,
    /// `@` starting a URL location.
    At,
    /// `$` starting a host-expression slot.
    Dollar,
    /// `(` opening an inline group.
    OpenParen,
    /// `)` closing an inline group.
    CloseParen,
    /// `[` opening a section record or a slot payload.
    OpenBracket,
    /// `]` closing a section record or a slot payload.
    CloseBracket,
}

/// The mathematical content of a token.
pub enum TokenV {
    Ident(Seq<char>),
    Str(Seq<char>),
    Colon,
    Semi,
    Slash,
    At,
    Dollar,
    OpenParen,
    CloseParen,
    OpenBracket,
    CloseBracket,
}

impl View for Token {
    type V = TokenV;

    open spec fn view(&self) -> TokenV {
        match self {
            Token::Ident(s) => TokenV::Ident(s@),
            Token::Str(s) => TokenV::Str(s@),
            Token::Colon => TokenV::Colon,
            Token::Semi => TokenV::Semi,
            Token::Slash => TokenV::Slash,
            Token::At => TokenV::At,
            Token::Dollar => TokenV::Dollar,
            Token::OpenParen => TokenV::OpenParen,
            Token::CloseParen => TokenV::CloseParen,
            Token::OpenBracket => TokenV::OpenBracket,
            Token::CloseBracket => TokenV::CloseBracket,
        }
    }
}

impl Clone for Token {
    fn clone(&self) -> (r: Self)
        ensures
            r@ == self@,
    {
        match self {
            Token::Ident(s) => Token::Ident(s.clone()),
            Token::Str(s) => Token::Str(s.clone()),
            Token::Colon => Token::Colon,
            Token::Semi => Token::Semi,
            Token::Slash => Token::Slash,
            Token::At => Token::At,
            Token::Dollar => Token::Dollar,
            Token::OpenParen => Token::OpenParen,
            Token::CloseParen => Token::CloseParen,
            Token::OpenBracket => Token::OpenBracket,
            Token::CloseBracket => Token::CloseBracket,
        }
    }
}

/// A punctuation or delimiter kind, for peeking.
#[derive(Debug, Clone, Copy, PartialEq, Eq)]
pub enum Punct {
    Colon,
    Semi,
    Slash,
    At,
    Dollar,
    OpenParen,
    CloseParen,
    OpenBracket,
    CloseBracket,
}

/// The token a punctuation kind stands for.
pub open spec fn punct_view(p: Punct) -> TokenV {
    match p {
        Punct::Colon => TokenV::Colon,
        Punct::Semi => TokenV::Semi,
        Punct::Slash => TokenV::Slash,
        Punct::At => TokenV::At,
        Punct::Dollar => TokenV::Dollar,
        Punct::OpenParen => TokenV::OpenParen,
        Punct::CloseParen => TokenV::CloseParen,
        Punct::OpenBracket => TokenV::OpenBracket,
        Punct::CloseBracket => TokenV::CloseBracket,
    }
}

/// The mathematical content of a token list.
pub open spec fn toks_of(tokens: Seq<Token>) -> Seq<TokenV> {
    Seq::new(tokens.len(), |i: int| tokens[i]@)
}

/// A token cursor: a fixed token sequence, a position that only moves
/// forward, non-destructive peeks and consume-and-advance reads.
#[derive(Debug)]
pub struct Cursor {
    tokens: Vec<Token>,
    pos: usize,
}

impl Cursor {
    /// The mathematical content of the cursor's tokens.
    pub closed spec fn toks(&self) -> Seq<TokenV> {
        toks_of(self.tokens@)
    }

    /// The current position.
    pub closed spec fn at(&self) -> int {
        self.pos as int
    }

    /// The position never passes the end of the tokens, and the tokens
    /// are addressable: their number fits a `usize`.
    pub open spec fn wf(&self) -> bool {
        0 <= self.at() <= self.toks().len() && self.toks().len() <= usize::MAX
    }

    /// A cursor at the start of the given tokens.
    pub fn new(tokens: Vec<Token>) -> (r: Cursor)
        ensures
            r.toks() == toks_of(tokens@),
            r.at() == 0,
            r.wf(),
    {
        proof {
            assert(tokens.len() == tokens@.len());
        }
        Cursor { tokens, pos: 0 }
    }

    /// The current position, as an index into the tokens.
    pub fn position(&self) -> (r: usize)
        ensures
            r as int == self.at(),
    {
        self.pos
    }

    /// Whether every token has been consumed.
    pub fn at_end(&self) -> (r: bool)
        requires
            self.wf(),
        ensures
            r == (self.at() == self.toks().len()),
    {
        self.pos == self.tokens.len()
    }

    /// Peeks whether the next token is the given punctuation.
    pub fn peek_punct(&self, p: Punct) -> (r: bool)
        requires
            self.wf(),
        ensures
            r == (self.at() < self.toks().len() && self.toks()[self.at()] == punct_view(p)),
    {
        if self.pos < self.tokens.len() {
            match (&self.tokens[self.pos], p) {
                (Token::Colon, Punct::Colon) => true,
                (Token::Semi, Punct::Semi) => true,
                (Token::Slash, Punct::Slash) => true,
                (Token::At, Punct::At) => true,
                (Token::Dollar, Punct::Dollar) => true,
                (Token::OpenParen, Punct::OpenParen) => true,
                (Token::CloseParen, Punct::CloseParen) => true,
                (Token::OpenBracket, Punct::OpenBracket) => true,
                (Token::CloseBracket, Punct::CloseBracket) => true,
                _ => false,
            }
        } else {
            false
        }
    }

    /// Peeks whether the next token is an identifier equal to `kw`.
    pub fn peek_ident_eq(&self, kw: &str) -> (r: bool)
        requires
            self.wf(),
        ensures
            r == (self.at() < self.toks().len() && self.toks()[self.at()] == TokenV::Ident(kw@)),
    {
        if self.pos < self.tokens.len() {
            match &self.tokens[self.pos] {
                Token::Ident(s) => str_eq(s.as_str(), kw),
                _ => false,
            }
        } else {
            false
        }
    }

    /// Peeks whether the next token is any identifier.
    pub fn peek_ident(&self) -> (r: bool)
        requires
            self.wf(),
        ensures
            r == (self.at() < self.toks().len() && self.toks()[self.at()] matches TokenV::Ident(
                _,
            )),
    {
        if self.pos < self.tokens.len() {
            match &self.tokens[self.pos] {
                Token::Ident(_) => true,
                _ => false,
            }
        } else {
            false
        }
    }

    /// Peeks whether the next token is a string literal.
    pub fn peek_str(&self) -> (r: bool)
        requires
            self.wf(),
        ensures
            r == (self.at() < self.toks().len() && self.toks()[self.at()] matches TokenV::Str(_)),
    {
        if self.pos < self.tokens.len() {
            match &self.tokens[self.pos] {
                Token::Str(_) => true,
                _ => false,
            }
        } else {
            false
        }
    }

    /// Consumes one token without reading it.
    pub fn advance(&mut self)
        requires
            old(self).wf(),
            old(self).at() < old(self).toks().len(),
        ensures
            final(self).wf(),
            final(self).toks() == old(self).toks(),
            final(self).at() == old(self).at() + 1,
    {
        let n = self.tokens.len();
        proof {
            assert(self.pos < n);
        }
        self.pos = self.pos + 1;
    }

    /// Consumes and returns an identifier's text; leaves the cursor alone
    /// when the next token is no identifier.
    pub fn next_ident(&mut self) -> (r: Option<String>)
        requires
            old(self).wf(),
        ensures
            final(self).toks() == old(self).toks(),
            final(self).wf(),
            match r {
                Some(s) => {
                    &&& old(self).at() < old(self).toks().len()
                    &&& old(self).toks()[old(self).at()] == TokenV::Ident(s@)
                    &&& final(self).at() == old(self).at() + 1
                },
                None => {
                    &&& final(self).at() == old(self).at()
                    &&& !(old(self).at() < old(self).toks().len() && old(self).toks()[old(
                        self,
                    ).at()] matches TokenV::Ident(_))
                },
            },
    {
        if self.pos < self.tokens.len() {
            match &self.tokens[self.pos] {
                Token::Ident(s) => {
                    let text = s.clone();
                    self.pos = self.pos + 1;
                    Some(text)
                },
                _ => None,
            }
        } else {
            None
        }
    }

    /// Consumes and returns a string literal's content; leaves the cursor
    /// alone when the next token is no string literal.
    pub fn next_str(&mut self) -> (r: Option<String>)
        requires
            old(self).wf(),
        ensures
            final(self).toks() == old(self).toks(),
            final(self).wf(),
            match r {
                Some(s) => {
                    &&& old(self).at() < old(self).toks().len()
                    &&& old(self).toks()[old(self).at()] == TokenV::Str(s@)
                    &&& final(self).at() == old(self).at() + 1
                },
                None => {
                    &&& final(self).at() == old(self).at()
                    &&& !(old(self).at() < old(self).toks().len() && old(self).toks()[old(
                        self,
                    ).at()] matches TokenV::Str(_))
                },
            },
    {
        if self.pos < self.tokens.len() {
            match &self.tokens[self.pos] {
                Token::Str(s) => {
                    let text = s.clone();
                    self.pos = self.pos + 1;
                    Some(text)
                },
                _ => None,
            }
        } else {
            None
        }
    }

    /// Consumes and returns a copy of the next token, whatever it is.
    pub fn next_token(&mut self) -> (r: Option<Token>)
        requires
            old(self).wf(),
        ensures
            final(self).toks() == old(self).toks(),
            final(self).wf(),
            match r {
                Some(t) => {
                    &&& old(self).at() < old(self).toks().len()
                    &&& t@ == old(self).toks()[old(self).at()]
                    &&& final(self).at() == old(self).at() + 1
                },
                None => {
                    &&& final(self).at() == old(self).at()
                    &&& old(self).at() == old(self).toks().len()
                },
            },
    {
        if self.pos < self.tokens.len() {
            let t = self.tokens[self.pos].clone();
            self.pos = self.pos + 1;
            Some(t)
        } else {
            None
        }
    }
}

} // verus!
