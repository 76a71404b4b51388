//! Tokens, and what a token is to the specification.
use vstd::prelude::*;

verus! {

/// One piece of the input. Each variant carries the bytes it was cut from,
/// delimiters included, borrowed from the input.
#[derive(Debug, PartialEq, Eq)]
pub enum Token<'a> {
    /// Text between markup.
    Span(&'a [u8]),
    /// An entity reference: `&...;`.
    Entity(&'a [u8]),
    /// A construct that is malformed or never closed: all that was left of
    /// the input.
    Error(&'a [u8]),
    /// A processing instruction: `<? ... ?>`.
    PI(&'a [u8]),
    /// A comment: `<!-- ... -->`.
    Comment(&'a [u8]),
    /// A declaration such as `<!DOCTYPE ... >`, up to its `>` or to the `[`
    /// that opens an internal subset.
    Decl(&'a [u8]),
    /// The end of an internal subset: `]>`.
    DeclEnd(&'a [u8]),
    /// A start tag: `< ... >`.
    Element(&'a [u8]),
    /// An end tag: `</ ... >`.
    ElementEnd(&'a [u8]),
}

impl<'a> Clone for Token<'a> {
    /// A token is a kind and a borrowed slice: its clone is the same token.
    fn clone(&self) -> (token: Self)
        ensures
            token == *self,
    {
        match *self {
            Token::Span(s) => Token::Span(s),
            Token::Entity(s) => Token::Entity(s),
            Token::Error(s) => Token::Error(s),
            Token::PI(s) => Token::PI(s),
            Token::Comment(s) => Token::Comment(s),
            Token::Decl(s) => Token::Decl(s),
            Token::DeclEnd(s) => Token::DeclEnd(s),
            Token::Element(s) => Token::Element(s),
            Token::ElementEnd(s) => Token::ElementEnd(s),
        }
    }
}

/// Which construct a token is.
pub enum Kind {
    Span,
    Entity,
    Error,
    PI,
    Comment,
    Decl,
    DeclEnd,
    Element,
    ElementEnd,
}

/// A token as the specification sees it: its kind and its bytes.
pub struct Lexeme {
    pub kind: Kind,
    pub bytes: Seq<u8>,
}

impl<'a> View for Token<'a> {
    type V = Lexeme;

    open spec fn view(&self) -> Lexeme {
        match *self {
            Token::Span(s) => Lexeme { kind: Kind::Span, bytes: s@ },
            Token::Entity(s) => Lexeme { kind: Kind::Entity, bytes: s@ },
            Token::Error(s) => Lexeme { kind: Kind::Error, bytes: s@ },
            Token::PI(s) => Lexeme { kind: Kind::PI, bytes: s@ },
            Token::Comment(s) => Lexeme { kind: Kind::Comment, bytes: s@ },
            Token::Decl(s) => Lexeme { kind: Kind::Decl, bytes: s@ },
            Token::DeclEnd(s) => Lexeme { kind: Kind::DeclEnd, bytes: s@ },
            Token::Element(s) => Lexeme { kind: Kind::Element, bytes: s@ },
            Token::ElementEnd(s) => Lexeme { kind: Kind::ElementEnd, bytes: s@ },
        }
    }
}

/// The tokens of a list as the specification sees them.
pub open spec fn lexemes(tokens: Seq<Token<'_>>) -> Seq<Lexeme> {
    Seq::new(tokens.len(), |i: int| tokens[i]@)
}

} // verus!
