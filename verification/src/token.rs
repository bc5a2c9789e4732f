//! Tokens: the smallest lexical units, each with a kind and a source position.

use vstd::prelude::*;

verus! {

/// What a token is. Identifiers, numbers and string literals carry their text;
/// a number is kept as written and only read as a value when code is generated.
#[derive(Debug, PartialEq, Eq)]
pub enum TokenKind {
    Invalid,
    Eof,
    Identifier(String),
    Number(String),
    String(String),
    Log,
    Import,
    Class,
    Func,
    OpenBracket,
    CloseBracket,
    ManualModeDirective,
    AutoModeDirective,
    Colon,
    Semicolon,
    Assign,
    IntType,
    StringType,
}

/// The mathematical value of a [`TokenKind`]: texts are sequences of characters.
pub enum TokenKindView {
    Invalid,
    Eof,
    Identifier(Seq<char>),
    Number(Seq<char>),
    String(Seq<char>),
    Log,
    Import,
    Class,
    Func,
    OpenBracket,
    CloseBracket,
    ManualModeDirective,
    AutoModeDirective,
    Colon,
    Semicolon,
    Assign,
    IntType,
    StringType,
}

impl View for TokenKind {
    type V = TokenKindView;

    open spec fn view(&self) -> TokenKindView {
        match *self {
            TokenKind::Invalid => TokenKindView::Invalid,
            TokenKind::Eof => TokenKindView::Eof,
            TokenKind::Identifier(text) => TokenKindView::Identifier(text@),
            TokenKind::Number(text) => TokenKindView::Number(text@),
            TokenKind::String(text) => TokenKindView::String(text@),
            TokenKind::Log => TokenKindView::Log,
            TokenKind::Import => TokenKindView::Import,
            TokenKind::Class => TokenKindView::Class,
            TokenKind::Func => TokenKindView::Func,
            TokenKind::OpenBracket => TokenKindView::OpenBracket,
            TokenKind::CloseBracket => TokenKindView::CloseBracket,
            TokenKind::ManualModeDirective => TokenKindView::ManualModeDirective,
            TokenKind::AutoModeDirective => TokenKindView::AutoModeDirective,
            TokenKind::Colon => TokenKindView::Colon,
            TokenKind::Semicolon => TokenKindView::Semicolon,
            TokenKind::Assign => TokenKindView::Assign,
            TokenKind::IntType => TokenKindView::IntType,
            TokenKind::StringType => TokenKindView::StringType,
        }
    }
}

impl Clone for TokenKind {
    fn clone(&self) -> (copy: TokenKind)
        ensures
            copy == *self,
    {
        match self {
            TokenKind::Invalid => TokenKind::Invalid,
            TokenKind::Eof => TokenKind::Eof,
            TokenKind::Identifier(text) => TokenKind::Identifier(text.clone()),
            TokenKind::Number(text) => TokenKind::Number(text.clone()),
            TokenKind::String(text) => TokenKind::String(text.clone()),
            TokenKind::Log => TokenKind::Log,
            TokenKind::Import => TokenKind::Import,
            TokenKind::Class => TokenKind::Class,
            TokenKind::Func => TokenKind::Func,
            TokenKind::OpenBracket => TokenKind::OpenBracket,
            TokenKind::CloseBracket => TokenKind::CloseBracket,
            TokenKind::ManualModeDirective => TokenKind::ManualModeDirective,
            TokenKind::AutoModeDirective => TokenKind::AutoModeDirective,
            TokenKind::Colon => TokenKind::Colon,
            TokenKind::Semicolon => TokenKind::Semicolon,
            TokenKind::Assign => TokenKind::Assign,
            TokenKind::IntType => TokenKind::IntType,
            TokenKind::StringType => TokenKind::StringType,
        }
    }
}

/// A token with the position of the cursor once the token had been read:
/// lines and columns count from 1, and a line feed starts a new line at column 1.
#[derive(Debug, PartialEq, Eq)]
pub struct Token {
    pub kind: TokenKind,
    pub line: u32,
    pub column: u32,
}

/// The mathematical value of a [`Token`].
pub struct TokenView {
    pub kind: TokenKindView,
    pub line: u32,
    pub column: u32,
}

impl View for Token {
    type V = TokenView;

    open spec fn view(&self) -> TokenView {
        TokenView { kind: self.kind@, line: self.line, column: self.column }
    }
}

impl Clone for Token {
    fn clone(&self) -> (copy: Token)
        ensures
            copy == *self,
    {
        Token { kind: self.kind.clone(), line: self.line, column: self.column }
    }
}

/// The values of a sequence of tokens, in order.
pub open spec fn token_views(tokens: Seq<Token>) -> Seq<TokenView> {
    Seq::new(tokens.len(), |i: int| tokens[i]@)
}

/// A sequence of tokens that a parser can read: it ends in `Eof`.
pub open spec fn ends_in_eof(tokens: Seq<Token>) -> bool {
    tokens.len() > 0 && tokens.last().kind is Eof
}

} // verus!
