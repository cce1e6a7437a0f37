use vstd::prelude::*;
use crate::literal::{Literal, LiteralValue};
use crate::token_type::{TokenKind, TokenType};

verus! {

/// One classified, positioned unit of the source.
#[derive(Debug, Clone, PartialEq)]
pub struct Token {
    token_type: TokenType,
    lexeme: String,
    line: usize,
}

/// The mathematical value of a `Token`.
/// The literal value that a token of `kind` carries, if any.
pub open spec fn literal_of(kind: TokenKind) -> Option<LiteralValue> {
    match kind {
        TokenKind::Number(s) => Some(LiteralValue::Number(s)),
        TokenKind::Str(s) => Some(LiteralValue::Str(s)),
        TokenKind::True => Some(LiteralValue::Boolean(true)),
        TokenKind::False => Some(LiteralValue::Boolean(false)),
        TokenKind::Nil => Some(LiteralValue::Nil),
        _ => None,
    }
}

pub struct TokenView {
    pub kind: TokenKind,
    pub lexeme: Seq<char>,
    pub line: nat,
}

impl View for Token {
    type V = TokenView;

    closed spec fn view(&self) -> TokenView {
        TokenView { kind: self.token_type@, lexeme: self.lexeme@, line: self.line as nat }
    }
}

impl Token {
    pub fn new(token_type: TokenType, lexeme: String, line: usize) -> (r: Token)
        ensures
            r@ == (TokenView { kind: token_type@, lexeme: lexeme@, line: line as nat }),
    {
        Token { token_type, lexeme, line }
    }

    /// The end-of-input token: empty lexeme, on the given line.
    pub fn eof(line: usize) -> (r: Token)
        ensures
            r@ == (TokenView { kind: TokenKind::Eof, lexeme: Seq::<char>::empty(), line: line as nat }),
    {
        Token::new(TokenType::Eof, String::new(), line)
    }

    pub fn token_type(&self) -> (r: &TokenType)
        ensures
            r@ == self@.kind,
    {
        &self.token_type
    }

    pub fn lexeme(&self) -> (r: &str)
        ensures
            r@ == self@.lexeme,
    {
        self.lexeme.as_str()
    }

    pub fn line(&self) -> (r: usize)
        ensures
            r as nat == self@.line,
    {
        self.line
    }

    /// The literal value of a number, string, `true`, `false` or `nil` token.
    pub fn literal(&self) -> (r: Option<Literal>)
        ensures
            match r {
                Some(l) => literal_of(self@.kind) == Some(l@),
                None => literal_of(self@.kind) is None,
            },
    {
        match &self.token_type {
            TokenType::Number(s) => Some(Literal::Number(s.clone())),
            TokenType::String(s) => Some(Literal::String(s.clone())),
            TokenType::True => Some(Literal::Boolean(true)),
            TokenType::False => Some(Literal::Boolean(false)),
            TokenType::Nil => Some(Literal::Nil),
            _ => None,
        }
    }
}

} // verus!
