use vstd::prelude::*;

use crate::error::LineInfo;

verus! {

/// The lexeme kinds the lexer can produce.
#[derive(Debug, Clone, PartialEq, Eq)]
pub enum TokenType {
    Number(i64),
    Str(Vec<char>),
    Identifier(Vec<char>),
    True,
    False,
    Nil,
    Var,
    If,
    Else,
    While,
    Fn,
    Return,
    LeftParen,
    RightParen,
    LeftBrace,
    RightBrace,
    Comma,
    Semicolon,
    Plus,
    Minus,
    Star,
    Slash,
    Bang,
    BangEqual,
    Equal,
    EqualEqual,
    Greater,
    GreaterEqual,
    Less,
    LessEqual,
    AndAnd,
    OrOr,
    Eof,
}

/// Mathematical model of a lexeme kind.
#[verifier::ext_equal]
pub enum TokM {
    Number(i64),
    Str(Seq<char>),
    Identifier(Seq<char>),
    True,
    False,
    Nil,
    Var,
    If,
    Else,
    While,
    Fn,
    Return,
    LeftParen,
    RightParen,
    LeftBrace,
    RightBrace,
    Comma,
    Semicolon,
    Plus,
    Minus,
    Star,
    Slash,
    Bang,
    BangEqual,
    Equal,
    EqualEqual,
    Greater,
    GreaterEqual,
    Less,
    LessEqual,
    AndAnd,
    OrOr,
    Eof,
}

impl View for TokenType {
    type V = TokM;

    open spec fn view(&self) -> TokM {
        match self {
            TokenType::Number(n) => TokM::Number(*n),
            TokenType::Str(s) => TokM::Str(s@),
            TokenType::Identifier(s) => TokM::Identifier(s@),
            TokenType::True => TokM::True,
            TokenType::False => TokM::False,
            TokenType::Nil => TokM::Nil,
            TokenType::Var => TokM::Var,
            TokenType::If => TokM::If,
            TokenType::Else => TokM::Else,
            TokenType::While => TokM::While,
            TokenType::Fn => TokM::Fn,
            TokenType::Return => TokM::Return,
            TokenType::LeftParen => TokM::LeftParen,
            TokenType::RightParen => TokM::RightParen,
            TokenType::LeftBrace => TokM::LeftBrace,
            TokenType::RightBrace => TokM::RightBrace,
            TokenType::Comma => TokM::Comma,
            TokenType::Semicolon => TokM::Semicolon,
            TokenType::Plus => TokM::Plus,
            TokenType::Minus => TokM::Minus,
            TokenType::Star => TokM::Star,
            TokenType::Slash => TokM::Slash,
            TokenType::Bang => TokM::Bang,
            TokenType::BangEqual => TokM::BangEqual,
            TokenType::Equal => TokM::Equal,
            TokenType::EqualEqual => TokM::EqualEqual,
            TokenType::Greater => TokM::Greater,
            TokenType::GreaterEqual => TokM::GreaterEqual,
            TokenType::Less => TokM::Less,
            TokenType::LessEqual => TokM::LessEqual,
            TokenType::AndAnd => TokM::AndAnd,
            TokenType::OrOr => TokM::OrOr,
            TokenType::Eof => TokM::Eof,
        }
    }
}

/// Mathematical model of a token: its kind and its 1-based position.
#[verifier::ext_equal]
pub struct TokenM {
    pub kind: TokM,
    pub info: LineInfo,
}

/// A token: a classified lexeme with the position where it starts.
#[derive(Debug, Clone, PartialEq, Eq)]
pub struct Token {
    pub ttype: TokenType,
    pub info: LineInfo,
}

impl View for Token {
    type V = TokenM;

    open spec fn view(&self) -> TokenM {
        TokenM { kind: self.ttype@, info: self.info }
    }
}

impl Token {
    pub fn new(ttype: TokenType, info: LineInfo) -> (r: Self)
        ensures
            r@ == (TokenM { kind: ttype@, info }),
    {
        Self { ttype, info }
    }
}

/// The view of a token sequence, element by element.
pub open spec fn toks_vm(s: Seq<Token>) -> Seq<TokenM> {
    s.map_values(|t: Token| t@)
}

} // verus!
