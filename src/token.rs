use vstd::prelude::*;

use crate::value::{LoxValue, Val};

verus! {

/// A place in the source text: 1-based line and column.
#[derive(Debug, Clone, Copy, PartialEq, Eq, Structural)]
pub struct Position {
    pub line: usize,
    pub column: usize,
}

impl Position {
    pub fn new(line: usize, column: usize) -> (r: Position)
        ensures
            r.line == line,
            r.column == column,
    {
        Position { line, column }
    }
}

/// The kinds of token that the scanner produces and the parser consumes.
#[derive(Debug, Clone, Copy, PartialEq, Eq, Structural)]
pub enum TokenType {
    LeftParen,
    RightParen,
    LeftBrace,
    RightBrace,
    Comma,
    Dot,
    QuestionMark,
    Minus,
    Plus,
    Colon,
    Semicolon,
    Slash,
    Star,
    Bang,
    BangEqual,
    Equal,
    EqualEqual,
    Greater,
    GreaterEqual,
    Less,
    LessEqual,
    Identifier,
    String,
    Number,
    And,
    Or,
    True,
    False,
    Nil,
    If,
    Else,
    While,
    For,
    Break,
    Continue,
    Fun,
    Class,
    Return,
    Print,
    Super,
    This,
    Var,
    Eof,
}

/// One token: its kind, the value it carries (the number, the string, the
/// boolean, or for an identifier its name as a string) and where it starts.
#[derive(Debug, Clone)]
pub struct Token {
    pub token_type: TokenType,
    pub literal: Option<LoxValue>,
    pub position: Position,
}

/// A token without its executable parts: its type, the value it carries
/// and where it starts.
pub ghost struct TokenView {
    pub token_type: TokenType,
    pub literal: Option<Val>,
    pub position: Position,
}

impl View for Token {
    type V = TokenView;

    open spec fn view(&self) -> TokenView {
        TokenView {
            token_type: self.token_type,
            literal: match self.literal {
                Some(v) => Some(v@),
                None => None,
            },
            position: self.position,
        }
    }
}

pub open spec fn token_views(ts: Seq<Token>) -> Seq<TokenView> {
    ts.map_values(|t: Token| t@)
}

impl Token {
    pub fn new(token_type: TokenType, literal: Option<LoxValue>, position: Position) -> (r: Token)
        ensures
            r.token_type == token_type,
            r.literal == literal,
            r.position == position,
    {
        Token { token_type, literal, position }
    }
}

} // verus!
