use vstd::prelude::*;

use crate::interpreter::RuntimeError;
use crate::number::{digits, digits_of};
use crate::parser::ParserError;
use crate::token::{Position, TokenType};
use crate::value::ValueKind;

verus! {

/// An error of the whole pipeline: a syntax error bundle or a run-time error.
#[derive(Debug)]
pub enum LoxError {
    Parser(ParserError),
    Runtime(RuntimeError),
}


/// How a position is written: `line L, column C`.
pub open spec fn position_text(p: Position) -> Seq<char> {
    seq!['l', 'i', 'n', 'e', ' '] + digits_of(p.line as nat) + seq![',', ' ', 'c', 'o', 'l', 'u', 'm', 'n', ' ']
        + digits_of(p.column as nat)
}

impl Position {
    /// The position as text.
    pub fn to_text(&self) -> (r: String)
        ensures
            r@ == position_text(*self),
    {
        proof {
            reveal_strlit("line ");
            reveal_strlit(", column ");
        }
        let mut r = String::from_str("line ");
        r.append(digits(self.line as u64).as_str());
        r.append(", column ");
        r.append(digits(self.column as u64).as_str());
        r
    }
}

impl TokenType {
    /// How the token type is named in messages.
    pub fn name(&self) -> &'static str {
        match self {
            TokenType::LeftParen => "(",
            TokenType::RightParen => ")",
            TokenType::LeftBrace => "{",
            TokenType::RightBrace => "}",
            TokenType::Comma => ",",
            TokenType::Dot => ".",
            TokenType::QuestionMark => "?",
            TokenType::Minus => "-",
            TokenType::Plus => "+",
            TokenType::Colon => ":",
            TokenType::Semicolon => ";",
            TokenType::Slash => "/",
            TokenType::Star => "*",
            TokenType::Bang => "!",
            TokenType::BangEqual => "!=",
            TokenType::Equal => "=",
            TokenType::EqualEqual => "==",
            TokenType::Greater => ">",
            TokenType::GreaterEqual => ">=",
            TokenType::Less => "<",
            TokenType::LessEqual => "<=",
            TokenType::Identifier => "IDENTIFIER",
            TokenType::String => "STRING",
            TokenType::Number => "NUMBER",
            TokenType::And => "AND",
            TokenType::Or => "OR",
            TokenType::True => "TRUE",
            TokenType::False => "FALSE",
            TokenType::Nil => "NIL",
            TokenType::If => "IF",
            TokenType::Else => "ELSE",
            TokenType::While => "WHILE",
            TokenType::For => "FOR",
            TokenType::Break => "BREAK",
            TokenType::Continue => "CONTINUE",
            TokenType::Fun => "FUN",
            TokenType::Class => "CLASS",
            TokenType::Return => "RETURN",
            TokenType::Print => "PRINT",
            TokenType::Super => "SUPER",
            TokenType::This => "THIS",
            TokenType::Var => "VAR",
            TokenType::Eof => "EOF",
        }
    }
}

fn kind_name(k: ValueKind) -> &'static str {
    match k {
        ValueKind::Boolean => "boolean",
        ValueKind::Number => "number",
        ValueKind::String => "string",
        ValueKind::Function => "function",
        ValueKind::Nil => "nil",
    }
}

/// The text ends with the position `p` and a full stop.
pub open spec fn ends_with_position(s: Seq<char>, p: Position) -> bool {
    let t = position_text(p) + seq!['.'];
    s.len() >= t.len() && s.subrange(s.len() - t.len(), s.len() as int) == t
}

/// Where an error stands.
pub open spec fn runtime_error_position(e: RuntimeError) -> Position {
    match e {
        RuntimeError::DivisionByZero(p) => p,
        RuntimeError::VarDoesNotExist { position, .. } => position,
        RuntimeError::IncorrectArity { position, .. } => position,
        RuntimeError::NotCallable { position, .. } => position,
        RuntimeError::InvalidBreak(p) => p,
        RuntimeError::InvalidContinue(p) => p,
        RuntimeError::InvalidReturn(p) => p,
        RuntimeError::VarUsedInOwnInitializer(_, p) => p,
        RuntimeError::ExpectedNumber(p) => p,
        RuntimeError::ExpectedBoolean(p) => p,
        RuntimeError::InvalidOperands(p) => p,
        RuntimeError::NumberOutOfRange(p) => p,
        RuntimeError::StackOverflow(p) => p,
        RuntimeError::StepLimitReached(p) => p,
        RuntimeError::UnknownFunction(p) => p,
    }
}

/// `a`, then `b`, then `, ` and the position `p`, then `.`.
fn sentence(a: &str, b: &str, p: &Position) -> (r: String)
    ensures
        ends_with_position(r@, *p),
{
    proof {
        reveal_strlit(", ");
        reveal_strlit(".");
    }
    let ghost pt = position_text(*p);
    let mut r = String::from_str(a);
    r.append(b);
    r.append(", ");
    let ghost before = r@;
    r.append(p.to_text().as_str());
    r.append(".");
    assert(r@ =~= before + (pt + seq!['.']));
    assert(r@.subrange(r@.len() - (pt + seq!['.']).len(), r@.len() as int) =~= pt + seq!['.']);
    r
}

impl RuntimeError {
    /// A human-readable message, ending with the error's position.
    pub fn message(&self) -> (r: String)
        ensures
            ends_with_position(r@, runtime_error_position(*self)),
    {
        match self {
            RuntimeError::DivisionByZero(p) => sentence("Division by zero", "", p),
            RuntimeError::VarDoesNotExist { name, position } => {
                let mut m = String::from_str("Variable '");
                m.append(name.as_str());
                m.append("' isn't declared");
                sentence(m.as_str(), "", position)
            },
            RuntimeError::IncorrectArity { name, position } => {
                let mut m = String::from_str("Incorrect number of arguments to function '");
                m.append(name.as_str());
                m.append("'");
                sentence(m.as_str(), "", position)
            },
            RuntimeError::NotCallable { kind, position } => {
                let mut m = String::from_str("A value of type ");
                m.append(kind_name(*kind));
                m.append(" is not callable");
                sentence(m.as_str(), "", position)
            },
            RuntimeError::InvalidBreak(p) => sentence("'break' can only be used within loops", "", p),
            RuntimeError::InvalidContinue(p) => sentence("'continue' can only be used within loops", "", p),
            RuntimeError::InvalidReturn(p) => sentence("'return' can only be used within functions", "", p),
            RuntimeError::VarUsedInOwnInitializer(name, p) => {
                let mut m = String::from_str("Variable '");
                m.append(name.as_str());
                m.append("' is used in its own initializer");
                sentence(m.as_str(), "", p)
            },
            RuntimeError::ExpectedNumber(p) => sentence("Expected a number", "", p),
            RuntimeError::ExpectedBoolean(p) => sentence("Expected a boolean", "", p),
            RuntimeError::InvalidOperands(p) => sentence("Operator does not apply to these operands", "", p),
            RuntimeError::NumberOutOfRange(p) => sentence("Number out of range", "", p),
            RuntimeError::StackOverflow(p) => sentence("Stack depth exceeded", "", p),
            RuntimeError::StepLimitReached(p) => sentence("Loop step budget exhausted", "", p),
            RuntimeError::UnknownFunction(p) => sentence("Unknown function declaration", "", p),
        }
    }
}

impl ParserError {
    /// A message for one error (a nested bundle is only counted); but for a
    /// bundle, it ends with the error's position.
    fn line(&self) -> (r: String)
        ensures
            match self {
                ParserError::Eof(p) => ends_with_position(r@, *p),
                ParserError::ExpectedClosingBrace(p) => ends_with_position(r@, *p),
                ParserError::UnexpectedToken(_, p) => ends_with_position(r@, *p),
                ParserError::Expected { position, .. } => ends_with_position(r@, *position),
                ParserError::ArgumentLimitReached(p) => ends_with_position(r@, *p),
                ParserError::Bundle(_) => true,
            },
    {
        match self {
            ParserError::Eof(p) => sentence("End of file reached", "", p),
            ParserError::ExpectedClosingBrace(p) => sentence("Expected closing brace", "", p),
            ParserError::UnexpectedToken(t, p) => sentence("Unexpected token ", t.name(), p),
            ParserError::Expected { found, msg, position } => {
                let mut m = msg.clone();
                m.append(", found '");
                m.append(found.name());
                m.append("'");
                sentence(m.as_str(), "", position)
            },
            ParserError::ArgumentLimitReached(p) => sentence("Arguments exceeded the limit of 250", "", p),
            ParserError::Bundle(errors) => {
                let mut r = digits(errors.len() as u64);
                r.append(" syntax errors");
                r
            },
        }
    }

    /// A human-readable message; a bundle gives one line per error. The
    /// message of a single error ends with its position.
    pub fn message(&self) -> (r: String)
        ensures
            match self {
                ParserError::Eof(p) => ends_with_position(r@, *p),
                ParserError::ExpectedClosingBrace(p) => ends_with_position(r@, *p),
                ParserError::UnexpectedToken(_, p) => ends_with_position(r@, *p),
                ParserError::Expected { position, .. } => ends_with_position(r@, *position),
                ParserError::ArgumentLimitReached(p) => ends_with_position(r@, *p),
                ParserError::Bundle(_) => true,
            },
    {
        match self {
            ParserError::Bundle(errors) => {
                let mut r = String::new();
                let mut i: usize = 0;
                while i < errors.len()
                    decreases errors.len() - i,
                {
                    if i > 0 {
                        r.append("\n");
                    }
                    r.append(errors[i].line().as_str());
                    i = i + 1;
                }
                r
            },
            _ => self.line(),
        }
    }
}

impl LoxError {
    /// A human-readable message; a run-time error's ends with its position.
    pub fn message(&self) -> (r: String)
        ensures
            *self matches LoxError::Runtime(e) ==> ends_with_position(r@, runtime_error_position(e)),
    {
        match self {
            LoxError::Parser(e) => e.message(),
            LoxError::Runtime(e) => e.message(),
        }
    }
}

} // verus!
