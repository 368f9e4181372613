use vstd::prelude::*;

use crate::number::{eq_spec, number_text, Number};
use crate::token::TokenType;

verus! {

/// A run-time value of the language.
#[derive(Debug, Clone)]
pub enum LoxValue {
    Boolean(bool),
    Number(Number),
    String(String),
    /// A function value: the index of its entry in the interpreter's table
    /// of callables (its identity), its name, and whether the host supplies
    /// it.
    Function { id: usize, name: String, native: bool },
    Nil,
}

/// The mathematical content of a `LoxValue`.
pub ghost enum Val {
    Boolean(bool),
    Number(Number),
    Str(Seq<char>),
    Function { id: nat, name: Seq<char>, native: bool },
    Nil,
}

/// The kind of a value, as an error reports it.
#[derive(Debug, Clone, Copy, PartialEq, Eq, Structural)]
pub enum ValueKind {
    Boolean,
    Number,
    String,
    Function,
    Nil,
}

impl View for LoxValue {
    type V = Val;

    open spec fn view(&self) -> Val {
        match self {
            LoxValue::Boolean(b) => Val::Boolean(*b),
            LoxValue::Number(n) => Val::Number(*n),
            LoxValue::String(s) => Val::Str(s@),
            LoxValue::Function { id, name, native } => Val::Function {
                id: *id as nat,
                name: name@,
                native: *native,
            },
            LoxValue::Nil => Val::Nil,
        }
    }
}

/// `nil` and `false` are falsy; every other value is truthy.
pub open spec fn truthy(v: Val) -> bool {
    match v {
        Val::Boolean(b) => b,
        Val::Nil => false,
        _ => true,
    }
}

/// Numbers compare by value, strings by content, functions by identity;
/// values of different kinds are never equal.
pub open spec fn values_equal(a: Val, b: Val) -> bool {
    match (a, b) {
        (Val::Boolean(x), Val::Boolean(y)) => x == y,
        (Val::Number(x), Val::Number(y)) => eq_spec(x.frac(), y.frac()),
        (Val::Str(x), Val::Str(y)) => x == y,
        (Val::Function { id: x, .. }, Val::Function { id: y, .. }) => x == y,
        (Val::Nil, Val::Nil) => true,
        _ => false,
    }
}

pub open spec fn kind_of(v: Val) -> ValueKind {
    match v {
        Val::Boolean(_) => ValueKind::Boolean,
        Val::Number(_) => ValueKind::Number,
        Val::Str(_) => ValueKind::String,
        Val::Function { .. } => ValueKind::Function,
        Val::Nil => ValueKind::Nil,
    }
}

/// Every number in the value is in lowest terms and in range.
pub open spec fn val_wf(v: Val) -> bool {
    match v {
        Val::Number(n) => n.wf(),
        _ => true,
    }
}

/// How a value is printed.
pub open spec fn value_text(v: Val) -> Seq<char> {
    match v {
        Val::Boolean(b) => if b {
            seq!['t', 'r', 'u', 'e']
        } else {
            seq!['f', 'a', 'l', 's', 'e']
        },
        Val::Number(n) => number_text(n.num as int, n.den as int),
        Val::Str(s) => s,
        Val::Function { name, native, .. } => if native {
            seq!['<', 'n', 'a', 't', 'i', 'v', 'e', ' ', 'f', 'u', 'n', ' '] + name + seq!['>']
        } else {
            seq!['<', 'f', 'u', 'n', ' '] + name + seq!['>']
        },
        Val::Nil => seq!['n', 'i', 'l'],
    }
}

/// The type of the token that writes a value of this kind.
pub open spec fn token_type_of(v: Val) -> TokenType {
    match v {
        Val::Number(_) => TokenType::Number,
        Val::Str(_) => TokenType::String,
        Val::Boolean(true) => TokenType::True,
        Val::Boolean(false) => TokenType::False,
        Val::Function { .. } => TokenType::Fun,
        Val::Nil => TokenType::Nil,
    }
}

impl LoxValue {
    pub open spec fn wf(&self) -> bool {
        val_wf(self@)
    }

    /// The type of the token that writes this value.
    pub fn get_token_type(&self) -> (r: TokenType)
        ensures
            r == token_type_of(self@),
    {
        match self {
            LoxValue::Number(_) => TokenType::Number,
            LoxValue::String(_) => TokenType::String,
            LoxValue::Boolean(true) => TokenType::True,
            LoxValue::Boolean(false) => TokenType::False,
            LoxValue::Function { .. } => TokenType::Fun,
            LoxValue::Nil => TokenType::Nil,
        }
    }

    /// Whether the value is well formed (a number in range).
    pub fn check_wf(&self) -> (r: bool)
        ensures
            r == self.wf(),
    {
        match self {
            LoxValue::Number(n) => n.num >= -crate::number::NUM_MAX && n.den >= 1,
            _ => true,
        }
    }

    /// The truthiness of the value.
    pub fn is_truthy(&self) -> (r: bool)
        ensures
            r == truthy(self@),
    {
        match self {
            LoxValue::Boolean(b) => *b,
            LoxValue::Nil => false,
            _ => true,
        }
    }

    pub fn is_nil(&self) -> (r: bool)
        ensures
            r == (self@ == Val::Nil),
    {
        match self {
            LoxValue::Nil => true,
            _ => false,
        }
    }

    pub fn kind(&self) -> (r: ValueKind)
        ensures
            r == kind_of(self@),
    {
        match self {
            LoxValue::Boolean(_) => ValueKind::Boolean,
            LoxValue::Number(_) => ValueKind::Number,
            LoxValue::String(_) => ValueKind::String,
            LoxValue::Function { .. } => ValueKind::Function,
            LoxValue::Nil => ValueKind::Nil,
        }
    }

    /// Structural equality of two values.
    pub fn equals(&self, other: &LoxValue) -> (r: bool)
        requires
            self.wf(),
            other.wf(),
        ensures
            r == values_equal(self@, other@),
    {
        match (self, other) {
            (LoxValue::Boolean(x), LoxValue::Boolean(y)) => *x == *y,
            (LoxValue::Number(x), LoxValue::Number(y)) => x.num_eq(y),
            (LoxValue::String(x), LoxValue::String(y)) => *x == *y,
            (LoxValue::Function { id: x, .. }, LoxValue::Function { id: y, .. }) => *x == *y,
            (LoxValue::Nil, LoxValue::Nil) => true,
            _ => false,
        }
    }

    /// A copy of the value.
    pub fn copy(&self) -> (r: LoxValue)
        ensures
            r@ == self@,
    {
        match self {
            LoxValue::Boolean(b) => LoxValue::Boolean(*b),
            LoxValue::Number(n) => LoxValue::Number(*n),
            LoxValue::String(s) => LoxValue::String(s.clone()),
            LoxValue::Function { id, name, native } => LoxValue::Function {
                id: *id,
                name: name.clone(),
                native: *native,
            },
            LoxValue::Nil => LoxValue::Nil,
        }
    }

    /// The value as `print` writes it.
    pub fn to_string(&self) -> (r: String)
        requires
            self.wf(),
        ensures
            r@ == value_text(self@),
    {
        match self {
            LoxValue::Boolean(b) => {
                proof {
                    reveal_strlit("true");
                    reveal_strlit("false");
                }
                if *b {
                    String::from_str("true")
                } else {
                    String::from_str("false")
                }
            },
            LoxValue::Number(n) => n.to_text(),
            LoxValue::String(s) => s.clone(),
            LoxValue::Function { name, native, .. } => {
                proof {
                    reveal_strlit("<native fun ");
                    reveal_strlit("<fun ");
                    reveal_strlit(">");
                }
                let mut s = if *native {
                    String::from_str("<native fun ")
                } else {
                    String::from_str("<fun ")
                };
                s.append(name.as_str());
                s.append(">");
                s
            },
            LoxValue::Nil => {
                proof {
                    reveal_strlit("nil");
                }
                String::from_str("nil")
            },
        }
    }
}

} // verus!
