use vstd::prelude::*;

use crate::ast::{ExprView, FunView, StmtView};
use crate::parser::MAX_ARGUMENTS;
use crate::token::{TokenType, TokenView};
use crate::value::Val;

verus! {

/// Whether token `i` of `t` is of type `k`; the last token (the end of
/// file) matches nothing.
pub open spec fn at(t: Seq<TokenView>, i: nat, k: TokenType) -> bool {
    i + 1 < t.len() && t[i as int].token_type == k
}

/// The expression grammar. Each rule, given the tokens and a position,
/// yields the tree it parses and the position after it, or `None` for a
/// syntax error.
///
/// primary -> NUMBER | STRING | "true" | "false" | "nil" | "(" expression ")" | IDENTIFIER
pub closed spec fn g_primary(t: Seq<TokenView>, i: nat) -> Option<(ExprView, nat)>
    decreases t.len() - i, 1nat,
{
    if at(t, i, TokenType::True) {
        Some((ExprView::Literal(Val::Boolean(true)), i + 1))
    } else if at(t, i, TokenType::False) {
        Some((ExprView::Literal(Val::Boolean(false)), i + 1))
    } else if at(t, i, TokenType::Nil) {
        Some((ExprView::Literal(Val::Nil), i + 1))
    } else if at(t, i, TokenType::Number) || at(t, i, TokenType::String) {
        match t[i as int].literal {
            Some(v) => Some((ExprView::Literal(v), i + 1)),
            None => None,
        }
    } else if at(t, i, TokenType::LeftParen) {
        match g_expression(t, i + 1) {
            Some((e, j)) => if at(t, j, TokenType::RightParen) {
                Some((ExprView::Grouping(Box::new(e)), j + 1))
            } else {
                None
            },
            None => None,
        }
    } else if at(t, i, TokenType::Identifier) {
        match t[i as int].literal {
            Some(Val::Str(name)) => Some((ExprView::Identifier(name, i), i + 1)),
            _ => None,
        }
    } else {
        None
    }
}

/// arguments -> expression ( "," expression )*, at most `MAX_ARGUMENTS`
pub closed spec fn g_arguments(t: Seq<TokenView>, i: nat) -> Option<(Seq<ExprView>, nat)>
    decreases t.len() - i, 13nat,
{
    match g_expression(t, i) {
        Some((e, j)) => if i < j && j <= t.len() {
            g_arguments_rest(t, j, seq![e])
        } else {
            None
        },
        None => None,
    }
}

pub closed spec fn g_arguments_rest(t: Seq<TokenView>, j: nat, acc: Seq<ExprView>) -> Option<(Seq<ExprView>, nat)>
    decreases t.len() - j, 13nat,
{
    if at(t, j, TokenType::Comma) {
        match g_expression(t, j + 1) {
            Some((e, k)) => if j < k && k <= t.len() {
                g_arguments_rest(t, k, acc.push(e))
            } else {
                None
            },
            None => None,
        }
    } else if acc.len() > MAX_ARGUMENTS {
        None
    } else {
        Some((acc, j))
    }
}

/// An argument list from `j` as the grammar reads it, but with no cap on
/// its length.
pub open spec fn g_arguments_uncapped(t: Seq<TokenView>, j: nat, acc: Seq<ExprView>) -> Option<(Seq<ExprView>, nat)>
    decreases t.len() - j,
{
    if at(t, j, TokenType::Comma) {
        match g_expression(t, j + 1) {
            Some((e, k)) => if j < k && k <= t.len() {
                g_arguments_uncapped(t, k, acc.push(e))
            } else {
                None
            },
            None => None,
        }
    } else {
        Some((acc, j))
    }
}

/// call -> primary ( "(" arguments? ")" )*
pub closed spec fn g_call(t: Seq<TokenView>, i: nat) -> Option<(ExprView, nat)>
    decreases t.len() - i, 2nat,
{
    match g_primary(t, i) {
        Some((e, j)) => if i < j && j <= t.len() {
            g_call_rest(t, j, e)
        } else {
            None
        },
        None => None,
    }
}

pub closed spec fn g_call_rest(t: Seq<TokenView>, j: nat, callee: ExprView) -> Option<(ExprView, nat)>
    decreases t.len() - j, 2nat,
{
    if at(t, j, TokenType::LeftParen) {
        if at(t, j + 1, TokenType::RightParen) {
            g_call_rest(t, j + 2, ExprView::Call(Box::new(callee), Seq::empty()))
        } else {
            match g_arguments(t, j + 1) {
                Some((args, k)) => if j < k && at(t, k, TokenType::RightParen) {
                    g_call_rest(t, k + 1, ExprView::Call(Box::new(callee), args))
                } else {
                    None
                },
                None => None,
            }
        }
    } else {
        Some((callee, j))
    }
}

/// unary -> ( "!" | "-" ) unary | call
pub closed spec fn g_unary(t: Seq<TokenView>, i: nat) -> Option<(ExprView, nat)>
    decreases t.len() - i, 3nat,
{
    if at(t, i, TokenType::Bang) || at(t, i, TokenType::Minus) {
        match g_unary(t, i + 1) {
            Some((e, j)) => Some((ExprView::Unary(t[i as int].token_type, Box::new(e)), j)),
            None => None,
        }
    } else {
        g_call(t, i)
    }
}

pub closed spec fn g_factor(t: Seq<TokenView>, i: nat) -> Option<(ExprView, nat)>
    decreases t.len() - i, 4nat,
{
    match g_unary(t, i) {
        Some((e, j)) => if i < j && j <= t.len() {
            g_factor_rest(t, j, e)
        } else {
            None
        },
        None => None,
    }
}

/// Left-associative: each operand after an operator of this level joins the
/// tree built so far.
pub closed spec fn g_factor_rest(t: Seq<TokenView>, j: nat, lhs: ExprView) -> Option<(ExprView, nat)>
    decreases t.len() - j, 4nat,
{
    if at(t, j, TokenType::Slash) || at(t, j, TokenType::Star) {
        match g_unary(t, j + 1) {
            Some((r, k)) => if j < k && k <= t.len() {
                g_factor_rest(t, k, ExprView::Binary(Box::new(lhs), t[j as int].token_type, Box::new(r)))
            } else {
                None
            },
            None => None,
        }
    } else {
        Some((lhs, j))
    }
}

pub closed spec fn g_term(t: Seq<TokenView>, i: nat) -> Option<(ExprView, nat)>
    decreases t.len() - i, 5nat,
{
    match g_factor(t, i) {
        Some((e, j)) => if i < j && j <= t.len() {
            g_term_rest(t, j, e)
        } else {
            None
        },
        None => None,
    }
}

/// Left-associative: each operand after an operator of this level joins the
/// tree built so far.
pub closed spec fn g_term_rest(t: Seq<TokenView>, j: nat, lhs: ExprView) -> Option<(ExprView, nat)>
    decreases t.len() - j, 5nat,
{
    if at(t, j, TokenType::Minus) || at(t, j, TokenType::Plus) {
        match g_factor(t, j + 1) {
            Some((r, k)) => if j < k && k <= t.len() {
                g_term_rest(t, k, ExprView::Binary(Box::new(lhs), t[j as int].token_type, Box::new(r)))
            } else {
                None
            },
            None => None,
        }
    } else {
        Some((lhs, j))
    }
}

pub closed spec fn g_comparison(t: Seq<TokenView>, i: nat) -> Option<(ExprView, nat)>
    decreases t.len() - i, 6nat,
{
    match g_term(t, i) {
        Some((e, j)) => if i < j && j <= t.len() {
            g_comparison_rest(t, j, e)
        } else {
            None
        },
        None => None,
    }
}

/// Left-associative: each operand after an operator of this level joins the
/// tree built so far.
pub closed spec fn g_comparison_rest(t: Seq<TokenView>, j: nat, lhs: ExprView) -> Option<(ExprView, nat)>
    decreases t.len() - j, 6nat,
{
    if at(t, j, TokenType::Less) || at(t, j, TokenType::LessEqual) || at(t, j, TokenType::Greater) || at(t, j, TokenType::GreaterEqual) {
        match g_term(t, j + 1) {
            Some((r, k)) => if j < k && k <= t.len() {
                g_comparison_rest(t, k, ExprView::Binary(Box::new(lhs), t[j as int].token_type, Box::new(r)))
            } else {
                None
            },
            None => None,
        }
    } else {
        Some((lhs, j))
    }
}

pub closed spec fn g_equality(t: Seq<TokenView>, i: nat) -> Option<(ExprView, nat)>
    decreases t.len() - i, 7nat,
{
    match g_comparison(t, i) {
        Some((e, j)) => if i < j && j <= t.len() {
            g_equality_rest(t, j, e)
        } else {
            None
        },
        None => None,
    }
}

/// Left-associative: each operand after an operator of this level joins the
/// tree built so far.
pub closed spec fn g_equality_rest(t: Seq<TokenView>, j: nat, lhs: ExprView) -> Option<(ExprView, nat)>
    decreases t.len() - j, 7nat,
{
    if at(t, j, TokenType::BangEqual) || at(t, j, TokenType::EqualEqual) {
        match g_comparison(t, j + 1) {
            Some((r, k)) => if j < k && k <= t.len() {
                g_equality_rest(t, k, ExprView::Binary(Box::new(lhs), t[j as int].token_type, Box::new(r)))
            } else {
                None
            },
            None => None,
        }
    } else {
        Some((lhs, j))
    }
}

pub closed spec fn g_logical_and(t: Seq<TokenView>, i: nat) -> Option<(ExprView, nat)>
    decreases t.len() - i, 9nat,
{
    match g_ternary(t, i) {
        Some((e, j)) => if i < j && j <= t.len() {
            g_logical_and_rest(t, j, e)
        } else {
            None
        },
        None => None,
    }
}

/// Left-associative: each operand after an operator of this level joins the
/// tree built so far.
pub closed spec fn g_logical_and_rest(t: Seq<TokenView>, j: nat, lhs: ExprView) -> Option<(ExprView, nat)>
    decreases t.len() - j, 9nat,
{
    if at(t, j, TokenType::And) {
        match g_ternary(t, j + 1) {
            Some((r, k)) => if j < k && k <= t.len() {
                g_logical_and_rest(t, k, ExprView::Binary(Box::new(lhs), t[j as int].token_type, Box::new(r)))
            } else {
                None
            },
            None => None,
        }
    } else {
        Some((lhs, j))
    }
}

pub closed spec fn g_logical_or(t: Seq<TokenView>, i: nat) -> Option<(ExprView, nat)>
    decreases t.len() - i, 10nat,
{
    match g_logical_and(t, i) {
        Some((e, j)) => if i < j && j <= t.len() {
            g_logical_or_rest(t, j, e)
        } else {
            None
        },
        None => None,
    }
}

/// Left-associative: each operand after an operator of this level joins the
/// tree built so far.
pub closed spec fn g_logical_or_rest(t: Seq<TokenView>, j: nat, lhs: ExprView) -> Option<(ExprView, nat)>
    decreases t.len() - j, 10nat,
{
    if at(t, j, TokenType::Or) {
        match g_logical_and(t, j + 1) {
            Some((r, k)) => if j < k && k <= t.len() {
                g_logical_or_rest(t, k, ExprView::Binary(Box::new(lhs), t[j as int].token_type, Box::new(r)))
            } else {
                None
            },
            None => None,
        }
    } else {
        Some((lhs, j))
    }
}

/// ternary -> equality ( "?" ternary ":" ternary )?; a missing ":" is an
/// error.
pub closed spec fn g_ternary(t: Seq<TokenView>, i: nat) -> Option<(ExprView, nat)>
    decreases t.len() - i, 8nat,
{
    match g_equality(t, i) {
        Some((c, j)) => if at(t, j, TokenType::QuestionMark) && j >= i {
            match g_ternary(t, j + 1) {
                Some((a, k)) => if k >= i && at(t, k, TokenType::Colon) {
                    match g_ternary(t, k + 1) {
                        Some((b, m)) => Some((ExprView::Ternary(Box::new(c), Box::new(a), Box::new(b)), m)),
                        None => None,
                    }
                } else {
                    None
                },
                None => None,
            }
        } else {
            Some((c, j))
        },
        None => None,
    }
}

/// assignment -> IDENTIFIER "=" assignment | logical_or; any other target
/// leaves the parsed expression as it is. The reference site of an
/// assignment is its `=` token.
pub closed spec fn g_assignment(t: Seq<TokenView>, i: nat) -> Option<(ExprView, nat)>
    decreases t.len() - i, 11nat,
{
    match g_logical_or(t, i) {
        Some((e, j)) => match e {
            ExprView::Identifier(name, _) => if j >= i && at(t, j, TokenType::Equal) {
                match g_assignment(t, j + 1) {
                    Some((v, k)) => Some((ExprView::Assignment(name, Box::new(v), j), k)),
                    None => None,
                }
            } else {
                Some((e, j))
            },
            _ => Some((e, j)),
        },
        None => None,
    }
}

/// expression -> assignment
pub closed spec fn g_expression(t: Seq<TokenView>, i: nat) -> Option<(ExprView, nat)>
    decreases t.len() - i, 12nat,
{
    g_assignment(t, i)
}


/// Whether token `i` is an identifier that carries its name.
pub open spec fn ident_at(t: Seq<TokenView>, i: nat) -> bool {
    at(t, i, TokenType::Identifier) && t[i as int].literal matches Some(Val::Str(_))
}

/// The name that identifier token `i` carries.
pub open spec fn ident_name(t: Seq<TokenView>, i: nat) -> Seq<char> {
    match t[i as int].literal {
        Some(Val::Str(n)) => n,
        _ => Seq::empty(),
    }
}

/// The statement grammar. Each rule, given the tokens, a position and the
/// number `nf` of functions in the table so far, yields the tree it parses,
/// the position after it and the functions it declares (to be appended to
/// the table, so that the first of them gets index `nf`), or `None` for a
/// syntax error.
///
/// declaration -> "var" varDecl | "fun" funDecl | statement
pub closed spec fn g_declaration(t: Seq<TokenView>, i: nat, nf: nat) -> Option<(StmtView, nat, Seq<FunView>)>
    decreases t.len() - i, 30nat,
{
    if at(t, i, TokenType::Var) {
        match g_var_declaration(t, i + 1) {
            Some((s, j)) => Some((s, j, Seq::empty())),
            None => None,
        }
    } else if at(t, i, TokenType::Fun) {
        g_function(t, i + 1, nf)
    } else {
        g_statement(t, i, nf)
    }
}

/// statement -> "print" expression ";" | "{" block | "if" ifStmt | "while" whileStmt
///            | "for" forStmt | "break" ";" | "continue" ";" | "return" expression? ";"
///            | expression ";"
pub closed spec fn g_statement(t: Seq<TokenView>, i: nat, nf: nat) -> Option<(StmtView, nat, Seq<FunView>)>
    decreases t.len() - i, 29nat,
{
    if at(t, i, TokenType::Print) {
        match g_expression_semicolon(t, i + 1) {
            Some((e, j)) => Some((StmtView::Print(e), j, Seq::empty())),
            None => None,
        }
    } else if at(t, i, TokenType::LeftBrace) {
        match g_block(t, i + 1, nf, Seq::empty(), Seq::empty()) {
            Some((ss, j, fs)) => Some((StmtView::Block(ss), j, fs)),
            None => None,
        }
    } else if at(t, i, TokenType::If) {
        g_if_statement(t, i + 1, nf)
    } else if at(t, i, TokenType::While) {
        g_while_statement(t, i + 1, nf)
    } else if at(t, i, TokenType::For) {
        g_for_statement(t, i + 1, nf)
    } else if at(t, i, TokenType::Break) {
        if at(t, i + 1, TokenType::Semicolon) {
            Some((StmtView::Break, i + 2, Seq::empty()))
        } else {
            None
        }
    } else if at(t, i, TokenType::Continue) {
        if at(t, i + 1, TokenType::Semicolon) {
            Some((StmtView::Continue, i + 2, Seq::empty()))
        } else {
            None
        }
    } else if at(t, i, TokenType::Return) {
        if at(t, i + 1, TokenType::Semicolon) {
            Some((StmtView::Return(None), i + 2, Seq::empty()))
        } else {
            match g_expression_semicolon(t, i + 1) {
                Some((e, j)) => Some((StmtView::Return(Some(e)), j, Seq::empty())),
                None => None,
            }
        }
    } else {
        match g_expression_semicolon(t, i) {
            Some((e, j)) => Some((StmtView::Expr(e), j, Seq::empty())),
            None => None,
        }
    }
}

/// expression ";"
pub closed spec fn g_expression_semicolon(t: Seq<TokenView>, i: nat) -> Option<(ExprView, nat)>
    decreases t.len() - i, 20nat,
{
    match g_expression(t, i) {
        Some((e, j)) => if at(t, j, TokenType::Semicolon) {
            Some((e, j + 1))
        } else {
            None
        },
        None => None,
    }
}

/// declaration* "}" from `i`, after the declarations `ss` that declared
/// the functions `fs`.
pub closed spec fn g_block(t: Seq<TokenView>, i: nat, nf: nat, ss: Seq<StmtView>, fs: Seq<FunView>) -> Option<(Seq<StmtView>, nat, Seq<FunView>)>
    decreases t.len() - i, 31nat,
{
    if at(t, i, TokenType::RightBrace) {
        Some((ss, i + 1, fs))
    } else if i + 1 >= t.len() {
        None
    } else {
        match g_declaration(t, i, nf + fs.len()) {
            Some((s, j, fs1)) => if i < j && j <= t.len() {
                g_block(t, j, nf, ss.push(s), fs + fs1)
            } else {
                None
            },
            None => None,
        }
    }
}

/// "(" expression ")" statement ( "else" statement )? (after "if")
pub closed spec fn g_if_statement(t: Seq<TokenView>, i: nat, nf: nat) -> Option<(StmtView, nat, Seq<FunView>)>
    decreases t.len() - i, 20nat,
{
    if at(t, i, TokenType::LeftParen) {
        match g_expression(t, i + 1) {
            Some((c, j)) => if i < j && at(t, j, TokenType::RightParen) {
                match g_statement(t, j + 1, nf) {
                    Some((s1, k, f1)) => if i < k && at(t, k, TokenType::Else) {
                        match g_statement(t, k + 1, nf + f1.len()) {
                            Some((s2, m, f2)) => Some((StmtView::If(c, Box::new(s1), Some(Box::new(s2))), m, f1 + f2)),
                            None => None,
                        }
                    } else {
                        Some((StmtView::If(c, Box::new(s1), None), k, f1))
                    },
                    None => None,
                }
            } else {
                None
            },
            None => None,
        }
    } else {
        None
    }
}

/// "(" expression ")" statement (after "while")
pub closed spec fn g_while_statement(t: Seq<TokenView>, i: nat, nf: nat) -> Option<(StmtView, nat, Seq<FunView>)>
    decreases t.len() - i, 20nat,
{
    if at(t, i, TokenType::LeftParen) {
        match g_expression(t, i + 1) {
            Some((c, j)) => if i < j && at(t, j, TokenType::RightParen) {
                match g_statement(t, j + 1, nf) {
                    Some((b, k, fs)) => Some((StmtView::While(c, Box::new(b)), k, fs)),
                    None => None,
                }
            } else {
                None
            },
            None => None,
        }
    } else {
        None
    }
}

/// The initializer of a `for` loop whose "(" stands at `i`: the statement,
/// if any, and where it ends.
pub open spec fn g_for_initializer(t: Seq<TokenView>, i: nat) -> Option<(Option<StmtView>, nat)> {
    if at(t, i + 1, TokenType::Semicolon) {
        Some((None, i + 2))
    } else if at(t, i + 1, TokenType::Var) {
        match g_var_declaration(t, i + 2) {
            Some((s, j)) => Some((Some(s), j)),
            None => None,
        }
    } else {
        match g_expression_semicolon(t, i + 1) {
            Some((e, j)) => Some((Some(StmtView::Expr(e)), j)),
            None => None,
        }
    }
}

/// The condition of a `for` loop from `p`: `true` where it is missing.
pub open spec fn g_for_condition(t: Seq<TokenView>, p: nat) -> Option<(ExprView, nat)> {
    if at(t, p, TokenType::Semicolon) {
        Some((ExprView::Literal(Val::Boolean(true)), p + 1))
    } else {
        g_expression_semicolon(t, p)
    }
}

/// The increment of a `for` loop from `p`, up to and past the ")".
pub open spec fn g_for_increment(t: Seq<TokenView>, p: nat) -> Option<(Option<ExprView>, nat)> {
    if at(t, p, TokenType::RightParen) {
        Some((None, p + 1))
    } else {
        match g_expression(t, p) {
            Some((e, q)) => if at(t, q, TokenType::RightParen) {
                Some((Some(e), q + 1))
            } else {
                None
            },
            None => None,
        }
    }
}

/// The desugared loop: `{ init; while (cond) { body; incr; } }`.
pub open spec fn for_tree(init: Option<StmtView>, cond: ExprView, incr: Option<ExprView>, body: StmtView) -> StmtView {
    let inner = match incr {
        Some(e) => seq![body, StmtView::Expr(e)],
        None => seq![body],
    };
    let w = StmtView::While(cond, Box::new(StmtView::Block(inner)));
    match init {
        Some(s) => StmtView::Block(seq![s, w]),
        None => StmtView::Block(seq![w]),
    }
}

/// "(" ( ";" | "var" varDecl | expression ";" ) expression? ";" expression? ")"
/// statement (after "for"), desugared.
pub closed spec fn g_for_statement(t: Seq<TokenView>, i: nat, nf: nat) -> Option<(StmtView, nat, Seq<FunView>)>
    decreases t.len() - i, 20nat,
{
    if !at(t, i, TokenType::LeftParen) {
        None
    } else {
        match g_for_initializer(t, i) {
            None => None,
            Some((init, p1)) => match g_for_condition(t, p1) {
                None => None,
                Some((cond, p2)) => match g_for_increment(t, p2) {
                    None => None,
                    Some((incr, p3)) => if i < p3 {
                        match g_statement(t, p3, nf) {
                            Some((b, m, fs)) => Some((for_tree(init, cond, incr, b), m, fs)),
                            None => None,
                        }
                    } else {
                        None
                    },
                },
            },
        }
    }
}

/// IDENTIFIER ( "=" expression )? ";" (after "var"); a missing initializer
/// is `nil`.
pub closed spec fn g_var_declaration(t: Seq<TokenView>, i: nat) -> Option<(StmtView, nat)>
    decreases t.len() - i, 20nat,
{
    if !ident_at(t, i) {
        None
    } else if at(t, i + 1, TokenType::Equal) {
        match g_expression_semicolon(t, i + 2) {
            Some((e, j)) => Some((StmtView::Var(ident_name(t, i), e), j)),
            None => None,
        }
    } else if at(t, i + 1, TokenType::Semicolon) {
        Some((StmtView::Var(ident_name(t, i), ExprView::Literal(Val::Nil)), i + 2))
    } else {
        None
    }
}

/// ( "," IDENTIFIER )* after the parameters `ps`, at most `MAX_ARGUMENTS`
/// in all.
pub closed spec fn g_parameters(t: Seq<TokenView>, j: nat, ps: Seq<Seq<char>>) -> Option<(Seq<Seq<char>>, nat)>
    decreases t.len() - j,
{
    if at(t, j, TokenType::Comma) {
        if ident_at(t, j + 1) {
            g_parameters(t, j + 2, ps.push(ident_name(t, j + 1)))
        } else {
            None
        }
    } else if ps.len() > MAX_ARGUMENTS {
        None
    } else {
        Some((ps, j))
    }
}

/// The parameter list of a function whose "(" stands at `i`, up to and
/// past the ")".
pub open spec fn g_parameter_list(t: Seq<TokenView>, i: nat) -> Option<(Seq<Seq<char>>, nat)> {
    if at(t, i + 1, TokenType::RightParen) {
        Some((Seq::empty(), i + 2))
    } else if ident_at(t, i + 1) {
        match g_parameters(t, i + 2, seq![ident_name(t, i + 1)]) {
            Some((ps, q)) => if at(t, q, TokenType::RightParen) {
                Some((ps, q + 1))
            } else {
                None
            },
            None => None,
        }
    } else {
        None
    }
}

/// IDENTIFIER "(" parameters? ")" "{" block (after "fun"). The function
/// goes to the table after those declared in its body.
pub closed spec fn g_function(t: Seq<TokenView>, i: nat, nf: nat) -> Option<(StmtView, nat, Seq<FunView>)>
    decreases t.len() - i, 20nat,
{
    if !ident_at(t, i) || !at(t, i + 1, TokenType::LeftParen) {
        None
    } else {
        match g_parameter_list(t, i + 1) {
            Some((ps, p)) => if i < p && at(t, p, TokenType::LeftBrace) {
                match g_block(t, p + 1, nf, Seq::empty(), Seq::empty()) {
                    Some((body, m, fs)) => Some((
                        StmtView::Fun(nf + fs.len()),
                        m,
                        fs.push(FunView { name: ident_name(t, i), params: ps, body }),
                    )),
                    None => None,
                }
            } else {
                None
            },
            None => None,
        }
    }
}

/// The declarations from `i` to the end, after the statements `ss` that
/// declared the functions `fs`: the program's statements and table of
/// functions, where every declaration parses.
pub closed spec fn g_program(t: Seq<TokenView>, i: nat, ss: Seq<StmtView>, fs: Seq<FunView>) -> Option<(Seq<StmtView>, Seq<FunView>)>
    decreases t.len() - i,
{
    if i + 1 >= t.len() {
        Some((ss, fs))
    } else {
        match g_declaration(t, i, fs.len()) {
            Some((s, j, fs1)) => if i < j && j <= t.len() {
                g_program(t, j, ss.push(s), fs + fs1)
            } else {
                None
            },
            None => None,
        }
    }
}

/// Each rule, one step unfolded.
pub proof fn unfold_g_primary(t: Seq<TokenView>, i: nat)
    ensures
        g_primary(t, i) == (if at(t, i, TokenType::True) {
            Some((ExprView::Literal(Val::Boolean(true)), i + 1))
        } else if at(t, i, TokenType::False) {
            Some((ExprView::Literal(Val::Boolean(false)), i + 1))
        } else if at(t, i, TokenType::Nil) {
            Some((ExprView::Literal(Val::Nil), i + 1))
        } else if at(t, i, TokenType::Number) || at(t, i, TokenType::String) {
            match t[i as int].literal {
                Some(v) => Some((ExprView::Literal(v), i + 1)),
                None => None,
            }
        } else if at(t, i, TokenType::LeftParen) {
            match g_expression(t, i + 1) {
                Some((e, j)) => if at(t, j, TokenType::RightParen) {
                    Some((ExprView::Grouping(Box::new(e)), j + 1))
                } else {
                    None
                },
                None => None,
            }
        } else if at(t, i, TokenType::Identifier) {
            match t[i as int].literal {
                Some(Val::Str(name)) => Some((ExprView::Identifier(name, i), i + 1)),
                _ => None,
            }
        } else {
            None
        }
        ),
{
}

pub proof fn unfold_g_arguments(t: Seq<TokenView>, i: nat)
    ensures
        g_arguments(t, i) == (match g_expression(t, i) {
            Some((e, j)) => if i < j && j <= t.len() {
                g_arguments_rest(t, j, seq![e])
            } else {
                None
            },
            None => None,
        }
        ),
{
}

pub proof fn unfold_g_arguments_rest(t: Seq<TokenView>, j: nat, acc: Seq<ExprView>)
    ensures
        g_arguments_rest(t, j, acc) == (if at(t, j, TokenType::Comma) {
            match g_expression(t, j + 1) {
                Some((e, k)) => if j < k && k <= t.len() {
                    g_arguments_rest(t, k, acc.push(e))
                } else {
                    None
                },
                None => None,
            }
        } else if acc.len() > MAX_ARGUMENTS {
            None
        } else {
            Some((acc, j))
        }
        ),
{
}

pub proof fn unfold_g_call(t: Seq<TokenView>, i: nat)
    ensures
        g_call(t, i) == (match g_primary(t, i) {
            Some((e, j)) => if i < j && j <= t.len() {
                g_call_rest(t, j, e)
            } else {
                None
            },
            None => None,
        }
        ),
{
}

pub proof fn unfold_g_call_rest(t: Seq<TokenView>, j: nat, callee: ExprView)
    ensures
        g_call_rest(t, j, callee) == (if at(t, j, TokenType::LeftParen) {
            if at(t, j + 1, TokenType::RightParen) {
                g_call_rest(t, j + 2, ExprView::Call(Box::new(callee), Seq::empty()))
            } else {
                match g_arguments(t, j + 1) {
                    Some((args, k)) => if j < k && at(t, k, TokenType::RightParen) {
                        g_call_rest(t, k + 1, ExprView::Call(Box::new(callee), args))
                    } else {
                        None
                    },
                    None => None,
                }
            }
        } else {
            Some((callee, j))
        }
        ),
{
}

pub proof fn unfold_g_unary(t: Seq<TokenView>, i: nat)
    ensures
        g_unary(t, i) == (if at(t, i, TokenType::Bang) || at(t, i, TokenType::Minus) {
            match g_unary(t, i + 1) {
                Some((e, j)) => Some((ExprView::Unary(t[i as int].token_type, Box::new(e)), j)),
                None => None,
            }
        } else {
            g_call(t, i)
        }
        ),
{
}

pub proof fn unfold_g_factor(t: Seq<TokenView>, i: nat)
    ensures
        g_factor(t, i) == (match g_unary(t, i) {
            Some((e, j)) => if i < j && j <= t.len() {
                g_factor_rest(t, j, e)
            } else {
                None
            },
            None => None,
        }
        ),
{
}

pub proof fn unfold_g_factor_rest(t: Seq<TokenView>, j: nat, lhs: ExprView)
    ensures
        g_factor_rest(t, j, lhs) == (if at(t, j, TokenType::Slash) || at(t, j, TokenType::Star) {
            match g_unary(t, j + 1) {
                Some((r, k)) => if j < k && k <= t.len() {
                    g_factor_rest(t, k, ExprView::Binary(Box::new(lhs), t[j as int].token_type, Box::new(r)))
                } else {
                    None
                },
                None => None,
            }
        } else {
            Some((lhs, j))
        }
        ),
{
}

pub proof fn unfold_g_term(t: Seq<TokenView>, i: nat)
    ensures
        g_term(t, i) == (match g_factor(t, i) {
            Some((e, j)) => if i < j && j <= t.len() {
                g_term_rest(t, j, e)
            } else {
                None
            },
            None => None,
        }
        ),
{
}

pub proof fn unfold_g_term_rest(t: Seq<TokenView>, j: nat, lhs: ExprView)
    ensures
        g_term_rest(t, j, lhs) == (if at(t, j, TokenType::Minus) || at(t, j, TokenType::Plus) {
            match g_factor(t, j + 1) {
                Some((r, k)) => if j < k && k <= t.len() {
                    g_term_rest(t, k, ExprView::Binary(Box::new(lhs), t[j as int].token_type, Box::new(r)))
                } else {
                    None
                },
                None => None,
            }
        } else {
            Some((lhs, j))
        }
        ),
{
}

pub proof fn unfold_g_comparison(t: Seq<TokenView>, i: nat)
    ensures
        g_comparison(t, i) == (match g_term(t, i) {
            Some((e, j)) => if i < j && j <= t.len() {
                g_comparison_rest(t, j, e)
            } else {
                None
            },
            None => None,
        }
        ),
{
}

pub proof fn unfold_g_comparison_rest(t: Seq<TokenView>, j: nat, lhs: ExprView)
    ensures
        g_comparison_rest(t, j, lhs) == (if at(t, j, TokenType::Less) || at(t, j, TokenType::LessEqual) || at(t, j, TokenType::Greater) || at(t, j, TokenType::GreaterEqual) {
            match g_term(t, j + 1) {
                Some((r, k)) => if j < k && k <= t.len() {
                    g_comparison_rest(t, k, ExprView::Binary(Box::new(lhs), t[j as int].token_type, Box::new(r)))
                } else {
                    None
                },
                None => None,
            }
        } else {
            Some((lhs, j))
        }
        ),
{
}

pub proof fn unfold_g_equality(t: Seq<TokenView>, i: nat)
    ensures
        g_equality(t, i) == (match g_comparison(t, i) {
            Some((e, j)) => if i < j && j <= t.len() {
                g_equality_rest(t, j, e)
            } else {
                None
            },
            None => None,
        }
        ),
{
}

pub proof fn unfold_g_equality_rest(t: Seq<TokenView>, j: nat, lhs: ExprView)
    ensures
        g_equality_rest(t, j, lhs) == (if at(t, j, TokenType::BangEqual) || at(t, j, TokenType::EqualEqual) {
            match g_comparison(t, j + 1) {
                Some((r, k)) => if j < k && k <= t.len() {
                    g_equality_rest(t, k, ExprView::Binary(Box::new(lhs), t[j as int].token_type, Box::new(r)))
                } else {
                    None
                },
                None => None,
            }
        } else {
            Some((lhs, j))
        }
        ),
{
}

pub proof fn unfold_g_logical_and(t: Seq<TokenView>, i: nat)
    ensures
        g_logical_and(t, i) == (match g_ternary(t, i) {
            Some((e, j)) => if i < j && j <= t.len() {
                g_logical_and_rest(t, j, e)
            } else {
                None
            },
            None => None,
        }
        ),
{
}

pub proof fn unfold_g_logical_and_rest(t: Seq<TokenView>, j: nat, lhs: ExprView)
    ensures
        g_logical_and_rest(t, j, lhs) == (if at(t, j, TokenType::And) {
            match g_ternary(t, j + 1) {
                Some((r, k)) => if j < k && k <= t.len() {
                    g_logical_and_rest(t, k, ExprView::Binary(Box::new(lhs), t[j as int].token_type, Box::new(r)))
                } else {
                    None
                },
                None => None,
            }
        } else {
            Some((lhs, j))
        }
        ),
{
}

pub proof fn unfold_g_logical_or(t: Seq<TokenView>, i: nat)
    ensures
        g_logical_or(t, i) == (match g_logical_and(t, i) {
            Some((e, j)) => if i < j && j <= t.len() {
                g_logical_or_rest(t, j, e)
            } else {
                None
            },
            None => None,
        }
        ),
{
}

pub proof fn unfold_g_logical_or_rest(t: Seq<TokenView>, j: nat, lhs: ExprView)
    ensures
        g_logical_or_rest(t, j, lhs) == (if at(t, j, TokenType::Or) {
            match g_logical_and(t, j + 1) {
                Some((r, k)) => if j < k && k <= t.len() {
                    g_logical_or_rest(t, k, ExprView::Binary(Box::new(lhs), t[j as int].token_type, Box::new(r)))
                } else {
                    None
                },
                None => None,
            }
        } else {
            Some((lhs, j))
        }
        ),
{
}

pub proof fn unfold_g_ternary(t: Seq<TokenView>, i: nat)
    ensures
        g_ternary(t, i) == (match g_equality(t, i) {
            Some((c, j)) => if at(t, j, TokenType::QuestionMark) && j >= i {
                match g_ternary(t, j + 1) {
                    Some((a, k)) => if k >= i && at(t, k, TokenType::Colon) {
                        match g_ternary(t, k + 1) {
                            Some((b, m)) => Some((ExprView::Ternary(Box::new(c), Box::new(a), Box::new(b)), m)),
                            None => None,
                        }
                    } else {
                        None
                    },
                    None => None,
                }
            } else {
                Some((c, j))
            },
            None => None,
        }
        ),
{
}

pub proof fn unfold_g_assignment(t: Seq<TokenView>, i: nat)
    ensures
        g_assignment(t, i) == (match g_logical_or(t, i) {
            Some((e, j)) => match e {
                ExprView::Identifier(name, _) => if j >= i && at(t, j, TokenType::Equal) {
                    match g_assignment(t, j + 1) {
                        Some((v, k)) => Some((ExprView::Assignment(name, Box::new(v), j), k)),
                        None => None,
                    }
                } else {
                    Some((e, j))
                },
                _ => Some((e, j)),
            },
            None => None,
        }
        ),
{
}

pub proof fn unfold_g_expression(t: Seq<TokenView>, i: nat)
    ensures
        g_expression(t, i) == (g_assignment(t, i)
        ),
{
}














pub proof fn unfold_g_declaration(t: Seq<TokenView>, i: nat, nf: nat)
    ensures
        g_declaration(t, i, nf) == (if at(t, i, TokenType::Var) {
            match g_var_declaration(t, i + 1) {
                Some((s, j)) => Some((s, j, Seq::empty())),
                None => None,
            }
        } else if at(t, i, TokenType::Fun) {
            g_function(t, i + 1, nf)
        } else {
            g_statement(t, i, nf)
        }
        ),
{
}

pub proof fn unfold_g_statement(t: Seq<TokenView>, i: nat, nf: nat)
    ensures
        g_statement(t, i, nf) == (if at(t, i, TokenType::Print) {
            match g_expression_semicolon(t, i + 1) {
                Some((e, j)) => Some((StmtView::Print(e), j, Seq::empty())),
                None => None,
            }
        } else if at(t, i, TokenType::LeftBrace) {
            match g_block(t, i + 1, nf, Seq::empty(), Seq::empty()) {
                Some((ss, j, fs)) => Some((StmtView::Block(ss), j, fs)),
                None => None,
            }
        } else if at(t, i, TokenType::If) {
            g_if_statement(t, i + 1, nf)
        } else if at(t, i, TokenType::While) {
            g_while_statement(t, i + 1, nf)
        } else if at(t, i, TokenType::For) {
            g_for_statement(t, i + 1, nf)
        } else if at(t, i, TokenType::Break) {
            if at(t, i + 1, TokenType::Semicolon) {
                Some((StmtView::Break, i + 2, Seq::empty()))
            } else {
                None
            }
        } else if at(t, i, TokenType::Continue) {
            if at(t, i + 1, TokenType::Semicolon) {
                Some((StmtView::Continue, i + 2, Seq::empty()))
            } else {
                None
            }
        } else if at(t, i, TokenType::Return) {
            if at(t, i + 1, TokenType::Semicolon) {
                Some((StmtView::Return(None), i + 2, Seq::empty()))
            } else {
                match g_expression_semicolon(t, i + 1) {
                    Some((e, j)) => Some((StmtView::Return(Some(e)), j, Seq::empty())),
                    None => None,
                }
            }
        } else {
            match g_expression_semicolon(t, i) {
                Some((e, j)) => Some((StmtView::Expr(e), j, Seq::empty())),
                None => None,
            }
        }
        ),
{
}

pub proof fn unfold_g_expression_semicolon(t: Seq<TokenView>, i: nat)
    ensures
        g_expression_semicolon(t, i) == (match g_expression(t, i) {
            Some((e, j)) => if at(t, j, TokenType::Semicolon) {
                Some((e, j + 1))
            } else {
                None
            },
            None => None,
        }
        ),
{
}

pub proof fn unfold_g_block(t: Seq<TokenView>, i: nat, nf: nat, ss: Seq<StmtView>, fs: Seq<FunView>)
    ensures
        g_block(t, i, nf, ss, fs) == (if at(t, i, TokenType::RightBrace) {
            Some((ss, i + 1, fs))
        } else if i + 1 >= t.len() {
            None
        } else {
            match g_declaration(t, i, nf + fs.len()) {
                Some((s, j, fs1)) => if i < j && j <= t.len() {
                    g_block(t, j, nf, ss.push(s), fs + fs1)
                } else {
                    None
                },
                None => None,
            }
        }
        ),
{
}

pub proof fn unfold_g_if_statement(t: Seq<TokenView>, i: nat, nf: nat)
    ensures
        g_if_statement(t, i, nf) == (if at(t, i, TokenType::LeftParen) {
            match g_expression(t, i + 1) {
                Some((c, j)) => if i < j && at(t, j, TokenType::RightParen) {
                    match g_statement(t, j + 1, nf) {
                        Some((s1, k, f1)) => if i < k && at(t, k, TokenType::Else) {
                            match g_statement(t, k + 1, nf + f1.len()) {
                                Some((s2, m, f2)) => Some((StmtView::If(c, Box::new(s1), Some(Box::new(s2))), m, f1 + f2)),
                                None => None,
                            }
                        } else {
                            Some((StmtView::If(c, Box::new(s1), None), k, f1))
                        },
                        None => None,
                    }
                } else {
                    None
                },
                None => None,
            }
        } else {
            None
        }
        ),
{
}

pub proof fn unfold_g_while_statement(t: Seq<TokenView>, i: nat, nf: nat)
    ensures
        g_while_statement(t, i, nf) == (if at(t, i, TokenType::LeftParen) {
            match g_expression(t, i + 1) {
                Some((c, j)) => if i < j && at(t, j, TokenType::RightParen) {
                    match g_statement(t, j + 1, nf) {
                        Some((b, k, fs)) => Some((StmtView::While(c, Box::new(b)), k, fs)),
                        None => None,
                    }
                } else {
                    None
                },
                None => None,
            }
        } else {
            None
        }
        ),
{
}

pub proof fn unfold_g_for_statement(t: Seq<TokenView>, i: nat, nf: nat)
    ensures
        g_for_statement(t, i, nf) == (if !at(t, i, TokenType::LeftParen) {
            None
        } else {
            match g_for_initializer(t, i) {
                None => None,
                Some((init, p1)) => match g_for_condition(t, p1) {
                    None => None,
                    Some((cond, p2)) => match g_for_increment(t, p2) {
                        None => None,
                        Some((incr, p3)) => if i < p3 {
                            match g_statement(t, p3, nf) {
                                Some((b, m, fs)) => Some((for_tree(init, cond, incr, b), m, fs)),
                                None => None,
                            }
                        } else {
                            None
                        },
                    },
                },
            }
        }
        ),
{
}

pub proof fn unfold_g_var_declaration(t: Seq<TokenView>, i: nat)
    ensures
        g_var_declaration(t, i) == (if !ident_at(t, i) {
            None
        } else if at(t, i + 1, TokenType::Equal) {
            match g_expression_semicolon(t, i + 2) {
                Some((e, j)) => Some((StmtView::Var(ident_name(t, i), e), j)),
                None => None,
            }
        } else if at(t, i + 1, TokenType::Semicolon) {
            Some((StmtView::Var(ident_name(t, i), ExprView::Literal(Val::Nil)), i + 2))
        } else {
            None
        }
        ),
{
}

pub proof fn unfold_g_parameters(t: Seq<TokenView>, j: nat, ps: Seq<Seq<char>>)
    ensures
        g_parameters(t, j, ps) == (if at(t, j, TokenType::Comma) {
            if ident_at(t, j + 1) {
                g_parameters(t, j + 2, ps.push(ident_name(t, j + 1)))
            } else {
                None
            }
        } else if ps.len() > MAX_ARGUMENTS {
            None
        } else {
            Some((ps, j))
        }
        ),
{
}

pub proof fn unfold_g_function(t: Seq<TokenView>, i: nat, nf: nat)
    ensures
        g_function(t, i, nf) == (if !ident_at(t, i) || !at(t, i + 1, TokenType::LeftParen) {
            None
        } else {
            match g_parameter_list(t, i + 1) {
                Some((ps, p)) => if i < p && at(t, p, TokenType::LeftBrace) {
                    match g_block(t, p + 1, nf, Seq::empty(), Seq::empty()) {
                        Some((body, m, fs)) => Some((
                            StmtView::Fun(nf + fs.len()),
                            m,
                            fs.push(FunView { name: ident_name(t, i), params: ps, body }),
                        )),
                        None => None,
                    }
                } else {
                    None
                },
                None => None,
            }
        }
        ),
{
}

pub proof fn unfold_g_program(t: Seq<TokenView>, i: nat, ss: Seq<StmtView>, fs: Seq<FunView>)
    ensures
        g_program(t, i, ss, fs) == (if i + 1 >= t.len() {
            Some((ss, fs))
        } else {
            match g_declaration(t, i, fs.len()) {
                Some((s, j, fs1)) => if i < j && j <= t.len() {
                    g_program(t, j, ss.push(s), fs + fs1)
                } else {
                    None
                },
                None => None,
            }
        }
        ),
{
}

} // verus!
