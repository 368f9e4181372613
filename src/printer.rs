use vstd::prelude::*;

use crate::ast::{Expr, FunDecl, Program, Stmt};
use crate::number::number_text_digits;
use crate::token::TokenType;
use crate::value::{val_wf, value_text, LoxValue, Val};

verus! {

/// The source text of an operator.
pub open spec fn op_text(op: TokenType) -> Seq<char> {
    match op {
        TokenType::Minus => seq!['-'],
        TokenType::Plus => seq!['+'],
        TokenType::Slash => seq!['/'],
        TokenType::Star => seq!['*'],
        TokenType::Bang => seq!['!'],
        TokenType::BangEqual => seq!['!', '='],
        TokenType::EqualEqual => seq!['=', '='],
        TokenType::Greater => seq!['>'],
        TokenType::GreaterEqual => seq!['>', '='],
        TokenType::Less => seq!['<'],
        TokenType::LessEqual => seq!['<', '='],
        TokenType::And => seq!['a', 'n', 'd'],
        TokenType::Or => seq!['o', 'r'],
        _ => seq!['?', '?'],
    }
}

/// How many digits after the point a number literal is written with: enough
/// for every fraction whose denominator is a power of ten in range.
pub const LITERAL_DIGITS: u64 = 64;

/// The source text of a literal: strings in quotes; numbers with all the
/// digits a decimal literal can have; a value that no literal can stand for
/// is written `nil`.
pub open spec fn literal_text(v: Val) -> Seq<char> {
    match v {
        Val::Str(s) => seq!['"'] + s + seq!['"'],
        Val::Number(n) => if n.wf() {
            number_text_digits(n.num as int, n.den as int, LITERAL_DIGITS as nat)
        } else {
            seq!['n', 'i', 'l']
        },
        Val::Function { .. } => seq!['n', 'i', 'l'],
        _ => if val_wf(v) {
            value_text(v)
        } else {
            seq!['n', 'i', 'l']
        },
    }
}

/// The source text of an expression, with every compound expression in
/// parentheses (a grouping adds none of its own), so that it parses back to
/// an expression that evaluates the same way.
pub open spec fn expr_text(e: Expr) -> Seq<char>
    decreases e, 1nat, 0nat,
{
    match e {
        Expr::Literal { value, .. } => literal_text(value@),
        Expr::Grouping { expr, .. } => expr_text(*expr),
        Expr::Unary { op, rhs, .. } => seq!['('] + op_text(op) + expr_text(*rhs) + seq![')'],
        Expr::Binary { lhs, op, rhs, .. } => seq!['('] + expr_text(*lhs) + seq![' '] + op_text(op) + seq![' ']
            + expr_text(*rhs) + seq![')'],
        Expr::Ternary { condition, then_branch, else_branch, .. } => seq!['('] + expr_text(*condition)
            + seq![' ', '?', ' '] + expr_text(*then_branch) + seq![' ', ':', ' '] + expr_text(*else_branch)
            + seq![')'],
        Expr::Identifier { name, .. } => name@,
        Expr::Assignment { name, value, .. } => seq!['('] + name@ + seq![' ', '=', ' '] + expr_text(*value) + seq![')'],
        Expr::Call { callee, arguments, .. } => expr_text(*callee) + seq!['('] + list_text(arguments@, 0) + seq![')'],
    }
}

/// `es[i..]` separated by commas.
pub open spec fn list_text(es: Seq<Expr>, i: nat) -> Seq<char>
    decreases es, 1nat, es.len() - i,
{
    if i >= es.len() {
        Seq::empty()
    } else if i + 1 == es.len() {
        expr_text(es[i as int])
    } else {
        expr_text(es[i as int]) + seq![',', ' '] + list_text(es, i + 1)
    }
}

/// `names[i..]` separated by commas.
pub open spec fn names_text(names: Seq<String>, i: nat) -> Seq<char>
    decreases names.len() - i,
{
    if i >= names.len() {
        Seq::empty()
    } else if i + 1 == names.len() {
        names[i as int]@
    } else {
        names[i as int]@ + seq![',', ' '] + names_text(names, i + 1)
    }
}

/// The source text of a statement whose functions come before `bound` in
/// `funs` (a function that does not is left out).
pub open spec fn stmt_text(funs: Seq<FunDecl>, s: Stmt, bound: nat) -> Seq<char>
    decreases bound, 1nat, s, 1nat, 0nat,
{
    match s {
        Stmt::ExprStmt(e) => expr_text(e) + seq![';'],
        Stmt::PrintStmt(e) => seq!['p', 'r', 'i', 'n', 't', ' '] + expr_text(e) + seq![';'],
        Stmt::Var { name, initializer, .. } => seq!['v', 'a', 'r', ' '] + name@ + seq![' ', '=', ' ']
            + expr_text(initializer) + seq![';'],
        Stmt::Block(stmts) => seq!['{'] + stmts_text(funs, stmts@, 0, bound) + seq![' ', '}'],
        Stmt::IfStmt { condition, then_branch, else_branch, .. } => {
            let head = seq!['i', 'f', ' ', '('] + expr_text(condition) + seq![')', ' '];
            match else_branch {
                None => head + stmt_text(funs, *then_branch, bound),
                Some(b) => {
                    let t = if *then_branch is IfStmt {
                        seq!['{', ' '] + stmt_text(funs, *then_branch, bound) + seq![' ', '}']
                    } else {
                        stmt_text(funs, *then_branch, bound)
                    };
                    head + t + seq![' ', 'e', 'l', 's', 'e', ' '] + stmt_text(funs, *b, bound)
                },
            }
        },
        Stmt::WhileStmt { condition, body, .. } => seq!['w', 'h', 'i', 'l', 'e', ' ', '('] + expr_text(condition)
            + seq![')', ' '] + stmt_text(funs, *body, bound),
        Stmt::BreakStmt(_) => seq!['b', 'r', 'e', 'a', 'k', ';'],
        Stmt::ContinueStmt(_) => seq!['c', 'o', 'n', 't', 'i', 'n', 'u', 'e', ';'],
        Stmt::FunStmt { function, .. } => if function >= bound || function >= funs.len() {
            Seq::empty()
        } else {
            fun_text(funs, function as nat)
        },
        Stmt::ReturnStmt { expr, .. } => match expr {
            None => seq!['r', 'e', 't', 'u', 'r', 'n', ';'],
            Some(e) => seq!['r', 'e', 't', 'u', 'r', 'n', ' '] + expr_text(e) + seq![';'],
        },
    }
}

/// `ss[i..]`, each after a space.
pub open spec fn stmts_text(funs: Seq<FunDecl>, ss: Seq<Stmt>, i: nat, bound: nat) -> Seq<char>
    decreases bound, 1nat, ss, 1nat, ss.len() - i,
{
    if i >= ss.len() {
        Seq::empty()
    } else {
        seq![' '] + stmt_text(funs, ss[i as int], bound) + stmts_text(funs, ss, i + 1, bound)
    }
}

/// The declaration of function `k`.
pub open spec fn fun_text(funs: Seq<FunDecl>, k: nat) -> Seq<char>
    decreases k, 2nat, funs[k as int], 0nat, 0nat,
{
    if k >= funs.len() {
        Seq::empty()
    } else {
        let f = funs[k as int];
        seq!['f', 'u', 'n', ' '] + f.name@ + seq!['('] + names_text(f.params@, 0) + seq![')', ' ', '{']
            + stmts_text(funs, f.body@, 0, k) + seq![' ', '}']
    }
}

/// The source text of a program: its top-level statements, each after a
/// space.
pub open spec fn program_text(p: Program) -> Seq<char> {
    stmts_text(p.functions@, p.statements@, 0, p.functions@.len())
}

fn op_str(op: TokenType) -> (r: &'static str)
    ensures
        r@ == op_text(op),
{
    proof {
        reveal_strlit("-");
        reveal_strlit("+");
        reveal_strlit("/");
        reveal_strlit("*");
        reveal_strlit("!");
        reveal_strlit("!=");
        reveal_strlit("==");
        reveal_strlit(">");
        reveal_strlit(">=");
        reveal_strlit("<");
        reveal_strlit("<=");
        reveal_strlit("and");
        reveal_strlit("or");
        reveal_strlit("??");
    }
    match op {
        TokenType::Minus => "-",
        TokenType::Plus => "+",
        TokenType::Slash => "/",
        TokenType::Star => "*",
        TokenType::Bang => "!",
        TokenType::BangEqual => "!=",
        TokenType::EqualEqual => "==",
        TokenType::Greater => ">",
        TokenType::GreaterEqual => ">=",
        TokenType::Less => "<",
        TokenType::LessEqual => "<=",
        TokenType::And => "and",
        TokenType::Or => "or",
        _ => "??",
    }
}

fn literal_source(v: &LoxValue) -> (r: String)
    ensures
        r@ == literal_text(v@),
{
    proof {
        reveal_strlit("\"");
        reveal_strlit("nil");
    }
    match v {
        LoxValue::String(s) => {
            let mut r = String::from_str("\"");
            r.append(s.as_str());
            r.append("\"");
            r
        },
        LoxValue::Function { .. } => String::from_str("nil"),
        LoxValue::Number(n) => {
            if v.check_wf() {
                n.to_text_digits(LITERAL_DIGITS)
            } else {
                String::from_str("nil")
            }
        },
        _ => {
            if v.check_wf() {
                v.to_string()
            } else {
                String::from_str("nil")
            }
        },
    }
}

fn push(out: &mut String, s: &str)
    ensures
        final(out)@ == old(out)@ + s@,
{
    out.append(s);
}

impl Expr {
    /// The expression as source text, fully parenthesized.
    pub fn to_source(&self) -> (r: String)
        ensures
            r@ == expr_text(*self),
        decreases self, 1nat, 0nat,
    {
        proof {
            reveal_strlit("(");
            reveal_strlit(")");
            reveal_strlit(" ");
            reveal_strlit(" ? ");
            reveal_strlit(" : ");
            reveal_strlit(" = ");
        }
        match self {
            Expr::Literal { value, .. } => literal_source(value),
            Expr::Grouping { expr, .. } => expr.to_source(),
            Expr::Unary { op, rhs, .. } => {
                let mut r = String::from_str("(");
                push(&mut r, op_str(*op));
                push(&mut r, rhs.to_source().as_str());
                push(&mut r, ")");
                r
            },
            Expr::Binary { lhs, op, rhs, .. } => {
                let mut r = String::from_str("(");
                push(&mut r, lhs.to_source().as_str());
                push(&mut r, " ");
                push(&mut r, op_str(*op));
                push(&mut r, " ");
                push(&mut r, rhs.to_source().as_str());
                push(&mut r, ")");
                r
            },
            Expr::Ternary { condition, then_branch, else_branch, .. } => {
                let mut r = String::from_str("(");
                push(&mut r, condition.to_source().as_str());
                push(&mut r, " ? ");
                push(&mut r, then_branch.to_source().as_str());
                push(&mut r, " : ");
                push(&mut r, else_branch.to_source().as_str());
                push(&mut r, ")");
                r
            },
            Expr::Identifier { name, .. } => name.clone(),
            Expr::Assignment { name, value, .. } => {
                let mut r = String::from_str("(");
                push(&mut r, name.as_str());
                push(&mut r, " = ");
                push(&mut r, value.to_source().as_str());
                push(&mut r, ")");
                r
            },
            Expr::Call { callee, arguments, .. } => {
                let mut r = callee.to_source();
                push(&mut r, "(");
                push(&mut r, list_source(arguments).as_str());
                push(&mut r, ")");
                r
            },
        }
    }
}

fn list_source(es: &Vec<Expr>) -> (r: String)
    ensures
        r@ == list_text(es@, 0),
    decreases es@, 1nat, es@.len(),
{
    proof {
        reveal_strlit(", ");
    }
    let mut i: usize = es.len();
    let mut r = String::new();
    while i > 0
        invariant
            i <= es.len(),
            r@ == list_text(es@, i as nat),
        decreases i,
    {
        proof {
            reveal_strlit(", ");
        }
        let e = es[i - 1].to_source();
        let mut t = e;
        if i < es.len() {
            push(&mut t, ", ");
        }
        push(&mut t, r.as_str());
        assert(t@ =~= list_text(es@, (i - 1) as nat));
        r = t;
        i = i - 1;
    }
    r
}

fn names_source(names: &Vec<String>) -> (r: String)
    ensures
        r@ == names_text(names@, 0),
{
    proof {
        reveal_strlit(", ");
    }
    let mut i: usize = names.len();
    let mut r = String::new();
    while i > 0
        invariant
            i <= names.len(),
            r@ == names_text(names@, i as nat),
        decreases i,
    {
        proof {
            reveal_strlit(", ");
        }
        let mut t = names[i - 1].clone();
        if i < names.len() {
            push(&mut t, ", ");
        }
        push(&mut t, r.as_str());
        assert(t@ =~= names_text(names@, (i - 1) as nat));
        r = t;
        i = i - 1;
    }
    r
}

impl Stmt {
    /// The statement as source text; `funs` is its program's table of
    /// functions, of which those before `bound` are written out.
    pub fn to_source(&self, funs: &Vec<FunDecl>, bound: usize) -> (r: String)
        ensures
            r@ == stmt_text(funs@, *self, bound as nat),
        decreases bound, 1nat, self, 1nat, 0nat,
    {
        proof {
            reveal_strlit(";");
            reveal_strlit("print ");
            reveal_strlit("var ");
            reveal_strlit(" = ");
            reveal_strlit("{");
            reveal_strlit(" }");
            reveal_strlit("{ ");
            reveal_strlit("if (");
            reveal_strlit(") ");
            reveal_strlit(" else ");
            reveal_strlit("while (");
            reveal_strlit("break;");
            reveal_strlit("continue;");
            reveal_strlit("return;");
            reveal_strlit("return ");
        }
        match self {
            Stmt::ExprStmt(e) => {
                let mut r = e.to_source();
                push(&mut r, ";");
                r
            },
            Stmt::PrintStmt(e) => {
                let mut r = String::from_str("print ");
                push(&mut r, e.to_source().as_str());
                push(&mut r, ";");
                r
            },
            Stmt::Var { name, initializer, .. } => {
                let mut r = String::from_str("var ");
                push(&mut r, name.as_str());
                push(&mut r, " = ");
                push(&mut r, initializer.to_source().as_str());
                push(&mut r, ";");
                r
            },
            Stmt::Block(stmts) => {
                let mut r = String::from_str("{");
                push(&mut r, stmts_source(stmts, funs, bound).as_str());
                push(&mut r, " }");
                r
            },
            Stmt::IfStmt { condition, then_branch, else_branch, .. } => {
                let mut r = String::from_str("if (");
                push(&mut r, condition.to_source().as_str());
                push(&mut r, ") ");
                match else_branch {
                    None => {
                        push(&mut r, then_branch.to_source(funs, bound).as_str());
                    },
                    Some(b) => {
                        let nested = match &**then_branch {
                            Stmt::IfStmt { .. } => true,
                            _ => false,
                        };
                        if nested {
                            push(&mut r, "{ ");
                            push(&mut r, then_branch.to_source(funs, bound).as_str());
                            push(&mut r, " }");
                        } else {
                            push(&mut r, then_branch.to_source(funs, bound).as_str());
                        }
                        push(&mut r, " else ");
                        push(&mut r, b.to_source(funs, bound).as_str());
                    },
                }
                r
            },
            Stmt::WhileStmt { condition, body, .. } => {
                let mut r = String::from_str("while (");
                push(&mut r, condition.to_source().as_str());
                push(&mut r, ") ");
                push(&mut r, body.to_source(funs, bound).as_str());
                r
            },
            Stmt::BreakStmt(_) => String::from_str("break;"),
            Stmt::ContinueStmt(_) => String::from_str("continue;"),
            Stmt::FunStmt { function, .. } => {
                if *function >= bound || *function >= funs.len() {
                    String::new()
                } else {
                    fun_source(funs, *function)
                }
            },
            Stmt::ReturnStmt { expr, .. } => match expr {
                None => String::from_str("return;"),
                Some(e) => {
                    let mut r = String::from_str("return ");
                    push(&mut r, e.to_source().as_str());
                    push(&mut r, ";");
                    r
                },
            },
        }
    }
}

fn stmts_source(ss: &Vec<Stmt>, funs: &Vec<FunDecl>, bound: usize) -> (r: String)
    ensures
        r@ == stmts_text(funs@, ss@, 0, bound as nat),
    decreases bound, 1nat, ss@, 1nat, ss@.len(),
{
    proof {
        reveal_strlit(" ");
    }
    let mut i: usize = ss.len();
    let mut r = String::new();
    while i > 0
        invariant
            i <= ss.len(),
            r@ == stmts_text(funs@, ss@, i as nat, bound as nat),
        decreases i,
    {
        proof {
            reveal_strlit(" ");
        }
        let mut t = String::from_str(" ");
        push(&mut t, ss[i - 1].to_source(funs, bound).as_str());
        push(&mut t, r.as_str());
        assert(t@ =~= stmts_text(funs@, ss@, (i - 1) as nat, bound as nat));
        r = t;
        i = i - 1;
    }
    r
}

fn fun_source(funs: &Vec<FunDecl>, k: usize) -> (r: String)
    ensures
        r@ == fun_text(funs@, k as nat),
    decreases k, 2nat, funs@[k as int], 0nat, 0nat,
{
    proof {
        reveal_strlit("fun ");
        reveal_strlit("(");
        reveal_strlit(") {");
        reveal_strlit(" }");
    }
    if k >= funs.len() {
        return String::new();
    }
    let f = &funs[k];
    let mut r = String::from_str("fun ");
    push(&mut r, f.name.as_str());
    push(&mut r, "(");
    push(&mut r, names_source(&f.params).as_str());
    push(&mut r, ") {");
    push(&mut r, stmts_source(&f.body, funs, k).as_str());
    push(&mut r, " }");
    r
}

impl Program {
    /// The program as source text that parses back to a program of the same
    /// shape.
    pub fn to_source(&self) -> (r: String)
        ensures
            r@ == program_text(*self),
    {
        stmts_source(&self.statements, &self.functions, self.functions.len())
    }
}

} // verus!
