use vstd::prelude::*;

use crate::token::{Position, TokenType};
use crate::value::{LoxValue, Val};

verus! {

/// An expression. Each variant owns its sub-expressions.
///
/// `Identifier` and `Assignment` carry `id`, a number unique to the reference
/// site within its program: the resolver's depth map is keyed by it.
#[derive(Debug)]
pub enum Expr {
    Literal { value: LoxValue, position: Position },
    Grouping { expr: Box<Expr>, position: Position },
    Unary { op: TokenType, rhs: Box<Expr>, position: Position },
    Binary { lhs: Box<Expr>, op: TokenType, rhs: Box<Expr>, position: Position },
    Ternary {
        condition: Box<Expr>,
        then_branch: Box<Expr>,
        else_branch: Box<Expr>,
        position: Position,
    },
    Identifier { name: String, id: usize, position: Position },
    Assignment { name: String, value: Box<Expr>, id: usize, position: Position },
    Call { callee: Box<Expr>, arguments: Vec<Expr>, position: Position },
}

/// A statement.
///
/// A function declaration is kept in its program's table of functions;
/// `FunStmt` holds its index there.
#[derive(Debug)]
pub enum Stmt {
    ExprStmt(Expr),
    PrintStmt(Expr),
    Var { name: String, initializer: Expr, position: Position },
    Block(Vec<Stmt>),
    IfStmt {
        condition: Expr,
        then_branch: Box<Stmt>,
        else_branch: Option<Box<Stmt>>,
        position: Position,
    },
    WhileStmt { condition: Expr, body: Box<Stmt>, position: Position },
    BreakStmt(Position),
    ContinueStmt(Position),
    FunStmt { function: usize, position: Position },
    ReturnStmt { expr: Option<Expr>, position: Position },
}

/// A user function: its name, its parameters and its body. A call binds the
/// parameters in a new scope and runs the body as a block inside it.
#[derive(Debug)]
pub struct FunDecl {
    pub name: String,
    pub params: Vec<String>,
    pub body: Vec<Stmt>,
    pub position: Position,
}

/// A parsed program: its top-level statements, the table of the functions
/// that it declares (at any depth), and a bound on the numbers of its
/// reference sites (each is the index of a token, below `references`).
#[derive(Debug)]
pub struct Program {
    pub statements: Vec<Stmt>,
    pub functions: Vec<FunDecl>,
    pub references: usize,
}

/// The tree of an expression without its positions.
pub ghost enum ExprView {
    Literal(Val),
    Grouping(Box<ExprView>),
    Unary(TokenType, Box<ExprView>),
    Binary(Box<ExprView>, TokenType, Box<ExprView>),
    Ternary(Box<ExprView>, Box<ExprView>, Box<ExprView>),
    /// A name and the number of its reference site.
    Identifier(Seq<char>, nat),
    /// A target name, the value, and the number of the reference site.
    Assignment(Seq<char>, Box<ExprView>, nat),
    Call(Box<ExprView>, Seq<ExprView>),
}

pub open spec fn expr_view(e: Expr) -> ExprView
    decreases e, 1nat, 0nat,
{
    match e {
        Expr::Literal { value, .. } => ExprView::Literal(value@),
        Expr::Grouping { expr, .. } => ExprView::Grouping(Box::new(expr_view(*expr))),
        Expr::Unary { op, rhs, .. } => ExprView::Unary(op, Box::new(expr_view(*rhs))),
        Expr::Binary { lhs, op, rhs, .. } => ExprView::Binary(Box::new(expr_view(*lhs)), op, Box::new(expr_view(*rhs))),
        Expr::Ternary { condition, then_branch, else_branch, .. } => ExprView::Ternary(
            Box::new(expr_view(*condition)),
            Box::new(expr_view(*then_branch)),
            Box::new(expr_view(*else_branch)),
        ),
        Expr::Identifier { name, id, .. } => ExprView::Identifier(name@, id as nat),
        Expr::Assignment { name, value, id, .. } => ExprView::Assignment(name@, Box::new(expr_view(*value)), id as nat),
        Expr::Call { callee, arguments, .. } => ExprView::Call(Box::new(expr_view(*callee)), exprs_view(arguments@)),
    }
}

pub open spec fn exprs_view(es: Seq<Expr>) -> Seq<ExprView>
    decreases es, 0nat, es.len(),
{
    if es.len() == 0 {
        Seq::empty()
    } else {
        exprs_view(es.subrange(0, es.len() - 1)).push(expr_view(es[es.len() - 1]))
    }
}

pub proof fn lemma_exprs_view_push(es: Seq<Expr>, e: Expr)
    ensures
        exprs_view(es.push(e)) == exprs_view(es).push(expr_view(e)),
{
    assert(es.push(e).subrange(0, es.len() as int) =~= es);
}

/// The tree of a statement without its positions. A function declaration
/// is its index in the program's table of functions.
pub ghost enum StmtView {
    Expr(ExprView),
    Print(ExprView),
    Var(Seq<char>, ExprView),
    Block(Seq<StmtView>),
    If(ExprView, Box<StmtView>, Option<Box<StmtView>>),
    While(ExprView, Box<StmtView>),
    Break,
    Continue,
    Fun(nat),
    Return(Option<ExprView>),
}

/// A function declaration without its position.
pub ghost struct FunView {
    pub name: Seq<char>,
    pub params: Seq<Seq<char>>,
    pub body: Seq<StmtView>,
}

pub open spec fn stmt_view(s: Stmt) -> StmtView
    decreases s, 1nat, 0nat,
{
    match s {
        Stmt::ExprStmt(e) => StmtView::Expr(expr_view(e)),
        Stmt::PrintStmt(e) => StmtView::Print(expr_view(e)),
        Stmt::Var { name, initializer, .. } => StmtView::Var(name@, expr_view(initializer)),
        Stmt::Block(stmts) => StmtView::Block(stmts_view(stmts@)),
        Stmt::IfStmt { condition, then_branch, else_branch, .. } => StmtView::If(
            expr_view(condition),
            Box::new(stmt_view(*then_branch)),
            match else_branch {
                Some(b) => Some(Box::new(stmt_view(*b))),
                None => None,
            },
        ),
        Stmt::WhileStmt { condition, body, .. } => StmtView::While(expr_view(condition), Box::new(stmt_view(*body))),
        Stmt::BreakStmt(_) => StmtView::Break,
        Stmt::ContinueStmt(_) => StmtView::Continue,
        Stmt::FunStmt { function, .. } => StmtView::Fun(function as nat),
        Stmt::ReturnStmt { expr, .. } => StmtView::Return(
            match expr {
                Some(e) => Some(expr_view(e)),
                None => None,
            },
        ),
    }
}

pub open spec fn stmts_view(ss: Seq<Stmt>) -> Seq<StmtView>
    decreases ss, 0nat, ss.len(),
{
    if ss.len() == 0 {
        Seq::empty()
    } else {
        stmts_view(ss.subrange(0, ss.len() - 1)).push(stmt_view(ss[ss.len() - 1]))
    }
}

pub proof fn lemma_stmts_view_push(ss: Seq<Stmt>, s: Stmt)
    ensures
        stmts_view(ss.push(s)) == stmts_view(ss).push(stmt_view(s)),
{
    assert(ss.push(s).subrange(0, ss.len() as int) =~= ss);
}

pub open spec fn fun_view(f: FunDecl) -> FunView {
    FunView { name: f.name@, params: f.params@.map_values(|p: String| p@), body: stmts_view(f.body@) }
}

pub open spec fn funs_view(fs: Seq<FunDecl>) -> Seq<FunView> {
    fs.map_values(|f: FunDecl| fun_view(f))
}

pub open spec fn expr_position(e: Expr) -> Position {
    match e {
        Expr::Literal { position, .. } => position,
        Expr::Grouping { position, .. } => position,
        Expr::Unary { position, .. } => position,
        Expr::Binary { position, .. } => position,
        Expr::Ternary { position, .. } => position,
        Expr::Identifier { position, .. } => position,
        Expr::Assignment { position, .. } => position,
        Expr::Call { position, .. } => position,
    }
}

impl Expr {
    /// Where the expression stands in the source.
    pub fn get_position(&self) -> (r: Position)
        ensures
            r == expr_position(*self),
    {
        match self {
            Expr::Literal { position, .. } => *position,
            Expr::Grouping { position, .. } => *position,
            Expr::Unary { position, .. } => *position,
            Expr::Binary { position, .. } => *position,
            Expr::Ternary { position, .. } => *position,
            Expr::Identifier { position, .. } => *position,
            Expr::Assignment { position, .. } => *position,
            Expr::Call { position, .. } => *position,
        }
    }
}

} // verus!
