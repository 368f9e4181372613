use vstd::prelude::*;

use crate::ast::{expr_position, funs_view, stmts_view, Expr, FunDecl, Program, Stmt};
use crate::environment::{EnvView, Environment};
use crate::error::LoxError;
use crate::number::{add_spec, div_spec, lt_spec, mul_spec, sub_spec, Number};
use crate::parser::{parse_str, ParserError};
use crate::resolver::{resolve_program, resolve_spec};
use crate::grammar::g_program;
use crate::scanner::scan;
use crate::token::{Position, TokenType};
use crate::value::{kind_of, truthy, val_wf, value_text, values_equal, LoxValue, Val, ValueKind};

verus! {

/// How many user-function calls may be active at once.
pub const MAX_CALL_DEPTH: usize = 100;

/// An error that stops a run.
#[derive(Debug, Clone)]
pub enum RuntimeError {
    DivisionByZero(Position),
    VarDoesNotExist { name: String, position: Position },
    IncorrectArity { name: String, position: Position },
    NotCallable { kind: ValueKind, position: Position },
    InvalidBreak(Position),
    InvalidContinue(Position),
    InvalidReturn(Position),
    VarUsedInOwnInitializer(String, Position),
    /// An operand that must be a number was not.
    ExpectedNumber(Position),
    /// An operand that must be a boolean was not.
    ExpectedBoolean(Position),
    /// No operation of that operator applies to those operands.
    InvalidOperands(Position),
    /// A result does not fit the range of numbers.
    NumberOutOfRange(Position),
    /// Too many calls are active at once.
    StackOverflow(Position),
    /// The run has used up its budget of loop iterations.
    StepLimitReached(Position),
    /// A statement names a function that its program does not hold.
    UnknownFunction(Position),
}

/// How a statement ended: normally, or with a `break`, a `continue` or a
/// `return` that an enclosing loop or call must take up.
#[derive(Debug)]
pub enum Signal {
    Normal,
    Break,
    Continue,
    Return(LoxValue),
}

pub ghost enum Sig {
    Normal,
    Break,
    Continue,
    Return(Val),
}

impl View for Signal {
    type V = Sig;

    open spec fn view(&self) -> Sig {
        match self {
            Signal::Normal => Sig::Normal,
            Signal::Break => Sig::Break,
            Signal::Continue => Sig::Continue,
            Signal::Return(v) => Sig::Return(v@),
        }
    }
}

/// The functions that the host supplies.
#[derive(Debug, Clone, Copy, PartialEq, Eq, Structural)]
pub enum Native {
    /// `clock()`: a fixed number of seconds.
    Clock,
}

/// An entry of the table of callables. A user function names its program,
/// its declaration there, and the scope it was declared in (its closure).
#[derive(Debug)]
pub enum Callable {
    Native { name: String, arity: usize, native: Native },
    User { name: String, program: usize, decl: usize, closure: usize },
}

/// How many arguments the value `f` takes, where it can be called.
pub open spec fn arity_of(code: Seq<Loaded>, st: State, f: Val) -> Option<nat> {
    match f {
        Val::Function { id, .. } => if id >= st.callables.len() {
            None
        } else {
            match st.callables[id as int] {
                Callable::Native { arity, .. } => Some(arity as nat),
                Callable::User { program, decl, .. } => if program >= code.len()
                    || decl >= code[program as int].functions.len() {
                    None
                } else {
                    Some(code[program as int].functions@[decl as int].params@.len())
                },
            }
        },
        _ => None,
    }
}

impl Callable {
    /// The name the callable was declared with.
    pub fn name(&self) -> (r: &String)
        ensures
            *r == match self {
                Callable::Native { name, .. } => *name,
                Callable::User { name, .. } => *name,
            },
    {
        match self {
            Callable::Native { name, .. } => name,
            Callable::User { name, .. } => name,
        }
    }
}

/// A program that the interpreter has taken in: its functions and the depth
/// that the resolver found for each reference site.
#[derive(Debug)]
pub struct Loaded {
    pub functions: Vec<FunDecl>,
    pub depths: Vec<Option<usize>>,
}

/// What a piece of code runs under: its program, and whether it stands in a
/// loop or in a function body.
#[derive(Debug, Clone, Copy)]
pub struct Ctx {
    pub program: usize,
    pub in_loop: bool,
    pub in_function: bool,
}

/// The state that execution changes.
pub struct Runtime {
    pub env: Environment,
    pub callables: Vec<Callable>,
    pub output: Vec<String>,
    pub steps: u64,
}

pub ghost struct State {
    pub env: EnvView,
    pub callables: Seq<Callable>,
    pub output: Seq<Seq<char>>,
    pub steps: nat,
}

impl View for Runtime {
    type V = State;

    open spec fn view(&self) -> State {
        State {
            env: self.env@,
            callables: self.callables@,
            output: self.output@.map_values(|s: String| s@),
            steps: self.steps as nat,
        }
    }
}

impl State {
    pub open spec fn wf(self) -> bool {
        &&& self.env.wf()
        &&& forall|i: int| 0 <= i < self.callables.len() ==> match #[trigger] self.callables[i] {
            Callable::User { closure, .. } => closure < self.env.parents.len(),
            _ => true,
        }
    }

    pub open spec fn with_env(self, env: EnvView) -> State {
        State { env, ..self }
    }
}

/// What execution keeps: the scopes, bindings and callables that were there
/// stay as they were (values may change), and loop steps are only spent.
pub open spec fn grows(a: State, b: State) -> bool {
    &&& a.env.parents.len() <= b.env.parents.len()
    &&& forall|i: int| 0 <= i < a.env.parents.len() ==> b.env.parents[i] == #[trigger] a.env.parents[i]
    &&& a.env.owners.len() <= b.env.owners.len()
    &&& forall|i: int| 0 <= i < a.env.owners.len() ==> b.env.owners[i] == #[trigger] a.env.owners[i]
    &&& a.callables.len() <= b.callables.len()
    &&& forall|i: int| 0 <= i < a.callables.len() ==> b.callables[i] == #[trigger] a.callables[i]
    &&& b.steps <= a.steps
}

/// Execution that keeps what one state had, and then what the next had,
/// keeps what the first had.
pub broadcast proof fn lemma_grows_trans(a: State, b: State, c: State)
    requires
        #[trigger] grows(a, b),
        #[trigger] grows(b, c),
    ensures
        grows(a, c),
{
}

pub open spec fn res_view(r: Result<LoxValue, RuntimeError>) -> Result<Val, RuntimeError> {
    match r {
        Ok(v) => Ok(v@),
        Err(e) => Err(e),
    }
}

pub open spec fn sig_view(r: Result<Signal, RuntimeError>) -> Result<Sig, RuntimeError> {
    match r {
        Ok(s) => Ok(s@),
        Err(e) => Err(e),
    }
}

pub open spec fn res_wf(r: Result<Val, RuntimeError>) -> bool {
    match r {
        Ok(v) => val_wf(v),
        Err(_) => true,
    }
}

pub open spec fn sig_wf(r: Result<Sig, RuntimeError>) -> bool {
    match r {
        Ok(Sig::Return(v)) => val_wf(v),
        _ => true,
    }
}

/// The depth the resolver recorded for reference site `id` of program `p`.
pub open spec fn depth_of(code: Seq<Loaded>, p: nat, id: nat) -> Option<nat> {
    if p < code.len() && id < code[p as int].depths.len() {
        match code[p as int].depths@[id as int] {
            Some(d) => Some(d as nat),
            None => None,
        }
    } else {
        None
    }
}

/// A variable read: at its resolved depth, else in the global scope.
pub open spec fn lookup_var(code: Seq<Loaded>, env: EnvView, p: nat, id: nat, name: Seq<char>) -> Option<Val> {
    match depth_of(code, p, id) {
        Some(d) => env.get_at(d, name),
        None => env.get(name),
    }
}

/// A variable write: at its resolved depth, else in the global scope.
pub open spec fn assign_var(code: Seq<Loaded>, env: EnvView, p: nat, id: nat, name: Seq<char>, v: Val) -> Option<EnvView> {
    match depth_of(code, p, id) {
        Some(d) => env.assign_at(d, name, v),
        None => env.assign(name, v),
    }
}

pub open spec fn number_result(r: Option<(int, int)>, pos: Position) -> Result<Val, RuntimeError> {
    match r {
        Some(p) => Ok(Val::Number(Number::from_pair(p))),
        None => Err(RuntimeError::NumberOutOfRange(pos)),
    }
}

/// `-` needs a number, `!` a boolean.
pub open spec fn unary_op(op: TokenType, v: Val, pos: Position) -> Result<Val, RuntimeError> {
    match (op, v) {
        (TokenType::Minus, Val::Number(n)) => Ok(Val::Number(Number { num: (-n.num) as i64, den: n.den })),
        (TokenType::Minus, _) => Err(RuntimeError::ExpectedNumber(pos)),
        (TokenType::Bang, Val::Boolean(b)) => Ok(Val::Boolean(!b)),
        (TokenType::Bang, _) => Err(RuntimeError::ExpectedBoolean(pos)),
        _ => Err(RuntimeError::InvalidOperands(pos)),
    }
}

/// The operators other than `and` and `or`. Arithmetic and ordering need two
/// numbers; `+` also joins a string with the text of any value; `==` and `!=`
/// apply to any two values. A division by zero reports the divisor's position
/// `rpos`.
pub open spec fn binary_op(op: TokenType, l: Val, r: Val, pos: Position, rpos: Position) -> Result<Val, RuntimeError> {
    match (op, l, r) {
        (TokenType::Plus, Val::Number(a), Val::Number(b)) => number_result(add_spec(a.frac(), b.frac()), pos),
        (TokenType::Plus, Val::Str(s), _) => Ok(Val::Str(s + value_text(r))),
        (TokenType::Minus, Val::Number(a), Val::Number(b)) => number_result(sub_spec(a.frac(), b.frac()), pos),
        (TokenType::Star, Val::Number(a), Val::Number(b)) => number_result(mul_spec(a.frac(), b.frac()), pos),
        (TokenType::Slash, Val::Number(a), Val::Number(b)) => if b.num == 0 {
            Err(RuntimeError::DivisionByZero(rpos))
        } else {
            number_result(div_spec(a.frac(), b.frac()), pos)
        },
        (TokenType::Less, Val::Number(a), Val::Number(b)) => Ok(Val::Boolean(lt_spec(a.frac(), b.frac()))),
        (TokenType::LessEqual, Val::Number(a), Val::Number(b)) => Ok(Val::Boolean(!lt_spec(b.frac(), a.frac()))),
        (TokenType::Greater, Val::Number(a), Val::Number(b)) => Ok(Val::Boolean(lt_spec(b.frac(), a.frac()))),
        (TokenType::GreaterEqual, Val::Number(a), Val::Number(b)) => Ok(Val::Boolean(!lt_spec(a.frac(), b.frac()))),
        (TokenType::EqualEqual, _, _) => Ok(Val::Boolean(values_equal(l, r))),
        (TokenType::BangEqual, _, _) => Ok(Val::Boolean(!values_equal(l, r))),
        _ => Err(RuntimeError::InvalidOperands(pos)),
    }
}

/// What a native function returns.
pub open spec fn native_result(n: Native) -> Val {
    match n {
        Native::Clock => Val::Number(Number { num: 13124312, den: 1 }),
    }
}

pub open spec fn loop_ctx(ctx: Ctx) -> Ctx {
    Ctx { in_loop: true, ..ctx }
}

pub open spec fn fun_ctx(p: nat) -> Ctx {
    Ctx { program: p as usize, in_loop: false, in_function: true }
}

/// Leaves a block or a call that was entered in state `st0`: back to its
/// scope, and where no function was declared in between (so no closure can
/// hold them), the scopes and bindings made since are dropped.
pub open spec fn leave_from(st0: State, st: State) -> State {
    st.with_env(st.env.leave(
        st0.env.current,
        st.callables.len() == st0.callables.len(),
        st0.env.parents.len(),
        st0.env.owners.len(),
    ))
}

/// Binds the parameters `params[i..]` to the arguments `args[i..]` in the
/// current scope.
pub open spec fn bind_params(env: EnvView, params: Seq<String>, args: Seq<Val>, i: nat) -> EnvView
    decreases params.len() - i,
{
    if i >= params.len() || i >= args.len() {
        env
    } else {
        bind_params(env.define(params[i as int]@, args[i as int]), params, args, i + 1)
    }
}

/// A read of a reference site that the resolver put at depth `d` walks
/// exactly `d` parent links out from the current scope and looks the name up
/// in that scope alone; a site with no depth is looked up among the globals.
pub proof fn lemma_resolved_read(code: Seq<Loaded>, st: State, ctx: Ctx, e: Expr, depth: nat)
    requires
        e is Identifier,
    ensures
        ({
            let (st1, r) = eval(code, st, ctx, e, depth);
            let name = e->Identifier_name;
            let found = match depth_of(code, ctx.program as nat, e->Identifier_id as nat) {
                Some(d) => match st.env.ancestor(st.env.current, d) {
                    Some(s) => st.env.lookup_in(s, name@),
                    None => None,
                },
                None => st.env.lookup_in(0, name@),
            };
            &&& st1 == st
            &&& match found {
                Some(v) => r == Ok::<Val, RuntimeError>(v),
                None => r == Err::<Val, RuntimeError>(RuntimeError::VarDoesNotExist {
                    name,
                    position: e->Identifier_position,
                }),
            }
        }),
{
}

/// A block runs in one new scope, and whichever way it ends (normally, by a
/// signal or by an error) the scope it ran in is current again afterwards;
/// where it declared no function, the scopes and bindings it made are gone.
pub proof fn lemma_block_restores_scope(code: Seq<Loaded>, st: State, ctx: Ctx, s: Stmt, depth: nat)
    requires
        s is Block,
    ensures
        ({
            let (st1, _) = exec(code, st, ctx, s, depth);
            let (st2, _) = exec_seq(code, st.with_env(st.env.begin_scope(st.env.current)), ctx, s->Block_0@, 0, depth);
            &&& st1.env.current == st.env.current
            &&& st2.callables.len() == st.callables.len() ==> st1.env.parents == st2.env.parents.take(
                st.env.parents.len() as int,
            ) && st1.env.owners == st2.env.owners.take(st.env.owners.len() as int)
        }),
{
}

/// Whether `f` is a function value that names an entry of the table of
/// callables. A call checks this before it evaluates its arguments.
pub open spec fn callable(st: State, f: Val) -> bool {
    f matches Val::Function { id, .. } && id < st.callables.len()
}

/// Evaluation of an expression: the state after it and its value or error.
pub open spec fn eval(code: Seq<Loaded>, st: State, ctx: Ctx, e: Expr, depth: nat) -> (State, Result<Val, RuntimeError>)
    decreases depth, 0nat, e, 1nat, 0nat,
{
    match e {
        Expr::Literal { value, position } => if val_wf(value@) {
            (st, Ok(value@))
        } else {
            (st, Err(RuntimeError::NumberOutOfRange(position)))
        },
        Expr::Grouping { expr, .. } => eval(code, st, ctx, *expr, depth),
        Expr::Unary { op, rhs, position } => {
            let (st1, r) = eval(code, st, ctx, *rhs, depth);
            match r {
                Err(err) => (st1, Err(err)),
                Ok(v) => (st1, unary_op(op, v, position)),
            }
        },
        Expr::Binary { lhs, op, rhs, position } => {
            let (st1, l) = eval(code, st, ctx, *lhs, depth);
            match l {
                Err(err) => (st1, Err(err)),
                Ok(lv) => if op == TokenType::And && !truthy(lv) {
                    (st1, Ok(Val::Boolean(false)))
                } else if op == TokenType::Or && truthy(lv) {
                    (st1, Ok(Val::Boolean(true)))
                } else {
                    let (st2, r) = eval(code, st1, ctx, *rhs, depth);
                    match r {
                        Err(err) => (st2, Err(err)),
                        Ok(rv) => if op == TokenType::And || op == TokenType::Or {
                            (st2, Ok(Val::Boolean(truthy(rv))))
                        } else {
                            (st2, binary_op(op, lv, rv, position, expr_position(*rhs)))
                        },
                    }
                },
            }
        },
        Expr::Ternary { condition, then_branch, else_branch, .. } => {
            let (st1, c) = eval(code, st, ctx, *condition, depth);
            match c {
                Err(err) => (st1, Err(err)),
                Ok(cv) => if truthy(cv) {
                    eval(code, st1, ctx, *then_branch, depth)
                } else {
                    eval(code, st1, ctx, *else_branch, depth)
                },
            }
        },
        Expr::Identifier { name, id, position } => match lookup_var(code, st.env, ctx.program as nat, id as nat, name@) {
            Some(v) => (st, Ok(v)),
            None => (st, Err(RuntimeError::VarDoesNotExist { name, position })),
        },
        Expr::Assignment { name, value, id, position } => {
            let (st1, r) = eval(code, st, ctx, *value, depth);
            match r {
                Err(err) => (st1, Err(err)),
                Ok(v) => match assign_var(code, st1.env, ctx.program as nat, id as nat, name@, v) {
                    Some(env) => (st1.with_env(env), Ok(v)),
                    None => (st1, Err(RuntimeError::VarDoesNotExist { name, position })),
                },
            }
        },
        Expr::Call { callee, arguments, position } => {
            let (st1, c) = eval(code, st, ctx, *callee, depth);
            match c {
                Err(err) => (st1, Err(err)),
                Ok(cv) => if !callable(st1, cv) {
                    (st1, Err(RuntimeError::NotCallable { kind: kind_of(cv), position }))
                } else {
                    let (st2, a) = eval_args(code, st1, ctx, arguments@, 0, Seq::empty(), depth);
                    match a {
                        Err(err) => (st2, Err(err)),
                        Ok(args) => call(code, st2, cv, args, position, depth, e),
                    }
                },
            }
        },
    }
}

/// Evaluates `args[i..]` in order, after the values `acc` of `args[..i]`.
pub open spec fn eval_args(
    code: Seq<Loaded>,
    st: State,
    ctx: Ctx,
    args: Seq<Expr>,
    i: nat,
    acc: Seq<Val>,
    depth: nat,
) -> (State, Result<Seq<Val>, RuntimeError>)
    decreases depth, 0nat, args, 1nat, args.len() - i,
{
    if i >= args.len() {
        (st, Ok(acc))
    } else {
        let (st1, r) = eval(code, st, ctx, args[i as int], depth);
        match r {
            Err(err) => (st1, Err(err)),
            Ok(v) => eval_args(code, st1, ctx, args, i + 1, acc.push(v), depth),
        }
    }
}

/// A call of the value `f` on `args`. `e` is the call expression. A user
/// function binds its parameters in a new scope under its closure and runs
/// its body as a block inside that scope.
pub open spec fn call(
    code: Seq<Loaded>,
    st: State,
    f: Val,
    args: Seq<Val>,
    position: Position,
    depth: nat,
    e: Expr,
) -> (State, Result<Val, RuntimeError>)
    decreases depth, 0nat, e, 0nat, 0nat,
{
    match f {
        Val::Function { id, .. } => if id >= st.callables.len() {
            (st, Err(RuntimeError::NotCallable { kind: ValueKind::Function, position }))
        } else {
            match st.callables[id as int] {
                Callable::Native { name, arity, native } => if arity != args.len() {
                    (st, Err(RuntimeError::IncorrectArity { name, position }))
                } else {
                    (st, Ok(native_result(native)))
                },
                Callable::User { name, program, decl, closure } => if program >= code.len()
                    || decl >= code[program as int].functions.len() {
                    (st, Err(RuntimeError::UnknownFunction(position)))
                } else {
                    let fd = code[program as int].functions@[decl as int];
                    if fd.params.len() != args.len() {
                        (st, Err(RuntimeError::IncorrectArity { name, position }))
                    } else if depth == 0 {
                        (st, Err(RuntimeError::StackOverflow(position)))
                    } else {
                        let env1 = bind_params(st.env.begin_scope(closure as nat), fd.params@, args, 0);
                        let st1 = st.with_env(env1.begin_scope(env1.current));
                        let (st2, r) = exec_seq(code, st1, fun_ctx(program as nat), fd.body@, 0, (depth - 1) as nat);
                        let st3 = leave_from(st, st2);
                        match r {
                            Err(err) => (st3, Err(err)),
                            Ok(Sig::Return(v)) => (st3, Ok(v)),
                            Ok(_) => (st3, Ok(Val::Nil)),
                        }
                    }
                },
            }
        },
        _ => (st, Err(RuntimeError::NotCallable { kind: kind_of(f), position })),
    }
}

/// Execution of a statement: the state after it and how it ended.
pub open spec fn exec(code: Seq<Loaded>, st: State, ctx: Ctx, s: Stmt, depth: nat) -> (State, Result<Sig, RuntimeError>)
    decreases depth, 1nat, s, 1nat, 0nat,
{
    match s {
        Stmt::ExprStmt(e) => {
            let (st1, r) = eval(code, st, ctx, e, depth);
            match r {
                Err(err) => (st1, Err(err)),
                Ok(_) => (st1, Ok(Sig::Normal)),
            }
        },
        Stmt::PrintStmt(e) => {
            let (st1, r) = eval(code, st, ctx, e, depth);
            match r {
                Err(err) => (st1, Err(err)),
                Ok(v) => (State { output: st1.output.push(value_text(v)), ..st1 }, Ok(Sig::Normal)),
            }
        },
        Stmt::Var { name, initializer, .. } => {
            let (st1, r) = eval(code, st, ctx, initializer, depth);
            match r {
                Err(err) => (st1, Err(err)),
                Ok(v) => (st1.with_env(st1.env.define(name@, v)), Ok(Sig::Normal)),
            }
        },
        Stmt::Block(stmts) => {
            let st1 = st.with_env(st.env.begin_scope(st.env.current));
            let (st2, r) = exec_seq(code, st1, ctx, stmts@, 0, depth);
            (leave_from(st, st2), r)
        },
        Stmt::IfStmt { condition, then_branch, else_branch, .. } => {
            let (st1, c) = eval(code, st, ctx, condition, depth);
            match c {
                Err(err) => (st1, Err(err)),
                Ok(cv) => if truthy(cv) {
                    exec(code, st1, ctx, *then_branch, depth)
                } else {
                    match else_branch {
                        Some(b) => exec(code, st1, ctx, *b, depth),
                        None => (st1, Ok(Sig::Normal)),
                    }
                },
            }
        },
        Stmt::WhileStmt { condition, body, position } => while_loop(code, st, ctx, s, depth, st.steps),
        Stmt::BreakStmt(position) => if ctx.in_loop {
            (st, Ok(Sig::Break))
        } else {
            (st, Err(RuntimeError::InvalidBreak(position)))
        },
        Stmt::ContinueStmt(position) => if ctx.in_loop {
            (st, Ok(Sig::Continue))
        } else {
            (st, Err(RuntimeError::InvalidContinue(position)))
        },
        Stmt::FunStmt { function, position } => if ctx.program >= code.len()
            || function >= code[ctx.program as int].functions.len() {
            (st, Err(RuntimeError::UnknownFunction(position)))
        } else {
            let fd = code[ctx.program as int].functions@[function as int];
            let id = st.callables.len();
            let c = Callable::User { name: fd.name, program: ctx.program, decl: function, closure: st.env.current as usize };

            let v = Val::Function { id, name: fd.name@, native: false };
            (State { callables: st.callables.push(c), env: st.env.define(fd.name@, v), ..st }, Ok(Sig::Normal))
        },
        Stmt::ReturnStmt { expr, position } => if !ctx.in_function {
            (st, Err(RuntimeError::InvalidReturn(position)))
        } else {
            match expr {
                None => (st, Ok(Sig::Return(Val::Nil))),
                Some(e) => {
                    let (st1, r) = eval(code, st, ctx, e, depth);
                    match r {
                        Err(err) => (st1, Err(err)),
                        Ok(v) => (st1, Ok(Sig::Return(v))),
                    }
                },
            }
        },
    }
}

/// Runs `stmts[i..]` in order, until one ends other than normally.
pub open spec fn exec_seq(code: Seq<Loaded>, st: State, ctx: Ctx, stmts: Seq<Stmt>, i: nat, depth: nat) -> (State, Result<Sig, RuntimeError>)
    decreases depth, 1nat, stmts, 1nat, stmts.len() - i,
{
    if i >= stmts.len() {
        (st, Ok(Sig::Normal))
    } else {
        let (st1, r) = exec(code, st, ctx, stmts[i as int], depth);
        match r {
            Ok(Sig::Normal) => exec_seq(code, st1, ctx, stmts, i + 1, depth),
            _ => (st1, r),
        }
    }
}

/// The loop `w` (a `while` statement) from state `st`, where `fuel` is the
/// step budget at the start of this round. Each round that runs the body
/// spends one step; `break` ends the loop normally and `continue` starts the
/// next round.
pub open spec fn while_loop(code: Seq<Loaded>, st: State, ctx: Ctx, w: Stmt, depth: nat, fuel: nat) -> (State, Result<Sig, RuntimeError>)
    decreases depth, 1nat, w, 0nat, fuel,
{
    match w {
        Stmt::WhileStmt { condition, body, position } => {
            let (st1, c) = eval(code, st, ctx, condition, depth);
            match c {
                Err(err) => (st1, Err(err)),
                Ok(cv) => if !truthy(cv) {
                    (st1, Ok(Sig::Normal))
                } else if st1.steps == 0 {
                    (st1, Err(RuntimeError::StepLimitReached(position)))
                } else {
                    let st2 = State { steps: (st1.steps - 1) as nat, ..st1 };
                    let (st3, r) = exec(code, st2, loop_ctx(ctx), *body, depth);
                    match r {
                        Err(err) => (st3, Err(err)),
                        Ok(Sig::Break) => (st3, Ok(Sig::Normal)),
                        Ok(Sig::Return(v)) => (st3, Ok(Sig::Return(v))),
                        Ok(_) => if st3.steps < fuel {
                            while_loop(code, st3, ctx, w, depth, st3.steps)
                        } else {
                            (st3, Err(RuntimeError::StepLimitReached(position)))
                        },
                    }
                },
            }
        },
        _ => (st, Ok(Sig::Normal)),
    }
}


fn depth_in(code: &Vec<Loaded>, p: usize, id: usize) -> (r: Option<usize>)
    ensures
        match r {
            Some(d) => depth_of(code@, p as nat, id as nat) == Some(d as nat),
            None => depth_of(code@, p as nat, id as nat) is None,
        },
{
    if p < code.len() && id < code[p].depths.len() {
        code[p].depths[id]
    } else {
        None
    }
}

fn unary(op: TokenType, v: LoxValue, pos: Position) -> (r: Result<LoxValue, RuntimeError>)
    requires
        v.wf(),
    ensures
        res_view(r) == unary_op(op, v@, pos),
        res_wf(res_view(r)),
{
    match (op, v) {
        (TokenType::Minus, LoxValue::Number(n)) => Ok(LoxValue::Number(n.neg())),
        (TokenType::Minus, _) => Err(RuntimeError::ExpectedNumber(pos)),
        (TokenType::Bang, LoxValue::Boolean(b)) => Ok(LoxValue::Boolean(!b)),
        (TokenType::Bang, _) => Err(RuntimeError::ExpectedBoolean(pos)),
        _ => Err(RuntimeError::InvalidOperands(pos)),
    }
}

fn number_value(r: Option<Number>, pos: Position) -> (v: Result<LoxValue, RuntimeError>)
    requires
        r is Some ==> r.unwrap().wf(),
    ensures
        res_view(v) == match r {
            Some(n) => Ok(Val::Number(n)),
            None => Err::<Val, RuntimeError>(RuntimeError::NumberOutOfRange(pos)),
        },
        res_wf(res_view(v)),
{
    match r {
        Some(n) => Ok(LoxValue::Number(n)),
        None => Err(RuntimeError::NumberOutOfRange(pos)),
    }
}

fn binary(op: TokenType, l: &LoxValue, r: &LoxValue, pos: Position, rpos: Position) -> (res: Result<LoxValue, RuntimeError>)
    requires
        l.wf(),
        r.wf(),
    ensures
        res_view(res) == binary_op(op, l@, r@, pos, rpos),
        res_wf(res_view(res)),
{
    match (op, l, r) {
        (TokenType::Plus, LoxValue::Number(a), LoxValue::Number(b)) => number_value(a.add(b), pos),
        (TokenType::Plus, LoxValue::String(s), _) => {
            let mut t = s.clone();
            let rt = r.to_string();
            t.append(rt.as_str());
            Ok(LoxValue::String(t))
        },
        (TokenType::Minus, LoxValue::Number(a), LoxValue::Number(b)) => number_value(a.sub(b), pos),
        (TokenType::Star, LoxValue::Number(a), LoxValue::Number(b)) => number_value(a.mul(b), pos),
        (TokenType::Slash, LoxValue::Number(a), LoxValue::Number(b)) => {
            if b.is_zero() {
                Err(RuntimeError::DivisionByZero(rpos))
            } else {
                number_value(a.div(b), pos)
            }
        },
        (TokenType::Less, LoxValue::Number(a), LoxValue::Number(b)) => Ok(LoxValue::Boolean(a.lt(b))),
        (TokenType::LessEqual, LoxValue::Number(a), LoxValue::Number(b)) => Ok(LoxValue::Boolean(!b.lt(a))),
        (TokenType::Greater, LoxValue::Number(a), LoxValue::Number(b)) => Ok(LoxValue::Boolean(b.lt(a))),
        (TokenType::GreaterEqual, LoxValue::Number(a), LoxValue::Number(b)) => Ok(LoxValue::Boolean(!a.lt(b))),
        (TokenType::EqualEqual, _, _) => Ok(LoxValue::Boolean(l.equals(r))),
        (TokenType::BangEqual, _, _) => Ok(LoxValue::Boolean(!l.equals(r))),
        _ => Err(RuntimeError::InvalidOperands(pos)),
    }
}

impl Runtime {
    pub open spec fn wf(&self) -> bool {
        self@.wf()
    }

    fn lookup(&self, code: &Vec<Loaded>, p: usize, id: usize, name: &String) -> (r: Option<LoxValue>)
        requires
            self.wf(),
        ensures
            match r {
                Some(v) => lookup_var(code@, self@.env, p as nat, id as nat, name@) == Some(v@) && v.wf(),
                None => lookup_var(code@, self@.env, p as nat, id as nat, name@) is None,
            },
    {
        match depth_in(code, p, id) {
            Some(d) => self.env.get_at(d, name),
            None => self.env.get(name),
        }
    }

    fn assign(&mut self, code: &Vec<Loaded>, p: usize, id: usize, name: &String, v: LoxValue) -> (r: bool)
        requires
            old(self).wf(),
            v.wf(),
        ensures
            final(self).wf(),
            grows(old(self)@, final(self)@),
            match assign_var(code@, old(self)@.env, p as nat, id as nat, name@, v@) {
                Some(env) => r && final(self)@ == old(self)@.with_env(env),
                None => !r && final(self)@ == old(self)@,
            },
    {
        match depth_in(code, p, id) {
            Some(d) => self.env.assign_at(d, name, v),
            None => self.env.assign(name, v),
        }
    }

    /// Evaluates `e` in context `ctx`, with `depth` more calls allowed.
    pub fn evaluate(&mut self, code: &Vec<Loaded>, ctx: Ctx, e: &Expr, depth: usize) -> (r: Result<LoxValue, RuntimeError>)
        requires
            old(self).wf(),
        ensures
            final(self).wf(),
            grows(old(self)@, final(self)@),
            (final(self)@, res_view(r)) == eval(code@, old(self)@, ctx, *e, depth as nat),
            res_wf(res_view(r)),
        decreases depth, 0nat, e, 1nat, 0nat,
    {
        proof {
            broadcast use lemma_grows_trans;
        }
        match e {
            Expr::Literal { value, position } => {
                if value.check_wf() {
                    Ok(value.copy())
                } else {
                    Err(RuntimeError::NumberOutOfRange(*position))
                }
            },
            Expr::Grouping { expr, .. } => self.evaluate(code, ctx, expr, depth),
            Expr::Unary { op, rhs, position } => {
                let v = self.evaluate(code, ctx, rhs, depth)?;
                unary(*op, v, *position)
            },
            Expr::Binary { lhs, op, rhs, position } => {
                let lv = self.evaluate(code, ctx, lhs, depth)?;
                if *op == TokenType::And && !lv.is_truthy() {
                    return Ok(LoxValue::Boolean(false));
                }
                if *op == TokenType::Or && lv.is_truthy() {
                    return Ok(LoxValue::Boolean(true));
                }
                let rv = self.evaluate(code, ctx, rhs, depth)?;
                if *op == TokenType::And || *op == TokenType::Or {
                    Ok(LoxValue::Boolean(rv.is_truthy()))
                } else {
                    binary(*op, &lv, &rv, *position, rhs.get_position())
                }
            },
            Expr::Ternary { condition, then_branch, else_branch, .. } => {
                let cv = self.evaluate(code, ctx, condition, depth)?;
                if cv.is_truthy() {
                    self.evaluate(code, ctx, then_branch, depth)
                } else {
                    self.evaluate(code, ctx, else_branch, depth)
                }
            },
            Expr::Identifier { name, id, position } => {
                match self.lookup(code, ctx.program, *id, name) {
                    Some(v) => Ok(v),
                    None => Err(RuntimeError::VarDoesNotExist { name: name.clone(), position: *position }),
                }
            },
            Expr::Assignment { name, value, id, position } => {
                let v = self.evaluate(code, ctx, value, depth)?;
                let result = v.copy();
                if self.assign(code, ctx.program, *id, name, v) {
                    Ok(result)
                } else {
                    Err(RuntimeError::VarDoesNotExist { name: name.clone(), position: *position })
                }
            },
            Expr::Call { callee, arguments, position } => {
                let f = self.evaluate(code, ctx, callee, depth)?;
                let is_callable = match &f {
                    LoxValue::Function { id, .. } => *id < self.callables.len(),
                    _ => false,
                };
                if !is_callable {
                    return Err(RuntimeError::NotCallable { kind: f.kind(), position: *position });
                }
                let args = self.evaluate_args(code, ctx, arguments, depth)?;
                self.call_value(code, &f, args, *position, depth, e)
            },
        }
    }

    fn evaluate_args(&mut self, code: &Vec<Loaded>, ctx: Ctx, args: &Vec<Expr>, depth: usize) -> (r: Result<Vec<LoxValue>, RuntimeError>)
        requires
            old(self).wf(),
        ensures
            final(self).wf(),
            grows(old(self)@, final(self)@),
            ({
                let (st, spec_r) = eval_args(code@, old(self)@, ctx, args@, 0, Seq::empty(), depth as nat);
                &&& final(self)@ == st
                &&& match r {
                    Ok(vs) => spec_r == Ok::<Seq<Val>, RuntimeError>(vs@.map_values(|v: LoxValue| v@))
                        && forall|i: int| 0 <= i < vs.len() ==> (#[trigger] vs@[i]).wf(),
                    Err(err) => spec_r == Err::<Seq<Val>, RuntimeError>(err),
                }
            }),
        decreases depth, 0nat, args@, 1nat, args@.len(),
    {
        proof {
            broadcast use lemma_grows_trans;
        }
        let mut vs: Vec<LoxValue> = Vec::new();
        let mut i: usize = 0;
        let ghost st0 = self@;
        assert(vs@.map_values(|v: LoxValue| v@) =~= Seq::<Val>::empty());
        while i < args.len()
            invariant
                st0 == old(self)@,
                i <= args.len(),
                self.wf(),
                grows(st0, self@),
                forall|j: int| 0 <= j < vs.len() ==> (#[trigger] vs@[j]).wf(),
                eval_args(code@, st0, ctx, args@, 0, Seq::empty(), depth as nat)
                    == eval_args(code@, self@, ctx, args@, i as nat, vs@.map_values(|v: LoxValue| v@), depth as nat),
            decreases args.len() - i,
        {
            let ghost before = self@;
            let r = self.evaluate(code, ctx, &args[i], depth);
            proof {
                lemma_grows_trans(st0, before, self@);
            }
            let v = match r {
                Ok(v) => v,
                Err(err) => {
                    return Err(err);
                },
            };
            proof {
                assert(vs@.push(v).map_values(|v: LoxValue| v@) =~= vs@.map_values(|v: LoxValue| v@).push(v@));
            }
            vs.push(v);
            i = i + 1;
        }
        Ok(vs)
    }

    /// Leaves a block or call entered in state `st0`, at scope `cur` with
    /// `n_scopes` scopes, `n_bindings` bindings and `n_callables` callables.
    fn leave_to(&mut self, Ghost(st0): Ghost<State>, cur: usize, n_scopes: usize, n_bindings: usize, n_callables: usize)
        requires
            old(self).wf(),
            st0.wf(),
            grows(st0, old(self)@),
            cur == st0.env.current,
            n_scopes == st0.env.parents.len(),
            n_bindings == st0.env.owners.len(),
            n_callables == st0.callables.len(),
        ensures
            final(self).wf(),
            grows(st0, final(self)@),
            final(self)@ == leave_from(st0, old(self)@),
    {
        proof {
            broadcast use lemma_grows_trans;
        }
        let drop = self.callables.len() == n_callables;
        proof {
            if drop {
                assert forall|k: int| 0 <= k < n_bindings implies #[trigger] self@.env.owners[k] < n_scopes by {
                    assert(self@.env.owners[k] == st0.env.owners[k]);
                }
                assert(self@.callables =~= st0.callables);
            }
        }
        self.env.end_scope(cur, drop, n_scopes, n_bindings);
        proof {
            let st = self@;
            assert forall|i: int| 0 <= i < st.callables.len() implies match #[trigger] st.callables[i] {
                Callable::User { closure, .. } => closure < st.env.parents.len(),
                _ => true,
            } by {
                if drop {
                    assert(st.callables[i] == st0.callables[i]);
                } else {
                    assert(st.callables[i] == old(self)@.callables[i]);
                }
            }
        }
    }

    fn call_value(
        &mut self,
        code: &Vec<Loaded>,
        f: &LoxValue,
        args: Vec<LoxValue>,
        position: Position,
        depth: usize,
        e: &Expr,
    ) -> (r: Result<LoxValue, RuntimeError>)
        requires
            old(self).wf(),
            forall|i: int| 0 <= i < args.len() ==> (#[trigger] args@[i]).wf(),
        ensures
            final(self).wf(),
            grows(old(self)@, final(self)@),
            (final(self)@, res_view(r)) == call(code@, old(self)@, f@, args@.map_values(|v: LoxValue| v@), position, depth as nat, *e),
            res_wf(res_view(r)),
        decreases depth, 0nat, e, 0nat, 0nat,
    {
        proof {
            broadcast use lemma_grows_trans;
        }
        let ghost argv = args@.map_values(|v: LoxValue| v@);
        let id = match f {
            LoxValue::Function { id, .. } => *id,
            _ => {
                return Err(RuntimeError::NotCallable { kind: f.kind(), position });
            },
        };
        if id >= self.callables.len() {
            return Err(RuntimeError::NotCallable { kind: ValueKind::Function, position });
        }
        match &self.callables[id] {
            Callable::Native { name, arity, native } => {
                if *arity != args.len() {
                    return Err(RuntimeError::IncorrectArity { name: name.clone(), position });
                }
                match native {
                    Native::Clock => Ok(LoxValue::Number(Number { num: 13124312, den: 1 })),
                }
            },
            Callable::User { name, program, decl, closure } => {
                let (program, decl, closure) = (*program, *decl, *closure);
                if program >= code.len() || decl >= code[program].functions.len() {
                    return Err(RuntimeError::UnknownFunction(position));
                }
                let fd = &code[program].functions[decl];
                if fd.params.len() != args.len() {
                    return Err(RuntimeError::IncorrectArity { name: name.clone(), position });
                }
                if depth == 0 {
                    return Err(RuntimeError::StackOverflow(position));
                }
                let ghost st0 = self@;
                proof {
                    assert(st0.callables[id as int] is User);
                }
                let cur = self.env.current();
                let n_scopes = self.env.n_scopes();
                let n_bindings = self.env.n_bindings();
                let n_callables = self.callables.len();
                self.env.begin_scope(closure);
                let ghost env1 = self@.env;
                let mut i: usize = 0;
                while i < fd.params.len()
                    invariant
                        i <= fd.params.len(),
                        fd.params.len() == args.len(),
                        argv == args@.map_values(|v: LoxValue| v@),
                        self.env.wf(),
                        self@.callables == st0.callables,
                        self@.output == st0.output,
                        self@.steps == st0.steps,
                        self@.env.parents == env1.parents,
                        self@.env.current == env1.current,
                        env1.owners.len() == st0.env.owners.len(),
                        self@.env.owners.len() >= env1.owners.len(),
                        forall|k: int| 0 <= k < env1.owners.len() ==> self@.env.owners[k] == #[trigger] env1.owners[k],
                        forall|j: int| 0 <= j < args.len() ==> (#[trigger] args@[j]).wf(),
                        bind_params(env1, fd.params@, argv, 0) == bind_params(self@.env, fd.params@, argv, i as nat),
                    decreases fd.params.len() - i,
                {
                    let v = args[i].copy();
                    self.env.define(&fd.params[i], v);
                    i = i + 1;
                }
                proof {
                    assert(self@ == st0.with_env(bind_params(st0.env.begin_scope(closure as nat), fd.params@, argv, 0)));
                    assert(self@.wf());
                }
                let body_parent = self.env.current();
                self.env.begin_scope(body_parent);
                let ctx = Ctx { program, in_loop: false, in_function: true };
                let ghost st1 = self@;
                assert(grows(st0, st1));
                let r = self.execute_seq(code, ctx, &fd.body, depth - 1);
                proof {
                    lemma_grows_trans(st0, st1, self@);
                }
                self.leave_to(Ghost(st0), cur, n_scopes, n_bindings, n_callables);
                match r {
                    Err(err) => Err(err),
                    Ok(Signal::Return(v)) => Ok(v),
                    Ok(_) => Ok(LoxValue::Nil),
                }
            },
        }
    }

    /// Executes `s` in context `ctx`, with `depth` more calls allowed.
    pub fn execute(&mut self, code: &Vec<Loaded>, ctx: Ctx, s: &Stmt, depth: usize) -> (r: Result<Signal, RuntimeError>)
        requires
            old(self).wf(),
        ensures
            final(self).wf(),
            grows(old(self)@, final(self)@),
            (final(self)@, sig_view(r)) == exec(code@, old(self)@, ctx, *s, depth as nat),
            sig_wf(sig_view(r)),
        decreases depth, 1nat, s, 1nat, 0nat,
    {
        proof {
            broadcast use lemma_grows_trans;
        }
        match s {
            Stmt::ExprStmt(e) => {
                self.evaluate(code, ctx, e, depth)?;
                Ok(Signal::Normal)
            },
            Stmt::PrintStmt(e) => {
                let v = self.evaluate(code, ctx, e, depth)?;
                let text = v.to_string();
                let ghost out0 = self.output@;
                self.output.push(text);
                proof {
                    assert(self.output@.map_values(|s: String| s@)
                        =~= out0.map_values(|s: String| s@).push(text@));
                }
                Ok(Signal::Normal)
            },
            Stmt::Var { name, initializer, .. } => {
                let v = self.evaluate(code, ctx, initializer, depth)?;
                self.env.define(name, v);
                Ok(Signal::Normal)
            },
            Stmt::Block(stmts) => {
                let ghost st0 = self@;
                let cur = self.env.current();
                let n_scopes = self.env.n_scopes();
                let n_bindings = self.env.n_bindings();
                let n_callables = self.callables.len();
                self.env.begin_scope(cur);
                let ghost st1 = self@;
                assert(grows(st0, st1));
                let r = self.execute_seq(code, ctx, stmts, depth);
                proof {
                    lemma_grows_trans(st0, st1, self@);
                }
                self.leave_to(Ghost(st0), cur, n_scopes, n_bindings, n_callables);
                r
            },
            Stmt::IfStmt { condition, then_branch, else_branch, .. } => {
                let cv = self.evaluate(code, ctx, condition, depth)?;
                if cv.is_truthy() {
                    self.execute(code, ctx, then_branch, depth)
                } else {
                    match else_branch {
                        Some(b) => self.execute(code, ctx, b, depth),
                        None => Ok(Signal::Normal),
                    }
                }
            },
            Stmt::WhileStmt { .. } => self.execute_while(code, ctx, s, depth),
            Stmt::BreakStmt(position) => {
                if ctx.in_loop {
                    Ok(Signal::Break)
                } else {
                    Err(RuntimeError::InvalidBreak(*position))
                }
            },
            Stmt::ContinueStmt(position) => {
                if ctx.in_loop {
                    Ok(Signal::Continue)
                } else {
                    Err(RuntimeError::InvalidContinue(*position))
                }
            },
            Stmt::FunStmt { function, position } => {
                if ctx.program >= code.len() || *function >= code[ctx.program].functions.len() {
                    return Err(RuntimeError::UnknownFunction(*position));
                }
                let fd = &code[ctx.program].functions[*function];
                let id = self.callables.len();
                let cur = self.env.current();
                self.callables.push(Callable::User {
                    name: fd.name.clone(),
                    program: ctx.program,
                    decl: *function,
                    closure: cur,
                });
                self.env.define(&fd.name, LoxValue::Function { id, name: fd.name.clone(), native: false });
                proof {
                    let st = self@;
                    assert forall|i: int| 0 <= i < st.callables.len() implies match #[trigger] st.callables[i] {
                        Callable::User { closure, .. } => closure < st.env.parents.len(),
                        _ => true,
                    } by {
                        if i < id {
                            assert(st.callables[i] == old(self)@.callables[i]);
                        }
                    }
                }
                Ok(Signal::Normal)
            },
            Stmt::ReturnStmt { expr, position } => {
                if !ctx.in_function {
                    return Err(RuntimeError::InvalidReturn(*position));
                }
                match expr {
                    None => Ok(Signal::Return(LoxValue::Nil)),
                    Some(e) => {
                        let v = self.evaluate(code, ctx, e, depth)?;
                        Ok(Signal::Return(v))
                    },
                }
            },
        }
    }

    /// Runs `stmts` in order, until one ends other than normally.
    pub fn execute_seq(&mut self, code: &Vec<Loaded>, ctx: Ctx, stmts: &Vec<Stmt>, depth: usize) -> (r: Result<Signal, RuntimeError>)
        requires
            old(self).wf(),
        ensures
            final(self).wf(),
            grows(old(self)@, final(self)@),
            (final(self)@, sig_view(r)) == exec_seq(code@, old(self)@, ctx, stmts@, 0, depth as nat),
            sig_wf(sig_view(r)),
        decreases depth, 1nat, stmts@, 1nat, stmts@.len(),
    {
        proof {
            broadcast use lemma_grows_trans;
        }
        let ghost st0 = self@;
        let mut i: usize = 0;
        while i < stmts.len()
            invariant
                st0 == old(self)@,
                i <= stmts.len(),
                self.wf(),
                grows(st0, self@),
                exec_seq(code@, st0, ctx, stmts@, 0, depth as nat) == exec_seq(code@, self@, ctx, stmts@, i as nat, depth as nat),
            decreases stmts.len() - i,
        {
            let ghost before = self@;
            let r = self.execute(code, ctx, &stmts[i], depth);
            proof {
                assert(grows(before, self@));
                assert(grows(st0, before));
                lemma_grows_trans(st0, before, self@);
                assert(grows(st0, self@));
            }
            match r {
                Ok(Signal::Normal) => {},
                _ => {
                    return r;
                },
            }
            i = i + 1;
        }
        Ok(Signal::Normal)
    }

    /// Runs the `while` statement `w`.
    fn execute_while(&mut self, code: &Vec<Loaded>, ctx: Ctx, w: &Stmt, depth: usize) -> (r: Result<Signal, RuntimeError>)
        requires
            old(self).wf(),
            w is WhileStmt,
        ensures
            final(self).wf(),
            grows(old(self)@, final(self)@),
            (final(self)@, sig_view(r)) == while_loop(code@, old(self)@, ctx, *w, depth as nat, old(self)@.steps),
            sig_wf(sig_view(r)),
        decreases depth, 1nat, w, 0nat, old(self)@.steps,
    {
        proof {
            broadcast use lemma_grows_trans;
        }
        let (condition, body, position) = match w {
            Stmt::WhileStmt { condition, body, position } => (condition, body, *position),
            _ => {
                return Ok(Signal::Normal);
            },
        };
        let ghost st0 = self@;
        let inner = Ctx { in_loop: true, ..ctx };
        loop
            invariant
                st0 == old(self)@,
                self.wf(),
                grows(st0, self@),
                *w == (Stmt::WhileStmt { condition: *condition, body: *body, position }),
                inner == loop_ctx(ctx),
                while_loop(code@, st0, ctx, *w, depth as nat, st0.steps) == while_loop(code@, self@, ctx, *w, depth as nat, self@.steps),
            decreases self@.steps,
        {
            let ghost st_round = self@;
            let c = self.evaluate(code, ctx, condition, depth);
            proof {
                lemma_grows_trans(st0, st_round, self@);
            }
            let cv = match c {
                Ok(v) => v,
                Err(err) => {
                    return Err(err);
                },
            };
            if !cv.is_truthy() {
                return Ok(Signal::Normal);
            }
            if self.steps == 0 {
                return Err(RuntimeError::StepLimitReached(position));
            }
            self.steps = self.steps - 1;
            let ghost st2 = self@;
            proof {
                lemma_grows_trans(st0, st_round, st2);
            }
            let r = self.execute(code, inner, body, depth);
            proof {
                lemma_grows_trans(st0, st2, self@);
            }
            let r = match r {
                Ok(sig) => sig,
                Err(err) => {
                    return Err(err);
                },
            };
            match r {
                Signal::Break => {
                    return Ok(Signal::Normal);
                },
                Signal::Return(v) => {
                    return Ok(Signal::Return(v));
                },
                _ => {},
            }
            assert(self@.steps < st_round.steps);
        }
    }

} // impl Runtime

/// The budget of loop rounds that a new interpreter starts with.
pub const STEP_BUDGET: u64 = 0xffff_ffff_ffff_ffff;

/// An interpreter: the programs it has taken in, and the run-time state that
/// they share (globals persist from one program to the next).
pub struct Interpreter {
    pub code: Vec<Loaded>,
    pub runtime: Runtime,
}

/// The state of a new interpreter: the global scope binds `clock`, the one
/// native function.
pub open spec fn initial_state(st: State) -> bool {
    &&& st.wf()
    &&& st.env.parents == seq![Option::<nat>::None]
    &&& st.env.current == 0
    &&& st.env.names == seq![seq!['c', 'l', 'o', 'c', 'k']]
    &&& st.env.owners == seq![0nat]
    &&& st.env.values == seq![Val::Function { id: 0, name: seq!['c', 'l', 'o', 'c', 'k'], native: true }]
    &&& st.callables.len() == 1
    &&& st.callables[0] matches Callable::Native { name, arity, native }
        && name@ == seq!['c', 'l', 'o', 'c', 'k'] && arity == 0 && native == Native::Clock
    &&& st.output.len() == 0
    &&& st.steps == STEP_BUDGET
}

/// What a run of top-level statements hands back: a top-level `return`,
/// `break` or `continue` is an error already, so success carries no value.
pub open spec fn top_result(r: Result<Sig, RuntimeError>) -> Result<Option<Val>, RuntimeError> {
    match r {
        Ok(Sig::Return(v)) => Ok(Some(v)),
        Ok(_) => Ok(None),
        Err(e) => Err(e),
    }
}

pub open spec fn top_view(r: Result<Option<LoxValue>, RuntimeError>) -> Result<Option<Val>, RuntimeError> {
    match r {
        Ok(Some(v)) => Ok(Some(v@)),
        Ok(None) => Ok(None),
        Err(e) => Err(e),
    }
}

pub open spec fn top_ctx(p: nat) -> Ctx {
    Ctx { program: p as usize, in_loop: false, in_function: false }
}

/// `new` is `old` after taking in program `p` with result `res`: a
/// resolver error changes nothing; otherwise `p` is kept and its statements
/// run at the top level.
pub open spec fn ran(old: Interpreter, new: Interpreter, p: Program, res: Result<Option<Val>, RuntimeError>) -> bool {
    match resolve_spec(p) {
        Err(err) => res == Err::<Option<Val>, RuntimeError>(err) && new.code@ == old.code@ && new.runtime@ == old.runtime@,
        Ok(depths) => {
            let k = old.code@.len();
            let (st, r) = exec_seq(new.code@, old.runtime@, top_ctx(k), p.statements@, 0, MAX_CALL_DEPTH as nat);
            &&& new.code@.len() == k + 1
            &&& new.code@.take(k as int) == old.code@
            &&& new.code@[k as int].functions == p.functions
            &&& new.code@[k as int].depths@ == depths
            &&& new.runtime@ == st
            &&& res == top_result(r)
        },
    }
}

/// What a run of `interpret_str` hands back, where it got past parsing.
pub open spec fn run_view(r: Result<Option<LoxValue>, LoxError>) -> Option<Result<Option<Val>, RuntimeError>> {
    match r {
        Ok(Some(v)) => Some(Ok(Some(v@))),
        Ok(None) => Some(Ok(None)),
        Err(LoxError::Runtime(e)) => Some(Err(e)),
        Err(LoxError::Parser(_)) => None,
    }
}

impl Interpreter {
    pub open spec fn wf(&self) -> bool {
        self.runtime.wf()
    }

    pub fn new() -> (r: Interpreter)
        ensures
            r.wf(),
            r.code@.len() == 0,
            initial_state(r.runtime@),
    {
        let mut env = Environment::new();
        let name = String::from_str("clock");
        proof {
            reveal_strlit("clock");
            assert(name@ =~= seq!['c', 'l', 'o', 'c', 'k']);
            assert(env@.find(0, name@, 0) == -1);
        }
        env.define(&name, LoxValue::Function { id: 0, name: name.clone(), native: true });
        let callables = vec![Callable::Native { name, arity: 0, native: Native::Clock }];
        let r = Interpreter {
            code: Vec::new(),
            runtime: Runtime { env, callables, output: Vec::new(), steps: STEP_BUDGET },
        };
        proof {
            assert(r.runtime@.output =~= Seq::<Seq<char>>::empty());
            assert(r.runtime@.env.names =~= seq![seq!['c', 'l', 'o', 'c', 'k']]);
            assert(r.runtime@.env.owners =~= seq![0nat]);
            assert(r.runtime@.env.values =~= seq![Val::Function { id: 0, name: seq!['c', 'l', 'o', 'c', 'k'], native: true }]);
        }
        r
    }

    /// Resolves and runs a program. A resolver error leaves the interpreter
    /// as it was. Otherwise the program is kept (its functions may outlive
    /// the run) and its statements run at the top level, at most
    /// `MAX_CALL_DEPTH` calls deep; the run stops at the first error.
    pub fn interpret(&mut self, program: Program) -> (r: Result<Option<LoxValue>, RuntimeError>)
        requires
            old(self).wf(),
        ensures
            final(self).wf(),
            match resolve_spec(program) {
                Err(err) => r == Err::<Option<LoxValue>, RuntimeError>(err) && final(self).code@ == old(self).code@
                    && final(self).runtime@ == old(self).runtime@,
                Ok(depths) => {
                    let p = old(self).code@.len();
                    let (st, res) = exec_seq(final(self).code@, old(self).runtime@, top_ctx(p), program.statements@, 0, MAX_CALL_DEPTH as nat);
                    &&& final(self).code@.len() == p + 1
                    &&& final(self).code@.take(p as int) == old(self).code@
                    &&& final(self).code@[p as int].functions == program.functions
                    &&& final(self).code@[p as int].depths@ == depths
                    &&& final(self).runtime@ == st
                    &&& top_view(r) == top_result(res)
                },
            },
    {
        let depths = match resolve_program(&program) {
            Ok(d) => d,
            Err(err) => {
                return Err(err);
            },
        };
        let p = self.code.len();
        let Program { statements, functions, .. } = program;
        self.code.push(Loaded { functions, depths });
        assert(self.code@.take(p as int) =~= old(self).code@);
        let ctx = Ctx { program: p, in_loop: false, in_function: false };
        let r = self.runtime.execute_seq(&self.code, ctx, &statements, MAX_CALL_DEPTH);
        match r {
            Ok(Signal::Return(v)) => Ok(Some(v)),
            Ok(_) => Ok(None),
            Err(err) => Err(err),
        }
    }

    /// Scans, parses and runs `source`. A syntax error leaves the
    /// interpreter as it was; otherwise the interpreter takes in the parsed
    /// program as `interpret` does, and a run-time error comes back wrapped.
    pub fn interpret_str(&mut self, source: &str) -> (r: Result<Option<LoxValue>, LoxError>)
        requires
            old(self).wf(),
        ensures
            final(self).wf(),
            match g_program(scan(source@), 0, Seq::empty(), Seq::empty()) {
                None => (r matches Err(LoxError::Parser(ParserError::Bundle(errors))) && errors.len() > 0)
                    && final(self).code@ == old(self).code@ && final(self).runtime@ == old(self).runtime@,
                Some((ss, fs)) => run_view(r) is Some && exists|p: Program| #![auto] stmts_view(p.statements@) == ss
                    && funs_view(p.functions@) == fs && ran(*old(self), *final(self), p, run_view(r).unwrap()),
            },
    {
        let parsed = parse_str(source);
        let ghost parsed_view = parsed;
        let program = match parsed {
            Ok(p) => p,
            Err(e) => {
                return Err(LoxError::Parser(e));
            },
        };
        let ghost p = program;
        let r = self.interpret(program);
        assert(ran(*old(self), *self, p, top_view(r)));
        let res = match r {
            Ok(v) => Ok(v),
            Err(e) => Err(LoxError::Runtime(e)),
        };
        proof {
            assert(run_view(res) == Some(top_view(r)));
            let g = g_program(scan(source@), 0, Seq::empty(), Seq::empty());
            assert(g == Some((stmts_view(p.statements@), funs_view(p.functions@))));
            assert(stmts_view(p.statements@) == g.unwrap().0 && funs_view(p.functions@) == g.unwrap().1
                && ran(*old(self), *self, p, run_view(res).unwrap()));
        }
        res
    }

    /// How many arguments the value `f` takes, where it can be called.
    pub fn arity(&self, f: &LoxValue) -> (r: Option<usize>)
        ensures
            match r {
                Some(n) => arity_of(self.code@, self.runtime@, f@) == Some(n as nat),
                None => arity_of(self.code@, self.runtime@, f@) is None,
            },
    {
        let id = match f {
            LoxValue::Function { id, .. } => *id,
            _ => {
                return None;
            },
        };
        if id >= self.runtime.callables.len() {
            return None;
        }
        match &self.runtime.callables[id] {
            Callable::Native { arity, .. } => Some(*arity),
            Callable::User { program, decl, .. } => {
                if *program >= self.code.len() || *decl >= self.code[*program].functions.len() {
                    None
                } else {
                    Some(self.code[*program].functions[*decl].params.len())
                }
            },
        }
    }

    /// The lines printed so far.
    pub fn output(&self) -> (r: &Vec<String>)
        ensures
            r@.map_values(|s: String| s@) == self.runtime@.output,
    {
        &self.runtime.output
    }

    /// Hands out the lines printed so far and forgets them.
    pub fn take_output(&mut self) -> (r: Vec<String>)
        requires
            old(self).wf(),
        ensures
            final(self).wf(),
            r@.map_values(|s: String| s@) == old(self).runtime@.output,
            final(self).runtime@ == (State { output: Seq::empty(), ..old(self).runtime@ }),
            final(self).code@ == old(self).code@,
    {
        let mut out: Vec<String> = Vec::new();
        std::mem::swap(&mut out, &mut self.runtime.output);
        assert(self.runtime.output@.map_values(|s: String| s@) =~= Seq::<Seq<char>>::empty());
        assert(self.runtime@ =~= (State { output: Seq::empty(), ..old(self).runtime@ }));
        out
    }
}

} // verus!
