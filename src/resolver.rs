use vstd::prelude::*;

use crate::ast::{Expr, FunDecl, Program, Stmt};
use crate::interpreter::RuntimeError;

verus! {

/// The static scope analysis. It keeps a stack of lexical scopes (not the
/// global one), each binding names to whether their initializer has been
/// resolved, and records for each reference site how many scopes out its
/// binding lies. A site whose name no scope on the stack binds is global and
/// gets no entry.
///
/// The bindings of all scopes are kept in one list, innermost scope last,
/// each tagged with the level of its scope (0 for the outermost).
pub struct Resolver {
    names: Vec<String>,
    ready: Vec<bool>,
    levels: Vec<usize>,
    n_scopes: usize,
    depths: Vec<Option<usize>>,
}

pub ghost struct ResolverView {
    pub names: Seq<Seq<char>>,
    pub ready: Seq<bool>,
    pub levels: Seq<nat>,
    pub n_scopes: nat,
    pub depths: Seq<Option<usize>>,
}

impl View for Resolver {
    type V = ResolverView;

    closed spec fn view(&self) -> ResolverView {
        ResolverView {
            names: self.names@.map_values(|s: String| s@),
            ready: self.ready@,
            levels: self.levels@.map_values(|l: usize| l as nat),
            n_scopes: self.n_scopes as nat,
            depths: self.depths@,
        }
    }
}

impl ResolverView {
    pub open spec fn wf(self) -> bool {
        &&& self.names.len() == self.ready.len() == self.levels.len()
        &&& forall|k: int| 0 <= k < self.levels.len() ==> #[trigger] self.levels[k] < self.n_scopes
        &&& forall|i: int, j: int| 0 <= i <= j < self.levels.len() ==> self.levels[i] <= self.levels[j]
        &&& self.n_scopes < usize::MAX
    }

    /// The newest binding of `name` among the first `k` bindings: its index,
    /// or -1.
    pub open spec fn find(self, name: Seq<char>, k: int) -> int
        decreases k,
    {
        if k <= 0 {
            -1
        } else if self.names[k - 1] == name {
            k - 1
        } else {
            self.find(name, k - 1)
        }
    }

    pub open spec fn find_top(self, name: Seq<char>) -> int {
        self.find(name, self.names.len() as int)
    }

    /// The binding of `name` in the innermost scope: its index, or -1.
    pub open spec fn find_innermost(self, name: Seq<char>) -> int {
        let k = self.find_top(name);
        if k >= 0 && self.levels[k] + 1 == self.n_scopes {
            k
        } else {
            -1
        }
    }

    /// Marks `name` in the innermost scope as declared (`ready` false) or
    /// defined (`ready` true). With no scope open, names are global and
    /// nothing is kept.
    pub open spec fn mark(self, name: Seq<char>, ready: bool) -> ResolverView {
        if self.n_scopes == 0 {
            self
        } else {
            let k = self.find_innermost(name);
            if k >= 0 {
                ResolverView { ready: self.ready.update(k, ready), ..self }
            } else {
                ResolverView {
                    names: self.names.push(name),
                    ready: self.ready.push(ready),
                    levels: self.levels.push((self.n_scopes - 1) as nat),
                    ..self
                }
            }
        }
    }

    /// Whether `name` is declared in the innermost scope but its initializer
    /// is still being resolved.
    pub open spec fn in_own_initializer(self, name: Seq<char>) -> bool {
        let k = self.find_innermost(name);
        k >= 0 && !self.ready[k]
    }

    /// Records depth `d` for site `id`.
    pub open spec fn record(self, id: nat, d: nat) -> ResolverView {
        let padded = if id < self.depths.len() {
            self.depths
        } else {
            self.depths + Seq::new((id + 1 - self.depths.len()) as nat, |i: int| None::<usize>)
        };
        ResolverView { depths: padded.update(id as int, Some(d as usize)), ..self }
    }

    /// Resolves a reference to `name` at site `id`: the distance from the
    /// innermost scope to the innermost scope that binds `name`.
    pub open spec fn resolve_local(self, name: Seq<char>, id: nat) -> ResolverView {
        let k = self.find_top(name);
        if k >= 0 {
            self.record(id, (self.n_scopes - 1 - self.levels[k]) as nat)
        } else {
            self
        }
    }

    /// Opens a scope (unless `usize::MAX` scopes are open already).
    pub open spec fn begin_scope(self) -> ResolverView {
        if self.n_scopes + 1 < usize::MAX {
            ResolverView { n_scopes: self.n_scopes + 1, ..self }
        } else {
            self
        }
    }

    /// Drops the bindings at level `lvl` and above.
    pub open spec fn pop_level(self, lvl: nat) -> ResolverView
        decreases self.names.len(),
    {
        if self.names.len() > 0 && self.levels.last() >= lvl {
            ResolverView {
                names: self.names.drop_last(),
                ready: self.ready.drop_last(),
                levels: self.levels.drop_last(),
                ..self
            }.pop_level(lvl)
        } else {
            self
        }
    }

    pub open spec fn end_scope(self) -> ResolverView {
        if self.n_scopes == 0 {
            self
        } else {
            let r = self.pop_level((self.n_scopes - 1) as nat);
            ResolverView { n_scopes: (self.n_scopes - 1) as nat, ..r }
        }
    }
}

pub open spec fn resolve_expr_spec(rv: ResolverView, e: Expr) -> Result<ResolverView, RuntimeError>
    decreases e, 0nat,
{
    match e {
        Expr::Literal { .. } => Ok(rv),
        Expr::Grouping { expr, .. } => resolve_expr_spec(rv, *expr),
        Expr::Unary { rhs, .. } => resolve_expr_spec(rv, *rhs),
        Expr::Binary { lhs, rhs, .. } => match resolve_expr_spec(rv, *lhs) {
            Ok(r1) => resolve_expr_spec(r1, *rhs),
            Err(err) => Err(err),
        },
        Expr::Ternary { condition, then_branch, else_branch, .. } => match resolve_expr_spec(rv, *condition) {
            Ok(r1) => match resolve_expr_spec(r1, *then_branch) {
                Ok(r2) => resolve_expr_spec(r2, *else_branch),
                Err(err) => Err(err),
            },
            Err(err) => Err(err),
        },
        Expr::Identifier { name, id, position } => if rv.in_own_initializer(name@) {
            Err(RuntimeError::VarUsedInOwnInitializer(name, position))
        } else {
            Ok(rv.resolve_local(name@, id as nat))
        },
        Expr::Assignment { name, value, id, .. } => match resolve_expr_spec(rv, *value) {
            Ok(r1) => Ok(r1.resolve_local(name@, id as nat)),
            Err(err) => Err(err),
        },
        Expr::Call { callee, arguments, .. } => match resolve_expr_spec(rv, *callee) {
            Ok(r1) => resolve_exprs_spec(r1, arguments@, 0),
            Err(err) => Err(err),
        },
    }
}

pub open spec fn resolve_exprs_spec(rv: ResolverView, es: Seq<Expr>, i: nat) -> Result<ResolverView, RuntimeError>
    decreases es, es.len() - i,
{
    if i >= es.len() {
        Ok(rv)
    } else {
        match resolve_expr_spec(rv, es[i as int]) {
            Ok(r1) => resolve_exprs_spec(r1, es, i + 1),
            Err(err) => Err(err),
        }
    }
}

/// Resolution of a statement of a function body or of the top level. A
/// function declared there must come before `bound` in the program's table.
pub open spec fn resolve_stmt_spec(rv: ResolverView, funs: Seq<FunDecl>, s: Stmt, bound: nat) -> Result<ResolverView, RuntimeError>
    decreases bound, 1nat, s, 1nat, 0nat,
{
    match s {
        Stmt::ExprStmt(e) => resolve_expr_spec(rv, e),
        Stmt::PrintStmt(e) => resolve_expr_spec(rv, e),
        Stmt::Var { name, initializer, .. } => match resolve_expr_spec(rv.mark(name@, false), initializer) {
            Ok(r1) => Ok(r1.mark(name@, true)),
            Err(err) => Err(err),
        },
        Stmt::Block(stmts) => match resolve_stmts_spec(rv.begin_scope(), funs, stmts@, 0, bound) {
            Ok(r1) => Ok(r1.end_scope()),
            Err(err) => Err(err),
        },
        Stmt::IfStmt { condition, then_branch, else_branch, .. } => match resolve_expr_spec(rv, condition) {
            Ok(r1) => match resolve_stmt_spec(r1, funs, *then_branch, bound) {
                Ok(r2) => match else_branch {
                    Some(b) => resolve_stmt_spec(r2, funs, *b, bound),
                    None => Ok(r2),
                },
                Err(err) => Err(err),
            },
            Err(err) => Err(err),
        },
        Stmt::WhileStmt { condition, body, .. } => match resolve_expr_spec(rv, condition) {
            Ok(r1) => resolve_stmt_spec(r1, funs, *body, bound),
            Err(err) => Err(err),
        },
        Stmt::BreakStmt(_) => Ok(rv),
        Stmt::ContinueStmt(_) => Ok(rv),
        Stmt::FunStmt { function, position } => if function >= bound || function >= funs.len() {
            Err(RuntimeError::UnknownFunction(position))
        } else {
            let name = funs[function as int].name@;
            resolve_function_spec(rv.mark(name, false).mark(name, true), funs, function as nat)
        },
        Stmt::ReturnStmt { expr, .. } => match expr {
            Some(e) => resolve_expr_spec(rv, e),
            None => Ok(rv),
        },
    }
}

pub open spec fn resolve_stmts_spec(rv: ResolverView, funs: Seq<FunDecl>, ss: Seq<Stmt>, i: nat, bound: nat) -> Result<ResolverView, RuntimeError>
    decreases bound, 1nat, ss, 1nat, ss.len() - i,
{
    if i >= ss.len() {
        Ok(rv)
    } else {
        match resolve_stmt_spec(rv, funs, ss[i as int], bound) {
            Ok(r1) => resolve_stmts_spec(r1, funs, ss, i + 1, bound),
            Err(err) => Err(err),
        }
    }
}

/// Binds each of `params[i..]` in the innermost scope.
pub open spec fn mark_params(rv: ResolverView, params: Seq<String>, i: nat) -> ResolverView
    decreases params.len() - i,
{
    if i >= params.len() {
        rv
    } else {
        mark_params(rv.mark(params[i as int]@, false).mark(params[i as int]@, true), params, i + 1)
    }
}

/// A function: one new scope holds the parameters, and the body is a block
/// with a scope of its own inside it.
pub open spec fn resolve_function_spec(rv: ResolverView, funs: Seq<FunDecl>, k: nat) -> Result<ResolverView, RuntimeError>
    decreases k, 2nat, funs[k as int], 0nat, 0nat,
{
    if k >= funs.len() {
        Ok(rv)
    } else {
        let f = funs[k as int];
        let r1 = mark_params(rv.begin_scope(), f.params@, 0);
        match resolve_stmts_spec(r1.begin_scope(), funs, f.body@, 0, k) {
            Ok(r2) => Ok(r2.end_scope().end_scope()),
            Err(err) => Err(err),
        }
    }
}

/// The depth map of a program: entry `id` is the depth of reference site
/// `id`, `None` for a global.
pub open spec fn resolve_spec(p: Program) -> Result<Seq<Option<usize>>, RuntimeError> {
    let empty = ResolverView {
        names: Seq::empty(),
        ready: Seq::empty(),
        levels: Seq::empty(),
        n_scopes: 0,
        depths: Seq::empty(),
    };
    match resolve_stmts_spec(empty, p.functions@, p.statements@, 0, p.functions@.len()) {
        Ok(r) => Ok(r.depths),
        Err(err) => Err(err),
    }
}


proof fn lemma_find_range(rv: ResolverView, name: Seq<char>, k: int)
    requires
        0 <= k <= rv.names.len(),
    ensures
        -1 <= rv.find(name, k) < k,
        rv.find(name, k) >= 0 ==> rv.names[rv.find(name, k)] == name,
    decreases k,
{
    if k > 0 {
        lemma_find_range(rv, name, k - 1);
    }
}

proof fn lemma_pop_level(rv: ResolverView, lvl: nat)
    requires
        rv.wf(),
    ensures
        rv.pop_level(lvl).n_scopes == rv.n_scopes,
        rv.pop_level(lvl).depths == rv.depths,
        forall|k: int| 0 <= k < rv.pop_level(lvl).levels.len() ==> #[trigger] rv.pop_level(lvl).levels[k] < lvl,
        rv.pop_level(lvl).wf(),
    decreases rv.names.len(),
{
    if rv.names.len() > 0 && rv.levels.last() >= lvl {
        let r1 = ResolverView {
            names: rv.names.drop_last(),
            ready: rv.ready.drop_last(),
            levels: rv.levels.drop_last(),
            ..rv
        };
        assert(r1.wf());
        lemma_pop_level(r1, lvl);
    } else {
        let n = rv.levels.len();
        assert forall|k: int| 0 <= k < n implies #[trigger] rv.levels[k] < lvl by {
            assert(rv.levels[k] <= rv.levels[n - 1]);
        }
    }
}

proof fn lemma_find_newest(rv: ResolverView, name: Seq<char>, k: int)
    requires
        0 <= k <= rv.names.len(),
    ensures
        forall|j: int| rv.find(name, k) < j < k ==> rv.names[j] != name,
        rv.find(name, k) == -1 ==> forall|j: int| 0 <= j < k ==> rv.names[j] != name,
    decreases k,
{
    if k > 0 {
        lemma_find_newest(rv, name, k - 1);
    }
}

/// A reference that a lexical scope binds is resolved to the innermost such
/// scope: the scope `d` levels out from the innermost binds the name, and no
/// scope inside it does. A reference that no open scope binds gets no entry,
/// and so is looked up among the globals.
pub proof fn lemma_resolved_depth_is_innermost(rv: ResolverView, name: Seq<char>, id: nat)
    requires
        rv.wf(),
    ensures
        ({
            let r = rv.resolve_local(name, id);
            if exists|k: int| 0 <= k < rv.names.len() && rv.names[k] == name {
                &&& id < r.depths.len()
                &&& r.depths[id as int] is Some
                &&& {
                    let d = r.depths[id as int].unwrap() as int;
                    &&& 0 <= d < rv.n_scopes
                    &&& exists|k: int| 0 <= k < rv.names.len() && rv.names[k] == name && rv.levels[k] == rv.n_scopes - 1 - d
                    &&& forall|k: int| 0 <= k < rv.names.len() && rv.names[k] == name ==> rv.levels[k] <= rv.n_scopes - 1 - d
                }
            } else {
                r == rv
            }
        }),
{
    let n = rv.names.len() as int;
    lemma_find_range(rv, name, n);
    lemma_find_newest(rv, name, n);
    let k = rv.find_top(name);
    if k >= 0 {
        let d = (rv.n_scopes - 1 - rv.levels[k]) as nat;
        let r = rv.resolve_local(name, id);
        assert(r == rv.record(id, d));
        assert(r.depths[id as int] == Some(d as usize));
        assert(rv.levels[k] < rv.n_scopes);
        assert forall|j: int| 0 <= j < n && rv.names[j] == name implies rv.levels[j] <= rv.levels[k] by {
            if j > k {
                assert(rv.names[j] != name);
            }
        }
        assert(rv.names[k] == name && rv.levels[k] == rv.n_scopes - 1 - d);
    } else {
        assert(!exists|j: int| 0 <= j < n && rv.names[j] == name);
    }
}

impl Resolver {
    pub open spec fn wf(&self) -> bool {
        self@.wf()
    }

    pub fn new() -> (r: Resolver)
        ensures
            r.wf(),
            r@ == (ResolverView {
                names: Seq::empty(),
                ready: Seq::empty(),
                levels: Seq::empty(),
                n_scopes: 0,
                depths: Seq::empty(),
            }),
    {
        let r = Resolver { names: Vec::new(), ready: Vec::new(), levels: Vec::new(), n_scopes: 0, depths: Vec::new() };
        assert(r@.names =~= Seq::<Seq<char>>::empty());
        assert(r@.levels =~= Seq::<nat>::empty());
        r
    }

    /// The depth map built so far.
    pub fn into_depths(self) -> (r: Vec<Option<usize>>)
        ensures
            r@ == self@.depths,
    {
        self.depths
    }

    fn find(&self, name: &String) -> (r: Option<usize>)
        requires
            self.wf(),
        ensures
            match r {
                Some(k) => k as int == self@.find_top(name@),
                None => self@.find_top(name@) == -1,
            },
    {
        let mut k = self.names.len();
        while k > 0
            invariant
                k <= self.names.len(),
                self@.find_top(name@) == self@.find(name@, k as int),
            decreases k,
        {
            assert(self@.names[k - 1] == self.names@[k - 1]@);
            if self.names[k - 1] == *name {
                return Some(k - 1);
            }
            k = k - 1;
        }
        None
    }

    fn find_innermost(&self, name: &String) -> (r: Option<usize>)
        requires
            self.wf(),
        ensures
            match r {
                Some(k) => k as int == self@.find_innermost(name@) && k < self@.names.len(),
                None => self@.find_innermost(name@) == -1,
            },
    {
        proof { lemma_find_range(self@, name@, self@.names.len() as int); }
        match self.find(name) {
            Some(k) => {
                assert(self@.levels[k as int] == self.levels@[k as int] as nat);
                if self.levels[k] + 1 == self.n_scopes {
                    Some(k)
                } else {
                    None
                }
            },
            None => None,
        }
    }

    fn mark(&mut self, name: &String, ready: bool)
        requires
            old(self).wf(),
        ensures
            final(self).wf(),
            final(self)@ == old(self)@.mark(name@, ready),
    {
        if self.n_scopes == 0 {
            return;
        }
        match self.find_innermost(name) {
            Some(k) => {
                self.ready.set(k, ready);
                assert(self@ =~= old(self)@.mark(name@, ready));
            },
            None => {
                self.names.push(name.clone());
                self.ready.push(ready);
                self.levels.push(self.n_scopes - 1);
                assert(self@.names =~= old(self)@.names.push(name@));
                assert(self@.levels =~= old(self)@.levels.push((old(self)@.n_scopes - 1) as nat));
                assert(self@ =~= old(self)@.mark(name@, ready));
            },
        }
    }

    fn in_own_initializer(&self, name: &String) -> (r: bool)
        requires
            self.wf(),
        ensures
            r == self@.in_own_initializer(name@),
    {
        match self.find_innermost(name) {
            Some(k) => !self.ready[k],
            None => false,
        }
    }

    fn record(&mut self, id: usize, d: usize)
        requires
            old(self).wf(),
        ensures
            final(self).wf(),
            final(self)@ == old(self)@.record(id as nat, d as nat),
    {
        let ghost d0 = self.depths@;
        while self.depths.len() <= id
            invariant
                self.wf(),
                self@.names == old(self)@.names,
                self@.ready == old(self)@.ready,
                self@.levels == old(self)@.levels,
                self@.n_scopes == old(self)@.n_scopes,
                d0 == old(self)@.depths,
                self.depths@.len() >= d0.len(),
                id < d0.len() ==> self.depths@ == d0,
                id >= d0.len() ==> self.depths@.len() <= id + 1
                    && self.depths@ =~= d0 + Seq::new((self.depths@.len() - d0.len()) as nat, |i: int| None::<usize>),
            decreases id + 1 - self.depths.len(),
        {
            self.depths.push(None);
        }
        self.depths.set(id, Some(d));
        assert(self@ =~= old(self)@.record(id as nat, d as nat));
    }

    fn resolve_local(&mut self, name: &String, id: usize)
        requires
            old(self).wf(),
        ensures
            final(self).wf(),
            final(self)@ == old(self)@.resolve_local(name@, id as nat),
    {
        proof { lemma_find_range(self@, name@, self@.names.len() as int); }
        match self.find(name) {
            Some(k) => {
                assert(self@.levels[k as int] == self.levels@[k as int] as nat);
                let d = self.n_scopes - 1 - self.levels[k];
                self.record(id, d);
            },
            None => {},
        }
    }

    fn begin_scope(&mut self)
        requires
            old(self).wf(),
        ensures
            final(self).wf(),
            final(self)@ == old(self)@.begin_scope(),
    {
        if self.n_scopes < usize::MAX - 1 {
            self.n_scopes = self.n_scopes + 1;
        }
    }

    fn end_scope(&mut self)
        requires
            old(self).wf(),
        ensures
            final(self).wf(),
            final(self)@ == old(self)@.end_scope(),
    {
        if self.n_scopes == 0 {
            return;
        }
        let lvl = self.n_scopes - 1;
        proof { lemma_pop_level(self@, lvl as nat); }
        while self.levels.len() > 0 && self.levels[self.levels.len() - 1] >= lvl
            invariant
                self.wf(),
                self@.n_scopes == old(self)@.n_scopes,
                lvl + 1 == self.n_scopes,
                old(self)@.pop_level(lvl as nat) == self@.pop_level(lvl as nat),
            decreases self.levels.len(),
        {
            let ghost before = self@;
            self.names.pop();
            self.ready.pop();
            self.levels.pop();
            proof {
                assert(self@.names =~= before.names.drop_last());
                assert(self@.ready =~= before.ready.drop_last());
                assert(self@.levels =~= before.levels.drop_last());
            }
        }
        proof { lemma_pop_level(self@, lvl as nat); }
        self.n_scopes = lvl;
        assert(self@ =~= old(self)@.end_scope());
    }

    fn resolve_expr(&mut self, e: &Expr) -> (r: Result<(), RuntimeError>)
        requires
            old(self).wf(),
        ensures
            final(self).wf(),
            match resolve_expr_spec(old(self)@, *e) {
                Ok(rv) => r is Ok && final(self)@ == rv,
                Err(err) => r == Err::<(), RuntimeError>(err),
            },
        decreases e, 0nat,
    {
        match e {
            Expr::Literal { .. } => Ok(()),
            Expr::Grouping { expr, .. } => self.resolve_expr(expr),
            Expr::Unary { rhs, .. } => self.resolve_expr(rhs),
            Expr::Binary { lhs, rhs, .. } => {
                self.resolve_expr(lhs)?;
                self.resolve_expr(rhs)
            },
            Expr::Ternary { condition, then_branch, else_branch, .. } => {
                self.resolve_expr(condition)?;
                self.resolve_expr(then_branch)?;
                self.resolve_expr(else_branch)
            },
            Expr::Identifier { name, id, position } => {
                if self.in_own_initializer(name) {
                    return Err(RuntimeError::VarUsedInOwnInitializer(name.clone(), *position));
                }
                self.resolve_local(name, *id);
                Ok(())
            },
            Expr::Assignment { name, value, id, .. } => {
                self.resolve_expr(value)?;
                self.resolve_local(name, *id);
                Ok(())
            },
            Expr::Call { callee, arguments, .. } => {
                self.resolve_expr(callee)?;
                self.resolve_exprs(arguments)
            },
        }
    }

    fn resolve_exprs(&mut self, es: &Vec<Expr>) -> (r: Result<(), RuntimeError>)
        requires
            old(self).wf(),
        ensures
            final(self).wf(),
            match resolve_exprs_spec(old(self)@, es@, 0) {
                Ok(rv) => r is Ok && final(self)@ == rv,
                Err(err) => r == Err::<(), RuntimeError>(err),
            },
        decreases es@, es@.len(),
    {
        let mut i: usize = 0;
        while i < es.len()
            invariant
                i <= es.len(),
                self.wf(),
                resolve_exprs_spec(old(self)@, es@, 0) == resolve_exprs_spec(self@, es@, i as nat),
            decreases es.len() - i,
        {
            self.resolve_expr(&es[i])?;
            i = i + 1;
        }
        Ok(())
    }

    /// Resolves a statement whose functions come before `bound` in `funs`.
    pub fn resolve_stmt(&mut self, funs: &Vec<FunDecl>, s: &Stmt, bound: usize) -> (r: Result<(), RuntimeError>)
        requires
            old(self).wf(),
        ensures
            final(self).wf(),
            match resolve_stmt_spec(old(self)@, funs@, *s, bound as nat) {
                Ok(rv) => r is Ok && final(self)@ == rv,
                Err(err) => r == Err::<(), RuntimeError>(err),
            },
        decreases bound, 1nat, s, 1nat, 0nat,
    {
        match s {
            Stmt::ExprStmt(e) => self.resolve_expr(e),
            Stmt::PrintStmt(e) => self.resolve_expr(e),
            Stmt::Var { name, initializer, .. } => {
                self.mark(name, false);
                self.resolve_expr(initializer)?;
                self.mark(name, true);
                Ok(())
            },
            Stmt::Block(stmts) => {
                self.begin_scope();
                self.resolve_stmts(funs, stmts, bound)?;
                self.end_scope();
                Ok(())
            },
            Stmt::IfStmt { condition, then_branch, else_branch, .. } => {
                self.resolve_expr(condition)?;
                self.resolve_stmt(funs, then_branch, bound)?;
                match else_branch {
                    Some(b) => self.resolve_stmt(funs, b, bound),
                    None => Ok(()),
                }
            },
            Stmt::WhileStmt { condition, body, .. } => {
                self.resolve_expr(condition)?;
                self.resolve_stmt(funs, body, bound)
            },
            Stmt::BreakStmt(_) => Ok(()),
            Stmt::ContinueStmt(_) => Ok(()),
            Stmt::FunStmt { function, position } => {
                if *function >= bound || *function >= funs.len() {
                    return Err(RuntimeError::UnknownFunction(*position));
                }
                let name = &funs[*function].name;
                self.mark(name, false);
                self.mark(name, true);
                self.resolve_function(funs, *function)
            },
            Stmt::ReturnStmt { expr, .. } => match expr {
                Some(e) => self.resolve_expr(e),
                None => Ok(()),
            },
        }
    }

    /// Resolves `ss` in order.
    pub fn resolve_stmts(&mut self, funs: &Vec<FunDecl>, ss: &Vec<Stmt>, bound: usize) -> (r: Result<(), RuntimeError>)
        requires
            old(self).wf(),
        ensures
            final(self).wf(),
            match resolve_stmts_spec(old(self)@, funs@, ss@, 0, bound as nat) {
                Ok(rv) => r is Ok && final(self)@ == rv,
                Err(err) => r == Err::<(), RuntimeError>(err),
            },
        decreases bound, 1nat, ss@, 1nat, ss@.len(),
    {
        let mut i: usize = 0;
        while i < ss.len()
            invariant
                i <= ss.len(),
                self.wf(),
                resolve_stmts_spec(old(self)@, funs@, ss@, 0, bound as nat)
                    == resolve_stmts_spec(self@, funs@, ss@, i as nat, bound as nat),
            decreases ss.len() - i,
        {
            self.resolve_stmt(funs, &ss[i], bound)?;
            i = i + 1;
        }
        Ok(())
    }

    fn resolve_function(&mut self, funs: &Vec<FunDecl>, k: usize) -> (r: Result<(), RuntimeError>)
        requires
            old(self).wf(),
        ensures
            final(self).wf(),
            match resolve_function_spec(old(self)@, funs@, k as nat) {
                Ok(rv) => r is Ok && final(self)@ == rv,
                Err(err) => r == Err::<(), RuntimeError>(err),
            },
        decreases k, 2nat, funs@[k as int], 0nat, 0nat,
    {
        if k >= funs.len() {
            return Ok(());
        }
        let f = &funs[k];
        self.begin_scope();
        let ghost r0 = self@;
        let mut i: usize = 0;
        while i < f.params.len()
            invariant
                i <= f.params.len(),
                self.wf(),
                mark_params(r0, f.params@, 0) == mark_params(self@, f.params@, i as nat),
            decreases f.params.len() - i,
        {
            self.mark(&f.params[i], false);
            self.mark(&f.params[i], true);
            i = i + 1;
        }
        self.begin_scope();
        self.resolve_stmts(funs, &f.body, k)?;
        self.end_scope();
        self.end_scope();
        Ok(())
    }
}

/// Resolves a program: the depth of each reference site that a lexical
/// scope binds, or the first use of a variable in its own initializer.
pub fn resolve_program(p: &Program) -> (r: Result<Vec<Option<usize>>, RuntimeError>)
    ensures
        match resolve_spec(*p) {
            Ok(d) => r is Ok && r.unwrap()@ == d,
            Err(err) => r == Err::<Vec<Option<usize>>, RuntimeError>(err),
        },
{
    let mut resolver = Resolver::new();
    resolver.resolve_stmts(&p.functions, &p.statements, p.functions.len())?;
    Ok(resolver.into_depths())
}

} // verus!
