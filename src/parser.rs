use vstd::prelude::*;

use crate::ast::{expr_view, exprs_view, funs_view, lemma_exprs_view_push, lemma_stmts_view_push, stmt_view, stmts_view, Expr, ExprView, FunDecl, FunView, Program, Stmt, StmtView};
use crate::grammar::{at, for_tree, g_arguments, g_arguments_rest, g_arguments_uncapped, g_assignment, g_block, g_call, g_call_rest, g_comparison, g_comparison_rest, g_declaration, g_equality, g_equality_rest, g_expression, g_expression_semicolon, g_factor, g_factor_rest, g_for_condition, g_for_increment, g_for_initializer, g_for_statement, g_function, g_if_statement, g_logical_and, g_logical_and_rest, g_logical_or, g_logical_or_rest, g_parameter_list, g_parameters, g_primary, g_program, g_statement, g_term, g_term_rest, g_ternary, g_unary, g_var_declaration, g_while_statement, ident_at, ident_name, unfold_g_arguments, unfold_g_arguments_rest, unfold_g_assignment, unfold_g_block, unfold_g_call, unfold_g_call_rest, unfold_g_comparison, unfold_g_comparison_rest, unfold_g_declaration, unfold_g_equality, unfold_g_equality_rest, unfold_g_expression, unfold_g_expression_semicolon, unfold_g_factor, unfold_g_factor_rest, unfold_g_for_statement, unfold_g_function, unfold_g_if_statement, unfold_g_logical_and, unfold_g_logical_and_rest, unfold_g_logical_or, unfold_g_logical_or_rest, unfold_g_parameters, unfold_g_primary, unfold_g_program, unfold_g_statement, unfold_g_term, unfold_g_term_rest, unfold_g_ternary, unfold_g_unary, unfold_g_var_declaration, unfold_g_while_statement};
use crate::token::{token_views, Position, Token, TokenType, TokenView};
use crate::scanner::{scan, Scanner};
use crate::value::{LoxValue, Val};

verus! {

/// The most arguments a call may have.
pub const MAX_ARGUMENTS: usize = 250;

/// A syntax error.
#[derive(Debug)]
pub enum ParserError {
    Eof(Position),
    ExpectedClosingBrace(Position),
    UnexpectedToken(TokenType, Position),
    Expected { found: TokenType, msg: String, position: Position },
    ArgumentLimitReached(Position),
    /// All the errors of a parse, in the order they were found.
    Bundle(Vec<ParserError>),
}

/// A recursive-descent parser over a token stream. Declarations of functions
/// go to a table that the statements refer to by index; a reference site is
/// numbered by the index of its token.
pub struct Parser {
    tokens: Vec<Token>,
    current: usize,
    functions: Vec<FunDecl>,
}

impl Parser {
    pub closed spec fn wf(&self) -> bool {
        self.current <= self.tokens@.len()
    }

    /// How many tokens are left.
    pub closed spec fn remaining(&self) -> nat {
        (self.tokens@.len() - self.current) as nat
    }

    /// `next` is `self` after parsing: the same tokens, none given back.
    pub closed spec fn advanced(&self, next: &Parser) -> bool {
        &&& next.tokens@ == self.tokens@
        &&& self.current <= next.current <= next.tokens@.len()
        &&& self.functions@.len() <= next.functions@.len()
    }

    /// `next` is `self` after parsing at least one token.
    pub closed spec fn consumed(&self, next: &Parser) -> bool {
        self.advanced(next) && self.current < next.current
    }

    /// The type of the last token consumed.
    pub closed spec fn last_type(&self) -> TokenType {
        self.tokens@[self.current - 1].token_type
    }

    /// `r` is what the grammar rule with result `g` gives at `self`, and
    /// `next` stands just after it.
    pub closed spec fn parsed(&self, next: &Parser, g: Option<(ExprView, nat)>, r: Result<Expr, ParserError>) -> bool {
        &&& next.functions@ == self.functions@
        &&& match g {
            Some((ev, j)) => r is Ok && expr_view(r.unwrap()) == ev && next.current == j,
            None => r is Err,
        }
    }

    /// `r` is the statement that the grammar rule with result `g` gives at
    /// `self`: `next` stands just after it, and the functions it declares
    /// follow the table that `self` had.
    pub closed spec fn built(&self, next: &Parser, g: Option<(StmtView, nat, Seq<FunView>)>, r: Result<Stmt, ParserError>) -> bool {
        match g {
            Some((sv, j, fs)) => r is Ok && stmt_view(r.unwrap()) == sv && next.current == j
                && funs_view(next.functions@) == funs_view(self.functions@) + fs,
            None => r is Err,
        }
    }

    /// How many functions the table holds.
    pub closed spec fn n_functions(&self) -> nat {
        self.functions@.len() as nat
    }

    /// No function declared yet.
    pub closed spec fn fresh(&self) -> bool {
        self.functions@.len() == 0
    }

    pub closed spec fn tokens_view(&self) -> Seq<TokenView> {
        token_views(self.tokens@)
    }

    pub closed spec fn position_view(&self) -> nat {
        self.current as nat
    }

    pub fn new(tokens: Vec<Token>) -> (r: Parser)
        ensures
            r.wf(),
            r.tokens_view() == token_views(tokens@),
            r.position_view() == 0,
            r.fresh(),
    {
        Parser { tokens, current: 0, functions: Vec::new() }
    }

    /// At the last token (the end-of-file token) or past it.
    fn is_at_end(&self) -> (r: bool)
        requires
            self.wf(),
        ensures
            r == (self.current + 1 >= self.tokens@.len()),
    {
        self.tokens.len() - self.current <= 1
    }

    /// Whether the next token is of type `t`.
    fn check(&self, t: TokenType) -> (r: bool)
        requires
            self.wf(),
        ensures
            r == at(token_views(self.tokens@), self.current as nat, t),
    {
        if self.is_at_end() {
            false
        } else {
            self.tokens[self.current].token_type == t
        }
    }

    /// The type of the next token (end of file at the end).
    fn peek_type(&self) -> (r: TokenType)
        requires
            self.wf(),
        ensures
            self.current + 1 >= self.tokens@.len() ==> r == TokenType::Eof,
            self.current + 1 < self.tokens@.len() ==> r == self.tokens@[self.current as int].token_type,
    {
        if self.is_at_end() {
            TokenType::Eof
        } else {
            self.tokens[self.current].token_type
        }
    }

    /// Consumes the next token, unless at the end.
    fn advance(&mut self)
        requires
            old(self).wf(),
        ensures
            final(self).wf(),
            old(self).advanced(final(self)),
            final(self).functions@ == old(self).functions@,
            old(self).current + 1 < old(self).tokens@.len() ==> final(self).current == old(self).current + 1,
    {
        if self.tokens.len() - self.current > 1 {
            self.current = self.current + 1;
        }
    }

    /// Consumes the next token where it is of type `t`.
    fn matches(&mut self, t: TokenType) -> (r: bool)
        requires
            old(self).wf(),
        ensures
            final(self).wf(),
            old(self).advanced(final(self)),
            final(self).functions@ == old(self).functions@,
            r ==> final(self).current == old(self).current + 1,
            r ==> old(self).tokens@[old(self).current as int].token_type == t,
            r ==> old(self).current + 1 < old(self).tokens@.len(),
            r == at(token_views(old(self).tokens@), old(self).current as nat, t),
            !r ==> final(self).current == old(self).current,
    {
        if self.check(t) {
            self.advance();
            true
        } else {
            false
        }
    }

    /// Where the last consumed token stands.
    fn position(&self) -> (r: Position)
        requires
            self.wf(),
    {
        if self.current > 0 {
            self.tokens[self.current - 1].position
        } else if self.tokens.len() > 0 {
            self.tokens[0].position
        } else {
            Position::new(1, 1)
        }
    }

    /// The literal of the last consumed token.
    fn previous_literal(&self) -> (r: Option<LoxValue>)
        requires
            self.wf(),
        ensures
            self.current > 0 ==> match (r, self.tokens@[self.current - 1].literal) {
                (Some(a), Some(b)) => a@ == b@,
                (None, None) => true,
                _ => false,
            },
    {
        if self.current > 0 {
            match &self.tokens[self.current - 1].literal {
                Some(v) => Some(v.copy()),
                None => None,
            }
        } else {
            None
        }
    }

    fn expected(&self, msg: &str) -> (r: ParserError)
        requires
            self.wf(),
        ensures
            r matches ParserError::Expected { found, .. } && found == next_type(self.tokens@, self.current as nat),
    {
        ParserError::Expected { found: self.peek_type(), msg: String::from_str(msg), position: self.position() }
    }

    /// Consumes a token of type `t`, or fails with `msg`.
    fn consume(&mut self, t: TokenType, msg: &str) -> (r: Result<(), ParserError>)
        requires
            old(self).wf(),
        ensures
            final(self).wf(),
            old(self).advanced(final(self)),
            final(self).functions@ == old(self).functions@,
            r is Ok ==> final(self).current == old(self).current + 1,
            r is Ok ==> final(self).last_type() == t,
            r is Ok <==> at(token_views(old(self).tokens@), old(self).current as nat, t),
    {
        if self.matches(t) {
            Ok(())
        } else if self.is_at_end() {
            Err(ParserError::Eof(self.position()))
        } else {
            Err(self.expected(msg))
        }
    }

    /// After an error: skips tokens up to just past a `;`, or up to a token
    /// that starts a statement.
    fn synchronize(&mut self)
        requires
            old(self).wf(),
        ensures
            final(self).wf(),
            old(self).advanced(final(self)),
            final(self).functions@ == old(self).functions@,
            old(self).current + 1 < old(self).tokens@.len() ==> final(self).current > old(self).current,
            final(self).current + 1 >= final(self).tokens@.len()
                || (final(self).current > old(self).current
                    && final(self).tokens@[final(self).current - 1].token_type == TokenType::Semicolon)
                || starts_statement(final(self).tokens@[final(self).current as int].token_type),
            forall|k: int| old(self).current < k < final(self).current ==> !#[trigger] recovery_point(old(self).tokens@, k),
    {
        self.advance();
        while !self.is_at_end()
            invariant
                self.wf(),
                old(self).advanced(self),
                self.functions@ == old(self).functions@,
                old(self).current + 1 < old(self).tokens@.len() ==> self.current > old(self).current,
                self.current + 1 < self.tokens@.len() ==> self.current > old(self).current,
                self.current <= old(self).current + 1 || old(self).current + 1 < old(self).tokens@.len(),
                forall|k: int| old(self).current < k < self.current ==> !#[trigger] recovery_point(old(self).tokens@, k),
            decreases self.tokens.len() - self.current,
        {
            if self.tokens[self.current - 1].token_type == TokenType::Semicolon {
                return;
            }
            match self.tokens[self.current].token_type {
                TokenType::Class | TokenType::Fun | TokenType::Var | TokenType::For | TokenType::If
                | TokenType::While | TokenType::Print | TokenType::Return => {
                    return;
                },
                _ => {},
            }
            self.advance();
        }
    }

    /// primary -> NUMBER | STRING | "true" | "false" | "nil" | "(" expression ")" | IDENTIFIER
    fn primary(&mut self) -> (r: Result<Expr, ParserError>)
        requires
            old(self).wf(),
        ensures
            !(at(token_views(old(self).tokens@), old(self).current as nat, TokenType::Number)
                || at(token_views(old(self).tokens@), old(self).current as nat, TokenType::String)
                || at(token_views(old(self).tokens@), old(self).current as nat, TokenType::True)
                || at(token_views(old(self).tokens@), old(self).current as nat, TokenType::False)
                || at(token_views(old(self).tokens@), old(self).current as nat, TokenType::Nil)
                || at(token_views(old(self).tokens@), old(self).current as nat, TokenType::LeftParen)
                || at(token_views(old(self).tokens@), old(self).current as nat, TokenType::Identifier))
                ==> (r matches Err(ParserError::Expected { found, .. }) && found == next_type(old(self).tokens@, old(self).current as nat)),
            old(self).parsed(final(self), g_primary(token_views(old(self).tokens@), old(self).current as nat), r),
            final(self).wf(),
            old(self).advanced(final(self)),
            r is Ok ==> old(self).consumed(final(self)),
            old(self).current + 1 < old(self).tokens@.len() && old(self).tokens@[old(self).current as int].token_type
                == TokenType::True ==> (r matches Ok(Expr::Literal { value: LoxValue::Boolean(true), .. })),
            old(self).current + 1 < old(self).tokens@.len() && old(self).tokens@[old(self).current as int].token_type
                == TokenType::False ==> (r matches Ok(Expr::Literal { value: LoxValue::Boolean(false), .. })),
            old(self).current + 1 < old(self).tokens@.len() && old(self).tokens@[old(self).current as int].token_type
                == TokenType::Nil ==> (r matches Ok(Expr::Literal { value: LoxValue::Nil, .. })),
            old(self).current + 1 < old(self).tokens@.len() && old(self).tokens@[old(self).current as int].token_type
                == TokenType::Identifier && r is Ok ==> r.unwrap() is Identifier,
            r matches Ok(Expr::Identifier { id, .. }) ==> id == old(self).current,
            old(self).current + 1 >= old(self).tokens@.len() ==> r is Err,
        decreases old(self).remaining(), 1nat,
    {
        proof {
            unfold_g_primary(token_views(self.tokens@), self.current as nat);
        }
        let t = self.peek_type();
        if t == TokenType::Number || t == TokenType::String || t == TokenType::True || t == TokenType::False
            || t == TokenType::Nil {
            self.advance();
            let position = self.position();
            let value = match t {
                TokenType::True => LoxValue::Boolean(true),
                TokenType::False => LoxValue::Boolean(false),
                TokenType::Nil => LoxValue::Nil,
                _ => match self.previous_literal() {
                    Some(v) => v,
                    None => {
                        return Err(ParserError::UnexpectedToken(t, position));
                    },
                },
            };
            return Ok(Expr::Literal { value, position });
        }
        if self.matches(TokenType::LeftParen) {
            let position = self.position();
            let expr = self.expression()?;
            self.consume(TokenType::RightParen, "Expected a closing bracket ')'")?;
            return Ok(Expr::Grouping { expr: Box::new(expr), position });
        }
        if self.matches(TokenType::Identifier) {
            let position = self.position();
            let id = self.current - 1;
            assert(id == old(self).current);
            assert(old(self).tokens@[old(self).current as int].token_type == TokenType::Identifier);
            let lit = self.previous_literal();
            match lit {
                Some(LoxValue::String(name)) => {
                    let e = Expr::Identifier { name, id, position };
                    return Ok(e);
                },
                _ => {
                    return Err(ParserError::UnexpectedToken(TokenType::Identifier, position));
                },
            }
        }
        Err(self.expected("Expected a number, string, boolean, nil, group or identifier"))
    }

    /// arguments -> expression ( "," expression )*
    fn arguments(&mut self) -> (r: Result<Vec<Expr>, ParserError>)
        requires
            old(self).wf(),
        ensures
            match g_expression(token_views(old(self).tokens@), old(self).current as nat) {
                Some((e, j)) => match g_arguments_uncapped(token_views(old(self).tokens@), j, seq![e]) {
                    Some((evs, _)) => evs.len() > MAX_ARGUMENTS ==> (r matches Err(ParserError::ArgumentLimitReached(_))),
                    None => true,
                },
                None => true,
            },
            match g_arguments(token_views(old(self).tokens@), old(self).current as nat) {
                Some((evs, j)) => r is Ok && exprs_view(r.unwrap()@) == evs && final(self).current == j,
                None => r is Err,
            },
            final(self).functions@ == old(self).functions@,
            final(self).wf(),
            old(self).advanced(final(self)),
            r is Ok ==> old(self).consumed(final(self)),
            r is Ok ==> 1 <= r.unwrap()@.len() <= MAX_ARGUMENTS,
        decreases old(self).remaining(), 13nat,
    {
        proof {
            unfold_g_arguments(token_views(self.tokens@), self.current as nat);
        }
        let mut args: Vec<Expr> = Vec::new();
        let first = self.expression()?;
        args.push(first);
        proof {
            lemma_exprs_view_push(Seq::empty(), args@[0]);
            assert(args@ =~= Seq::empty().push(args@[0]));
            assert(exprs_view(Seq::<Expr>::empty()) =~= Seq::<ExprView>::empty());
        }
        loop
            invariant
                self.wf(),
                old(self).consumed(self),
                self.functions@ == old(self).functions@,
                args@.len() >= 1,
                exprs_view(args@).len() == args@.len(),
                g_arguments(token_views(old(self).tokens@), old(self).current as nat)
                    == g_arguments_rest(token_views(old(self).tokens@), self.current as nat, exprs_view(args@)),
                ({
                    let t = token_views(old(self).tokens@);
                    match g_expression(t, old(self).current as nat) {
                        Some((e, j)) => g_arguments_uncapped(t, j, seq![e])
                            == g_arguments_uncapped(t, self.current as nat, exprs_view(args@)),
                        None => false,
                    }
                }),
            decreases self.tokens@.len() - self.current,
        {
            proof {
                unfold_g_arguments_rest(token_views(self.tokens@), self.current as nat, exprs_view(args@));
            }
            if !self.matches(TokenType::Comma) {
                if args.len() > MAX_ARGUMENTS {
                    return Err(ParserError::ArgumentLimitReached(self.position()));
                } else {
                    return Ok(args);
                }
            }
            let a = self.expression()?;
            proof {
                lemma_exprs_view_push(args@, a);
            }
            args.push(a);
        }
    }

    /// call -> primary ( "(" arguments? ")" )*
    fn call(&mut self) -> (r: Result<Expr, ParserError>)
        requires
            old(self).wf(),
        ensures
            old(self).parsed(final(self), g_call(token_views(old(self).tokens@), old(self).current as nat), r),
            final(self).wf(),
            old(self).advanced(final(self)),
            r is Ok ==> old(self).consumed(final(self)),
        decreases old(self).remaining(), 2nat,
    {
        proof {
            unfold_g_call(token_views(self.tokens@), self.current as nat);
        }
        let mut expr = self.primary()?;
        loop
            invariant
                self.wf(),
                old(self).consumed(self),
                self.functions@ == old(self).functions@,
                g_call(token_views(old(self).tokens@), old(self).current as nat)
                    == g_call_rest(token_views(old(self).tokens@), self.current as nat, expr_view(expr)),
            decreases self.tokens@.len() - self.current,
        {
            proof {
                unfold_g_call_rest(token_views(self.tokens@), self.current as nat, expr_view(expr));
            }
            if !self.matches(TokenType::LeftParen) {
                return Ok(expr);
            }
            let position = self.position();
            if self.matches(TokenType::RightParen) {
                let arguments: Vec<Expr> = Vec::new();
                assert(exprs_view(arguments@) =~= Seq::<ExprView>::empty());
                expr = Expr::Call { callee: Box::new(expr), arguments, position };
            } else {
                let arguments = self.arguments()?;
                self.consume(TokenType::RightParen, "Expected a closing bracket ')' after the arguments")?;
                expr = Expr::Call { callee: Box::new(expr), arguments, position };
            }
        }
    }

    /// unary -> ( "!" | "-" ) unary | call
    fn unary(&mut self) -> (r: Result<Expr, ParserError>)
        requires
            old(self).wf(),
        ensures
            old(self).parsed(final(self), g_unary(token_views(old(self).tokens@), old(self).current as nat), r),
            final(self).wf(),
            old(self).advanced(final(self)),
            r is Ok ==> old(self).consumed(final(self)),
        decreases old(self).remaining(), 3nat,
    {
        proof {
            unfold_g_unary(token_views(self.tokens@), self.current as nat);
        }
        let t = self.peek_type();
        if t == TokenType::Bang || t == TokenType::Minus {
            self.advance();
            let position = self.position();
            let rhs = self.unary()?;
            Ok(Expr::Unary { op: t, rhs: Box::new(rhs), position })
        } else {
            self.call()
        }
    }

    /// factor -> unary ( ( "/" | "*" ) unary )*
    fn factor(&mut self) -> (r: Result<Expr, ParserError>)
        requires
            old(self).wf(),
        ensures
            old(self).parsed(final(self), g_factor(token_views(old(self).tokens@), old(self).current as nat), r),
            final(self).wf(),
            old(self).advanced(final(self)),
            r is Ok ==> old(self).consumed(final(self)),
        decreases old(self).remaining(), 4nat,
    {
        proof {
            unfold_g_factor(token_views(self.tokens@), self.current as nat);
        }
        let mut expr = self.unary()?;
        loop
            invariant
                self.wf(),
                old(self).consumed(self),
                self.functions@ == old(self).functions@,
                g_factor(token_views(old(self).tokens@), old(self).current as nat)
                    == g_factor_rest(token_views(old(self).tokens@), self.current as nat, expr_view(expr)),
            decreases self.tokens@.len() - self.current,
        {
            proof {
                unfold_g_factor_rest(token_views(self.tokens@), self.current as nat, expr_view(expr));
            }
            let op = self.peek_type();
            if !(op == TokenType::Slash || op == TokenType::Star) {
                return Ok(expr);
            }
            self.advance();
            let position = self.position();
            let rhs = self.unary()?;
            expr = Expr::Binary { lhs: Box::new(expr), op, rhs: Box::new(rhs), position };
        }
    }

    /// term -> factor ( ( "-" | "+" ) factor )*
    fn term(&mut self) -> (r: Result<Expr, ParserError>)
        requires
            old(self).wf(),
        ensures
            old(self).parsed(final(self), g_term(token_views(old(self).tokens@), old(self).current as nat), r),
            final(self).wf(),
            old(self).advanced(final(self)),
            r is Ok ==> old(self).consumed(final(self)),
        decreases old(self).remaining(), 5nat,
    {
        proof {
            unfold_g_term(token_views(self.tokens@), self.current as nat);
        }
        let mut expr = self.factor()?;
        loop
            invariant
                self.wf(),
                old(self).consumed(self),
                self.functions@ == old(self).functions@,
                g_term(token_views(old(self).tokens@), old(self).current as nat)
                    == g_term_rest(token_views(old(self).tokens@), self.current as nat, expr_view(expr)),
            decreases self.tokens@.len() - self.current,
        {
            proof {
                unfold_g_term_rest(token_views(self.tokens@), self.current as nat, expr_view(expr));
            }
            let op = self.peek_type();
            if !(op == TokenType::Minus || op == TokenType::Plus) {
                return Ok(expr);
            }
            self.advance();
            let position = self.position();
            let rhs = self.factor()?;
            expr = Expr::Binary { lhs: Box::new(expr), op, rhs: Box::new(rhs), position };
        }
    }

    /// comparison -> term ( ( ">" | ">=" | "<" | "<=" ) term )*
    fn comparison(&mut self) -> (r: Result<Expr, ParserError>)
        requires
            old(self).wf(),
        ensures
            old(self).parsed(final(self), g_comparison(token_views(old(self).tokens@), old(self).current as nat), r),
            final(self).wf(),
            old(self).advanced(final(self)),
            r is Ok ==> old(self).consumed(final(self)),
        decreases old(self).remaining(), 6nat,
    {
        proof {
            unfold_g_comparison(token_views(self.tokens@), self.current as nat);
        }
        let mut expr = self.term()?;
        loop
            invariant
                self.wf(),
                old(self).consumed(self),
                self.functions@ == old(self).functions@,
                g_comparison(token_views(old(self).tokens@), old(self).current as nat)
                    == g_comparison_rest(token_views(old(self).tokens@), self.current as nat, expr_view(expr)),
            decreases self.tokens@.len() - self.current,
        {
            proof {
                unfold_g_comparison_rest(token_views(self.tokens@), self.current as nat, expr_view(expr));
            }
            let op = self.peek_type();
            if !(op == TokenType::Less || op == TokenType::LessEqual || op == TokenType::Greater
                || op == TokenType::GreaterEqual) {
                return Ok(expr);
            }
            self.advance();
            let position = self.position();
            let rhs = self.term()?;
            expr = Expr::Binary { lhs: Box::new(expr), op, rhs: Box::new(rhs), position };
        }
    }

    /// equality -> comparison ( ( "!=" | "==" ) comparison )*
    fn equality(&mut self) -> (r: Result<Expr, ParserError>)
        requires
            old(self).wf(),
        ensures
            old(self).parsed(final(self), g_equality(token_views(old(self).tokens@), old(self).current as nat), r),
            final(self).wf(),
            old(self).advanced(final(self)),
            r is Ok ==> old(self).consumed(final(self)),
        decreases old(self).remaining(), 7nat,
    {
        proof {
            unfold_g_equality(token_views(self.tokens@), self.current as nat);
        }
        let mut expr = self.comparison()?;
        loop
            invariant
                self.wf(),
                old(self).consumed(self),
                self.functions@ == old(self).functions@,
                g_equality(token_views(old(self).tokens@), old(self).current as nat)
                    == g_equality_rest(token_views(old(self).tokens@), self.current as nat, expr_view(expr)),
            decreases self.tokens@.len() - self.current,
        {
            proof {
                unfold_g_equality_rest(token_views(self.tokens@), self.current as nat, expr_view(expr));
            }
            let op = self.peek_type();
            if !(op == TokenType::BangEqual || op == TokenType::EqualEqual) {
                return Ok(expr);
            }
            self.advance();
            let position = self.position();
            let rhs = self.comparison()?;
            expr = Expr::Binary { lhs: Box::new(expr), op, rhs: Box::new(rhs), position };
        }
    }

    /// ternary -> equality ( "?" ternary ":" ternary )?
    fn ternary(&mut self) -> (r: Result<Expr, ParserError>)
        requires
            old(self).wf(),
        ensures
            match g_equality(token_views(old(self).tokens@), old(self).current as nat) {
                Some((_, j)) => at(token_views(old(self).tokens@), j, TokenType::QuestionMark) ==> match g_ternary(token_views(old(self).tokens@), j + 1) {
                    Some((_, k)) => !at(token_views(old(self).tokens@), k, TokenType::Colon) ==> (r matches Err(ParserError::Expected { .. })),
                    None => true,
                },
                None => true,
            },
            old(self).parsed(final(self), g_ternary(token_views(old(self).tokens@), old(self).current as nat), r),
            final(self).wf(),
            old(self).advanced(final(self)),
            r is Ok ==> old(self).consumed(final(self)),
        decreases old(self).remaining(), 8nat,
    {
        proof {
            unfold_g_ternary(token_views(self.tokens@), self.current as nat);
        }
        let condition = self.equality()?;
        if self.matches(TokenType::QuestionMark) {
            let position = self.position();
            let then_branch = self.ternary()?;
            if self.matches(TokenType::Colon) {
                let else_branch = self.ternary()?;
                Ok(Expr::Ternary {
                    condition: Box::new(condition),
                    then_branch: Box::new(then_branch),
                    else_branch: Box::new(else_branch),
                    position,
                })
            } else {
                Err(self.expected("Expected ':' after the second operand of a ternary expression"))
            }
        } else {
            Ok(condition)
        }
    }

    /// logical_and -> ternary ( "and" ternary )*
    fn logical_and(&mut self) -> (r: Result<Expr, ParserError>)
        requires
            old(self).wf(),
        ensures
            old(self).parsed(final(self), g_logical_and(token_views(old(self).tokens@), old(self).current as nat), r),
            final(self).wf(),
            old(self).advanced(final(self)),
            r is Ok ==> old(self).consumed(final(self)),
        decreases old(self).remaining(), 9nat,
    {
        proof {
            unfold_g_logical_and(token_views(self.tokens@), self.current as nat);
        }
        let mut expr = self.ternary()?;
        loop
            invariant
                self.wf(),
                old(self).consumed(self),
                self.functions@ == old(self).functions@,
                g_logical_and(token_views(old(self).tokens@), old(self).current as nat)
                    == g_logical_and_rest(token_views(old(self).tokens@), self.current as nat, expr_view(expr)),
            decreases self.tokens@.len() - self.current,
        {
            proof {
                unfold_g_logical_and_rest(token_views(self.tokens@), self.current as nat, expr_view(expr));
            }
            if !self.matches(TokenType::And) {
                return Ok(expr);
            }
            let position = self.position();
            let rhs = self.ternary()?;
            expr = Expr::Binary { lhs: Box::new(expr), op: TokenType::And, rhs: Box::new(rhs), position };
        }
    }

    /// logical_or -> logical_and ( "or" logical_and )*
    fn logical_or(&mut self) -> (r: Result<Expr, ParserError>)
        requires
            old(self).wf(),
        ensures
            old(self).parsed(final(self), g_logical_or(token_views(old(self).tokens@), old(self).current as nat), r),
            final(self).wf(),
            old(self).advanced(final(self)),
            r is Ok ==> old(self).consumed(final(self)),
        decreases old(self).remaining(), 10nat,
    {
        proof {
            unfold_g_logical_or(token_views(self.tokens@), self.current as nat);
        }
        let mut expr = self.logical_and()?;
        loop
            invariant
                self.wf(),
                old(self).consumed(self),
                self.functions@ == old(self).functions@,
                g_logical_or(token_views(old(self).tokens@), old(self).current as nat)
                    == g_logical_or_rest(token_views(old(self).tokens@), self.current as nat, expr_view(expr)),
            decreases self.tokens@.len() - self.current,
        {
            proof {
                unfold_g_logical_or_rest(token_views(self.tokens@), self.current as nat, expr_view(expr));
            }
            if !self.matches(TokenType::Or) {
                return Ok(expr);
            }
            let position = self.position();
            let rhs = self.logical_and()?;
            expr = Expr::Binary { lhs: Box::new(expr), op: TokenType::Or, rhs: Box::new(rhs), position };
        }
    }

    /// assignment -> IDENTIFIER "=" assignment | logical_or
    ///
    /// A target other than a bare identifier leaves the expression as it was
    /// parsed.
    fn assignment(&mut self) -> (r: Result<Expr, ParserError>)
        requires
            old(self).wf(),
        ensures
            old(self).parsed(final(self), g_assignment(token_views(old(self).tokens@), old(self).current as nat), r),
            final(self).wf(),
            old(self).advanced(final(self)),
            r is Ok ==> old(self).consumed(final(self)),
        decreases old(self).remaining(), 11nat,
    {
        proof {
            unfold_g_assignment(token_views(self.tokens@), self.current as nat);
        }
        let expr = self.logical_or()?;
        match expr {
            Expr::Identifier { name, id: target, position: target_position } => {
                if self.matches(TokenType::Equal) {
                    let position = self.position();
                    let id = self.current - 1;
                    let value = self.assignment()?;
                    Ok(Expr::Assignment { name, value: Box::new(value), id, position })
                } else {
                    Ok(Expr::Identifier { name, id: target, position: target_position })
                }
            },
            _ => Ok(expr),
        }
    }

    /// expression -> assignment
    pub fn expression(&mut self) -> (r: Result<Expr, ParserError>)
        requires
            old(self).wf(),
        ensures
            old(self).parsed(final(self), g_expression(old(self).tokens_view(), old(self).position_view()), r),
            final(self).wf(),
            old(self).advanced(final(self)),
            r is Ok ==> old(self).consumed(final(self)),
        decreases old(self).remaining(), 12nat,
    {
        proof {
            unfold_g_expression(token_views(self.tokens@), self.current as nat);
        }
        self.assignment()
    }

    /// exprStmt -> expression ";"
    fn expression_statement(&mut self) -> (r: Result<Stmt, ParserError>)
        requires
            old(self).wf(),
        ensures
            final(self).wf(),
            old(self).advanced(final(self)),
            final(self).functions@ == old(self).functions@,
            match g_expression_semicolon(token_views(old(self).tokens@), old(self).current as nat) {
                Some((e, j)) => r is Ok && stmt_view(r.unwrap()) == StmtView::Expr(e) && final(self).current == j,
                None => r is Err,
            },
            r is Ok ==> old(self).consumed(final(self)),
        decreases old(self).remaining(), 20nat,
    {
        proof {
            unfold_g_expression_semicolon(token_views(self.tokens@), self.current as nat);
        }
        let e = self.expression()?;
        self.consume(TokenType::Semicolon, "Expected ';' after an expression")?;
        Ok(Stmt::ExprStmt(e))
    }

    /// printStmt -> "print" expression ";" (after "print")
    fn print_statement(&mut self) -> (r: Result<Stmt, ParserError>)
        requires
            old(self).wf(),
        ensures
            final(self).wf(),
            old(self).advanced(final(self)),
            final(self).functions@ == old(self).functions@,
            match g_expression_semicolon(token_views(old(self).tokens@), old(self).current as nat) {
                Some((e, j)) => r is Ok && stmt_view(r.unwrap()) == StmtView::Print(e) && final(self).current == j,
                None => r is Err,
            },
            r is Ok ==> old(self).consumed(final(self)),
        decreases old(self).remaining(), 20nat,
    {
        proof {
            unfold_g_expression_semicolon(token_views(self.tokens@), self.current as nat);
        }
        let e = self.expression()?;
        self.consume(TokenType::Semicolon, "Expected ';' after a 'print' statement")?;
        Ok(Stmt::PrintStmt(e))
    }

    /// The declarations of a block up to its closing "}" (after the "{").
    fn block(&mut self) -> (r: Result<Vec<Stmt>, ParserError>)
        requires
            old(self).wf(),
        ensures
            final(self).wf(),
            old(self).advanced(final(self)),
            match g_block(token_views(old(self).tokens@), old(self).current as nat, old(self).functions@.len() as nat, Seq::empty(), Seq::empty()) {
                Some((ss, j, fs)) => r is Ok && stmts_view(r.unwrap()@) == ss && final(self).current == j
                    && funs_view(final(self).functions@) == funs_view(old(self).functions@) + fs,
                None => r is Err,
            },
            r is Ok ==> old(self).consumed(final(self)),
        decreases old(self).remaining(), 31nat,
    {
        let mut declarations: Vec<Stmt> = Vec::new();
        let ghost nf = old(self).functions@.len() as nat;
        let ghost mut acc: Seq<FunView> = Seq::empty();
        proof {
            assert(stmts_view(declarations@) =~= Seq::<StmtView>::empty());
            assert(funs_view(self.functions@) =~= funs_view(old(self).functions@) + acc);
        }
        loop
            invariant
                self.wf(),
                old(self).advanced(self),
                nf == old(self).functions@.len(),
                nf + acc.len() == self.functions@.len(),
                funs_view(self.functions@) == funs_view(old(self).functions@) + acc,
                g_block(token_views(old(self).tokens@), old(self).current as nat, nf, Seq::empty(), Seq::empty())
                    == g_block(token_views(self.tokens@), self.current as nat, nf, stmts_view(declarations@), acc),
            decreases self.tokens@.len() - self.current,
        {
            proof {
                unfold_g_block(token_views(self.tokens@), self.current as nat, nf, stmts_view(declarations@), acc);
            }
            if self.matches(TokenType::RightBrace) {
                return Ok(declarations);
            }
            if self.is_at_end() {
                assert(g_block(token_views(self.tokens@), self.current as nat, nf, stmts_view(declarations@), acc) is None);
                return Err(ParserError::ExpectedClosingBrace(self.position()));
            }
            let ghost g = g_declaration(token_views(self.tokens@), self.current as nat, nf + acc.len());
            let d = self.declaration()?;
            proof {
                lemma_stmts_view_push(declarations@, d);
                let fs1 = g.unwrap().2;
                assert(funs_view(self.functions@) =~= funs_view(old(self).functions@) + (acc + fs1));
                assert(funs_view(self.functions@).len() == self.functions@.len());
                acc = acc + fs1;
            }
            declarations.push(d);
        }
    }

    /// ifStmt -> "if" "(" expression ")" statement ( "else" statement )? (after "if")
    fn if_statement(&mut self) -> (r: Result<Stmt, ParserError>)
        requires
            old(self).wf(),
        ensures
            final(self).wf(),
            old(self).advanced(final(self)),
            old(self).built(final(self), g_if_statement(token_views(old(self).tokens@), old(self).current as nat, old(self).functions@.len() as nat), r),
            r is Ok ==> old(self).consumed(final(self)),
        decreases old(self).remaining(), 20nat,
    {
        proof {
            unfold_g_if_statement(token_views(self.tokens@), self.current as nat, self.functions@.len() as nat);
        }
        let position = self.position();
        self.consume(TokenType::LeftParen, "Expected '(' before the condition of an 'if' statement")?;
        let condition = self.expression()?;
        self.consume(TokenType::RightParen, "Expected ')' after the condition of an 'if' statement")?;
        let ghost g1 = g_statement(token_views(self.tokens@), self.current as nat, self.functions@.len() as nat);
        let then_branch = self.statement()?;
        proof {
            assert(funs_view(self.functions@).len() == self.functions@.len());
            assert(funs_view(old(self).functions@).len() == old(self).functions@.len());
        }
        let ghost g2 = g_statement(token_views(self.tokens@), self.current as nat + 1, self.functions@.len() as nat);
        let else_branch = if self.matches(TokenType::Else) {
            Some(Box::new(self.statement()?))
        } else {
            None
        };
        proof {
            if g2 is Some && else_branch is Some {
                assert(funs_view(self.functions@) =~= funs_view(old(self).functions@) + (g1.unwrap().2 + g2.unwrap().2));
            }
        }
        Ok(Stmt::IfStmt { condition, then_branch: Box::new(then_branch), else_branch, position })
    }

    /// whileStmt -> "while" "(" expression ")" statement (after "while")
    fn while_statement(&mut self) -> (r: Result<Stmt, ParserError>)
        requires
            old(self).wf(),
        ensures
            final(self).wf(),
            old(self).advanced(final(self)),
            old(self).built(final(self), g_while_statement(token_views(old(self).tokens@), old(self).current as nat, old(self).functions@.len() as nat), r),
            r is Ok ==> old(self).consumed(final(self)),
        decreases old(self).remaining(), 20nat,
    {
        proof {
            unfold_g_while_statement(token_views(self.tokens@), self.current as nat, self.functions@.len() as nat);
        }
        let position = self.position();
        self.consume(TokenType::LeftParen, "Expected '(' before the condition of a 'while' loop")?;
        let condition = self.expression()?;
        self.consume(TokenType::RightParen, "Expected ')' after the condition of a 'while' loop")?;
        let body = self.statement()?;
        Ok(Stmt::WhileStmt { condition, body: Box::new(body), position })
    }

    /// forStmt -> "for" "(" ( varDecl | exprStmt | ";" ) expression? ";"
    /// expression? ")" statement (after "for"), rewritten as
    /// `{ init; while (cond) { body; incr; } }`, with `true` for a missing
    /// condition.
    fn for_statement(&mut self) -> (r: Result<Stmt, ParserError>)
        requires
            old(self).wf(),
        ensures
            final(self).wf(),
            old(self).advanced(final(self)),
            old(self).built(final(self), g_for_statement(token_views(old(self).tokens@), old(self).current as nat, old(self).functions@.len() as nat), r),
            r is Ok ==> old(self).consumed(final(self)),
        decreases old(self).remaining(), 20nat,
    {
        proof {
            unfold_g_for_statement(token_views(self.tokens@), self.current as nat, self.functions@.len() as nat);
            unfold_g_expression_semicolon(token_views(self.tokens@), self.current as nat + 1);
        }
        let position = self.position();
        self.consume(TokenType::LeftParen, "Expected '(' after 'for'")?;
        let initializer = if self.matches(TokenType::Semicolon) {
            None
        } else if self.matches(TokenType::Var) {
            Some(self.var_declaration()?)
        } else {
            Some(self.expression_statement()?)
        };
        let ghost p1x = self.current as nat;
        let ghost init_v: Option<StmtView> = if initializer is Some {
            Some(stmt_view(initializer->Some_0))
        } else {
            None
        };
        proof {
            unfold_g_expression_semicolon(token_views(self.tokens@), self.current as nat);
            assert(g_for_initializer(token_views(old(self).tokens@), old(self).current as nat) is Some);
            assert(g_for_initializer(token_views(old(self).tokens@), old(self).current as nat).unwrap().1 == p1x);
        }
        let condition = if self.matches(TokenType::Semicolon) {
            Expr::Literal { value: LoxValue::Boolean(true), position: self.position() }
        } else {
            let c = self.expression()?;
            self.consume(TokenType::Semicolon, "Expected ';' after the condition of a 'for' loop")?;
            c
        };
        proof {
            assert(g_for_condition(token_views(old(self).tokens@), p1x) == Some((expr_view(condition), self.current as nat)));
        }
        let increment = if self.matches(TokenType::RightParen) {
            None
        } else {
            let i = self.expression()?;
            self.consume(TokenType::RightParen, "Expected ')' after the increment of a 'for' loop")?;
            Some(i)
        };
        let ghost p3 = self.current as nat;
        let body = self.statement()?;
        let ghost bv = stmt_view(body);
        let mut inner: Vec<Stmt> = Vec::new();
        inner.push(body);
        match increment {
            Some(i) => inner.push(Stmt::ExprStmt(i)),
            None => {},
        }
        proof {
            lemma_stmts_view_push(Seq::empty(), inner@[0]);
            assert(Seq::<Stmt>::empty().push(inner@[0]) =~= inner@.take(1));
            if inner@.len() == 2 {
                lemma_stmts_view_push(inner@.take(1), inner@[1]);
                assert(inner@.take(1).push(inner@[1]) =~= inner@);
            } else {
                assert(inner@.take(1) =~= inner@);
            }
            assert(stmts_view(Seq::<Stmt>::empty()) =~= Seq::<StmtView>::empty());
        }
        let ghost iv = inner@;
        let ghost cv = expr_view(condition);
        let body_block = Stmt::Block(inner);
        assert(stmt_view(body_block) == StmtView::Block(stmts_view(iv)));
        let while_stmt = Stmt::WhileStmt { condition, body: Box::new(body_block), position };
        assert(stmt_view(while_stmt) == StmtView::While(cv, Box::new(StmtView::Block(stmts_view(iv)))));
        let mut outer: Vec<Stmt> = Vec::new();
        match initializer {
            Some(s) => outer.push(s),
            None => {},
        }
        outer.push(while_stmt);
        proof {
            assert(stmts_view(Seq::<Stmt>::empty()) =~= Seq::<StmtView>::empty());
            if outer@.len() == 2 {
                lemma_stmts_view_push(Seq::empty(), outer@[0]);
                assert(Seq::<Stmt>::empty().push(outer@[0]) =~= outer@.take(1));
                lemma_stmts_view_push(outer@.take(1), outer@[1]);
                assert(outer@.take(1).push(outer@[1]) =~= outer@);
            } else {
                lemma_stmts_view_push(Seq::empty(), outer@[0]);
                assert(Seq::<Stmt>::empty().push(outer@[0]) =~= outer@);
            }
            let t = token_views(old(self).tokens@);
            let i = old(self).current as nat;
            let (init, p1) = g_for_initializer(t, i).unwrap();
            let (cond, p2) = g_for_condition(t, p1).unwrap();
            let (incr, p3s) = g_for_increment(t, p2).unwrap();
            assert(p3s == p3);
            assert(stmts_view(iv) == match incr {
                Some(e) => seq![bv, StmtView::Expr(e)],
                None => seq![bv],
            });
            assert(cv == cond);
            assert(init_v == init);
            let w = StmtView::While(cond, Box::new(StmtView::Block(stmts_view(iv))));
            assert(stmts_view(outer@) == match init {
                Some(sv) => seq![sv, w],
                None => seq![w],
            });
            assert(stmt_view(Stmt::Block(outer)) == for_tree(init, cond, incr, bv));
            assert(stmt_view(outer@.last()) == StmtView::While(cond, Box::new(StmtView::Block(stmts_view(iv)))));
        }
        Ok(Stmt::Block(outer))
    }

    /// breakStmt -> "break" ";" (after "break")
    fn break_statement(&mut self) -> (r: Result<Stmt, ParserError>)
        requires
            old(self).wf(),
        ensures
            final(self).wf(),
            old(self).advanced(final(self)),
            final(self).functions@ == old(self).functions@,
            r is Ok <==> at(token_views(old(self).tokens@), old(self).current as nat, TokenType::Semicolon),
            r is Ok ==> final(self).current == old(self).current + 1 && r.unwrap() is BreakStmt,
    {
        let position = self.position();
        self.consume(TokenType::Semicolon, "Expected ';' after 'break'")?;
        Ok(Stmt::BreakStmt(position))
    }

    /// continueStmt -> "continue" ";" (after "continue")
    fn continue_statement(&mut self) -> (r: Result<Stmt, ParserError>)
        requires
            old(self).wf(),
        ensures
            final(self).wf(),
            old(self).advanced(final(self)),
            final(self).functions@ == old(self).functions@,
            r is Ok <==> at(token_views(old(self).tokens@), old(self).current as nat, TokenType::Semicolon),
            r is Ok ==> final(self).current == old(self).current + 1 && r.unwrap() is ContinueStmt,
    {
        let position = self.position();
        self.consume(TokenType::Semicolon, "Expected ';' after 'continue'")?;
        Ok(Stmt::ContinueStmt(position))
    }

    /// returnStmt -> "return" expression? ";" (after "return")
    fn return_statement(&mut self) -> (r: Result<Stmt, ParserError>)
        requires
            old(self).wf(),
        ensures
            final(self).wf(),
            old(self).advanced(final(self)),
            final(self).functions@ == old(self).functions@,
            at(token_views(old(self).tokens@), old(self).current as nat, TokenType::Semicolon) ==> r is Ok
                && stmt_view(r.unwrap()) == StmtView::Return(None) && final(self).current == old(self).current + 1,
            !at(token_views(old(self).tokens@), old(self).current as nat, TokenType::Semicolon) ==> match g_expression_semicolon(token_views(old(self).tokens@), old(self).current as nat) {
                Some((e, j)) => r is Ok && stmt_view(r.unwrap()) == StmtView::Return(Some(e)) && final(self).current == j,
                None => r is Err,
            },
        decreases old(self).remaining(), 20nat,
    {
        proof {
            unfold_g_expression_semicolon(token_views(self.tokens@), self.current as nat);
        }
        let position = self.position();
        if self.matches(TokenType::Semicolon) {
            Ok(Stmt::ReturnStmt { expr: None, position })
        } else {
            let e = self.expression()?;
            self.consume(TokenType::Semicolon, "Expected ';' after a 'return' statement")?;
            Ok(Stmt::ReturnStmt { expr: Some(e), position })
        }
    }

    /// statement -> exprStmt | printStmt | block | ifStmt | whileStmt | forStmt
    ///            | breakStmt | continueStmt | returnStmt
    pub fn statement(&mut self) -> (r: Result<Stmt, ParserError>)
        requires
            old(self).wf(),
        ensures
            final(self).wf(),
            old(self).advanced(final(self)),
            old(self).built(final(self), g_statement(old(self).tokens_view(), old(self).position_view(), old(self).n_functions()), r),
            r is Ok ==> old(self).consumed(final(self)),
        decreases old(self).remaining(), 29nat,
    {
        proof {
            unfold_g_statement(token_views(self.tokens@), self.current as nat, self.functions@.len() as nat);
            assert(funs_view(self.functions@) =~= funs_view(self.functions@) + Seq::<FunView>::empty());
        }
        if self.matches(TokenType::Print) {
            self.print_statement()
        } else if self.matches(TokenType::LeftBrace) {
            let declarations = self.block()?;
            Ok(Stmt::Block(declarations))
        } else if self.matches(TokenType::If) {
            self.if_statement()
        } else if self.matches(TokenType::While) {
            self.while_statement()
        } else if self.matches(TokenType::For) {
            self.for_statement()
        } else if self.matches(TokenType::Break) {
            self.break_statement()
        } else if self.matches(TokenType::Continue) {
            self.continue_statement()
        } else if self.matches(TokenType::Return) {
            self.return_statement()
        } else {
            self.expression_statement()
        }
    }

    /// The name that an identifier token carries, consuming it.
    fn identifier(&mut self, msg: &str) -> (r: Result<String, ParserError>)
        requires
            old(self).wf(),
        ensures
            final(self).wf(),
            old(self).advanced(final(self)),
            final(self).functions@ == old(self).functions@,
            r is Ok <==> ident_at(token_views(old(self).tokens@), old(self).current as nat),
            r is Ok ==> final(self).current == old(self).current + 1,
            r matches Ok(name) ==> name@ == ident_name(token_views(old(self).tokens@), old(self).current as nat),
            r is Ok ==> old(self).consumed(final(self)),
    {
        if self.matches(TokenType::Identifier) {
            match self.previous_literal() {
                Some(LoxValue::String(name)) => Ok(name),
                _ => Err(ParserError::UnexpectedToken(TokenType::Identifier, self.position())),
            }
        } else {
            Err(self.expected(msg))
        }
    }

    /// varDecl -> "var" IDENTIFIER ( "=" expression )? ";" (after "var"); a
    /// missing initializer is `nil`.
    fn var_declaration(&mut self) -> (r: Result<Stmt, ParserError>)
        requires
            old(self).wf(),
        ensures
            final(self).wf(),
            old(self).advanced(final(self)),
            final(self).functions@ == old(self).functions@,
            match g_var_declaration(token_views(old(self).tokens@), old(self).current as nat) {
                Some((sv, j)) => r is Ok && stmt_view(r.unwrap()) == sv && final(self).current == j,
                None => r is Err,
            },
            r is Ok ==> old(self).consumed(final(self)) && r.unwrap() is Var,
        decreases old(self).remaining(), 20nat,
    {
        proof {
            unfold_g_var_declaration(token_views(self.tokens@), self.current as nat);
        }
        let name = self.identifier("Expected a variable name after 'var'")?;
        proof {
            unfold_g_expression_semicolon(token_views(self.tokens@), self.current as nat + 1);
        }
        let position = self.position();
        let initializer = if self.matches(TokenType::Equal) {
            self.expression()?
        } else {
            Expr::Literal { value: LoxValue::Nil, position }
        };
        self.consume(TokenType::Semicolon, "Expected ';' after a variable declaration")?;
        Ok(Stmt::Var { name, initializer, position })
    }

    /// funDecl -> "fun" IDENTIFIER "(" parameters? ")" "{" declaration* "}"
    /// (after "fun"); the declaration goes to the table of functions.
    fn function(&mut self) -> (r: Result<Stmt, ParserError>)
        requires
            old(self).wf(),
        ensures
            final(self).wf(),
            old(self).advanced(final(self)),
            old(self).built(final(self), g_function(token_views(old(self).tokens@), old(self).current as nat, old(self).functions@.len() as nat), r),
            r is Ok ==> old(self).consumed(final(self)),
        decreases old(self).remaining(), 20nat,
    {
        proof {
            unfold_g_function(token_views(self.tokens@), self.current as nat, self.functions@.len() as nat);
        }
        let name = self.identifier("Expected a function name after 'fun'")?;
        let position = self.position();
        self.consume(TokenType::LeftParen, "Expected '(' after the name of a function")?;
        let mut params: Vec<String> = Vec::new();
        if !self.matches(TokenType::RightParen) {
            let p = self.identifier("Expected a parameter name")?;
            params.push(p);
            let ghost q0 = self.current as nat;
            proof {
                assert(params@.map_values(|s: String| s@) =~= seq![ident_name(token_views(old(self).tokens@), old(self).current as nat + 2)]);
            }
            loop
                invariant
                    self.wf(),
                    old(self).consumed(self),
                    self.tokens@ == old(self).tokens@,
                    self.functions@ == old(self).functions@,
                    q0 == old(self).current + 3,
                    ident_at(token_views(old(self).tokens@), old(self).current as nat),
                    at(token_views(old(self).tokens@), old(self).current as nat + 1, TokenType::LeftParen),
                    !at(token_views(old(self).tokens@), old(self).current as nat + 2, TokenType::RightParen),
                    ident_at(token_views(old(self).tokens@), old(self).current as nat + 2),
                    g_parameters(token_views(self.tokens@), q0, seq![ident_name(token_views(old(self).tokens@), old(self).current as nat + 2)])
                        == g_parameters(token_views(self.tokens@), self.current as nat, params@.map_values(|s: String| s@)),
                ensures
                    self.wf(),
                    old(self).consumed(self),
                    self.tokens@ == old(self).tokens@,
                    self.functions@ == old(self).functions@,
                    g_parameters(token_views(self.tokens@), q0, seq![ident_name(token_views(old(self).tokens@), old(self).current as nat + 2)])
                        == if params@.len() > MAX_ARGUMENTS {
                        None
                    } else {
                        Some((params@.map_values(|s: String| s@), self.current as nat))
                    },
                decreases self.tokens@.len() - self.current,
            {
                proof {
                    unfold_g_parameters(token_views(self.tokens@), self.current as nat, params@.map_values(|s: String| s@));
                }
                if !self.matches(TokenType::Comma) {
                    break;
                }
                let p = match self.identifier("Expected a parameter name") {
                    Ok(p) => p,
                    Err(e) => {
                        proof {
                            unfold_g_function(token_views(old(self).tokens@), old(self).current as nat, old(self).functions@.len() as nat);
                        }
                        return Err(e);
                    },
                };
                proof {
                    assert(params@.push(p).map_values(|s: String| s@) =~= params@.map_values(|s: String| s@).push(p@));
                }
                params.push(p);
            }
            if params.len() > MAX_ARGUMENTS {
                return Err(ParserError::ArgumentLimitReached(self.position()));
            }
            self.consume(TokenType::RightParen, "Expected ')' after the parameters of a function")?;
        } else {
            proof {
                assert(params@.map_values(|s: String| s@) =~= Seq::<Seq<char>>::empty());
            }
        }
        self.consume(TokenType::LeftBrace, "Expected '{' before the body of a function")?;
        let body = self.block()?;
        let index = self.functions.len();
        let decl = FunDecl { name, params, body, position };
        let ghost fv0 = funs_view(self.functions@);
        self.functions.push(decl);
        proof {
            assert(funs_view(self.functions@) =~= fv0.push(crate::ast::fun_view(decl)));
            assert(funs_view(self.functions@) =~= funs_view(old(self).functions@)
                + (fv0.subrange(old(self).functions@.len() as int, fv0.len() as int).push(crate::ast::fun_view(decl))));
        }
        Ok(Stmt::FunStmt { function: index, position })
    }

    /// declaration -> varDecl | funDecl | statement
    fn declaration(&mut self) -> (r: Result<Stmt, ParserError>)
        requires
            old(self).wf(),
        ensures
            final(self).wf(),
            old(self).advanced(final(self)),
            old(self).built(final(self), g_declaration(token_views(old(self).tokens@), old(self).current as nat, old(self).functions@.len() as nat), r),
            r is Ok ==> old(self).consumed(final(self)),
        decreases old(self).remaining(), 30nat,
    {
        proof {
            unfold_g_declaration(token_views(self.tokens@), self.current as nat, self.functions@.len() as nat);
            assert(funs_view(self.functions@) =~= funs_view(self.functions@) + Seq::<FunView>::empty());
        }
        if self.matches(TokenType::Var) {
            self.var_declaration()
        } else if self.matches(TokenType::Fun) {
            self.function()
        } else {
            self.statement()
        }
    }

    /// program -> declaration* EOF
    ///
    /// After an error the parser skips to the next statement and goes on, so
    /// that one parse reports every error it finds: the result is the whole
    /// program, exactly where every declaration parses, or the non-empty
    /// bundle of the errors.
    pub fn program(self) -> (r: Result<Program, ParserError>)
        requires
            self.wf(),
            self.fresh(),
        ensures
            match r {
                Ok(p) => p.references == self.tokens_view().len(),
                Err(ParserError::Bundle(errors)) => errors.len() > 0,
                Err(_) => false,
            },
            match g_program(self.tokens_view(), self.position_view(), Seq::empty(), Seq::empty()) {
                Some((ss, fs)) => r is Ok && stmts_view(r.unwrap().statements@) == ss
                    && funs_view(r.unwrap().functions@) == fs,
                None => r is Err,
            },
    {
        let mut parser = self;
        let ghost t0 = token_views(parser.tokens@);
        let mut statements: Vec<Stmt> = Vec::new();
        let mut errors: Vec<ParserError> = Vec::new();
        proof {
            assert(stmts_view(statements@) =~= Seq::<StmtView>::empty());
            assert(funs_view(parser.functions@) =~= Seq::<FunView>::empty());
        }
        while !parser.is_at_end()
            invariant
                parser.wf(),
                parser.tokens@ == self.tokens@,
                t0 == token_views(self.tokens@),
                g_program(t0, self.current as nat, Seq::empty(), Seq::empty()) == if errors@.len() == 0 {
                    g_program(t0, parser.current as nat, stmts_view(statements@), funs_view(parser.functions@))
                } else {
                    None
                },
            decreases parser.tokens@.len() - parser.current,
        {
            proof {
                unfold_g_program(t0, parser.current as nat, stmts_view(statements@), funs_view(parser.functions@));
            }
            let ghost before = parser;
            match parser.declaration() {
                Ok(s) => {
                    proof {
                        lemma_stmts_view_push(statements@, s);
                    }
                    statements.push(s);
                },
                Err(err) => {
                    parser.synchronize();
                    errors.push(err);
                },
            }
        }
        proof {
            unfold_g_program(t0, parser.current as nat, stmts_view(statements@), funs_view(parser.functions@));
        }
        if errors.len() == 0 {
            Ok(Program { statements, functions: parser.functions, references: parser.tokens.len() })
        } else {
            Err(ParserError::Bundle(errors))
        }
    }
}

/// The type of the next token: end of file at the end.
pub open spec fn next_type(t: Seq<Token>, i: nat) -> TokenType {
    if i + 1 < t.len() {
        t[i as int].token_type
    } else {
        TokenType::Eof
    }
}

/// Whether error recovery stops at position `k`: at the end, just past a
/// `;`, or at a token that starts a statement.
pub open spec fn recovery_point(t: Seq<Token>, k: int) -> bool {
    k + 1 >= t.len() || t[k - 1].token_type == TokenType::Semicolon || starts_statement(t[k].token_type)
}

/// The tokens at which error recovery resumes parsing.
pub open spec fn starts_statement(t: TokenType) -> bool {
    t == TokenType::Class || t == TokenType::Fun || t == TokenType::Var || t == TokenType::For
        || t == TokenType::If || t == TokenType::While || t == TokenType::Print || t == TokenType::Return
}

/// Scans and parses `src`: the program is whole exactly where every
/// declaration of the scanned tokens parses.
pub fn parse_str(src: &str) -> (r: Result<Program, ParserError>)
    ensures
        match r {
            Ok(_) => true,
            Err(ParserError::Bundle(errors)) => errors.len() > 0,
            Err(_) => false,
        },
        match g_program(scan(src@), 0, Seq::empty(), Seq::empty()) {
            Some((ss, fs)) => r is Ok && stmts_view(r.unwrap().statements@) == ss && funs_view(r.unwrap().functions@) == fs,
            None => r is Err,
        },
{
    let tokens = Scanner::tokens_from_str(src);
    Parser::new(tokens).program()
}


} // verus!
