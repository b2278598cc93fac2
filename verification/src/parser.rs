//! The recursive-descent parser: precedence climbing over the token
//! sequence, building pooled expression nodes and statements, with
//! synchronization-based error recovery at statement boundaries.

use crate::error::ErrorView;
use crate::error::JialoxError;
use crate::expr::abs_expr;
use crate::expr::lemma_abs_prefix;
use crate::expr::lemma_prefix_trans;
use crate::expr::node_wf;
use crate::expr::BinaryExpr;
use crate::expr::Expr;
use crate::expr::ExprPool;
use crate::expr::ExprRef;
use crate::expr::ExprView;
use crate::expr::GroupingExpr;
use crate::expr::LiteralExpr;
use crate::expr::UnaryExpr;
use crate::expr::VariableExpr;
use crate::stmt::abs_stmt;
use crate::stmt::stmt_refs_ge;
use crate::stmt::stmt_wf;
use crate::stmt::ExpressionStmt;
use crate::stmt::PrintStmt;
use crate::stmt::Stmt;
use crate::stmt::StmtView;
use crate::stmt::VarStmt;
use crate::token::token_carries_value;
use crate::token::Token;
use crate::token::TokenView;
use crate::token_type::TokenType;
use vstd::prelude::*;

verus! {

/// The token sequence as the specification sees it.
pub open spec fn tview(toks: Seq<Token>) -> Seq<TokenView> {
    toks.map_values(|t: Token| t@)
}

/// A parse error bound to the offending token.
pub open spec fn perr(t: TokenView, msg: Seq<char>) -> ErrorView {
    ErrorView { token: Some(t), line: t.line, message: msg }
}

/// A parse error at a position past the end of input; unreachable for a
/// token sequence closed by its end-of-input sentinel.
pub open spec fn perr_oob(msg: Seq<char>) -> ErrorView {
    ErrorView { token: None, line: 0, message: msg }
}

/// Outcome of parsing one expression production.
pub enum PExpr {
    Found { e: ExprView, next: int },
    Failed(ErrorView),
}

/// Outcome of parsing one statement.
pub enum PStmt {
    Found { s: StmtView, next: int },
    Failed(ErrorView),
}

/// Outcome of parsing a whole program.
pub enum PProg {
    Found(Seq<StmtView>),
    Failed(ErrorView),
}

/// `primary`: literals, identifiers, and parenthesized groups.
pub open spec fn p_primary(toks: Seq<TokenView>, pos: int) -> PExpr
    decreases toks.len() - pos, 0int,
{
    if !(0 <= pos < toks.len()) {
        PExpr::Failed(perr_oob("Expected expression"@))
    } else {
        let t = toks[pos];
        if t.ttype == TokenType::True || t.ttype == TokenType::False || t.ttype == TokenType::Nil
            || t.ttype == TokenType::Number || t.ttype == TokenType::Str {
            PExpr::Found { e: ExprView::LiteralV { value: t.literal }, next: pos + 1 }
        } else if t.ttype == TokenType::Identifier {
            PExpr::Found { e: ExprView::VariableV { name: t }, next: pos + 1 }
        } else if t.ttype == TokenType::LeftParen {
            match p_expression(toks, pos + 1) {
                PExpr::Found { e, next } => {
                    if 0 <= next < toks.len() && toks[next].ttype == TokenType::RightParen {
                        PExpr::Found {
                            e: ExprView::GroupingV { expression: Box::new(e) },
                            next: next + 1,
                        }
                    } else if 0 <= next < toks.len() {
                        PExpr::Failed(perr(toks[next], "Expected ')' after expression."@))
                    } else {
                        PExpr::Failed(perr_oob("Expected ')' after expression."@))
                    }
                },
                f => f,
            }
        } else {
            PExpr::Failed(perr(t, "Expected expression"@))
        }
    }
}

/// `unary`: `!` and `-` apply to a unary operand; else `primary`.
pub open spec fn p_unary(toks: Seq<TokenView>, pos: int) -> PExpr
    decreases toks.len() - pos, 1int,
{
    if 0 <= pos < toks.len() && (toks[pos].ttype == TokenType::Bang || toks[pos].ttype
        == TokenType::Minus) {
        match p_unary(toks, pos + 1) {
            PExpr::Found { e, next } => PExpr::Found {
                e: ExprView::UnaryV { operator: toks[pos], right: Box::new(e) },
                next,
            },
            f => f,
        }
    } else {
        p_primary(toks, pos)
    }
}

/// Left-associative folding of one binary level: while the current token
/// is one of the level's operators, parse the next-tighter operand and
/// fold left.
pub open spec fn p_factor_rest(toks: Seq<TokenView>, pos: int, acc: ExprView) -> PExpr
    decreases toks.len() - pos, 2int,
{
    if 0 <= pos < toks.len() && (toks[pos].ttype == TokenType::Slash || toks[pos].ttype
        == TokenType::Star) {
        match p_unary(toks, pos + 1) {
            PExpr::Found { e, next } => {
                if next > pos && next <= toks.len() {
                    p_factor_rest(
                        toks,
                        next,
                        ExprView::BinaryV {
                            left: Box::new(acc),
                            operator: toks[pos],
                            right: Box::new(e),
                        },
                    )
                } else {
                    PExpr::Found { e: acc, next }
                }
            },
            f => f,
        }
    } else {
        PExpr::Found { e: acc, next: pos }
    }
}

pub open spec fn p_factor(toks: Seq<TokenView>, pos: int) -> PExpr
    decreases toks.len() - pos, 3int,
{
    match p_unary(toks, pos) {
        PExpr::Found { e, next } => {
            if next >= pos && next <= toks.len() {
                p_factor_rest(toks, next, e)
            } else {
                PExpr::Found { e, next }
            }
        },
        f => f,
    }
}

pub open spec fn p_term_rest(toks: Seq<TokenView>, pos: int, acc: ExprView) -> PExpr
    decreases toks.len() - pos, 4int,
{
    if 0 <= pos < toks.len() && (toks[pos].ttype == TokenType::Minus || toks[pos].ttype
        == TokenType::Plus) {
        match p_factor(toks, pos + 1) {
            PExpr::Found { e, next } => {
                if next > pos && next <= toks.len() {
                    p_term_rest(
                        toks,
                        next,
                        ExprView::BinaryV {
                            left: Box::new(acc),
                            operator: toks[pos],
                            right: Box::new(e),
                        },
                    )
                } else {
                    PExpr::Found { e: acc, next }
                }
            },
            f => f,
        }
    } else {
        PExpr::Found { e: acc, next: pos }
    }
}

pub open spec fn p_term(toks: Seq<TokenView>, pos: int) -> PExpr
    decreases toks.len() - pos, 5int,
{
    match p_factor(toks, pos) {
        PExpr::Found { e, next } => {
            if next >= pos && next <= toks.len() {
                p_term_rest(toks, next, e)
            } else {
                PExpr::Found { e, next }
            }
        },
        f => f,
    }
}

pub open spec fn p_comparison_rest(toks: Seq<TokenView>, pos: int, acc: ExprView) -> PExpr
    decreases toks.len() - pos, 6int,
{
    if 0 <= pos < toks.len() && (toks[pos].ttype == TokenType::Greater || toks[pos].ttype
        == TokenType::GreaterEqual || toks[pos].ttype == TokenType::Less || toks[pos].ttype
        == TokenType::LessEqual) {
        match p_term(toks, pos + 1) {
            PExpr::Found { e, next } => {
                if next > pos && next <= toks.len() {
                    p_comparison_rest(
                        toks,
                        next,
                        ExprView::BinaryV {
                            left: Box::new(acc),
                            operator: toks[pos],
                            right: Box::new(e),
                        },
                    )
                } else {
                    PExpr::Found { e: acc, next }
                }
            },
            f => f,
        }
    } else {
        PExpr::Found { e: acc, next: pos }
    }
}

pub open spec fn p_comparison(toks: Seq<TokenView>, pos: int) -> PExpr
    decreases toks.len() - pos, 7int,
{
    match p_term(toks, pos) {
        PExpr::Found { e, next } => {
            if next >= pos && next <= toks.len() {
                p_comparison_rest(toks, next, e)
            } else {
                PExpr::Found { e, next }
            }
        },
        f => f,
    }
}

pub open spec fn p_equality_rest(toks: Seq<TokenView>, pos: int, acc: ExprView) -> PExpr
    decreases toks.len() - pos, 8int,
{
    if 0 <= pos < toks.len() && (toks[pos].ttype == TokenType::BangEqual || toks[pos].ttype
        == TokenType::EqualEqual) {
        match p_comparison(toks, pos + 1) {
            PExpr::Found { e, next } => {
                if next > pos && next <= toks.len() {
                    p_equality_rest(
                        toks,
                        next,
                        ExprView::BinaryV {
                            left: Box::new(acc),
                            operator: toks[pos],
                            right: Box::new(e),
                        },
                    )
                } else {
                    PExpr::Found { e: acc, next }
                }
            },
            f => f,
        }
    } else {
        PExpr::Found { e: acc, next: pos }
    }
}

pub open spec fn p_equality(toks: Seq<TokenView>, pos: int) -> PExpr
    decreases toks.len() - pos, 9int,
{
    match p_comparison(toks, pos) {
        PExpr::Found { e, next } => {
            if next >= pos && next <= toks.len() {
                p_equality_rest(toks, next, e)
            } else {
                PExpr::Found { e, next }
            }
        },
        f => f,
    }
}

/// The expression grammar's entry: equality, the loosest level.
pub open spec fn p_expression(toks: Seq<TokenView>, pos: int) -> PExpr
    decreases toks.len() - pos, 10int,
{
    p_equality(toks, pos)
}

/// A `print` statement after its keyword: an expression, then `;`.
pub open spec fn p_print_statement(toks: Seq<TokenView>, pos: int) -> PStmt {
    match p_expression(toks, pos) {
        PExpr::Found { e, next } => {
            if 0 <= next < toks.len() && toks[next].ttype == TokenType::Semicolon {
                PStmt::Found { s: StmtView::PrintV { expression: e }, next: next + 1 }
            } else if 0 <= next < toks.len() {
                PStmt::Failed(perr(toks[next], "Expected ';' after value."@))
            } else {
                PStmt::Failed(perr_oob("Expected ';' after value."@))
            }
        },
        PExpr::Failed(f) => PStmt::Failed(f),
    }
}

/// A bare expression statement: an expression, then `;`.
pub open spec fn p_expression_statement(toks: Seq<TokenView>, pos: int) -> PStmt {
    match p_expression(toks, pos) {
        PExpr::Found { e, next } => {
            if 0 <= next < toks.len() && toks[next].ttype == TokenType::Semicolon {
                PStmt::Found { s: StmtView::ExpressionV { expression: e }, next: next + 1 }
            } else if 0 <= next < toks.len() {
                PStmt::Failed(perr(toks[next], "Expected ';' after value."@))
            } else {
                PStmt::Failed(perr_oob("Expected ';' after value."@))
            }
        },
        PExpr::Failed(f) => PStmt::Failed(f),
    }
}

/// A `var` declaration after its keyword: a name, an optional `=`
/// initializer, then `;`.
pub open spec fn p_var_declaration(toks: Seq<TokenView>, pos: int) -> PStmt {
    if 0 <= pos < toks.len() && toks[pos].ttype == TokenType::Identifier {
        let name = toks[pos];
        if pos + 1 < toks.len() && toks[pos + 1].ttype == TokenType::Equal {
            match p_expression(toks, pos + 2) {
                PExpr::Found { e, next } => {
                    if 0 <= next < toks.len() && toks[next].ttype == TokenType::Semicolon {
                        PStmt::Found {
                            s: StmtView::VarV { name, initializer: Some(e) },
                            next: next + 1,
                        }
                    } else if 0 <= next < toks.len() {
                        PStmt::Failed(
                            perr(toks[next], "Expected ';' after variable declaration."@),
                        )
                    } else {
                        PStmt::Failed(perr_oob("Expected ';' after variable declaration."@))
                    }
                },
                PExpr::Failed(f) => PStmt::Failed(f),
            }
        } else {
            if pos + 1 < toks.len() && toks[pos + 1].ttype == TokenType::Semicolon {
                PStmt::Found { s: StmtView::VarV { name, initializer: None }, next: pos + 2 }
            } else if pos + 1 < toks.len() {
                PStmt::Failed(perr(toks[pos + 1], "Expected ';' after variable declaration."@))
            } else {
                PStmt::Failed(perr_oob("Expected ';' after variable declaration."@))
            }
        }
    } else if 0 <= pos < toks.len() {
        PStmt::Failed(perr(toks[pos], "Expected variable name."@))
    } else {
        PStmt::Failed(perr_oob("Expected variable name."@))
    }
}

/// A statement: `print`, or a bare expression statement.
pub open spec fn p_statement(toks: Seq<TokenView>, pos: int) -> PStmt {
    if 0 <= pos < toks.len() && toks[pos].ttype == TokenType::Print {
        p_print_statement(toks, pos + 1)
    } else {
        p_expression_statement(toks, pos)
    }
}

/// A declaration: a `var` declaration, or a statement.
pub open spec fn p_declaration(toks: Seq<TokenView>, pos: int) -> PStmt {
    if 0 <= pos < toks.len() && toks[pos].ttype == TokenType::Var {
        p_var_declaration(toks, pos + 1)
    } else {
        p_statement(toks, pos)
    }
}

/// The whole program: declarations until end of input; the first failing
/// declaration fails the parse.
pub open spec fn p_program(toks: Seq<TokenView>, pos: int, acc: Seq<StmtView>) -> PProg
    decreases toks.len() - pos,
{
    if 0 <= pos < toks.len() && toks[pos].ttype != TokenType::Eof {
        match p_declaration(toks, pos) {
            PStmt::Found { s, next } => {
                if next > pos {
                    p_program(toks, next, acc.push(s))
                } else {
                    PProg::Found(acc)
                }
            },
            PStmt::Failed(f) => PProg::Failed(f),
        }
    } else {
        PProg::Found(acc)
    }
}

/// The abstract result of parsing a token sequence.
pub open spec fn spec_parse(toks: Seq<TokenView>) -> PProg {
    p_program(toks, 0, Seq::empty())
}

/// Token kinds that may start a declaration or statement, where
/// synchronization stops.
pub open spec fn is_sync_start(tt: TokenType) -> bool {
    tt == TokenType::Class || tt == TokenType::Func || tt == TokenType::Var || tt == TokenType::For
        || tt == TokenType::If || tt == TokenType::While || tt == TokenType::Print || tt
        == TokenType::Return
}

/// Discarding tokens from `pos` until just after a `;` or just before a
/// statement keyword or the end of input.
pub open spec fn sync_from(toks: Seq<TokenView>, pos: int) -> int
    decreases toks.len() - pos,
{
    if !(0 <= pos < toks.len()) || toks[pos].ttype == TokenType::Eof {
        pos
    } else if pos >= 1 && toks[pos - 1].ttype == TokenType::Semicolon {
        pos
    } else if is_sync_start(toks[pos].ttype) {
        pos
    } else {
        sync_from(toks, pos + 1)
    }
}

/// Where synchronization leaves the cursor: one token is discarded, then
/// tokens are discarded up to a statement boundary.
pub open spec fn spec_sync(toks: Seq<TokenView>, pos: int) -> int {
    if 0 <= pos < toks.len() && toks[pos].ttype != TokenType::Eof {
        sync_from(toks, pos + 1)
    } else {
        sync_from(toks, pos)
    }
}

/// How an executable parse outcome realizes a specified one: on success
/// the cursor stands at `next` and the returned handle names a fresh node
/// whose abstract tree is the specified expression; on failure the
/// diagnostic is the specified error.
pub open spec fn pe_matches(
    r: Result<ExprRef, JialoxError>,
    o: PExpr,
    cur: int,
    oldn: Seq<Expr>,
    newn: Seq<Expr>,
) -> bool {
    match o {
        PExpr::Found { e, next } => match r {
            Ok(h) => cur == next && oldn.len() <= h.idx < newn.len() && abs_expr(
                newn,
                h.idx as int,
            ) == e,
            Err(_) => false,
        },
        PExpr::Failed(f) => match r {
            Ok(_) => false,
            Err(err) => err@ == f,
        },
    }
}

/// How an executable statement-parse outcome realizes a specified one.
pub open spec fn ps_matches(
    r: Result<Stmt, JialoxError>,
    o: PStmt,
    cur: int,
    oldn: Seq<Expr>,
    newn: Seq<Expr>,
) -> bool {
    match o {
        PStmt::Found { s, next } => match r {
            Ok(st) => cur == next && stmt_wf(st, newn.len() as nat) && stmt_refs_ge(
                st,
                oldn.len() as nat,
            ) && abs_stmt(newn, st) == s,
            Err(_) => false,
        },
        PStmt::Failed(f) => match r {
            Ok(_) => false,
            Err(err) => err@ == f,
        },
    }
}

/// Node identity is handle identity: a handle minted by a later parse
/// into the same pool is never equal to a handle from an earlier one —
/// two separately parsed occurrences of the same literal are distinct
/// nodes — while every handle equals itself.
pub proof fn lemma_separate_parse_identity(h1: ExprRef, h2: ExprRef, n: nat)
    requires
        h1.idx < n,
        h2.idx >= n,
    ensures
        h1 != h2,
        h1 == h1,
{
}

/// The parser's cursor over an owned token sequence.
pub struct Parser {
    pub tokens: Vec<Token>,
    pub current: usize,
}

impl Parser {
    /// A usable token sequence: nonempty, closed by the end-of-input
    /// sentinel, every token well formed and literal-kind tokens carrying
    /// their value; the cursor in range.
    pub open spec fn wf(&self) -> bool {
        let v = tview(self.tokens@);
        v.len() >= 1 && v[v.len() - 1].ttype == TokenType::Eof && self.current < v.len() && (forall|
            k: int,
        |
            0 <= k < self.tokens@.len() ==> (#[trigger] self.tokens@[k]).wf()
                && token_carries_value(self.tokens@[k]@))
    }

    pub fn new(tokens: Vec<Token>) -> (p: Parser)
        requires
            tokens@.len() >= 1,
            tview(tokens@)[tokens@.len() - 1].ttype == TokenType::Eof,
            forall|k: int|
                0 <= k < tokens@.len() ==> (#[trigger] tokens@[k]).wf() && token_carries_value(
                    tokens@[k]@,
                ),
        ensures
            p.tokens == tokens,
            p.current == 0,
            p.wf(),
    {
        Parser { tokens, current: 0 }
    }

    fn is_at_end(&self) -> (r: bool)
        requires
            self.wf(),
        ensures
            r == (tview(self.tokens@)[self.current as int].ttype == TokenType::Eof),
    {
        self.tokens[self.current].is(TokenType::Eof)
    }

    /// A copy of the token under the cursor.
    fn currentt(&self) -> (t: Token)
        requires
            self.wf(),
        ensures
            t@ == tview(self.tokens@)[self.current as int],
            t.wf(),
    {
        self.tokens[self.current].mirror()
    }

    /// A copy of the most recently consumed token.
    fn previous(&self) -> (t: Token)
        requires
            self.wf(),
            self.current >= 1,
        ensures
            t@ == tview(self.tokens@)[self.current - 1],
            t.wf(),
    {
        self.tokens[self.current - 1].mirror()
    }

    /// Moves past the current token, unless it is the end-of-input.
    fn advance(&mut self)
        requires
            old(self).wf(),
        ensures
            final (self).tokens == old(self).tokens,
            final (self).wf(),
            final (self).current == if tview(old(self).tokens@)[old(self).current as int].ttype
                != TokenType::Eof {
                old(self).current + 1
            } else {
                old(self).current as int
            },
    {
        let n = self.tokens.len();
        if !self.is_at_end() {
            proof {
                assert(self.current != n - 1);
            }
            self.current = self.current + 1;
        }
    }

    /// Whether the current token has the given kind (never true at the
    /// end of input).
    fn check(&self, ttype: TokenType) -> (r: bool)
        requires
            self.wf(),
        ensures
            r == (tview(self.tokens@)[self.current as int].ttype == ttype && ttype
                != TokenType::Eof),
    {
        if self.is_at_end() {
            return false;
        }
        self.tokens[self.current].is(ttype)
    }

    /// Consumes the current token when it has the given kind.
    fn is_match(&mut self, ttype: TokenType) -> (r: bool)
        requires
            old(self).wf(),
            ttype != TokenType::Eof,
        ensures
            final (self).tokens == old(self).tokens,
            final (self).wf(),
            r == (tview(old(self).tokens@)[old(self).current as int].ttype == ttype),
            final (self).current == if r {
                old(self).current + 1
            } else {
                old(self).current as int
            },
    {
        if self.check(ttype) {
            self.advance();
            true
        } else {
            false
        }
    }

    /// Advances past a token of the expected kind, or fails with a parse
    /// error bound to the current token.
    fn consume(&mut self, ttype: TokenType, message: &str) -> (r: Result<Token, JialoxError>)
        requires
            old(self).wf(),
            ttype != TokenType::Eof,
        ensures
            final (self).tokens == old(self).tokens,
            final (self).wf(),
            ({
                let v = tview(old(self).tokens@);
                let pos = old(self).current as int;
                if v[pos].ttype == ttype {
                    final (self).current == pos + 1 && match r {
                        Ok(t) => t@ == v[pos] && t.wf(),
                        Err(_) => false,
                    }
                } else {
                    final (self).current == pos && match r {
                        Ok(_) => false,
                        Err(e) => e@ == perr(v[pos], message@),
                    }
                }
            }),
    {
        if self.check(ttype) {
            let t = self.currentt();
            self.advance();
            Ok(t)
        } else {
            let t = self.currentt();
            Err(Parser::error(&t, message))
        }
    }

    /// A parse error bound to the offending token.
    fn error(token: &Token, message: &str) -> (e: JialoxError)
        ensures
            e@ == perr(token@, message@),
    {
        JialoxError::parse_error(token, message)
    }

    /// `primary`: a literal token with its pre-scanned value, an
    /// identifier as a variable reference, or a parenthesized group.
    pub fn primary(&mut self, pool: &mut ExprPool) -> (r: Result<ExprRef, JialoxError>)
        requires
            old(self).wf(),
            old(pool).wf(),
        ensures
            final (self).tokens == old(self).tokens,
            final (self).wf(),
            old(self).current <= final (self).current,
            final (pool).wf(),
            old(pool).nodes@.is_prefix_of(final (pool).nodes@),
            pe_matches(
                r,
                p_primary(tview(old(self).tokens@), old(self).current as int),
                final (self).current as int,
                old(pool).nodes@,
                final (pool).nodes@,
            ),
        decreases self.tokens@.len() - self.current, 0int,
    {
        if self.is_match(TokenType::True) || self.is_match(TokenType::False) || self.is_match(
            TokenType::Nil,
        ) || self.is_match(TokenType::Number) || self.is_match(TokenType::Str) {
            let prev = self.previous();
            let value = prev.literal();
            let h = pool.add_node(Expr::Literal(LiteralExpr { value }));
            Ok(h)
        } else if self.is_match(TokenType::Identifier) {
            let name = self.previous();
            let h = pool.add_node(Expr::Variable(VariableExpr { name }));
            Ok(h)
        } else if self.is_match(TokenType::LeftParen) {
            let e = self.expression(pool)?;
            let _rp = self.consume(TokenType::RightParen, "Expected ')' after expression.")?;
            let ghost before = pool.nodes@;
            let h = pool.add_node(Expr::Grouping(GroupingExpr { expression: e }));
            proof {
                lemma_abs_prefix(before, pool.nodes@, e.idx as int);
            }
            Ok(h)
        } else {
            let t = self.currentt();
            Err(Self::error(&t, "Expected expression"))
        }
    }

    /// `unary`: `!` or `-` applied to a unary operand, else `primary`.
    pub fn unary(&mut self, pool: &mut ExprPool) -> (r: Result<ExprRef, JialoxError>)
        requires
            old(self).wf(),
            old(pool).wf(),
        ensures
            final (self).tokens == old(self).tokens,
            final (self).wf(),
            old(self).current <= final (self).current,
            final (pool).wf(),
            old(pool).nodes@.is_prefix_of(final (pool).nodes@),
            pe_matches(
                r,
                p_unary(tview(old(self).tokens@), old(self).current as int),
                final (self).current as int,
                old(pool).nodes@,
                final (pool).nodes@,
            ),
        decreases self.tokens@.len() - self.current, 1int,
    {
        if self.is_match(TokenType::Bang) || self.is_match(TokenType::Minus) {
            let operator = self.previous();
            let right = self.unary(pool)?;
            let ghost before = pool.nodes@;
            let h = pool.add_node(Expr::Unary(UnaryExpr { operator, right }));
            proof {
                lemma_abs_prefix(before, pool.nodes@, right.idx as int);
            }
            Ok(h)
        } else {
            self.primary(pool)
        }
    }

    /// `factor`: left-associative `*` and `/` over unary operands.
    pub fn factor(&mut self, pool: &mut ExprPool) -> (r: Result<ExprRef, JialoxError>)
        requires
            old(self).wf(),
            old(pool).wf(),
        ensures
            final (self).tokens == old(self).tokens,
            final (self).wf(),
            old(self).current <= final (self).current,
            final (pool).wf(),
            old(pool).nodes@.is_prefix_of(final (pool).nodes@),
            pe_matches(
                r,
                p_factor(tview(old(self).tokens@), old(self).current as int),
                final (self).current as int,
                old(pool).nodes@,
                final (pool).nodes@,
            ),
        decreases self.tokens@.len() - self.current, 3int,
    {
        let ghost v = tview(old(self).tokens@);
        let ghost pos0 = old(self).current as int;
        let mut fac = self.unary(pool)?;
        loop
            invariant
                v == tview(old(self).tokens@),
                pos0 == old(self).current as int,
                self.tokens == old(self).tokens,
                self.wf(),
                pos0 <= self.current,
                pool.wf(),
                old(pool).nodes@.is_prefix_of(pool.nodes@),
                old(pool).nodes@.len() <= fac.idx < pool.nodes@.len(),
                p_factor(v, pos0) == p_factor_rest(
                    v,
                    self.current as int,
                    abs_expr(pool.nodes@, fac.idx as int),
                ),
            ensures
                v == tview(old(self).tokens@),
                self.tokens == old(self).tokens,
                self.wf(),
                pos0 <= self.current,
                pool.wf(),
                old(pool).nodes@.is_prefix_of(pool.nodes@),
                old(pool).nodes@.len() <= fac.idx < pool.nodes@.len(),
                p_factor(v, pos0) == p_factor_rest(
                    v,
                    self.current as int,
                    abs_expr(pool.nodes@, fac.idx as int),
                ),
                !(v[self.current as int].ttype == TokenType::Slash || v[self.current as int].ttype
                    == TokenType::Star),
            decreases v.len() - self.current,
        {
            if !(self.is_match(TokenType::Slash) || self.is_match(TokenType::Star)) {
                break ;
            }
            let ghost head_pool = pool.nodes@;
            let operator = self.previous();
            let right = self.unary(pool)?;
            let ghost mid_pool = pool.nodes@;
            let h = pool.add_node(Expr::Binary(BinaryExpr { left: fac, operator, right }));
            proof {
                lemma_prefix_trans(head_pool, mid_pool, pool.nodes@);
                lemma_abs_prefix(head_pool, pool.nodes@, fac.idx as int);
                lemma_abs_prefix(mid_pool, pool.nodes@, right.idx as int);
            }
            fac = h;
        }
        Ok(fac)
    }

    /// `term`: left-associative `+` and `-` over factors.
    pub fn term(&mut self, pool: &mut ExprPool) -> (r: Result<ExprRef, JialoxError>)
        requires
            old(self).wf(),
            old(pool).wf(),
        ensures
            final (self).tokens == old(self).tokens,
            final (self).wf(),
            old(self).current <= final (self).current,
            final (pool).wf(),
            old(pool).nodes@.is_prefix_of(final (pool).nodes@),
            pe_matches(
                r,
                p_term(tview(old(self).tokens@), old(self).current as int),
                final (self).current as int,
                old(pool).nodes@,
                final (pool).nodes@,
            ),
        decreases self.tokens@.len() - self.current, 5int,
    {
        let ghost v = tview(old(self).tokens@);
        let ghost pos0 = old(self).current as int;
        let mut te = self.factor(pool)?;
        loop
            invariant
                v == tview(old(self).tokens@),
                pos0 == old(self).current as int,
                self.tokens == old(self).tokens,
                self.wf(),
                pos0 <= self.current,
                pool.wf(),
                old(pool).nodes@.is_prefix_of(pool.nodes@),
                old(pool).nodes@.len() <= te.idx < pool.nodes@.len(),
                p_term(v, pos0) == p_term_rest(
                    v,
                    self.current as int,
                    abs_expr(pool.nodes@, te.idx as int),
                ),
            ensures
                v == tview(old(self).tokens@),
                self.tokens == old(self).tokens,
                self.wf(),
                pos0 <= self.current,
                pool.wf(),
                old(pool).nodes@.is_prefix_of(pool.nodes@),
                old(pool).nodes@.len() <= te.idx < pool.nodes@.len(),
                p_term(v, pos0) == p_term_rest(
                    v,
                    self.current as int,
                    abs_expr(pool.nodes@, te.idx as int),
                ),
                !(v[self.current as int].ttype == TokenType::Minus || v[self.current as int].ttype
                    == TokenType::Plus),
            decreases v.len() - self.current,
        {
            if !(self.is_match(TokenType::Minus) || self.is_match(TokenType::Plus)) {
                break ;
            }
            let ghost head_pool = pool.nodes@;
            let operator = self.previous();
            let right = self.factor(pool)?;
            let ghost mid_pool = pool.nodes@;
            let h = pool.add_node(Expr::Binary(BinaryExpr { left: te, operator, right }));
            proof {
                lemma_prefix_trans(head_pool, mid_pool, pool.nodes@);
                lemma_abs_prefix(head_pool, pool.nodes@, te.idx as int);
                lemma_abs_prefix(mid_pool, pool.nodes@, right.idx as int);
            }
            te = h;
        }
        Ok(te)
    }

    /// `comparison`: left-associative `> >= < <=` over terms.
    pub fn comparison(&mut self, pool: &mut ExprPool) -> (r: Result<ExprRef, JialoxError>)
        requires
            old(self).wf(),
            old(pool).wf(),
        ensures
            final (self).tokens == old(self).tokens,
            final (self).wf(),
            old(self).current <= final (self).current,
            final (pool).wf(),
            old(pool).nodes@.is_prefix_of(final (pool).nodes@),
            pe_matches(
                r,
                p_comparison(tview(old(self).tokens@), old(self).current as int),
                final (self).current as int,
                old(pool).nodes@,
                final (pool).nodes@,
            ),
        decreases self.tokens@.len() - self.current, 7int,
    {
        let ghost v = tview(old(self).tokens@);
        let ghost pos0 = old(self).current as int;
        let mut comp = self.term(pool)?;
        loop
            invariant
                v == tview(old(self).tokens@),
                pos0 == old(self).current as int,
                self.tokens == old(self).tokens,
                self.wf(),
                pos0 <= self.current,
                pool.wf(),
                old(pool).nodes@.is_prefix_of(pool.nodes@),
                old(pool).nodes@.len() <= comp.idx < pool.nodes@.len(),
                p_comparison(v, pos0) == p_comparison_rest(
                    v,
                    self.current as int,
                    abs_expr(pool.nodes@, comp.idx as int),
                ),
            ensures
                v == tview(old(self).tokens@),
                self.tokens == old(self).tokens,
                self.wf(),
                pos0 <= self.current,
                pool.wf(),
                old(pool).nodes@.is_prefix_of(pool.nodes@),
                old(pool).nodes@.len() <= comp.idx < pool.nodes@.len(),
                p_comparison(v, pos0) == p_comparison_rest(
                    v,
                    self.current as int,
                    abs_expr(pool.nodes@, comp.idx as int),
                ),
                !(v[self.current as int].ttype == TokenType::Greater || v[self.current as int].ttype
                    == TokenType::GreaterEqual || v[self.current as int].ttype == TokenType::Less
                    || v[self.current as int].ttype == TokenType::LessEqual),
            decreases v.len() - self.current,
        {
            if !(self.is_match(TokenType::Greater) || self.is_match(TokenType::GreaterEqual)
                || self.is_match(TokenType::Less) || self.is_match(TokenType::LessEqual)) {
                break ;
            }
            let ghost head_pool = pool.nodes@;
            let operator = self.previous();
            let right = self.term(pool)?;
            let ghost mid_pool = pool.nodes@;
            let h = pool.add_node(Expr::Binary(BinaryExpr { left: comp, operator, right }));
            proof {
                lemma_prefix_trans(head_pool, mid_pool, pool.nodes@);
                lemma_abs_prefix(head_pool, pool.nodes@, comp.idx as int);
                lemma_abs_prefix(mid_pool, pool.nodes@, right.idx as int);
            }
            comp = h;
        }
        Ok(comp)
    }

    /// `equality`: left-associative `==` and `!=` over comparisons.
    pub fn equality(&mut self, pool: &mut ExprPool) -> (r: Result<ExprRef, JialoxError>)
        requires
            old(self).wf(),
            old(pool).wf(),
        ensures
            final (self).tokens == old(self).tokens,
            final (self).wf(),
            old(self).current <= final (self).current,
            final (pool).wf(),
            old(pool).nodes@.is_prefix_of(final (pool).nodes@),
            pe_matches(
                r,
                p_equality(tview(old(self).tokens@), old(self).current as int),
                final (self).current as int,
                old(pool).nodes@,
                final (pool).nodes@,
            ),
        decreases self.tokens@.len() - self.current, 9int,
    {
        let ghost v = tview(old(self).tokens@);
        let ghost pos0 = old(self).current as int;
        let mut expr = self.comparison(pool)?;
        loop
            invariant
                v == tview(old(self).tokens@),
                pos0 == old(self).current as int,
                self.tokens == old(self).tokens,
                self.wf(),
                pos0 <= self.current,
                pool.wf(),
                old(pool).nodes@.is_prefix_of(pool.nodes@),
                old(pool).nodes@.len() <= expr.idx < pool.nodes@.len(),
                p_equality(v, pos0) == p_equality_rest(
                    v,
                    self.current as int,
                    abs_expr(pool.nodes@, expr.idx as int),
                ),
            ensures
                v == tview(old(self).tokens@),
                self.tokens == old(self).tokens,
                self.wf(),
                pos0 <= self.current,
                pool.wf(),
                old(pool).nodes@.is_prefix_of(pool.nodes@),
                old(pool).nodes@.len() <= expr.idx < pool.nodes@.len(),
                p_equality(v, pos0) == p_equality_rest(
                    v,
                    self.current as int,
                    abs_expr(pool.nodes@, expr.idx as int),
                ),
                !(v[self.current as int].ttype == TokenType::BangEqual || v[self.current as int].ttype
                    == TokenType::EqualEqual),
            decreases v.len() - self.current,
        {
            if !(self.is_match(TokenType::BangEqual) || self.is_match(TokenType::EqualEqual)) {
                break ;
            }
            let ghost head_pool = pool.nodes@;
            let operator = self.previous();
            let right = self.comparison(pool)?;
            let ghost mid_pool = pool.nodes@;
            let h = pool.add_node(Expr::Binary(BinaryExpr { left: expr, operator, right }));
            proof {
                lemma_prefix_trans(head_pool, mid_pool, pool.nodes@);
                lemma_abs_prefix(head_pool, pool.nodes@, expr.idx as int);
                lemma_abs_prefix(mid_pool, pool.nodes@, right.idx as int);
            }
            expr = h;
        }
        Ok(expr)
    }

    /// The expression grammar's entry point.
    pub fn expression(&mut self, pool: &mut ExprPool) -> (r: Result<ExprRef, JialoxError>)
        requires
            old(self).wf(),
            old(pool).wf(),
        ensures
            final (self).tokens == old(self).tokens,
            final (self).wf(),
            old(self).current <= final (self).current,
            final (pool).wf(),
            old(pool).nodes@.is_prefix_of(final (pool).nodes@),
            pe_matches(
                r,
                p_expression(tview(old(self).tokens@), old(self).current as int),
                final (self).current as int,
                old(pool).nodes@,
                final (pool).nodes@,
            ),
        decreases self.tokens@.len() - self.current, 10int,
    {
        self.equality(pool)
    }

    /// A `print` statement after its keyword: an expression, then `;`.
    pub fn print_statement(&mut self, pool: &mut ExprPool) -> (r: Result<Stmt, JialoxError>)
        requires
            old(self).wf(),
            old(pool).wf(),
        ensures
            final (self).tokens == old(self).tokens,
            final (self).wf(),
            old(self).current <= final (self).current,
            r is Ok ==> old(self).current < final (self).current,
            final (pool).wf(),
            old(pool).nodes@.is_prefix_of(final (pool).nodes@),
            ps_matches(
                r,
                p_print_statement(tview(old(self).tokens@), old(self).current as int),
                final (self).current as int,
                old(pool).nodes@,
                final (pool).nodes@,
            ),
    {
        let value = self.expression(pool)?;
        let _semi = self.consume(TokenType::Semicolon, "Expected ';' after value.")?;
        Ok(Stmt::Print(PrintStmt { expression: value }))
    }

    /// A bare expression statement: an expression, then `;`.
    pub fn expression_statement(&mut self, pool: &mut ExprPool) -> (r: Result<Stmt, JialoxError>)
        requires
            old(self).wf(),
            old(pool).wf(),
        ensures
            final (self).tokens == old(self).tokens,
            final (self).wf(),
            old(self).current <= final (self).current,
            r is Ok ==> old(self).current < final (self).current,
            final (pool).wf(),
            old(pool).nodes@.is_prefix_of(final (pool).nodes@),
            ps_matches(
                r,
                p_expression_statement(tview(old(self).tokens@), old(self).current as int),
                final (self).current as int,
                old(pool).nodes@,
                final (pool).nodes@,
            ),
    {
        let value = self.expression(pool)?;
        let _semi = self.consume(TokenType::Semicolon, "Expected ';' after value.")?;
        Ok(Stmt::Expression(ExpressionStmt { expression: value }))
    }

    /// A `var` declaration after its keyword: a name, an optional `=`
    /// initializer, then `;`.
    pub fn var_declaration(&mut self, pool: &mut ExprPool) -> (r: Result<Stmt, JialoxError>)
        requires
            old(self).wf(),
            old(pool).wf(),
        ensures
            final (self).tokens == old(self).tokens,
            final (self).wf(),
            old(self).current <= final (self).current,
            r is Ok ==> old(self).current < final (self).current,
            final (pool).wf(),
            old(pool).nodes@.is_prefix_of(final (pool).nodes@),
            ps_matches(
                r,
                p_var_declaration(tview(old(self).tokens@), old(self).current as int),
                final (self).current as int,
                old(pool).nodes@,
                final (pool).nodes@,
            ),
    {
        let name = self.consume(TokenType::Identifier, "Expected variable name.")?;
        let initializer = if self.is_match(TokenType::Equal) {
            Some(self.expression(pool)?)
        } else {
            None
        };
        let _semi = self.consume(TokenType::Semicolon, "Expected ';' after variable declaration.")?;
        Ok(Stmt::Var(VarStmt { name, initializer }))
    }

    /// A statement: `print`, or a bare expression statement.
    pub fn statement(&mut self, pool: &mut ExprPool) -> (r: Result<Stmt, JialoxError>)
        requires
            old(self).wf(),
            old(pool).wf(),
        ensures
            final (self).tokens == old(self).tokens,
            final (self).wf(),
            old(self).current <= final (self).current,
            r is Ok ==> old(self).current < final (self).current,
            final (pool).wf(),
            old(pool).nodes@.is_prefix_of(final (pool).nodes@),
            ps_matches(
                r,
                p_statement(tview(old(self).tokens@), old(self).current as int),
                final (self).current as int,
                old(pool).nodes@,
                final (pool).nodes@,
            ),
    {
        if self.is_match(TokenType::Print) {
            self.print_statement(pool)
        } else {
            self.expression_statement(pool)
        }
    }

    /// A declaration: a `var` declaration or a statement; on a parse
    /// error the parser synchronizes to the next statement boundary
    /// before reporting it.
    pub fn declaration(&mut self, pool: &mut ExprPool) -> (r: Result<Stmt, JialoxError>)
        requires
            old(self).wf(),
            old(pool).wf(),
        ensures
            final (self).tokens == old(self).tokens,
            final (self).wf(),
            r is Ok ==> old(self).current < final (self).current,
            final (pool).wf(),
            old(pool).nodes@.is_prefix_of(final (pool).nodes@),
            ps_matches(
                r,
                p_declaration(tview(old(self).tokens@), old(self).current as int),
                final (self).current as int,
                old(pool).nodes@,
                final (pool).nodes@,
            ),
    {
        let result = if self.is_match(TokenType::Var) {
            self.var_declaration(pool)
        } else {
            self.statement(pool)
        };
        if result.is_err() {
            self.synchronize();
        }
        result
    }

    /// Parses the whole token sequence to its statement list. Every node
    /// made by this parse is fresh: its handle is at or past the pool
    /// length the parse began from. The first failing declaration fails
    /// the parse.
    pub fn parse(&mut self, pool: &mut ExprPool) -> (r: Result<Vec<Stmt>, JialoxError>)
        requires
            old(self).wf(),
            old(pool).wf(),
            old(self).current == 0,
        ensures
            final (self).tokens == old(self).tokens,
            final (self).wf(),
            final (pool).wf(),
            old(pool).nodes@.is_prefix_of(final (pool).nodes@),
            match spec_parse(tview(old(self).tokens@)) {
                PProg::Found(svs) => match r {
                    Ok(stmts) => stmts@.len() == svs.len() && (forall|k: int|
                        0 <= k < stmts@.len() ==> stmt_wf(
                            #[trigger] stmts@[k],
                            final (pool).nodes@.len() as nat,
                        ) && stmt_refs_ge(stmts@[k], old(pool).nodes@.len() as nat) && abs_stmt(
                            final (pool).nodes@,
                            stmts@[k],
                        ) == svs[k]),
                    Err(_) => false,
                },
                PProg::Failed(f) => match r {
                    Ok(_) => false,
                    Err(e) => e@ == f,
                },
            },
    {
        let ghost v = tview(self.tokens@);
        let mut statements: Vec<Stmt> = Vec::new();
        proof {
            assert(statements@.map_values(|st: Stmt| abs_stmt(pool.nodes@, st))
                =~= Seq::<StmtView>::empty());
        }
        loop
            invariant
                v == tview(old(self).tokens@),
                self.tokens == old(self).tokens,
                self.wf(),
                pool.wf(),
                old(pool).nodes@.is_prefix_of(pool.nodes@),
                forall|k: int|
                    0 <= k < statements@.len() ==> stmt_wf(
                        #[trigger] statements@[k],
                        pool.nodes@.len() as nat,
                    ) && stmt_refs_ge(statements@[k], old(pool).nodes@.len() as nat),
                p_program(v, 0, Seq::empty()) == p_program(
                    v,
                    self.current as int,
                    statements@.map_values(|st: Stmt| abs_stmt(pool.nodes@, st)),
                ),
            ensures
                self.tokens == old(self).tokens,
                self.wf(),
                pool.wf(),
                old(pool).nodes@.is_prefix_of(pool.nodes@),
                forall|k: int|
                    0 <= k < statements@.len() ==> stmt_wf(
                        #[trigger] statements@[k],
                        pool.nodes@.len() as nat,
                    ) && stmt_refs_ge(statements@[k], old(pool).nodes@.len() as nat),
                p_program(v, 0, Seq::empty()) == p_program(
                    v,
                    self.current as int,
                    statements@.map_values(|st: Stmt| abs_stmt(pool.nodes@, st)),
                ),
                v[self.current as int].ttype == TokenType::Eof,
            decreases v.len() - self.current,
        {
            if self.is_at_end() {
                break ;
            }
            let ghost pre_cur = self.current as int;
            let ghost pre_pool = pool.nodes@;
            let ghost pre_acc = statements@.map_values(|st: Stmt| abs_stmt(pool.nodes@, st));
            let s = match self.declaration(pool) {
                Ok(s) => s,
                Err(e) => {
                    proof {
                        lemma_prefix_trans(old(pool).nodes@, pre_pool, pool.nodes@);
                    }
                    return Err(e);
                },
            };
            statements.push(s);
            proof {
                lemma_prefix_trans(old(pool).nodes@, pre_pool, pool.nodes@);
                assert forall|k: int| 0 <= k < statements@.len() - 1 implies abs_stmt(
                    pool.nodes@,
                    #[trigger] statements@[k],
                ) == abs_stmt(pre_pool, statements@[k]) by {
                    crate::stmt::lemma_abs_stmt_prefix(pre_pool, pool.nodes@, statements@[k]);
                }
                assert(statements@.map_values(|st: Stmt| abs_stmt(pool.nodes@, st)) =~= pre_acc.push(
                    abs_stmt(pool.nodes@, s),
                ));
            }
        }
        Ok(statements)
    }

    /// Error recovery: discards tokens until a statement boundary, so
    /// parsing can resume in a consistent state.
    fn synchronize(&mut self)
        requires
            old(self).wf(),
        ensures
            final (self).tokens == old(self).tokens,
            final (self).wf(),
            final (self).current as int == spec_sync(
                tview(old(self).tokens@),
                old(self).current as int,
            ),
    {
        let ghost v = tview(old(self).tokens@);
        self.advance();
        loop
            invariant
                v == tview(old(self).tokens@),
                self.tokens == old(self).tokens,
                self.wf(),
                self.current >= 1 || v[self.current as int].ttype == TokenType::Eof,
                spec_sync(v, old(self).current as int) == sync_from(v, self.current as int),
            ensures
                self.tokens == old(self).tokens,
                self.wf(),
                self.current as int == spec_sync(v, old(self).current as int),
            decreases v.len() - self.current,
        {
            if self.is_at_end() {
                break ;
            }
            if self.previous().is(TokenType::Semicolon) {
                break ;
            }
            let tt = self.currentt().ttype();
            if matches!(
                tt,
                TokenType::Class
                | TokenType::Func
                | TokenType::Var
                | TokenType::For
                | TokenType::If
                | TokenType::While
                | TokenType::Print
                | TokenType::Return
            ) {
                break ;
            }
            self.advance();
        }
    }
}

} // verus!
