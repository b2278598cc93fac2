//! The tree-walking evaluator: expression nodes evaluate to values against
//! an environment, with operator semantics defined per operand-type pair,
//! and statements execute for their value, output, or binding.

use crate::environment::Environment;
use crate::error::JialoxError;
use crate::expr::node_wf;
use crate::expr::ExprView;
use crate::expr::BinaryExpr;
use crate::expr::Expr;
use crate::expr::ExprPool;
use crate::expr::ExprRef;
use crate::expr::GroupingExpr;
use crate::expr::LiteralExpr;
use crate::expr::UnaryExpr;
use crate::expr::VariableExpr;
use crate::literal::view_display;
use crate::literal::LitView;
use crate::literal::Literal;
use crate::rational::int_abs;
use crate::rational::lemma_rat_of_view;
use crate::rational::rat_fits;
use crate::rational::spec_norm;
use crate::stmt::stmt_wf;
use crate::stmt::StmtView;
use crate::stmt::Stmt;
use crate::token::Token;
use crate::token::TokenView;
use crate::token_type::TokenType;
use vstd::prelude::*;

verus! {

/// What a failed evaluation reports: the diagnostic's line and message,
/// and, for an undefined variable, the offending token.
pub struct FailView {
    pub line: nat,
    pub msg: Seq<char>,
    pub token: Option<TokenView>,
}

/// Specification-level outcome of evaluating an expression.
pub enum EvalOut {
    Val(LitView),
    Fail(FailView),
}

/// How an executable result realizes a specified outcome: a success is the
/// specified value (well formed and never the internal sentinel), a
/// failure is a diagnostic with the specified line, message and token.
pub open spec fn result_matches(r: Result<Literal, JialoxError>, o: EvalOut) -> bool {
    match o {
        EvalOut::Val(v) => match r {
            Ok(l) => l@ == v && l.wf() && !(l is ArithmeticError),
            Err(_) => false,
        },
        EvalOut::Fail(f) => match r {
            Ok(_) => false,
            Err(e) => e@.line == f.line && e@.message == f.msg && e@.token == f.token,
        },
    }
}

/// Truthiness: `false` and `nil` are falsey, every other value is truthy.
pub open spec fn lit_truthy(v: LitView) -> bool {
    match v {
        LitView::BoolV(b) => b,
        LitView::NilV => false,
        _ => true,
    }
}

/// The value of a binary operation, per operand-type pair. Numeric results
/// appear as exact, unreduced fractions; `ErrV` marks a combination with
/// no defined result.
pub open spec fn eval_binary(op: TokenType, l: LitView, r: LitView) -> LitView {
    match (l, r) {
        (LitView::NumV { n: n1, d: d1 }, LitView::NumV { n: n2, d: d2 }) => match op {
            TokenType::Plus => LitView::NumV { n: n1 * d2 + n2 * d1, d: d1 * d2 },
            TokenType::Minus => LitView::NumV { n: n1 * d2 - n2 * d1, d: d1 * d2 },
            TokenType::Star => LitView::NumV { n: n1 * n2, d: d1 * d2 },
            TokenType::Slash => {
                if n2 == 0 {
                    LitView::ErrV
                } else {
                    LitView::NumV {
                        n: if n2 < 0 {
                            -(n1 * d2)
                        } else {
                            n1 * d2
                        },
                        d: d1 * int_abs(n2),
                    }
                }
            },
            TokenType::Greater => LitView::BoolV(n1 * d2 > n2 * d1),
            TokenType::GreaterEqual => LitView::BoolV(n1 * d2 >= n2 * d1),
            TokenType::Less => LitView::BoolV(n1 * d2 < n2 * d1),
            TokenType::LessEqual => LitView::BoolV(n1 * d2 <= n2 * d1),
            TokenType::BangEqual => LitView::BoolV(n1 * d2 != n2 * d1),
            TokenType::EqualEqual => LitView::BoolV(n1 * d2 == n2 * d1),
            _ => LitView::ErrV,
        },
        (LitView::StrV(s1), LitView::StrV(s2)) => match op {
            TokenType::Plus => LitView::StrV(s1 + s2),
            TokenType::EqualEqual => LitView::BoolV(s1 == s2),
            TokenType::BangEqual => LitView::BoolV(s1 != s2),
            _ => LitView::ErrV,
        },
        (LitView::NumV { n: n1, d: d1 }, LitView::StrV(s2)) => match op {
            TokenType::Plus => LitView::StrV(view_display(l) + s2),
            TokenType::EqualEqual => LitView::BoolV(false),
            TokenType::BangEqual => LitView::BoolV(true),
            _ => LitView::ErrV,
        },
        (LitView::StrV(s1), LitView::NumV { n: n2, d: d2 }) => match op {
            TokenType::Plus => LitView::StrV(s1 + view_display(r)),
            TokenType::EqualEqual => LitView::BoolV(false),
            TokenType::BangEqual => LitView::BoolV(true),
            _ => LitView::ErrV,
        },
        (LitView::BoolV(b1), LitView::BoolV(b2)) => match op {
            TokenType::EqualEqual => LitView::BoolV(b1 == b2),
            TokenType::BangEqual => LitView::BoolV(b1 != b2),
            _ => LitView::ErrV,
        },
        (LitView::NilV, LitView::NilV) => match op {
            TokenType::EqualEqual => LitView::BoolV(true),
            TokenType::BangEqual => LitView::BoolV(false),
            _ => LitView::ErrV,
        },
        (LitView::NilV, _) => match op {
            TokenType::EqualEqual => LitView::BoolV(false),
            TokenType::BangEqual => LitView::BoolV(true),
            _ => LitView::ErrV,
        },
        (_, LitView::NilV) => match op {
            TokenType::EqualEqual => LitView::BoolV(false),
            TokenType::BangEqual => LitView::BoolV(true),
            _ => LitView::ErrV,
        },
        _ => LitView::ErrV,
    }
}

/// The outcome of applying a binary operator to two values: an undefined
/// combination is the runtime error `Illegal expression` at the operator's
/// line; a numeric result is reduced, and one whose reduced form does not
/// fit the number representation is the runtime error `Number out of
/// range`.
pub open spec fn spec_binary_out(op: TokenView, l: LitView, r: LitView) -> EvalOut {
    match eval_binary(op.ttype, l, r) {
        LitView::ErrV => EvalOut::Fail(
            FailView { line: op.line, msg: "Illegal expression"@, token: None },
        ),
        LitView::NumV { n, d } => {
            if rat_fits(n, d) {
                EvalOut::Val(
                    LitView::NumV { n: spec_norm(n, d).num_int(), d: spec_norm(n, d).den_int() },
                )
            } else {
                EvalOut::Fail(FailView { line: op.line, msg: "Number out of range"@, token: None })
            }
        },
        v => EvalOut::Val(v),
    }
}

/// The outcome of a unary operator: `-` negates a number and yields `nil`
/// for any other operand; `!` yields the complement of truthiness.
pub open spec fn spec_unary_out(op: TokenView, v: LitView) -> EvalOut {
    match op.ttype {
        TokenType::Minus => match v {
            LitView::NumV { n, d } => EvalOut::Val(LitView::NumV { n: -n, d }),
            _ => EvalOut::Val(LitView::NilV),
        },
        TokenType::Bang => EvalOut::Val(LitView::BoolV(!lit_truthy(v))),
        _ => EvalOut::Fail(
            FailView {
                line: 0,
                msg: "Unreachable in struct Interpreter's method visit_unary_expr()"@,
                token: None,
            },
        ),
    }
}

/// Evaluation of a binary node: left operand first, then the right, each
/// failure propagating, then the operator.
pub open spec fn spec_binary_node(
    nodes: Seq<Expr>,
    b: BinaryExpr,
    env: Map<Seq<char>, LitView>,
) -> EvalOut
    decreases vstd::math::max(b.left.idx as int, b.right.idx as int), 1int,
{
    match spec_eval(nodes, b.left.idx as int, env) {
        EvalOut::Val(lv) => match spec_eval(nodes, b.right.idx as int, env) {
            EvalOut::Val(rv) => spec_binary_out(b.operator@, lv, rv),
            EvalOut::Fail(f) => EvalOut::Fail(f),
        },
        EvalOut::Fail(f) => EvalOut::Fail(f),
    }
}

/// Evaluation of a unary node: the operand first, then the operator.
pub open spec fn spec_unary_node(
    nodes: Seq<Expr>,
    u: UnaryExpr,
    env: Map<Seq<char>, LitView>,
) -> EvalOut
    decreases u.right.idx as int, 1int,
{
    match spec_eval(nodes, u.right.idx as int, env) {
        EvalOut::Val(v) => spec_unary_out(u.operator@, v),
        EvalOut::Fail(f) => EvalOut::Fail(f),
    }
}

/// The value or failure of the expression rooted at index `i`: literals
/// yield their attached value, groupings pass through, variables resolve
/// against the environment (an unbound name is the runtime error
/// `var <name> is not defined.`), and operators follow `spec_binary_out`
/// and `spec_unary_out`. An ill-formed node (ruled out by pool
/// well-formedness) reads as `nil`.
pub open spec fn spec_eval(nodes: Seq<Expr>, i: int, env: Map<Seq<char>, LitView>) -> EvalOut
    decreases i, 0int,
{
    if 0 <= i < nodes.len() {
        match nodes[i] {
            Expr::Binary(b) => {
                if b.left.idx < i && b.right.idx < i {
                    spec_binary_node(nodes, b, env)
                } else {
                    EvalOut::Val(LitView::NilV)
                }
            },
            Expr::Grouping(g) => {
                if g.expression.idx < i {
                    spec_eval(nodes, g.expression.idx as int, env)
                } else {
                    EvalOut::Val(LitView::NilV)
                }
            },
            Expr::Literal(l) => match l.value {
                Some(v) => EvalOut::Val(v@),
                None => EvalOut::Val(LitView::NilV),
            },
            Expr::Unary(u) => {
                if u.right.idx < i {
                    spec_unary_node(nodes, u, env)
                } else {
                    EvalOut::Val(LitView::NilV)
                }
            },
            Expr::Variable(v) => {
                if env.contains_key(v.name@.lexeme) {
                    EvalOut::Val(env[v.name@.lexeme])
                } else {
                    EvalOut::Fail(
                        FailView {
                            line: v.name@.line,
                            msg: "var "@ + v.name@.lexeme + " is not defined."@,
                            token: Some(v.name@),
                        },
                    )
                }
            },
        }
    } else {
        EvalOut::Val(LitView::NilV)
    }
}

/// Specification-level outcome of executing one statement: the environment
/// after it and the output it printed, or the failure that stopped it (the
/// environment is then unchanged).
pub enum StmtOut {
    Done { env: Map<Seq<char>, LitView>, output: Option<Seq<char>> },
    Failed { fail: FailView },
}

/// What one statement does: an expression statement evaluates for nothing,
/// `print` evaluates and renders, `var` evaluates its initializer (`nil`
/// when absent) and binds the name.
pub open spec fn spec_exec_stmt(nodes: Seq<Expr>, s: Stmt, env: Map<Seq<char>, LitView>) -> StmtOut {
    match s {
        Stmt::Expression(e) => match spec_eval(nodes, e.expression.idx as int, env) {
            EvalOut::Val(_) => StmtOut::Done { env, output: None },
            EvalOut::Fail(f) => StmtOut::Failed { fail: f },
        },
        Stmt::Print(p) => match spec_eval(nodes, p.expression.idx as int, env) {
            EvalOut::Val(v) => StmtOut::Done { env, output: Some(view_display(v)) },
            EvalOut::Fail(f) => StmtOut::Failed { fail: f },
        },
        Stmt::Var(vs) => match vs.initializer {
            Some(e) => match spec_eval(nodes, e.idx as int, env) {
                EvalOut::Val(v) => StmtOut::Done {
                    env: env.insert(vs.name@.lexeme, v),
                    output: None,
                },
                EvalOut::Fail(f) => StmtOut::Failed { fail: f },
            },
            None => StmtOut::Done { env: env.insert(vs.name@.lexeme, LitView::NilV), output: None },
        },
    }
}

/// Specification-level outcome of running a statement sequence: the
/// outputs printed, the final environment, and the failure that stopped
/// the run, if one did.
pub struct InterpOut {
    pub outputs: Seq<Seq<char>>,
    pub env: Map<Seq<char>, LitView>,
    pub fail: Option<FailView>,
}

/// Statements run in order; the first failure stops the run, keeping every
/// binding and output made before it.
pub open spec fn spec_interpret(
    nodes: Seq<Expr>,
    stmts: Seq<Stmt>,
    env: Map<Seq<char>, LitView>,
) -> InterpOut
    decreases stmts.len(),
{
    if stmts.len() == 0 {
        InterpOut { outputs: Seq::empty(), env, fail: None }
    } else {
        match spec_exec_stmt(nodes, stmts[0], env) {
            StmtOut::Done { env: e2, output } => {
                let rest = spec_interpret(nodes, stmts.drop_first(), e2);
                InterpOut {
                    outputs: (match output {
                        Some(o) => seq![o],
                        None => Seq::empty(),
                    }) + rest.outputs,
                    env: rest.env,
                    fail: rest.fail,
                }
            },
            StmtOut::Failed { fail } => InterpOut { outputs: Seq::empty(), env, fail: Some(fail) },
        }
    }
}

proof fn lemma_neg_mul(x: int, y: int)
    by (nonlinear_arith)
    ensures
        (-x) * y == -(x * y),
{
}

/// The value of an abstract expression tree against an environment: the
/// pool-free statement of evaluation.
pub open spec fn spec_eval_tree(e: ExprView, env: Map<Seq<char>, LitView>) -> EvalOut
    decreases e,
{
    match e {
        ExprView::BinaryV { left, operator, right } => match spec_eval_tree(*left, env) {
            EvalOut::Val(lv) => match spec_eval_tree(*right, env) {
                EvalOut::Val(rv) => spec_binary_out(operator, lv, rv),
                EvalOut::Fail(f) => EvalOut::Fail(f),
            },
            EvalOut::Fail(f) => EvalOut::Fail(f),
        },
        ExprView::GroupingV { expression } => spec_eval_tree(*expression, env),
        ExprView::LiteralV { value } => match value {
            Some(v) => EvalOut::Val(v),
            None => EvalOut::Val(LitView::NilV),
        },
        ExprView::UnaryV { operator, right } => match spec_eval_tree(*right, env) {
            EvalOut::Val(v) => spec_unary_out(operator, v),
            EvalOut::Fail(f) => EvalOut::Fail(f),
        },
        ExprView::VariableV { name } => {
            if env.contains_key(name.lexeme) {
                EvalOut::Val(env[name.lexeme])
            } else {
                EvalOut::Fail(
                    FailView {
                        line: name.line,
                        msg: "var "@ + name.lexeme + " is not defined."@,
                        token: Some(name),
                    },
                )
            }
        },
    }
}

/// Adequacy: evaluating a pooled node is evaluating the abstract tree it
/// encodes.
pub proof fn lemma_eval_abs(nodes: Seq<Expr>, i: int, env: Map<Seq<char>, LitView>)
    ensures
        spec_eval(nodes, i, env) == spec_eval_tree(crate::expr::abs_expr(nodes, i), env),
    decreases i,
{
    let t = crate::expr::abs_expr(nodes, i);
    if 0 <= i < nodes.len() {
        match nodes[i] {
            Expr::Binary(b) => {
                if b.left.idx < i && b.right.idx < i {
                    lemma_eval_abs(nodes, b.left.idx as int, env);
                    lemma_eval_abs(nodes, b.right.idx as int, env);
                    let lt = crate::expr::abs_expr(nodes, b.left.idx as int);
                    let rt = crate::expr::abs_expr(nodes, b.right.idx as int);
                    assert(t == ExprView::BinaryV {
                        left: Box::new(lt),
                        operator: b.operator@,
                        right: Box::new(rt),
                    });
                    assert(spec_eval_tree(t, env) == (match spec_eval_tree(lt, env) {
                        EvalOut::Val(lv) => match spec_eval_tree(rt, env) {
                            EvalOut::Val(rv) => spec_binary_out(b.operator@, lv, rv),
                            EvalOut::Fail(f) => EvalOut::Fail(f),
                        },
                        EvalOut::Fail(f) => EvalOut::Fail(f),
                    }));
                    assert(spec_eval(nodes, i, env) == spec_binary_node(nodes, b, env));
                    assert(spec_binary_node(nodes, b, env) == spec_eval_tree(t, env));
                }
            },
            Expr::Grouping(g) => {
                if g.expression.idx < i {
                    lemma_eval_abs(nodes, g.expression.idx as int, env);
                    let gt = crate::expr::abs_expr(nodes, g.expression.idx as int);
                    assert(spec_eval_tree(t, env) == spec_eval_tree(gt, env));
                    assert(spec_eval(nodes, i, env) == spec_eval_tree(t, env));
                }
            },
            Expr::Literal(l) => {},
            Expr::Unary(u) => {
                if u.right.idx < i {
                    lemma_eval_abs(nodes, u.right.idx as int, env);
                    let rt = crate::expr::abs_expr(nodes, u.right.idx as int);
                    assert(spec_eval_tree(t, env) == (match spec_eval_tree(rt, env) {
                        EvalOut::Val(v) => spec_unary_out(u.operator@, v),
                        EvalOut::Fail(f) => EvalOut::Fail(f),
                    }));
                    assert(spec_eval(nodes, i, env) == spec_unary_node(nodes, u, env));
                    assert(spec_unary_node(nodes, u, env) == spec_eval_tree(t, env));
                }
            },
            Expr::Variable(v) => {},
        }
    }
}

/// What one abstract statement does, the pool-free counterpart of
/// `spec_exec_stmt`.
pub open spec fn stmt_view_out(s: StmtView, env: Map<Seq<char>, LitView>) -> StmtOut {
    match s {
        StmtView::ExpressionV { expression } => match spec_eval_tree(expression, env) {
            EvalOut::Val(_) => StmtOut::Done { env, output: None },
            EvalOut::Fail(f) => StmtOut::Failed { fail: f },
        },
        StmtView::PrintV { expression } => match spec_eval_tree(expression, env) {
            EvalOut::Val(v) => StmtOut::Done { env, output: Some(view_display(v)) },
            EvalOut::Fail(f) => StmtOut::Failed { fail: f },
        },
        StmtView::VarV { name, initializer } => match initializer {
            Some(e) => match spec_eval_tree(e, env) {
                EvalOut::Val(v) => StmtOut::Done { env: env.insert(name.lexeme, v), output: None },
                EvalOut::Fail(f) => StmtOut::Failed { fail: f },
            },
            None => StmtOut::Done { env: env.insert(name.lexeme, LitView::NilV), output: None },
        },
    }
}

/// Adequacy for statements.
pub proof fn lemma_exec_stmt_abs(nodes: Seq<Expr>, s: Stmt, env: Map<Seq<char>, LitView>)
    ensures
        spec_exec_stmt(nodes, s, env) == stmt_view_out(crate::stmt::abs_stmt(nodes, s), env),
{
    match s {
        Stmt::Expression(e) => {
            lemma_eval_abs(nodes, e.expression.idx as int, env);
        },
        Stmt::Print(p) => {
            lemma_eval_abs(nodes, p.expression.idx as int, env);
        },
        Stmt::Var(vs) => {
            match vs.initializer {
                Some(e) => {
                    lemma_eval_abs(nodes, e.idx as int, env);
                },
                None => {},
            }
        },
    }
}

/// Running a sequence of abstract statements, the pool-free counterpart
/// of `spec_interpret`.
pub open spec fn spec_interpret_views(svs: Seq<StmtView>, env: Map<Seq<char>, LitView>) -> InterpOut
    decreases svs.len(),
{
    if svs.len() == 0 {
        InterpOut { outputs: Seq::empty(), env, fail: None }
    } else {
        match stmt_view_out(svs[0], env) {
            StmtOut::Done { env: e2, output } => {
                let rest = spec_interpret_views(svs.drop_first(), e2);
                InterpOut {
                    outputs: (match output {
                        Some(o) => seq![o],
                        None => Seq::empty(),
                    }) + rest.outputs,
                    env: rest.env,
                    fail: rest.fail,
                }
            },
            StmtOut::Failed { fail } => InterpOut { outputs: Seq::empty(), env, fail: Some(fail) },
        }
    }
}

/// Adequacy for whole runs: interpreting pooled statements is
/// interpreting the abstract statements they encode.
pub proof fn lemma_interpret_abs(
    nodes: Seq<Expr>,
    stmts: Seq<Stmt>,
    svs: Seq<StmtView>,
    env: Map<Seq<char>, LitView>,
)
    requires
        stmts.len() == svs.len(),
        forall|k: int|
            0 <= k < stmts.len() ==> crate::stmt::abs_stmt(nodes, #[trigger] stmts[k]) == svs[k],
    ensures
        spec_interpret(nodes, stmts, env) == spec_interpret_views(svs, env),
    decreases stmts.len(),
{
    if stmts.len() > 0 {
        lemma_exec_stmt_abs(nodes, stmts[0], env);
        assert(forall|k: int|
            0 <= k < stmts.drop_first().len() ==> crate::stmt::abs_stmt(
                nodes,
                #[trigger] stmts.drop_first()[k],
            ) == svs.drop_first()[k]) by {
            assert(forall|k: int|
                0 <= k < stmts.drop_first().len() ==> stmts.drop_first()[k] == (
                #[trigger] stmts[k + 1]));
        }
        match spec_exec_stmt(nodes, stmts[0], env) {
            StmtOut::Done { env: e2, output } => {
                lemma_interpret_abs(nodes, stmts.drop_first(), svs.drop_first(), e2);
            },
            StmtOut::Failed { fail } => {},
        }
    }
}

/// For every arithmetic operator `+ - * /` and every pair of numbers,
/// evaluating the binary operation yields a number, and — whenever the
/// reduced result is representable — exactly the arithmetic result,
/// stated by cross-multiplication against the exact fraction.
pub proof fn lemma_binary_arithmetic_exact(op: TokenView, n1: int, d1: int, n2: int, d2: int)
    requires
        d1 >= 1,
        d2 >= 1,
        op.ttype == TokenType::Plus || op.ttype == TokenType::Minus || op.ttype == TokenType::Star
            || op.ttype == TokenType::Slash,
        op.ttype == TokenType::Slash ==> n2 != 0,
    ensures
        ({
            let l = LitView::NumV { n: n1, d: d1 };
            let r = LitView::NumV { n: n2, d: d2 };
            match eval_binary(op.ttype, l, r) {
                LitView::NumV { n, d } => d >= 1 && (rat_fits(n, d) ==> match spec_binary_out(
                    op,
                    l,
                    r,
                ) {
                    EvalOut::Val(LitView::NumV { n: rn, d: rd }) => rd >= 1 && rn * d == n * rd,
                    _ => false,
                }),
                _ => false,
            }
        }),
{
    let l = LitView::NumV { n: n1, d: d1 };
    let r = LitView::NumV { n: n2, d: d2 };
    let v = eval_binary(op.ttype, l, r);
    assert(d1 * d2 >= 1) by (nonlinear_arith)
        requires
            d1 >= 1,
            d2 >= 1,
    ;
    if op.ttype == TokenType::Slash {
        assert(int_abs(n2) >= 1);
        assert(d1 * int_abs(n2) >= 1) by (nonlinear_arith)
            requires
                d1 >= 1,
                int_abs(n2) >= 1,
        ;
    }
    match v {
        LitView::NumV { n, d } => {
            if rat_fits(n, d) {
                crate::rational::lemma_norm_value(n, d);
            }
        },
        _ => {
            assert(false);
        },
    }
}

/// `+` on strings concatenates, and `+` between a number and a string (in
/// either order) renders the number and concatenates.
pub proof fn lemma_string_concatenation(op: TokenView, s1: Seq<char>, s2: Seq<char>, n: int, d: int)
    requires
        op.ttype == TokenType::Plus,
    ensures
        spec_binary_out(op, LitView::StrV(s1), LitView::StrV(s2)) == EvalOut::Val(
            LitView::StrV(s1 + s2),
        ),
        spec_binary_out(op, LitView::NumV { n, d }, LitView::StrV(s2)) == EvalOut::Val(
            LitView::StrV(view_display(LitView::NumV { n, d }) + s2),
        ),
        spec_binary_out(op, LitView::StrV(s1), LitView::NumV { n, d }) == EvalOut::Val(
            LitView::StrV(s1 + view_display(LitView::NumV { n, d })),
        ),
{
}

/// Cross-type equality is always false: a number and a string are unequal
/// under `==` and unequal under `!=`, in either order.
pub proof fn lemma_cross_type_equality(op: TokenView, n: int, d: int, s: Seq<char>)
    requires
        op.ttype == TokenType::EqualEqual || op.ttype == TokenType::BangEqual,
    ensures
        spec_binary_out(op, LitView::NumV { n, d }, LitView::StrV(s)) == EvalOut::Val(
            LitView::BoolV(op.ttype == TokenType::BangEqual),
        ),
        spec_binary_out(op, LitView::StrV(s), LitView::NumV { n, d }) == EvalOut::Val(
            LitView::BoolV(op.ttype == TokenType::BangEqual),
        ),
{
}

/// Subtracting a boolean from a number has no defined result: it fails
/// with the runtime error `Illegal expression` at the operator's line.
pub proof fn lemma_number_minus_boolean(op: TokenView, n: int, d: int, b: bool)
    requires
        op.ttype == TokenType::Minus,
    ensures
        spec_binary_out(op, LitView::NumV { n, d }, LitView::BoolV(b)) == EvalOut::Fail(
            FailView { line: op.line, msg: "Illegal expression"@, token: None },
        ),
{
}

/// The evaluator; it holds no state of its own, the environment is handed
/// to each call.
pub struct Interpreter {}

impl Interpreter {
    pub fn new() -> (t: Interpreter) {
        Interpreter {  }
    }

    /// false and nil are falsey, and everything else is truthy.
    pub fn is_truthy(&self, literal: &Literal) -> (r: bool)
        ensures
            r == lit_truthy(literal@),
    {
        !(matches!(literal, Literal::Bool(false) | Literal::Nil))
    }

    /// Applies a binary operator to two evaluated operands.
    fn binary_result(op: &Token, left: Literal, right: Literal) -> (r: Result<
        Literal,
        JialoxError,
    >)
        requires
            left.wf(),
            right.wf(),
            !(left is ArithmeticError),
            !(right is ArithmeticError),
        ensures
            result_matches(r, spec_binary_out(op@, left@, right@)),
    {
        match (left, right) {
            (Literal::Num(a), Literal::Num(b)) => match op.ttype() {
                TokenType::Plus => match a.checked_add(b) {
                    Some(q) => Ok(Literal::Num(q)),
                    None => Err(JialoxError::error(op.line(), "Number out of range")),
                },
                TokenType::Minus => match a.checked_sub(b) {
                    Some(q) => Ok(Literal::Num(q)),
                    None => Err(JialoxError::error(op.line(), "Number out of range")),
                },
                TokenType::Star => match a.checked_mul(b) {
                    Some(q) => Ok(Literal::Num(q)),
                    None => Err(JialoxError::error(op.line(), "Number out of range")),
                },
                TokenType::Slash => {
                    if b.is_zero() {
                        Err(JialoxError::error(op.line(), "Illegal expression"))
                    } else {
                        proof {
                            lemma_neg_mul(a.numer as int, b.den_int());
                            lemma_neg_mul(-(a.numer as int), b.den_int());
                        }
                        match a.checked_div(b) {
                            Some(q) => Ok(Literal::Num(q)),
                            None => Err(JialoxError::error(op.line(), "Number out of range")),
                        }
                    }
                },
                TokenType::Greater => Ok(Literal::Bool(b.lt(a))),
                TokenType::GreaterEqual => Ok(Literal::Bool(b.le(a))),
                TokenType::Less => Ok(Literal::Bool(a.lt(b))),
                TokenType::LessEqual => Ok(Literal::Bool(a.le(b))),
                TokenType::BangEqual => Ok(Literal::Bool(!a.eq_val(b))),
                TokenType::EqualEqual => Ok(Literal::Bool(a.eq_val(b))),
                _ => Err(JialoxError::error(op.line(), "Illegal expression")),
            },
            (Literal::Str(x), Literal::Str(y)) => match op.ttype() {
                TokenType::Plus => {
                    let mut s = x;
                    s.append(y.as_str());
                    Ok(Literal::Str(s))
                },
                TokenType::EqualEqual => Ok(Literal::Bool(x.eq(&y))),
                TokenType::BangEqual => Ok(Literal::Bool(!x.eq(&y))),
                _ => Err(JialoxError::error(op.line(), "Illegal expression")),
            },
            (Literal::Num(a), Literal::Str(y)) => match op.ttype() {
                TokenType::Plus => {
                    proof {
                        lemma_rat_of_view(a);
                    }
                    let mut s = a.display_string();
                    s.append(y.as_str());
                    Ok(Literal::Str(s))
                },
                TokenType::EqualEqual => Ok(Literal::Bool(false)),
                TokenType::BangEqual => Ok(Literal::Bool(true)),
                _ => Err(JialoxError::error(op.line(), "Illegal expression")),
            },
            (Literal::Str(x), Literal::Num(b)) => match op.ttype() {
                TokenType::Plus => {
                    proof {
                        lemma_rat_of_view(b);
                    }
                    let mut s = x;
                    let t = b.display_string();
                    s.append(t.as_str());
                    Ok(Literal::Str(s))
                },
                TokenType::EqualEqual => Ok(Literal::Bool(false)),
                TokenType::BangEqual => Ok(Literal::Bool(true)),
                _ => Err(JialoxError::error(op.line(), "Illegal expression")),
            },
            (Literal::Bool(x), Literal::Bool(y)) => match op.ttype() {
                TokenType::EqualEqual => Ok(Literal::Bool(x == y)),
                TokenType::BangEqual => Ok(Literal::Bool(x != y)),
                _ => Err(JialoxError::error(op.line(), "Illegal expression")),
            },
            (Literal::Nil, Literal::Nil) => match op.ttype() {
                TokenType::EqualEqual => Ok(Literal::Bool(true)),
                TokenType::BangEqual => Ok(Literal::Bool(false)),
                _ => Err(JialoxError::error(op.line(), "Illegal expression")),
            },
            (Literal::Nil, _) => match op.ttype() {
                TokenType::EqualEqual => Ok(Literal::Bool(false)),
                TokenType::BangEqual => Ok(Literal::Bool(true)),
                _ => Err(JialoxError::error(op.line(), "Illegal expression")),
            },
            (_, Literal::Nil) => match op.ttype() {
                TokenType::EqualEqual => Ok(Literal::Bool(false)),
                TokenType::BangEqual => Ok(Literal::Bool(true)),
                _ => Err(JialoxError::error(op.line(), "Illegal expression")),
            },
            _ => Err(JialoxError::error(op.line(), "Illegal expression")),
        }
    }

    /// Evaluates a binary node: left operand, right operand, operator.
    pub fn visit_binary_expr(&self, pool: &ExprPool, expr: &BinaryExpr, env: &Environment) -> (r:
        Result<Literal, JialoxError>)
        requires
            pool.wf(),
            env.wf(),
            expr.left.idx < pool.nodes@.len(),
            expr.right.idx < pool.nodes@.len(),
            expr.operator.wf(),
        ensures
            result_matches(r, spec_binary_node(pool.nodes@, *expr, env@)),
        decreases vstd::math::max(expr.left.idx as int, expr.right.idx as int), 1int,
    {
        let left = self.evaluate(pool, expr.left, env)?;
        let right = self.evaluate(pool, expr.right, env)?;
        Self::binary_result(&expr.operator, left, right)
    }

    /// Evaluates a grouping: parentheses pass the inner value through.
    pub fn visit_grouping_expr(&self, pool: &ExprPool, expr: &GroupingExpr, env: &Environment) -> (
        r: Result<Literal, JialoxError>)
        requires
            pool.wf(),
            env.wf(),
            expr.expression.idx < pool.nodes@.len(),
        ensures
            result_matches(r, spec_eval(pool.nodes@, expr.expression.idx as int, env@)),
        decreases expr.expression.idx as int, 1int,
    {
        self.evaluate(pool, expr.expression, env)
    }

    /// A literal yields its attached value directly.
    pub fn visit_literal_expr(&self, expr: &LiteralExpr) -> (r: Result<Literal, JialoxError>)
        requires
            match expr.value {
                Some(v) => v.wf() && !(v is ArithmeticError),
                None => false,
            },
        ensures
            match expr.value {
                Some(v) => result_matches(r, EvalOut::Val(v@)),
                None => true,
            },
    {
        match &expr.value {
            Some(v) => Ok(v.duplicate()),
            None => vstd::pervasive::unreached(),
        }
    }

    /// Evaluates a unary node: the operand, then the operator.
    pub fn visit_unary_expr(&self, pool: &ExprPool, expr: &UnaryExpr, env: &Environment) -> (r:
        Result<Literal, JialoxError>)
        requires
            pool.wf(),
            env.wf(),
            expr.right.idx < pool.nodes@.len(),
            expr.operator.wf(),
        ensures
            result_matches(r, spec_unary_node(pool.nodes@, *expr, env@)),
        decreases expr.right.idx as int, 1int,
    {
        let right = self.evaluate(pool, expr.right, env)?;
        match expr.operator.ttype() {
            TokenType::Minus => match right {
                Literal::Num(x) => Ok(Literal::Num(x.neg())),
                _ => Ok(Literal::Nil),
            },
            TokenType::Bang => Ok(Literal::Bool(!self.is_truthy(&right))),
            _ => Err(
                JialoxError::error(0, "Unreachable in struct Interpreter's method visit_unary_expr()"),
            ),
        }
    }

    /// Resolves a variable through the environment.
    pub fn visit_variable_expr(&self, expr: &VariableExpr, env: &Environment) -> (r: Result<
        Literal,
        JialoxError,
    >)
        requires
            env.wf(),
        ensures
            result_matches(
                r,
                if env@.contains_key(expr.name@.lexeme) {
                    EvalOut::Val(env@[expr.name@.lexeme])
                } else {
                    EvalOut::Fail(
                        FailView {
                            line: expr.name@.line,
                            msg: "var "@ + expr.name@.lexeme + " is not defined."@,
                            token: Some(expr.name@),
                        },
                    )
                },
            ),
    {
        env.get(&expr.name)
    }

    /// Executes one statement: an expression statement for its effectless
    /// value, `print` for its output line, `var` for its binding. A failed
    /// evaluation leaves the environment as it was.
    pub fn execute(&self, pool: &ExprPool, stmt: &Stmt, env: &mut Environment) -> (r: Result<
        Option<String>,
        JialoxError,
    >)
        requires
            pool.wf(),
            old(env).wf(),
            stmt_wf(*stmt, pool.nodes@.len() as nat),
        ensures
            final(env).wf(),
            match spec_exec_stmt(pool.nodes@, *stmt, old(env)@) {
                StmtOut::Done { env: em, output } => final(env)@ == em && match r {
                    Ok(out) => match (out, output) {
                        (Some(s), Some(o)) => s@ == o,
                        (None, None) => true,
                        _ => false,
                    },
                    Err(_) => false,
                },
                StmtOut::Failed { fail } => final(env)@ == old(env)@ && match r {
                    Ok(_) => false,
                    Err(e) => e@.line == fail.line && e@.message == fail.msg && e@.token
                        == fail.token,
                },
            },
    {
        match stmt {
            Stmt::Expression(e) => {
                let _value = self.evaluate(pool, e.expression, env)?;
                Ok(None)
            },
            Stmt::Print(p) => {
                let value = self.evaluate(pool, p.expression, env)?;
                Ok(Some(value.display_string()))
            },
            Stmt::Var(vs) => {
                let value = match &vs.initializer {
                    Some(e) => self.evaluate(pool, *e, env)?,
                    None => Literal::Nil,
                };
                let name = vs.name.lexeme();
                env.define(name.as_str(), value);
                Ok(None)
            },
        }
    }

    /// Runs a sequence of statements against the environment, collecting
    /// the output of every `print` reached; the first failing statement
    /// stops the run and is reported, with every earlier binding kept.
    pub fn interpret(&self, pool: &ExprPool, stmts: &Vec<Stmt>, env: &mut Environment) -> (r: (
        Vec<String>,
        Option<JialoxError>,
    ))
        requires
            pool.wf(),
            old(env).wf(),
            forall|k: int|
                0 <= k < stmts@.len() ==> stmt_wf(#[trigger] stmts@[k], pool.nodes@.len() as nat),
        ensures
            final(env).wf(),
            ({
                let out = spec_interpret(pool.nodes@, stmts@, old(env)@);
                final(env)@ == out.env && r.0@.map_values(|s: String| s@) == out.outputs && match (
                    r.1,
                    out.fail,
                ) {
                    (Some(e), Some(f)) => e@.line == f.line && e@.message == f.msg && e@.token
                        == f.token,
                    (None, None) => true,
                    _ => false,
                }
            }),
    {
        let ghost all = spec_interpret(pool.nodes@, stmts@, old(env)@);
        let mut outputs: Vec<String> = Vec::new();
        proof {
            assert(stmts@.skip(0) =~= stmts@);
            assert(outputs@.map_values(|s: String| s@) =~= Seq::<Seq<char>>::empty());
            assert(Seq::<Seq<char>>::empty() + all.outputs =~= all.outputs);
        }
        let n = stmts.len();
        let mut i: usize = 0;
        while i < n
            invariant
                pool.wf(),
                env.wf(),
                n == stmts@.len(),
                i <= n,
                forall|k: int|
                    0 <= k < stmts@.len() ==> stmt_wf(
                        #[trigger] stmts@[k],
                        pool.nodes@.len() as nat,
                    ),
                all == spec_interpret(pool.nodes@, stmts@, old(env)@),
                ({
                    let rest = spec_interpret(pool.nodes@, stmts@.skip(i as int), env@);
                    all.env == rest.env && all.fail == rest.fail && all.outputs
                        == outputs@.map_values(|s: String| s@) + rest.outputs
                }),
            decreases n - i,
        {
            let ghost pre = env@;
            let ghost rest = spec_interpret(pool.nodes@, stmts@.skip(i as int), pre);
            proof {
                assert(stmts@.skip(i as int)[0] == stmts@[i as int]);
                assert(stmts@.skip(i as int).drop_first() =~= stmts@.skip(i as int + 1));
            }
            match self.execute(pool, &stmts[i], env) {
                Ok(out) => {
                    match out {
                        Some(s) => {
                            outputs.push(s);
                        },
                        None => {},
                    }
                    proof {
                        let rest2 = spec_interpret(pool.nodes@, stmts@.skip(i as int + 1), env@);
                        assert(rest.outputs =~= match spec_exec_stmt(
                            pool.nodes@,
                            stmts@[i as int],
                            pre,
                        ) {
                            StmtOut::Done { env: _, output: Some(o) } => seq![o] + rest2.outputs,
                            _ => rest2.outputs,
                        });
                        assert(all.outputs =~= outputs@.map_values(|s: String| s@)
                            + rest2.outputs);
                    }
                },
                Err(e) => {
                    proof {
                        assert(all.outputs =~= outputs@.map_values(|s: String| s@));
                    }
                    return (outputs, Some(e));
                },
            }
            i += 1;
        }
        proof {
            assert(stmts@.skip(n as int) =~= Seq::<Stmt>::empty());
            assert(all.outputs =~= outputs@.map_values(|s: String| s@));
        }
        (outputs, None)
    }

    /// Evaluates the expression a handle names, to its value or its first
    /// runtime error.
    pub fn evaluate(&self, pool: &ExprPool, expr: ExprRef, env: &Environment) -> (r: Result<
        Literal,
        JialoxError,
    >)
        requires
            pool.wf(),
            env.wf(),
            expr.idx < pool.nodes@.len(),
        ensures
            result_matches(r, spec_eval(pool.nodes@, expr.idx as int, env@)),
        decreases expr.idx as int, 0int,
    {
        proof {
            assert(node_wf(pool.nodes@[expr.idx as int], expr.idx as nat));
        }
        match pool.node(expr) {
            Expr::Binary(b) => self.visit_binary_expr(pool, b, env),
            Expr::Grouping(g) => self.visit_grouping_expr(pool, g, env),
            Expr::Literal(l) => self.visit_literal_expr(l),
            Expr::Unary(u) => self.visit_unary_expr(pool, u, env),
            Expr::Variable(v) => self.visit_variable_expr(v, env),
        }
    }
}

} // verus!
