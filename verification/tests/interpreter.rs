use jialox::environment::Environment;
use jialox::expr::Expr;
use jialox::expr::ExprPool;
use jialox::expr::ExprRef;
use jialox::expr::BinaryExpr;
use jialox::expr::LiteralExpr;
use jialox::expr::UnaryExpr;
use jialox::interpreter::Interpreter;
use jialox::literal::Literal;
use jialox::rational::Rational;
use jialox::token::Token;
use jialox::token_type::TokenType;

fn new_literal_number(pool: &mut ExprPool, negative: bool, numer: u64, denom: u32) -> ExprRef {
    pool.add_node(Expr::Literal(LiteralExpr {
        value: Some(Literal::Num(Rational::new(negative, numer, denom))),
    }))
}

fn new_literal_boolean(pool: &mut ExprPool, b: bool) -> ExprRef {
    pool.add_node(Expr::Literal(LiteralExpr { value: Some(Literal::Bool(b)) }))
}

fn new_literal_str(pool: &mut ExprPool, s: &str) -> ExprRef {
    pool.add_node(Expr::Literal(LiteralExpr { value: Some(Literal::Str(s.to_string())) }))
}

fn new_literal_nir(pool: &mut ExprPool) -> ExprRef {
    pool.add_node(Expr::Literal(LiteralExpr { value: Some(Literal::Nil) }))
}

fn run_comparison_tests(tok: &Token, cmps_result: Vec<bool>) {
    let nums: [(u64, u32); 3] = [(77, 10), (78, 10), (79, 10)];
    let terp = Interpreter::new();
    let env = Environment::new();

    for (&(numer, denom), ret) in nums.iter().zip(cmps_result) {
        let mut pool = ExprPool::new();
        let binary_expr = BinaryExpr {
            left: new_literal_number(&mut pool, false, numer, denom),
            operator: tok.mirror(),
            right: new_literal_number(&mut pool, false, 78, 10),
        };
        let result = terp.visit_binary_expr(&pool, &binary_expr, &env);
        assert!(result.is_ok());
        assert_eq!(result.ok(), Some(Literal::Bool(ret)));
    }
}

#[test]
fn test_unary_minus() {
    let terp = Interpreter::new();
    let env = Environment::new();
    let mut pool = ExprPool::new();
    let unary_expr = UnaryExpr {
        operator: Token::new(TokenType::Minus, "-".to_string(), None, 123),
        right: new_literal_number(&mut pool, false, 578, 10),
    };
    let result = terp.visit_unary_expr(&pool, &unary_expr, &env);
    assert!(result.is_ok());
    assert_eq!(result.ok(), Some(Literal::Num(Rational::new(true, 578, 10))));
}

#[test]
fn test_unary_bang() {
    let terp = Interpreter::new();
    let env = Environment::new();
    let mut pool = ExprPool::new();
    let unary_expr = UnaryExpr {
        operator: Token::new(TokenType::Bang, "!".to_string(), None, 123),
        right: new_literal_boolean(&mut pool, false),
    };
    let result = terp.visit_unary_expr(&pool, &unary_expr, &env);
    assert!(result.is_ok());
    assert_eq!(result.ok(), Some(Literal::Bool(true)));
}

#[test]
fn test_addition() {
    let terp = Interpreter::new();
    let env = Environment::new();
    let mut pool = ExprPool::new();
    let binary_expr = BinaryExpr {
        left: new_literal_number(&mut pool, false, 78, 10),
        operator: Token::new(TokenType::Plus, "+".to_string(), None, 123),
        right: new_literal_number(&mut pool, false, 20, 10),
    };
    let result = terp.visit_binary_expr(&pool, &binary_expr, &env);
    assert!(result.is_ok());
    assert_eq!(result.ok(), Some(Literal::Num(Rational::new(false, 98, 10))));
}

#[test]
fn test_string_concatination() {
    let terp = Interpreter::new();
    let env = Environment::new();
    let mut pool = ExprPool::new();
    let binary_expr = BinaryExpr {
        left: new_literal_str(&mut pool, "hello"),
        operator: Token::new(TokenType::Plus, "+".to_string(), None, 123),
        right: new_literal_str(&mut pool, " addition"),
    };
    let result = terp.visit_binary_expr(&pool, &binary_expr, &env);
    assert!(result.is_ok());
    assert_eq!(result.ok(), Some(Literal::Str("hello addition".to_string())));
}

#[test]
fn test_substraction() {
    let terp = Interpreter::new();
    let env = Environment::new();
    let mut pool = ExprPool::new();
    let binary_expr = BinaryExpr {
        left: new_literal_number(&mut pool, false, 78, 10),
        operator: Token::new(TokenType::Minus, "-".to_string(), None, 123),
        right: new_literal_number(&mut pool, false, 46, 10),
    };
    let result = terp.visit_binary_expr(&pool, &binary_expr, &env);
    assert!(result.is_ok());
    assert_eq!(result.ok(), Some(Literal::Num(Rational::new(false, 32, 10))));
}

#[test]
fn test_multiplication() {
    let terp = Interpreter::new();
    let env = Environment::new();
    let mut pool = ExprPool::new();
    let binary_expr = BinaryExpr {
        left: new_literal_number(&mut pool, false, 78, 10),
        operator: Token::new(TokenType::Star, "*".to_string(), None, 123),
        right: new_literal_number(&mut pool, false, 20, 10),
    };
    let result = terp.visit_binary_expr(&pool, &binary_expr, &env);
    assert!(result.is_ok());
    assert_eq!(result.ok(), Some(Literal::Num(Rational::new(false, 156, 10))));
}

#[test]
fn test_division() {
    let terp = Interpreter::new();
    let env = Environment::new();
    let mut pool = ExprPool::new();
    let binary_expr = BinaryExpr {
        left: new_literal_number(&mut pool, false, 78, 10),
        operator: Token::new(TokenType::Slash, "/".to_string(), None, 123),
        right: new_literal_number(&mut pool, false, 20, 10),
    };
    let result = terp.visit_binary_expr(&pool, &binary_expr, &env);
    assert!(result.is_ok());
    assert_eq!(result.ok(), Some(Literal::Num(Rational::new(false, 39, 10))));
}

#[test]
fn test_arithmetic_error_for_substraction() {
    let terp = Interpreter::new();
    let env = Environment::new();
    let mut pool = ExprPool::new();
    let binary_expr = BinaryExpr {
        left: new_literal_number(&mut pool, false, 78, 10),
        operator: Token::new(TokenType::Minus, "-".to_string(), None, 123),
        right: new_literal_boolean(&mut pool, true),
    };
    let result = terp.visit_binary_expr(&pool, &binary_expr, &env);
    assert!(result.is_err());
}

#[test]
fn test_greater() {
    run_comparison_tests(
        &Token::new(TokenType::Greater, ">".to_string(), None, 1),
        vec![false, false, true],
    );
}

#[test]
fn test_greatereuqal() {
    run_comparison_tests(
        &Token::new(TokenType::GreaterEqual, ">=".to_string(), None, 1),
        vec![false, true, true],
    );
}

#[test]
fn test_less() {
    run_comparison_tests(
        &Token::new(TokenType::Less, "<".to_string(), None, 1),
        vec![true, false, false],
    );
}

#[test]
fn test_lesseuqal_real_greater() {
    run_comparison_tests(
        &Token::new(TokenType::LessEqual, "<=".to_string(), None, 1),
        vec![true, true, false],
    );
}

#[test]
fn test_equaleuqal_number() {
    run_comparison_tests(
        &Token::new(TokenType::EqualEqual, "==".to_string(), None, 1),
        vec![false, true, false],
    );
}

#[test]
fn test_equaleuqal_string() {
    let terp = Interpreter::new();
    let env = Environment::new();
    let mut pool = ExprPool::new();
    let binary_expr = BinaryExpr {
        left: new_literal_str(&mut pool, "hello"),
        operator: Token::new(TokenType::EqualEqual, "==".to_string(), None, 123),
        right: new_literal_str(&mut pool, "hello"),
    };
    let result = terp.visit_binary_expr(&pool, &binary_expr, &env);
    assert!(result.is_ok());
    assert_eq!(result.ok(), Some(Literal::Bool(true)));
}

#[test]
fn test_equaleuqal_bool() {
    let terp = Interpreter::new();
    let env = Environment::new();
    let mut pool = ExprPool::new();
    let binary_expr = BinaryExpr {
        left: new_literal_boolean(&mut pool, true),
        operator: Token::new(TokenType::EqualEqual, "==".to_string(), None, 123),
        right: new_literal_boolean(&mut pool, true),
    };
    let result = terp.visit_binary_expr(&pool, &binary_expr, &env);
    assert!(result.is_ok());
    assert_eq!(result.ok(), Some(Literal::Bool(true)));
}

#[test]
fn test_equaleuqal_nil() {
    let terp = Interpreter::new();
    let env = Environment::new();
    let mut pool = ExprPool::new();
    let binary_expr = BinaryExpr {
        left: new_literal_nir(&mut pool),
        operator: Token::new(TokenType::EqualEqual, "==".to_string(), None, 123),
        right: new_literal_nir(&mut pool),
    };
    let result = terp.visit_binary_expr(&pool, &binary_expr, &env);
    assert!(result.is_ok());
    assert_eq!(result.ok(), Some(Literal::Bool(true)));
}

#[test]
fn test_bangeuqal_number() {
    run_comparison_tests(
        &Token::new(TokenType::BangEqual, "!=".to_string(), None, 1),
        vec![true, false, true],
    );
}

#[test]
fn test_bangeuqal_string() {
    let terp = Interpreter::new();
    let env = Environment::new();
    let mut pool = ExprPool::new();
    let binary_expr = BinaryExpr {
        left: new_literal_str(&mut pool, "hello"),
        operator: Token::new(TokenType::BangEqual, "!=".to_string(), None, 123),
        right: new_literal_str(&mut pool, "hellx"),
    };
    let result = terp.visit_binary_expr(&pool, &binary_expr, &env);
    assert!(result.is_ok());
    assert_eq!(result.ok(), Some(Literal::Bool(true)));
}

#[test]
fn test_bangeuqal_bool() {
    let terp = Interpreter::new();
    let env = Environment::new();
    let mut pool = ExprPool::new();
    let binary_expr = BinaryExpr {
        left: new_literal_boolean(&mut pool, true),
        operator: Token::new(TokenType::BangEqual, "!=".to_string(), None, 123),
        right: new_literal_boolean(&mut pool, false),
    };
    let result = terp.visit_binary_expr(&pool, &binary_expr, &env);
    assert!(result.is_ok());
    assert_eq!(result.ok(), Some(Literal::Bool(true)));
}

#[test]
fn test_bangeuqal_nil() {
    let terp = Interpreter::new();
    let env = Environment::new();
    let mut pool = ExprPool::new();
    let binary_expr = BinaryExpr {
        left: new_literal_nir(&mut pool),
        operator: Token::new(TokenType::BangEqual, "!=".to_string(), None, 123),
        right: new_literal_nir(&mut pool),
    };
    let result = terp.visit_binary_expr(&pool, &binary_expr, &env);
    assert!(result.is_ok());
    assert_eq!(result.ok(), Some(Literal::Bool(false)));
}

#[test]
fn test_bangeuqal_random() {
    let terp = Interpreter::new();
    let env = Environment::new();
    let mut pool = ExprPool::new();
    let binary_expr = BinaryExpr {
        left: new_literal_nir(&mut pool),
        operator: Token::new(TokenType::BangEqual, "!=".to_string(), None, 123),
        right: new_literal_number(&mut pool, false, 64, 1),
    };
    let result = terp.visit_binary_expr(&pool, &binary_expr, &env);
    assert!(result.is_ok());
    assert_eq!(result.ok(), Some(Literal::Bool(true)));
}

#[test]
fn test_cross_type_equality_is_false() {
    let terp = Interpreter::new();
    let env = Environment::new();
    let mut pool = ExprPool::new();
    let eq_expr = BinaryExpr {
        left: new_literal_number(&mut pool, false, 1, 1),
        operator: Token::new(TokenType::EqualEqual, "==".to_string(), None, 1),
        right: new_literal_str(&mut pool, "1"),
    };
    assert_eq!(terp.visit_binary_expr(&pool, &eq_expr, &env).ok(), Some(Literal::Bool(false)));
    let ne_expr = BinaryExpr {
        left: new_literal_str(&mut pool, "1"),
        operator: Token::new(TokenType::BangEqual, "!=".to_string(), None, 1),
        right: new_literal_number(&mut pool, false, 1, 1),
    };
    assert_eq!(terp.visit_binary_expr(&pool, &ne_expr, &env).ok(), Some(Literal::Bool(true)));
}

#[test]
fn test_mixed_concatenation() {
    let terp = Interpreter::new();
    let env = Environment::new();
    let mut pool = ExprPool::new();
    let binary_expr = BinaryExpr {
        left: new_literal_number(&mut pool, false, 1, 1),
        operator: Token::new(TokenType::Plus, "+".to_string(), None, 1),
        right: new_literal_str(&mut pool, "x"),
    };
    let result = terp.visit_binary_expr(&pool, &binary_expr, &env);
    assert_eq!(result.ok(), Some(Literal::Str("1x".to_string())));
}

#[test]
fn test_bang_of_nil_and_zero() {
    let terp = Interpreter::new();
    let env = Environment::new();
    let mut pool = ExprPool::new();
    let bang_nil = UnaryExpr {
        operator: Token::new(TokenType::Bang, "!".to_string(), None, 1),
        right: new_literal_nir(&mut pool),
    };
    assert_eq!(terp.visit_unary_expr(&pool, &bang_nil, &env).ok(), Some(Literal::Bool(true)));
    let bang_zero = UnaryExpr {
        operator: Token::new(TokenType::Bang, "!".to_string(), None, 1),
        right: new_literal_number(&mut pool, false, 0, 1),
    };
    assert_eq!(terp.visit_unary_expr(&pool, &bang_zero, &env).ok(), Some(Literal::Bool(false)));
}

#[test]
fn test_division_by_zero_is_illegal() {
    let terp = Interpreter::new();
    let env = Environment::new();
    let mut pool = ExprPool::new();
    let binary_expr = BinaryExpr {
        left: new_literal_number(&mut pool, false, 1, 1),
        operator: Token::new(TokenType::Slash, "/".to_string(), None, 9),
        right: new_literal_number(&mut pool, false, 0, 1),
    };
    let err = terp.visit_binary_expr(&pool, &binary_expr, &env).unwrap_err();
    assert_eq!(err.message, "Illegal expression".to_string());
    assert_eq!(err.line, 9);
}

#[test]
fn test_overflowing_arithmetic_reports_range_error() {
    let terp = Interpreter::new();
    let env = Environment::new();
    let mut pool = ExprPool::new();
    let binary_expr = BinaryExpr {
        left: new_literal_number(&mut pool, false, u64::MAX, 1),
        operator: Token::new(TokenType::Star, "*".to_string(), None, 3),
        right: new_literal_number(&mut pool, false, u64::MAX, 1),
    };
    let err = terp.visit_binary_expr(&pool, &binary_expr, &env).unwrap_err();
    assert_eq!(err.message, "Number out of range".to_string());
    assert_eq!(err.line, 3);
}

#[test]
fn test_unary_minus_on_non_number_is_nil() {
    let terp = Interpreter::new();
    let env = Environment::new();
    let mut pool = ExprPool::new();
    let unary_expr = UnaryExpr {
        operator: Token::new(TokenType::Minus, "-".to_string(), None, 1),
        right: new_literal_str(&mut pool, "x"),
    };
    assert_eq!(terp.visit_unary_expr(&pool, &unary_expr, &env).ok(), Some(Literal::Nil));
}
