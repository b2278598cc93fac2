use jialox::ast_printer::AstPrinter;
use jialox::environment::Environment;
use jialox::expr::ExprPool;
use jialox::interpreter::Interpreter;
use jialox::literal::Literal;
use jialox::parser::Parser;
use jialox::rational::Rational;
use jialox::scanner::Scanner;
use jialox::stmt::Stmt;
use jialox::token::Token;
use jialox::token_type::TokenType;

fn scan(source: &str) -> Vec<Token> {
    let mut scanner = Scanner::new(source.to_string());
    scanner.scan_tokens().expect("scan should succeed")
}

fn run_source(source: &str) -> (Vec<String>, Option<jialox::error::JialoxError>) {
    let tokens = scan(source);
    let mut parser = Parser::new(tokens);
    let mut pool = ExprPool::new();
    let stmts = parser.parse(&mut pool).expect("parse should succeed");
    let terp = Interpreter::new();
    let mut env = Environment::new();
    terp.interpret(&pool, &stmts, &mut env)
}

fn eval_single_expression(source: &str) -> Literal {
    let tokens = scan(source);
    let mut parser = Parser::new(tokens);
    let mut pool = ExprPool::new();
    let stmts = parser.parse(&mut pool).expect("parse should succeed");
    assert_eq!(stmts.len(), 1);
    let expr = match &stmts[0] {
        Stmt::Expression(e) => e.expression,
        _ => panic!("expected an expression statement"),
    };
    let terp = Interpreter::new();
    let env = Environment::new();
    terp.evaluate(&pool, expr, &env).expect("evaluation should succeed")
}

#[test]
fn scan_of_integer_literal_yields_number_then_eof() {
    let tokens = scan("123");
    assert_eq!(tokens.len(), 2);
    assert_eq!(tokens[0].ttype(), TokenType::Number);
    assert_eq!(tokens[0].lexeme(), "123".to_string());
    assert_eq!(tokens[0].literal(), Some(Literal::Num(Rational::new(false, 123, 1))));
    assert_eq!(tokens[1].ttype(), TokenType::Eof);
}

#[test]
fn scan_of_decimal_literal_attaches_exact_value() {
    let tokens = scan("3.14");
    assert_eq!(tokens.len(), 2);
    assert_eq!(tokens[0].ttype(), TokenType::Number);
    assert_eq!(tokens[0].literal(), Some(Literal::Num(Rational::new(false, 314, 100))));
    assert_eq!(tokens[1].ttype(), TokenType::Eof);
}

#[test]
fn scan_does_not_take_a_trailing_dot_into_a_number() {
    let tokens = scan("7.");
    assert_eq!(tokens.len(), 3);
    assert_eq!(tokens[0].ttype(), TokenType::Number);
    assert_eq!(tokens[0].lexeme(), "7".to_string());
    assert_eq!(tokens[1].ttype(), TokenType::Dot);
    assert_eq!(tokens[2].ttype(), TokenType::Eof);
}

#[test]
fn scan_unterminated_string_fails_with_line_of_embedded_newlines() {
    let mut scanner = Scanner::new("\"abc".to_string());
    let err = scanner.scan_tokens().unwrap_err();
    assert_eq!(err.message, "Unterminated string.".to_string());
    assert_eq!(err.line, 1);

    let mut scanner2 = Scanner::new("\"ab\nc".to_string());
    let err2 = scanner2.scan_tokens().unwrap_err();
    assert_eq!(err2.message, "Unterminated string.".to_string());
    assert_eq!(err2.line, 2);
}

#[test]
fn scan_string_with_newline_counts_lines() {
    let tokens = scan("\"a\nb\" 1");
    assert_eq!(tokens[0].ttype(), TokenType::Str);
    assert_eq!(tokens[0].literal(), Some(Literal::Str("a\nb".to_string())));
    // The token carries the line of its first character, the opening quote;
    // the embedded newline has still advanced the counter for what follows.
    assert_eq!(tokens[0].line(), 1);
    assert_eq!(tokens[1].ttype(), TokenType::Number);
    assert_eq!(tokens[1].line(), 2);
}

#[test]
fn scan_nested_block_comment_yields_no_tokens() {
    let tokens = scan("/* outer /* inner */ still outer */");
    assert_eq!(tokens.len(), 1);
    assert_eq!(tokens[0].ttype(), TokenType::Eof);
}

#[test]
fn scan_unterminated_block_comment_is_an_error() {
    let mut scanner = Scanner::new("/* open".to_string());
    let err = scanner.scan_tokens().unwrap_err();
    assert_eq!(err.message, "Unterminated block comments".to_string());
}

#[test]
fn eof_token_line_counts_newlines() {
    let tokens = scan("1\n2\n");
    let last = tokens.last().unwrap();
    assert_eq!(last.ttype(), TokenType::Eof);
    assert_eq!(last.line(), 3);
}

#[test]
fn scan_line_comment_is_discarded() {
    let tokens = scan("1 // nothing here\n2");
    assert_eq!(tokens.len(), 3);
    assert_eq!(tokens[0].ttype(), TokenType::Number);
    assert_eq!(tokens[1].ttype(), TokenType::Number);
    assert_eq!(tokens[1].line(), 2);
}

#[test]
fn scan_unexpected_character_is_reported_and_scanning_continues() {
    let mut scanner = Scanner::new("#1".to_string());
    let err = scanner.scan_tokens().unwrap_err();
    assert_eq!(err.message, "Unexpected character".to_string());
}

#[test]
fn scan_number_literal_too_large_is_an_error() {
    let mut scanner = Scanner::new("99999999999999999999".to_string());
    let err = scanner.scan_tokens().unwrap_err();
    assert_eq!(err.message, "Number literal too large".to_string());
}

#[test]
fn scan_keywords_and_identifiers() {
    let tokens = scan("var x and true nil");
    assert_eq!(tokens[0].ttype(), TokenType::Var);
    assert_eq!(tokens[1].ttype(), TokenType::Identifier);
    assert_eq!(tokens[1].lexeme(), "x".to_string());
    assert_eq!(tokens[2].ttype(), TokenType::And);
    assert_eq!(tokens[3].ttype(), TokenType::True);
    assert_eq!(tokens[3].literal(), Some(Literal::Bool(true)));
    assert_eq!(tokens[4].ttype(), TokenType::Nil);
    assert_eq!(tokens[4].literal(), Some(Literal::Nil));
}

#[test]
fn scan_two_character_operators() {
    let tokens = scan("! != = == < <= > >=");
    let kinds: Vec<TokenType> = tokens.iter().map(|t| t.ttype()).collect();
    assert_eq!(
        kinds,
        vec![
            TokenType::Bang,
            TokenType::BangEqual,
            TokenType::Equal,
            TokenType::EqualEqual,
            TokenType::Less,
            TokenType::LessEqual,
            TokenType::Greater,
            TokenType::GreaterEqual,
            TokenType::Eof,
        ]
    );
}

#[test]
fn precedence_multiplication_binds_tighter() {
    assert_eq!(eval_single_expression("1 + 2 * 3;"), Literal::Num(Rational::new(false, 7, 1)));
}

#[test]
fn precedence_parentheses_group_first() {
    assert_eq!(eval_single_expression("(1 + 2) * 3;"), Literal::Num(Rational::new(false, 9, 1)));
}

#[test]
fn division_is_exact() {
    assert_eq!(eval_single_expression("1 / 4;"), Literal::Num(Rational::new(false, 1, 4)));
    assert_eq!(eval_single_expression("7.8 / 2;"), Literal::Num(Rational::new(false, 39, 10)));
}

#[test]
fn parse_missing_right_paren_is_an_error() {
    let tokens = scan("(1 + 2;");
    let mut parser = Parser::new(tokens);
    let mut pool = ExprPool::new();
    let err = parser.parse(&mut pool).unwrap_err();
    assert_eq!(err.message, "Expected ')' after expression.".to_string());
}

#[test]
fn parse_missing_semicolon_is_an_error() {
    let tokens = scan("1 + 2");
    let mut parser = Parser::new(tokens);
    let mut pool = ExprPool::new();
    let err = parser.parse(&mut pool).unwrap_err();
    assert_eq!(err.message, "Expected ';' after value.".to_string());
}

#[test]
fn parse_missing_expression_is_an_error() {
    let tokens = scan("+ 1;");
    let mut parser = Parser::new(tokens);
    let mut pool = ExprPool::new();
    let err = parser.parse(&mut pool).unwrap_err();
    assert_eq!(err.message, "Expected expression".to_string());
}

#[test]
fn parse_var_without_name_is_an_error() {
    let tokens = scan("var = 1;");
    let mut parser = Parser::new(tokens);
    let mut pool = ExprPool::new();
    let err = parser.parse(&mut pool).unwrap_err();
    assert_eq!(err.message, "Expected variable name.".to_string());
}

#[test]
fn separately_parsed_literals_are_distinct_nodes() {
    let mut pool = ExprPool::new();
    let mut parser1 = Parser::new(scan("1;"));
    let stmts1 = parser1.parse(&mut pool).expect("first parse");
    let mut parser2 = Parser::new(scan("1;"));
    let stmts2 = parser2.parse(&mut pool).expect("second parse");
    let e1 = match &stmts1[0] {
        Stmt::Expression(e) => e.expression,
        _ => panic!("expected expression statement"),
    };
    let e2 = match &stmts2[0] {
        Stmt::Expression(e) => e.expression,
        _ => panic!("expected expression statement"),
    };
    assert_ne!(e1, e2);
    assert_eq!(e1, e1);
}

#[test]
fn print_statement_emits_display_form() {
    let (outputs, err) = run_source("print 1 + 2 * 3; print \"hi\"; print nil; print 7.8;");
    assert!(err.is_none());
    assert_eq!(
        outputs,
        vec!["7".to_string(), "hi".to_string(), "nil".to_string(), "7.8".to_string()]
    );
}

#[test]
fn print_of_nonterminating_quotient_uses_fraction_form() {
    let (outputs, err) = run_source("print 1 / 3;");
    assert!(err.is_none());
    assert_eq!(outputs, vec!["1/3".to_string()]);
}

#[test]
fn variables_bind_and_resolve() {
    let (outputs, err) = run_source("var x = 1; print x; var x = 2; print x; var y; print y;");
    assert!(err.is_none());
    assert_eq!(outputs, vec!["1".to_string(), "2".to_string(), "nil".to_string()]);
}

#[test]
fn runtime_error_keeps_earlier_bindings_and_outputs() {
    let (outputs, err) = run_source("var x = 1; print x; print 1 - true; print 2;");
    assert_eq!(outputs, vec!["1".to_string()]);
    let e = err.expect("a runtime error");
    assert_eq!(e.message, "Illegal expression".to_string());
}

#[test]
fn undefined_variable_is_a_runtime_error() {
    let (outputs, err) = run_source("print ghost_town;");
    assert!(outputs.is_empty());
    let e = err.expect("a runtime error");
    assert_eq!(e.message, "var ghost_town is not defined.".to_string());
}

#[test]
fn ast_printer_renders_prefix_form() {
    let tokens = scan("1 + 2;");
    let mut parser = Parser::new(tokens);
    let mut pool = ExprPool::new();
    let stmts = parser.parse(&mut pool).expect("parse");
    let expr = match &stmts[0] {
        Stmt::Expression(e) => e.expression,
        _ => panic!("expected expression statement"),
    };
    let printer = AstPrinter;
    assert_eq!(printer.print(&pool, expr).unwrap(), "(+ 1 2)".to_string());
}

#[test]
fn ast_printer_renders_groups_and_unary() {
    let tokens = scan("-(1);");
    let mut parser = Parser::new(tokens);
    let mut pool = ExprPool::new();
    let stmts = parser.parse(&mut pool).expect("parse");
    let expr = match &stmts[0] {
        Stmt::Expression(e) => e.expression,
        _ => panic!("expected expression statement"),
    };
    let printer = AstPrinter;
    assert_eq!(printer.print(&pool, expr).unwrap(), "(- (group 1))".to_string());
}

#[test]
fn error_report_text_shows_line_and_lexeme() {
    let tokens = scan("(1;");
    let mut parser = Parser::new(tokens);
    let mut pool = ExprPool::new();
    let err = parser.parse(&mut pool).unwrap_err();
    let report = err.report_string("");
    assert_eq!(
        report,
        "[line 1] Error: Expected ')' after expression.\n1 at ';' Expected ')' after expression."
            .to_string()
    );
}

#[test]
fn comparisons_across_pipeline() {
    assert_eq!(eval_single_expression("1 < 2;"), Literal::Bool(true));
    assert_eq!(eval_single_expression("2 <= 2;"), Literal::Bool(true));
    assert_eq!(eval_single_expression("0.3 == 0.1 + 0.2;"), Literal::Bool(true));
    assert_eq!(eval_single_expression("nil == 1;"), Literal::Bool(false));
    assert_eq!(eval_single_expression("1 != nil;"), Literal::Bool(true));
}

#[test]
fn run_source_composes_the_pipeline_and_keeps_the_session() {
    let mut pool = ExprPool::new();
    let mut env = Environment::new();
    let (outputs, errors) = jialox::run_source("var x = 20;".to_string(), &mut pool, &mut env);
    assert!(outputs.is_empty());
    assert!(errors.is_empty());
    let (outputs2, errors2) = jialox::run_source("print x + 1;".to_string(), &mut pool, &mut env);
    assert!(errors2.is_empty());
    assert_eq!(outputs2, vec!["21".to_string()]);
    let (outputs3, errors3) = jialox::run_source("print \"x;".to_string(), &mut pool, &mut env);
    assert!(outputs3.is_empty());
    assert_eq!(errors3.len(), 1);
    assert_eq!(errors3[0].message, "Unterminated string.".to_string());
}

#[test]
fn every_lexical_error_is_kept_in_order() {
    let mut scanner = Scanner::new("# 1\n@ 2".to_string());
    let err = scanner.scan_tokens().unwrap_err();
    // The returned failure is the most recent error; the full list stays
    // on the scanner, in order.
    assert_eq!(err.message, "Unexpected character".to_string());
    assert_eq!(err.line, 2);
    assert_eq!(scanner.errors.len(), 2);
    assert_eq!(scanner.errors[0].line, 1);
    assert_eq!(scanner.errors[1].line, 2);
    // The token sequence was still scanned past both errors and ends with
    // the end-of-input token.
    let kinds: Vec<TokenType> = scanner.tokens.iter().map(|t| t.ttype()).collect();
    assert_eq!(kinds, vec![TokenType::Number, TokenType::Number, TokenType::Eof]);

    let mut pool = ExprPool::new();
    let mut env = Environment::new();
    let (outputs, errors) = jialox::run_source("#\n@".to_string(), &mut pool, &mut env);
    assert!(outputs.is_empty());
    assert_eq!(errors.len(), 2);
    assert_eq!(errors[0].line, 1);
    assert_eq!(errors[1].line, 2);
}

#[test]
fn negative_numbers_display_with_sign() {
    let (outputs, err) = run_source("print -7.25; print -0;");
    assert!(err.is_none());
    assert_eq!(outputs, vec!["-7.25".to_string(), "0".to_string()]);
}
