use autograd::logical::{Expression, ExpressionError};

#[test]
fn simple_expression_computes() {
    let expr_str = "T & T";
    let mut expr_parsed = Expression::new(expr_str);
    assert_eq!(Ok(true), expr_parsed.eval());

    let expr_str = "T & F";
    let mut expr_parsed = Expression::new(expr_str);
    assert_eq!(Ok(false), expr_parsed.eval());

    let expr_str = "F | F";
    let mut expr_parsed = Expression::new(expr_str);
    assert_eq!(Ok(false), expr_parsed.eval());

    let expr_str = "T | F";
    let mut expr_parsed = Expression::new(expr_str);
    assert_eq!(Ok(true), expr_parsed.eval());
}

#[test]
fn complex_expression_computes() {
    let expr_str = "((T & F) | (T > F > F)) = (T < F)";
    let mut expr_parsed = Expression::new(expr_str);
    assert_eq!(Ok(true), expr_parsed.eval());
}

#[test]
fn expression_error() {
    let expr_str = "T & | T";
    let mut expr_parsed = Expression::new(expr_str);
    assert_eq!(
        Err(ExpressionError::Parsing(
            "Expecting a truth value or left parenthesis".to_string()
        )),
        expr_parsed.eval()
    );
}

fn eval(s: &str) -> Result<bool, ExpressionError> {
    Expression::new(s).eval()
}

fn parsing(m: &str) -> Result<bool, ExpressionError> {
    Err(ExpressionError::Parsing(m.to_string()))
}

#[test]
fn logical_operators_truth_tables() {
    assert_eq!(eval("T > F"), Ok(false));
    assert_eq!(eval("F > F"), Ok(true));
    assert_eq!(eval("F < T"), Ok(false));
    assert_eq!(eval("T < F"), Ok(true));
    assert_eq!(eval("F = F"), Ok(true));
    assert_eq!(eval("T = F"), Ok(false));
}

#[test]
fn logical_and_binds_tighter_than_or() {
    assert_eq!(eval("T | F & F"), Ok(true));
    assert_eq!(eval("(T | F) & F"), Ok(false));
}

#[test]
fn logical_faults() {
    assert_eq!(eval("(T & F"), parsing("Unexpected character"));
    assert_eq!(eval("T T"), parsing("Unexpected end of expr"));
    assert_eq!(eval(""), parsing("Expecting a truth value or left parenthesis"));
    assert_eq!(eval("T )"), parsing("Unexpected end of expr"));
}

#[test]
fn logical_unknown_character_ends_input() {
    assert_eq!(eval("F x & T"), Ok(false));
    assert_eq!(eval("\tT\n|  F "), Ok(true));
}

#[test]
fn logical_unicode_whitespace_separates() {
    assert_eq!(eval("F\u{A0}| T"), Ok(true));
    assert_eq!(eval("T\u{3000}&\u{2003}F"), Ok(false));
}
