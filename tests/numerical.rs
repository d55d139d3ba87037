use autograd::numerical::{Expression, ExpressionError};

#[test]
fn expression_computes() {
    let expr_str = "21 + 3 + 6 * 27 - (92 - 12) / 5 + 24";
    let mut expr_parsed = Expression::new(expr_str);
    assert_eq!(Ok(194), expr_parsed.eval());
}

#[test]
fn lib_expression_error() {
    let expr_str = "9 + + 4";
    let mut expr_parsed = Expression::new(expr_str);
    assert_eq!(
        Err(ExpressionError::Parsing(
            "Expecting a number or left parenthesis".to_string()
        )),
        expr_parsed.eval()
    );
}

fn eval(s: &str) -> Result<i32, ExpressionError> {
    Expression::new(s).eval()
}

fn parsing(m: &str) -> Result<i32, ExpressionError> {
    Err(ExpressionError::Parsing(m.to_string()))
}

#[test]
fn numerical_power_is_right_associative() {
    assert_eq!(eval("2 ^ 3 ^ 2"), Ok(512));
    assert_eq!(eval("(2 ^ 3) ^ 2"), Ok(64));
    assert_eq!(eval("2 * 3 ^ 2"), Ok(18));
}

#[test]
fn numerical_subtraction_and_division_are_left_associative() {
    assert_eq!(eval("10 - 4 - 3"), Ok(3));
    assert_eq!(eval("100 / 10 / 5"), Ok(2));
    assert_eq!(eval("(1 - 8) / 2"), Ok(-3));
}

#[test]
fn numerical_arithmetic_faults() {
    assert_eq!(eval("1 / 0"), parsing("Unexpected expr"));
    assert_eq!(eval("2147483647 + 1"), parsing("Unexpected expr"));
    assert_eq!(eval("2 ^ 31"), parsing("Unexpected expr"));
    assert_eq!(eval("2 ^ (0 - 1)"), parsing("Unexpected expr"));
    assert_eq!(eval("2147483647"), Ok(2147483647));
}

#[test]
fn numerical_syntax_faults() {
    assert_eq!(eval("(1 + 2"), parsing("Unexpected character"));
    assert_eq!(eval("1 2"), parsing("Unexpected end of expr"));
    assert_eq!(eval(""), parsing("Expecting a number or left parenthesis"));
}

#[test]
fn numerical_stream_ends_at_unknown_or_oversized() {
    assert_eq!(eval("7 % 2"), Ok(7));
    assert_eq!(eval("5 + 2147483648"), parsing("Expecting a number or left parenthesis"));
}

#[test]
fn numerical_only_ascii_digit_runs_are_numbers() {
    assert_eq!(eval("12\u{663}"), parsing("Expecting a number or left parenthesis"));
    assert_eq!(eval("1 + \u{b2}"), parsing("Expecting a number or left parenthesis"));
    assert_eq!(eval("1\u{3000}+ 2"), Ok(3));
    assert_eq!(eval("007 * 2"), Ok(14));
}
