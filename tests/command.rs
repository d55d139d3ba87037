use autograd::command::{Config, ExprType};

fn args(v: &[&str]) -> Vec<String> {
    v.iter().map(|s| s.to_string()).collect()
}

#[test]
fn command_config_reads_kind_and_expression() {
    let c = Config::build(&args(&["prog", "logical", "T & F"])).ok().unwrap();
    assert_eq!(c.expr_type(), ExprType::Logical);
    assert_eq!(c.expr(), "T & F");
    let c = Config::build(&args(&["prog", "numerical", "1 + 2"])).ok().unwrap();
    assert_eq!(c.expr_type(), ExprType::Numerical);
}

#[test]
fn command_config_errors() {
    assert_eq!(Config::build(&args(&["prog"])).err(), Some("Didn't get a type"));
    assert_eq!(Config::build(&args(&["prog", "other", "x"])).err(), Some("Not a supported type"));
    assert_eq!(Config::build(&args(&["prog", "logical"])).err(), Some("Didn't get an expression"));
}
