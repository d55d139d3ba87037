//! The command line of the expression evaluator: which kind of expression,
//! and the expression itself.
use vstd::prelude::*;

verus! {

/// The kind of expression to evaluate.
#[derive(Clone, Copy, Debug, PartialEq, Eq, Structural)]
pub enum ExprType {
    Logical,
    Numerical,
}

pub struct Config {
    expr_type: ExprType,
    expr: String,
}

impl Config {
    pub closed spec fn spec_expr_type(&self) -> ExprType {
        self.expr_type
    }

    pub closed spec fn spec_expr(&self) -> Seq<char> {
        self.expr@
    }

    /// Reads the kind (`logical` or `numerical`) and the expression from the
    /// command line (`args[0]` is the program).
    pub fn build(args: &[String]) -> (r: Result<Config, &'static str>)
        ensures
            args@.len() < 2 ==> r == Err::<Config, &'static str>("Didn't get a type"),
            args@.len() >= 2 && args@[1]@ != "logical"@ && args@[1]@ != "numerical"@ ==> r
                == Err::<Config, &'static str>("Not a supported type"),
            args@.len() == 2 && (args@[1]@ == "logical"@ || args@[1]@ == "numerical"@) ==> r
                == Err::<Config, &'static str>("Didn't get an expression"),
            r matches Ok(c) ==> args@.len() >= 3 && c.spec_expr() == args@[2]@ && (if args@[1]@
                == "logical"@ {
                c.spec_expr_type() == ExprType::Logical
            } else {
                args@[1]@ == "numerical"@ && c.spec_expr_type() == ExprType::Numerical
            }),
            args@.len() >= 3 && (args@[1]@ == "logical"@ || args@[1]@ == "numerical"@) ==> r is Ok,
    {
        if args.len() < 2 {
            return Err("Didn't get a type");
        }
        let logical = "logical".to_owned();
        let numerical = "numerical".to_owned();
        let expr_type = if args[1] == logical {
            ExprType::Logical
        } else if args[1] == numerical {
            ExprType::Numerical
        } else {
            return Err("Not a supported type");
        };
        if args.len() < 3 {
            return Err("Didn't get an expression");
        }
        Ok(Config { expr_type, expr: args[2].clone() })
    }

    pub fn expr_type(&self) -> (r: ExprType)
        ensures
            r == self.spec_expr_type(),
    {
        self.expr_type
    }

    pub fn expr(&self) -> (r: &String)
        ensures
            r@ == self.spec_expr(),
    {
        &self.expr
    }
}

} // verus!
