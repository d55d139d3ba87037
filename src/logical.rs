//! Evaluation of propositional formulas over the constants `T` and `F`.
//!
//! Operators, from the tightest binding to the loosest: `&` (and), `|` (or),
//! `>` (implies) and `<` (converse implication), `=` (equivalence).  All are
//! left associative; parentheses group.  Unicode whitespace separates
//! tokens; the token stream ends at the first character that is not a token.
use vstd::prelude::*;
use crate::text::{chars_of, is_space, is_whitespace};

verus! {

/// A rejected formula, with a description of the fault.
#[derive(PartialEq, Debug)]
pub enum ExpressionError {
    Parsing(String),
}

#[derive(Clone, Copy, Debug, PartialEq, Eq, Structural)]
pub enum Token {
    True,
    False,
    And,
    Or,
    Implies,
    Converse,
    Equivalent,
    LeftParenthesis,
    RightParenthesis,
}

/// Why a token sequence is not a formula.
#[derive(Clone, Copy, Debug, PartialEq, Eq, Structural)]
pub enum Fault {
    /// A left parenthesis whose group is not followed by a right one.
    Unclosed,
    /// A constant or a left parenthesis was due.
    ExpectingOperand,
    /// Tokens remain after a complete formula.
    Trailing,
}

/// The description carried by [`ExpressionError::Parsing`] for each fault.
pub open spec fn message(f: Fault) -> Seq<char> {
    match f {
        Fault::Unclosed => "Unexpected character"@,
        Fault::ExpectingOperand => "Expecting a truth value or left parenthesis"@,
        Fault::Trailing => "Unexpected end of expr"@,
    }
}

pub open spec fn token_of(c: char) -> Option<Token> {
    if c == 'T' {
        Some(Token::True)
    } else if c == 'F' {
        Some(Token::False)
    } else if c == '&' {
        Some(Token::And)
    } else if c == '|' {
        Some(Token::Or)
    } else if c == '>' {
        Some(Token::Implies)
    } else if c == '<' {
        Some(Token::Converse)
    } else if c == '=' {
        Some(Token::Equivalent)
    } else if c == '(' {
        Some(Token::LeftParenthesis)
    } else if c == ')' {
        Some(Token::RightParenthesis)
    } else {
        None
    }
}

/// The tokens of a text: whitespace is skipped, and the first character
/// that is neither whitespace nor a token ends the stream.
pub open spec fn tokens_of(s: Seq<char>) -> Seq<Token>
    decreases s.len(),
{
    if s.len() == 0 {
        Seq::empty()
    } else if is_space(s[0]) {
        tokens_of(s.drop_first())
    } else {
        match token_of(s[0]) {
            Some(t) => seq![t] + tokens_of(s.drop_first()),
            None => Seq::empty(),
        }
    }
}

pub open spec fn is_operator(t: Token) -> bool {
    match t {
        Token::And | Token::Or | Token::Implies | Token::Converse | Token::Equivalent => true,
        _ => false,
    }
}

pub open spec fn precedence(t: Token) -> int {
    match t {
        Token::And => 4,
        Token::Or => 3,
        Token::Implies | Token::Converse => 2,
        Token::Equivalent => 1,
        _ => 0,
    }
}

/// The truth function of an operator.
pub open spec fn apply(t: Token, l: bool, r: bool) -> bool {
    match t {
        Token::And => l && r,
        Token::Or => l || r,
        Token::Implies => !l || r,
        Token::Converse => l || !r,
        Token::Equivalent => l == r,
        _ => false,
    }
}

/// A constant, or a parenthesised formula, starting at `pos`: its value and
/// the position after it.
pub open spec fn atomic(toks: Seq<Token>, pos: int) -> Result<(bool, int), Fault>
    decreases toks.len() - pos, 0int,
{
    if 0 <= pos < toks.len() {
        match toks[pos] {
            Token::True => Ok((true, pos + 1)),
            Token::False => Ok((false, pos + 1)),
            Token::LeftParenthesis => match expression(toks, pos + 1, 1) {
                Ok((v, p)) => if 0 <= p < toks.len() && toks[p] == Token::RightParenthesis {
                    Ok((v, p + 1))
                } else {
                    Err(Fault::Unclosed)
                },
                Err(f) => Err(f),
            },
            _ => Err(Fault::ExpectingOperand),
        }
    } else {
        Err(Fault::ExpectingOperand)
    }
}

/// The longest formula starting at `pos` whose operators all bind at least
/// as tightly as `min_prec` (precedence climbing).
pub open spec fn expression(toks: Seq<Token>, pos: int, min_prec: int) -> Result<(bool, int), Fault>
    decreases toks.len() - pos, 1int,
{
    if 0 <= pos < toks.len() {
        match atomic(toks, pos) {
            Ok((lhs, p)) => if pos < p <= toks.len() {
                climb(toks, lhs, p, min_prec)
            } else {
                Err(Fault::ExpectingOperand)
            },
            Err(f) => Err(f),
        }
    } else {
        Err(Fault::ExpectingOperand)
    }
}

/// Extends the left operand `lhs`, which ends before `pos`, by the operators
/// from `pos` on that bind at least as tightly as `min_prec`.
pub open spec fn climb(toks: Seq<Token>, lhs: bool, pos: int, min_prec: int) -> Result<
    (bool, int),
    Fault,
>
    decreases toks.len() - pos, 2int,
{
    if 0 <= pos < toks.len() && is_operator(toks[pos]) && precedence(toks[pos]) >= min_prec {
        let op = toks[pos];
        match expression(toks, pos + 1, precedence(op) + 1) {
            Ok((rhs, p)) => if pos < p <= toks.len() {
                climb(toks, apply(op, lhs, rhs), p, min_prec)
            } else {
                Err(Fault::ExpectingOperand)
            },
            Err(f) => Err(f),
        }
    } else {
        Ok((lhs, pos))
    }
}

/// The value of a whole token sequence.
pub open spec fn evaluate(toks: Seq<Token>) -> Result<bool, Fault> {
    match expression(toks, 0, 1) {
        Ok((v, p)) => if p < toks.len() {
            Err(Fault::Trailing)
        } else {
            Ok(v)
        },
        Err(f) => Err(f),
    }
}

impl Token {
    fn is_operator(&self) -> (r: bool)
        ensures
            r == is_operator(*self),
    {
        match self {
            Token::And | Token::Or | Token::Implies | Token::Converse | Token::Equivalent => true,
            _ => false,
        }
    }

    fn get_precedence(&self) -> (r: u8)
        ensures
            r == precedence(*self),
    {
        match self {
            Token::And => 4,
            Token::Or => 3,
            Token::Implies | Token::Converse => 2,
            Token::Equivalent => 1,
            _ => 0,
        }
    }

    fn compute(&self, l: bool, r: bool) -> (res: Option<bool>)
        ensures
            res == (if is_operator(*self) {
                Some(apply(*self, l, r))
            } else {
                None
            }),
    {
        match self {
            Token::And => Some(l && r),
            Token::Or => Some(l || r),
            Token::Implies => Some(!(l && !r)),
            Token::Converse => Some(!(r && !l)),
            Token::Equivalent => Some(l == r),
            _ => None,
        }
    }
}

fn scan_token(c: char) -> (r: Option<Token>)
    ensures
        r == token_of(c),
{
    match c {
        'T' => Some(Token::True),
        'F' => Some(Token::False),
        '&' => Some(Token::And),
        '|' => Some(Token::Or),
        '>' => Some(Token::Implies),
        '<' => Some(Token::Converse),
        '=' => Some(Token::Equivalent),
        '(' => Some(Token::LeftParenthesis),
        ')' => Some(Token::RightParenthesis),
        _ => None,
    }
}

fn tokenize(s: &Vec<char>) -> (toks: Vec<Token>)
    ensures
        toks@ == tokens_of(s@),
{
    let n = s.len();
    let mut toks: Vec<Token> = Vec::new();
    let mut i: usize = 0;
    let mut done = false;
    proof {
        assert(s@.subrange(0, n as int) =~= s@);
        assert(toks@ + tokens_of(s@) =~= tokens_of(s@));
    }
    while !done && i < n
        invariant
            i <= n,
            n == s@.len(),
            done ==> toks@ == tokens_of(s@),
            !done ==> toks@ + tokens_of(s@.subrange(i as int, n as int)) == tokens_of(s@),
        decreases n - i + (if done { 0int } else { 1int }),
    {
        let b = s[i];
        let ghost rest = s@.subrange(i as int, n as int);
        proof {
            assert(rest.drop_first() =~= s@.subrange(i + 1, n as int));
        }
        if is_whitespace(b) {
            i += 1;
        } else {
            match scan_token(b) {
                Some(t) => {
                    proof {
                        assert(toks@.push(t) + tokens_of(rest.drop_first()) =~= toks@ + (seq![t]
                            + tokens_of(rest.drop_first())));
                    }
                    toks.push(t);
                    i += 1;
                },
                None => {
                    proof {
                        assert(toks@ + Seq::<Token>::empty() =~= toks@);
                    }
                    done = true;
                },
            }
        }
    }
    proof {
        if !done {
            assert(toks@ + Seq::<Token>::empty() =~= toks@);
        }
    }
    toks
}

fn compute_atomic(toks: &Vec<Token>, pos: usize) -> (r: Result<(bool, usize), Fault>)
    requires
        pos <= toks@.len(),
    ensures
        match r {
            Ok((v, p)) => atomic(toks@, pos as int) == Ok::<(bool, int), Fault>((v, p as int)) && p
                <= toks@.len(),
            Err(f) => atomic(toks@, pos as int) == Err::<(bool, int), Fault>(f),
        },
    decreases toks@.len() - pos, 0int,
{
    if pos >= toks.len() {
        return Err(Fault::ExpectingOperand);
    }
    match toks[pos] {
        Token::True => Ok((true, pos + 1)),
        Token::False => Ok((false, pos + 1)),
        Token::LeftParenthesis => {
            match compute_expression(toks, pos + 1, 1) {
                Ok((v, p)) => {
                    if p < toks.len() && toks[p] == Token::RightParenthesis {
                        Ok((v, p + 1))
                    } else {
                        Err(Fault::Unclosed)
                    }
                },
                Err(f) => Err(f),
            }
        },
        _ => Err(Fault::ExpectingOperand),
    }
}

fn compute_expression(toks: &Vec<Token>, pos: usize, min_prec: u8) -> (r: Result<
    (bool, usize),
    Fault,
>)
    requires
        pos <= toks@.len(),
    ensures
        match r {
            Ok((v, p)) => expression(toks@, pos as int, min_prec as int) == Ok::<(bool, int), Fault>(
                (v, p as int),
            ) && p <= toks@.len(),
            Err(f) => expression(toks@, pos as int, min_prec as int) == Err::<(bool, int), Fault>(f),
        },
    decreases toks@.len() - pos, 1int,
{
    if pos >= toks.len() {
        return Err(Fault::ExpectingOperand);
    }
    let (mut lhs, mut cur) = match compute_atomic(toks, pos) {
        Ok(a) => a,
        Err(f) => return Err(f),
    };
    if !(pos < cur) {
        return Err(Fault::ExpectingOperand);
    }
    while cur < toks.len()
        invariant
            pos < cur <= toks@.len(),
            climb(toks@, lhs, cur as int, min_prec as int) == expression(
                toks@,
                pos as int,
                min_prec as int,
            ),
        decreases toks@.len() - cur,
    {
        let op = toks[cur];
        if !op.is_operator() || op.get_precedence() < min_prec {
            return Ok((lhs, cur));
        }
        let rhs;
        match compute_expression(toks, cur + 1, op.get_precedence() + 1) {
            Ok((v, p)) => {
                if !(cur < p) {
                    return Err(Fault::ExpectingOperand);
                }
                rhs = v;
                cur = p;
            },
            Err(f) => return Err(f),
        }
        match op.compute(lhs, rhs) {
            Some(v) => lhs = v,
            None => return Err(Fault::ExpectingOperand),
        }
    }
    Ok((lhs, cur))
}

fn describe(f: Fault) -> (s: String)
    ensures
        s@ == message(f),
{
    match f {
        Fault::Unclosed => "Unexpected character".to_owned(),
        Fault::ExpectingOperand => "Expecting a truth value or left parenthesis".to_owned(),
        Fault::Trailing => "Unexpected end of expr".to_owned(),
    }
}

/// A formula ready to be evaluated.
pub struct Expression {
    tokens: Vec<Token>,
}

impl Expression {
    pub closed spec fn spec_tokens(&self) -> Seq<Token> {
        self.tokens@
    }

    /// Reads the tokens of `expr_str`.
    pub fn new(expr_str: &str) -> (e: Expression)
        ensures
            e.spec_tokens() == tokens_of(expr_str@),
    {
        Expression { tokens: tokenize(&chars_of(expr_str)) }
    }

    /// The truth value of the formula, or the fault that rejects it.
    pub fn eval(&mut self) -> (r: Result<bool, ExpressionError>)
        ensures
            final(self).spec_tokens() == old(self).spec_tokens(),
            match evaluate(old(self).spec_tokens()) {
                Ok(v) => r == Ok::<bool, ExpressionError>(v),
                Err(f) => r matches Err(ExpressionError::Parsing(m)) && m@ == message(f),
            },
    {
        match compute_expression(&self.tokens, 0, 1) {
            Ok((v, p)) => {
                if p < self.tokens.len() {
                    Err(ExpressionError::Parsing(describe(Fault::Trailing)))
                } else {
                    Ok(v)
                }
            },
            Err(f) => Err(ExpressionError::Parsing(describe(f))),
        }
    }
}

} // verus!
