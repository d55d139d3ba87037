//! Evaluation of integer expressions over `i32`.
//!
//! Operators: `^` (power, right associative) binds tightest, then `*` and `/`,
//! then `+` and `-` (all left associative); parentheses group.  A number is
//! a run of numeric characters; Unicode whitespace separates tokens.  The
//! token stream ends at the first character that starts no token, and at a
//! run of numeric characters that is not an `i32` in ASCII digits.  An operation whose result does not fit in `i32`, a division by
//! zero and a negative exponent reject the expression.
use vstd::prelude::*;
use vstd::arithmetic::power::pow;
use crate::text::{chars_of, is_numeric, is_space, is_whitespace, numeric};

verus! {

/// A rejected expression, with a description of the fault.
#[derive(PartialEq, Debug)]
pub enum ExpressionError {
    Parsing(String),
}

#[derive(Clone, Copy, Debug, PartialEq, Eq, Structural)]
pub enum Token {
    Number(i32),
    Plus,
    Minus,
    Multiply,
    Divide,
    Power,
    LeftParenthesis,
    RightParenthesis,
}

/// How operators of equal precedence group.
#[derive(Clone, Copy, Debug, PartialEq, Eq, Structural)]
pub enum Associative {
    Left,
    Right,
}

/// Why a token sequence is not an expression.
#[derive(Clone, Copy, Debug, PartialEq, Eq, Structural)]
pub enum Fault {
    /// A left parenthesis whose group is not followed by a right one.
    Unclosed,
    /// A number or a left parenthesis was due.
    ExpectingOperand,
    /// Tokens remain after a complete expression.
    Trailing,
    /// An operation has no `i32` result.
    Arithmetic,
}

/// The description carried by [`ExpressionError::Parsing`] for each fault.
pub open spec fn message(f: Fault) -> Seq<char> {
    match f {
        Fault::Unclosed => "Unexpected character"@,
        Fault::ExpectingOperand => "Expecting a number or left parenthesis"@,
        Fault::Trailing => "Unexpected end of expr"@,
        Fault::Arithmetic => "Unexpected expr"@,
    }
}

pub open spec fn is_digit(c: char) -> bool {
    '0' <= c <= '9'
}

/// The single-character tokens.
pub open spec fn operator_of(c: char) -> Option<Token> {
    if c == '+' {
        Some(Token::Plus)
    } else if c == '-' {
        Some(Token::Minus)
    } else if c == '*' {
        Some(Token::Multiply)
    } else if c == '/' {
        Some(Token::Divide)
    } else if c == '^' {
        Some(Token::Power)
    } else if c == '(' {
        Some(Token::LeftParenthesis)
    } else if c == ')' {
        Some(Token::RightParenthesis)
    } else {
        None
    }
}

/// The end of the run of numeric characters that starts at `i`.
pub open spec fn numeric_end(s: Seq<char>, i: int) -> int
    decreases s.len() - i,
{
    if 0 <= i < s.len() && numeric(s[i]) {
        numeric_end(s, i + 1)
    } else {
        i
    }
}

/// Every character is an ASCII digit.
pub open spec fn all_digits(d: Seq<char>) -> bool {
    forall|j: int| 0 <= j < d.len() ==> is_digit(#[trigger] d[j])
}

/// The decimal value of a sequence of ASCII digits.
pub open spec fn digits_value(d: Seq<char>) -> int
    decreases d.len(),
{
    if d.len() == 0 {
        0
    } else {
        digits_value(d.drop_last()) * 10 + (d.last() as int - 48)
    }
}

/// The tokens of a text from character `i` on: whitespace is skipped, a run
/// of numeric characters is one number when it is an `i32` written in ASCII
/// digits, and the first character that starts no token, or a run that is
/// no such number, ends the stream.
pub open spec fn tokens_from(s: Seq<char>, i: int) -> Seq<Token>
    decreases s.len() - i,
{
    if 0 <= i < s.len() {
        if is_space(s[i]) {
            tokens_from(s, i + 1)
        } else if numeric(s[i]) {
            let e = numeric_end(s, i);
            let run = s.subrange(i, e);
            if i < e <= s.len() && all_digits(run) && digits_value(run) <= i32::MAX {
                seq![Token::Number(digits_value(run) as i32)] + tokens_from(s, e)
            } else {
                Seq::empty()
            }
        } else {
            match operator_of(s[i]) {
                Some(t) => seq![t] + tokens_from(s, i + 1),
                None => Seq::empty(),
            }
        }
    } else {
        Seq::empty()
    }
}

/// The tokens of a whole text.
pub open spec fn tokens_of(s: Seq<char>) -> Seq<Token> {
    tokens_from(s, 0)
}

proof fn lemma_numeric_end(s: Seq<char>, i: int)
    requires
        0 <= i <= s.len(),
    ensures
        i <= numeric_end(s, i) <= s.len(),
    decreases s.len() - i,
{
    if i < s.len() && numeric(s[i]) {
        lemma_numeric_end(s, i + 1);
    }
}

pub open spec fn is_operator(t: Token) -> bool {
    match t {
        Token::Plus | Token::Minus | Token::Multiply | Token::Divide | Token::Power => true,
        _ => false,
    }
}

pub open spec fn precedence(t: Token) -> int {
    match t {
        Token::Power => 3,
        Token::Multiply | Token::Divide => 2,
        Token::Plus | Token::Minus => 1,
        _ => 0,
    }
}

/// The least precedence of the operators in a right operand.
pub open spec fn right_min_prec(t: Token) -> int {
    if t == Token::Power {
        precedence(t)
    } else {
        precedence(t) + 1
    }
}

/// `b` to the power `e` when that fits in `i32`.
pub open spec fn power_of(b: i32, e: u32) -> Option<i32> {
    let p = pow(b as int, e as nat);
    if i32::MIN <= p <= i32::MAX {
        Some(p as i32)
    } else {
        None
    }
}

/// The result of an operator, when it has one in `i32`.
pub open spec fn apply(t: Token, l: i32, r: i32) -> Option<i32> {
    match t {
        Token::Plus => l.checked_add(r),
        Token::Minus => l.checked_sub(r),
        Token::Multiply => l.checked_mul(r),
        Token::Divide => l.checked_div(r),
        Token::Power => if r >= 0 {
            power_of(l, r as u32)
        } else {
            None
        },
        _ => None,
    }
}

/// A number, or a parenthesised expression, starting at `pos`: its value and
/// the position after it.
pub open spec fn atomic(toks: Seq<Token>, pos: int) -> Result<(i32, int), Fault>
    decreases toks.len() - pos, 0int,
{
    if 0 <= pos < toks.len() {
        match toks[pos] {
            Token::Number(n) => Ok((n, pos + 1)),
            Token::LeftParenthesis => match expression(toks, pos + 1, 1) {
                Ok((v, p)) => if 0 <= p < toks.len() && toks[p] == Token::RightParenthesis {
                    Ok((v, p + 1))
                } else {
                    Err(Fault::Unclosed)
                },
                Err(f) => Err(f),
            },
            _ => Err(Fault::ExpectingOperand),
        }
    } else {
        Err(Fault::ExpectingOperand)
    }
}

/// The longest expression starting at `pos` whose operators all bind at least
/// as tightly as `min_prec` (precedence climbing).
pub open spec fn expression(toks: Seq<Token>, pos: int, min_prec: int) -> Result<(i32, int), Fault>
    decreases toks.len() - pos, 1int,
{
    if 0 <= pos < toks.len() {
        match atomic(toks, pos) {
            Ok((lhs, p)) => if pos < p <= toks.len() {
                climb(toks, lhs, p, min_prec)
            } else {
                Err(Fault::ExpectingOperand)
            },
            Err(f) => Err(f),
        }
    } else {
        Err(Fault::ExpectingOperand)
    }
}

/// Extends the left operand `lhs`, which ends before `pos`, by the operators
/// from `pos` on that bind at least as tightly as `min_prec`.
pub open spec fn climb(toks: Seq<Token>, lhs: i32, pos: int, min_prec: int) -> Result<
    (i32, int),
    Fault,
>
    decreases toks.len() - pos, 2int,
{
    if 0 <= pos < toks.len() && is_operator(toks[pos]) && precedence(toks[pos]) >= min_prec {
        let op = toks[pos];
        match expression(toks, pos + 1, right_min_prec(op)) {
            Ok((rhs, p)) => if pos < p <= toks.len() {
                match apply(op, lhs, rhs) {
                    Some(v) => climb(toks, v, p, min_prec),
                    None => Err(Fault::Arithmetic),
                }
            } else {
                Err(Fault::ExpectingOperand)
            },
            Err(f) => Err(f),
        }
    } else {
        Ok((lhs, pos))
    }
}

/// The value of a whole token sequence.
pub open spec fn evaluate(toks: Seq<Token>) -> Result<i32, Fault> {
    match expression(toks, 0, 1) {
        Ok((v, p)) => if p < toks.len() {
            Err(Fault::Trailing)
        } else {
            Ok(v)
        },
        Err(f) => Err(f),
    }
}

/// Relies on i32::checked_pow: the power when it fits in `i32`, `None` on
/// overflow.
#[verifier::external_body]
fn checked_pow(b: i32, e: u32) -> (r: Option<i32>)
    ensures
        r == power_of(b, e),
{
    b.checked_pow(e)
}

impl Token {
    fn is_operator(&self) -> (r: bool)
        ensures
            r == is_operator(*self),
    {
        match self {
            Token::Plus | Token::Minus | Token::Multiply | Token::Divide | Token::Power => true,
            _ => false,
        }
    }

    fn get_precedence(&self) -> (r: u8)
        ensures
            r == precedence(*self),
    {
        match self {
            Token::Power => 3,
            Token::Multiply | Token::Divide => 2,
            Token::Plus | Token::Minus => 1,
            _ => 0,
        }
    }

    fn get_associative(&self) -> (r: Associative)
        ensures
            r == (if *self == Token::Power {
                Associative::Right
            } else {
                Associative::Left
            }),
    {
        match self {
            Token::Power => Associative::Right,
            _ => Associative::Left,
        }
    }

    fn compute(&self, l: i32, r: i32) -> (res: Option<i32>)
        ensures
            res == apply(*self, l, r),
    {
        match self {
            Token::Plus => l.checked_add(r),
            Token::Minus => l.checked_sub(r),
            Token::Multiply => l.checked_mul(r),
            Token::Divide => l.checked_div(r),
            Token::Power => if r >= 0 {
                checked_pow(l, r as u32)
            } else {
                None
            },
            _ => None,
        }
    }
}

fn scan_operator(c: char) -> (r: Option<Token>)
    ensures
        r == operator_of(c),
{
    match c {
        '+' => Some(Token::Plus),
        '-' => Some(Token::Minus),
        '*' => Some(Token::Multiply),
        '/' => Some(Token::Divide),
        '^' => Some(Token::Power),
        '(' => Some(Token::LeftParenthesis),
        ')' => Some(Token::RightParenthesis),
        _ => None,
    }
}

/// The end of the run of numeric characters that starts at `i`, and its
/// value when it is an `i32` written in ASCII digits.
fn scan_number(s: &Vec<char>, i: usize) -> (r: (Option<i32>, usize))
    requires
        i < s@.len(),
    ensures
        r.1 == numeric_end(s@, i as int),
        r.0 == (if all_digits(s@.subrange(i as int, r.1 as int)) && digits_value(
            s@.subrange(i as int, r.1 as int),
        ) <= i32::MAX {
            Some(digits_value(s@.subrange(i as int, r.1 as int)) as i32)
        } else {
            None
        }),
{
    let n = s.len();
    let mut j: usize = i;
    let mut acc: i32 = 0;
    let mut fits = true;
    let mut digits = true;
    proof {
        lemma_numeric_end(s@, i as int);
    }
    while j < n && is_numeric(s[j])
        invariant
            i <= j <= n,
            n == s@.len(),
            numeric_end(s@, j as int) == numeric_end(s@, i as int),
            digits == all_digits(s@.subrange(i as int, j as int)),
            digits && fits ==> acc == digits_value(s@.subrange(i as int, j as int)),
            digits && !fits ==> digits_value(s@.subrange(i as int, j as int)) > i32::MAX,
            digits ==> 0 <= digits_value(s@.subrange(i as int, j as int)),
        decreases n - j,
    {
        let c = s[j];
        let ghost before = s@.subrange(i as int, j as int);
        let ghost after = s@.subrange(i as int, j + 1);
        proof {
            assert(after.drop_last() =~= before);
            assert(after.last() == c);
            if digits && is_digit(c) {
                assert forall|k: int| 0 <= k < after.len() implies is_digit(#[trigger] after[k]) by {
                    if k < before.len() {
                        assert(after[k] == before[k]);
                    }
                }
            }
            if !(digits && is_digit(c)) {
                assert(!is_digit(after[after.len() - 1]) || !all_digits(before));
                if all_digits(after) {
                    assert forall|k: int| 0 <= k < before.len() implies is_digit(#[trigger] before[k]) by {
                        assert(after[k] == before[k]);
                    }
                }
            }
        }
        if digits && '0' <= c && c <= '9' {
            let d = (c as u32 - 48) as i32;
            if fits {
                if acc > (i32::MAX - d) / 10 {
                    fits = false;
                } else {
                    acc = acc * 10 + d;
                }
            }
        } else {
            digits = false;
        }
        j += 1;
    }
    if digits && fits {
        (Some(acc), j)
    } else {
        (None, j)
    }
}

fn tokenize(s: &Vec<char>) -> (toks: Vec<Token>)
    ensures
        toks@ == tokens_of(s@),
{
    let n = s.len();
    let mut toks: Vec<Token> = Vec::new();
    let mut i: usize = 0;
    let mut done = false;
    proof {
        assert(toks@ + tokens_from(s@, 0) =~= tokens_from(s@, 0));
    }
    while !done && i < n
        invariant
            i <= n,
            n == s@.len(),
            done ==> toks@ == tokens_of(s@),
            !done ==> toks@ + tokens_from(s@, i as int) == tokens_of(s@),
        decreases n - i + (if done { 0int } else { 1int }),
    {
        let c = s[i];
        if is_whitespace(c) {
            i += 1;
        } else if is_numeric(c) {
            let (v, e) = scan_number(s, i);
            proof {
                lemma_numeric_end(s@, i + 1);
                assert(numeric_end(s@, i as int) == numeric_end(s@, i + 1));
            }
            match v {
                Some(x) => {
                    proof {
                        assert(toks@.push(Token::Number(x)) + tokens_from(s@, e as int) =~= toks@
                            + (seq![Token::Number(x)] + tokens_from(s@, e as int)));
                    }
                    toks.push(Token::Number(x));
                    i = e;
                },
                None => {
                    proof {
                        assert(toks@ + Seq::<Token>::empty() =~= toks@);
                    }
                    done = true;
                },
            }
        } else {
            match scan_operator(c) {
                Some(t) => {
                    proof {
                        assert(toks@.push(t) + tokens_from(s@, i + 1) =~= toks@ + (seq![t]
                            + tokens_from(s@, i + 1)));
                    }
                    toks.push(t);
                    i += 1;
                },
                None => {
                    proof {
                        assert(toks@ + Seq::<Token>::empty() =~= toks@);
                    }
                    done = true;
                },
            }
        }
    }
    proof {
        if !done {
            assert(toks@ + Seq::<Token>::empty() =~= toks@);
        }
    }
    toks
}

fn compute_atomic(toks: &Vec<Token>, pos: usize) -> (r: Result<(i32, usize), Fault>)
    requires
        pos <= toks@.len(),
    ensures
        match r {
            Ok((v, p)) => atomic(toks@, pos as int) == Ok::<(i32, int), Fault>((v, p as int)) && p
                <= toks@.len(),
            Err(f) => atomic(toks@, pos as int) == Err::<(i32, int), Fault>(f),
        },
    decreases toks@.len() - pos, 0int,
{
    if pos >= toks.len() {
        return Err(Fault::ExpectingOperand);
    }
    match toks[pos] {
        Token::Number(n) => Ok((n, pos + 1)),
        Token::LeftParenthesis => {
            match compute_expression(toks, pos + 1, 1) {
                Ok((v, p)) => {
                    if p < toks.len() && toks[p] == Token::RightParenthesis {
                        Ok((v, p + 1))
                    } else {
                        Err(Fault::Unclosed)
                    }
                },
                Err(f) => Err(f),
            }
        },
        _ => Err(Fault::ExpectingOperand),
    }
}

fn compute_expression(toks: &Vec<Token>, pos: usize, min_prec: u8) -> (r: Result<
    (i32, usize),
    Fault,
>)
    requires
        pos <= toks@.len(),
    ensures
        match r {
            Ok((v, p)) => expression(toks@, pos as int, min_prec as int) == Ok::<(i32, int), Fault>(
                (v, p as int),
            ) && p <= toks@.len(),
            Err(f) => expression(toks@, pos as int, min_prec as int) == Err::<(i32, int), Fault>(f),
        },
    decreases toks@.len() - pos, 1int,
{
    if pos >= toks.len() {
        return Err(Fault::ExpectingOperand);
    }
    let (mut lhs, mut cur) = match compute_atomic(toks, pos) {
        Ok(a) => a,
        Err(f) => return Err(f),
    };
    if !(pos < cur) {
        return Err(Fault::ExpectingOperand);
    }
    while cur < toks.len()
        invariant
            pos < cur <= toks@.len(),
            climb(toks@, lhs, cur as int, min_prec as int) == expression(
                toks@,
                pos as int,
                min_prec as int,
            ),
        decreases toks@.len() - cur,
    {
        let op = toks[cur];
        if !op.is_operator() || op.get_precedence() < min_prec {
            return Ok((lhs, cur));
        }
        let rhs;
        let next_prec = if op.get_associative() == Associative::Left {
            op.get_precedence() + 1
        } else {
            op.get_precedence()
        };
        match compute_expression(toks, cur + 1, next_prec) {
            Ok((v, p)) => {
                if !(cur < p) {
                    return Err(Fault::ExpectingOperand);
                }
                rhs = v;
                cur = p;
            },
            Err(f) => return Err(f),
        }
        match op.compute(lhs, rhs) {
            Some(v) => lhs = v,
            None => return Err(Fault::Arithmetic),
        }
    }
    Ok((lhs, cur))
}

fn describe(f: Fault) -> (s: String)
    ensures
        s@ == message(f),
{
    match f {
        Fault::Unclosed => "Unexpected character".to_owned(),
        Fault::ExpectingOperand => "Expecting a number or left parenthesis".to_owned(),
        Fault::Trailing => "Unexpected end of expr".to_owned(),
        Fault::Arithmetic => "Unexpected expr".to_owned(),
    }
}

/// An expression ready to be evaluated.
pub struct Expression {
    tokens: Vec<Token>,
}

impl Expression {
    pub closed spec fn spec_tokens(&self) -> Seq<Token> {
        self.tokens@
    }

    /// Reads the tokens of `expr_str`.
    pub fn new(expr_str: &str) -> (e: Expression)
        ensures
            e.spec_tokens() == tokens_of(expr_str@),
    {
        Expression { tokens: tokenize(&chars_of(expr_str)) }
    }

    /// The value of the expression, or the fault that rejects it.
    pub fn eval(&mut self) -> (r: Result<i32, ExpressionError>)
        ensures
            final(self).spec_tokens() == old(self).spec_tokens(),
            match evaluate(old(self).spec_tokens()) {
                Ok(v) => r == Ok::<i32, ExpressionError>(v),
                Err(f) => r matches Err(ExpressionError::Parsing(m)) && m@ == message(f),
            },
    {
        match compute_expression(&self.tokens, 0, 1) {
            Ok((v, p)) => {
                if p < self.tokens.len() {
                    Err(ExpressionError::Parsing(describe(Fault::Trailing)))
                } else {
                    Ok(v)
                }
            },
            Err(f) => Err(ExpressionError::Parsing(describe(f))),
        }
    }
}

} // verus!
