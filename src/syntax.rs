//! The grammar of canonical expressions and a parser for it.
//!
//! ```text
//! expr   := term ('+' term)*
//! term   := factor (('*' | '/') factor)*
//! factor := '-' dice | dice
//! dice   := atom ('d' atom)*
//! atom   := numeral | '(' expr ')'
//! ```
//!
//! A numeral is a maximal run of digits and `.`; it holds at most one `.` and
//! at least one digit. Every operator groups to the left.
use vstd::prelude::*;
use crate::error::{ErrorKind, SyntaxError};
use crate::text::is_digit;

verus! {

/// The largest numeral mantissa.
pub const MAX_MANTISSA: u64 = 9223372036854775807;

/// The most digits after a decimal point.
pub const MAX_SCALE: u32 = 18;

/// A parsed expression.
#[derive(Debug, PartialEq, Eq)]
pub enum Expr {
    /// The number `mantissa / 10^scale`.
    Num { mantissa: u64, scale: u32 },
    Neg(Box<Expr>),
    Add(Box<Expr>, Box<Expr>),
    Mul(Box<Expr>, Box<Expr>),
    /// Division; on integers it truncates toward zero.
    Div(Box<Expr>, Box<Expr>),
    /// `NdS`: the sum of N dice with S sides each.
    Dice(Box<Expr>, Box<Expr>),
}

pub type Parsed = Result<(Expr, int), ErrorKind>;

pub open spec fn in_numeral(c: char) -> bool {
    is_digit(c) || c == '.'
}

/// The end of the numeral run that starts at `i`.
pub open spec fn run_end(t: Seq<char>, i: int) -> int
    decreases t.len() - i,
{
    if 0 <= i < t.len() && in_numeral(t[i]) {
        run_end(t, i + 1)
    } else {
        i
    }
}

pub open spec fn digit_value(c: char) -> int {
    c as int - '0' as int
}

/// The digits of `s` read as one decimal number, dots ignored.
pub open spec fn digits_value(s: Seq<char>) -> int
    decreases s.len(),
{
    if s.len() == 0 {
        0
    } else if is_digit(s.last()) {
        digits_value(s.drop_last()) * 10 + digit_value(s.last())
    } else {
        digits_value(s.drop_last())
    }
}

pub open spec fn count_digits(s: Seq<char>) -> int
    decreases s.len(),
{
    if s.len() == 0 {
        0
    } else {
        count_digits(s.drop_last()) + if is_digit(s.last()) { 1int } else { 0int }
    }
}

pub open spec fn count_dots(s: Seq<char>) -> int
    decreases s.len(),
{
    if s.len() == 0 {
        0
    } else {
        count_dots(s.drop_last()) + if s.last() == '.' { 1int } else { 0int }
    }
}

/// The number of digits after the first dot of `s`.
pub open spec fn frac_digits(s: Seq<char>) -> int
    decreases s.len(),
{
    if s.len() == 0 || count_dots(s) == 0 || s.last() == '.' {
        0
    } else {
        frac_digits(s.drop_last()) + if is_digit(s.last()) { 1int } else { 0int }
    }
}

/// The numeral that starts at `i`.
pub open spec fn parse_numeral(t: Seq<char>, i: int) -> Parsed {
    let e = run_end(t, i);
    let s = t.subrange(i, e);
    if count_digits(s) == 0 || count_dots(s) > 1 || digits_value(s) > MAX_MANTISSA || frac_digits(s) > MAX_SCALE {
        Err(ErrorKind::InvalidNumber)
    } else {
        Ok((Expr::Num { mantissa: digits_value(s) as u64, scale: frac_digits(s) as u32 }, e))
    }
}

/// Continues after a sub-parse that ended at `j`, which lies past `i`.
pub open spec fn advanced(i: int, j: int, t: Seq<char>) -> bool {
    i < j <= t.len()
}

pub open spec fn parse_atom(t: Seq<char>, i: int) -> Parsed
    decreases t.len() - i, 0nat,
{
    if !(0 <= i < t.len()) {
        Err(ErrorKind::MissingOperand)
    } else if t[i] == '(' {
        match parse_expr(t, i + 1) {
            Err(k) => Err(k),
            Ok((e, j)) => if j >= t.len() {
                Err(ErrorKind::UnmatchedParenthesis)
            } else if t[j] == ')' {
                Ok((e, j + 1))
            } else {
                Err(ErrorKind::UnexpectedCharacter)
            },
        }
    } else if in_numeral(t[i]) {
        parse_numeral(t, i)
    } else {
        Err(ErrorKind::MissingOperand)
    }
}

pub open spec fn parse_dice_rest(t: Seq<char>, i: int, acc: Expr) -> Parsed
    decreases t.len() - i, 5nat,
{
    if 0 <= i < t.len() && t[i] == 'd' {
        match parse_atom(t, i + 1) {
            Err(k) => Err(k),
            Ok((b, j)) => if advanced(i, j, t) {
                parse_dice_rest(t, j, Expr::Dice(Box::new(acc), Box::new(b)))
            } else {
                Err(ErrorKind::MissingOperand)
            },
        }
    } else {
        Ok((acc, i))
    }
}

pub open spec fn parse_dice(t: Seq<char>, i: int) -> Parsed
    decreases t.len() - i, 1nat,
{
    match parse_atom(t, i) {
        Err(k) => Err(k),
        Ok((a, j)) => if advanced(i, j, t) {
            parse_dice_rest(t, j, a)
        } else {
            Err(ErrorKind::MissingOperand)
        },
    }
}

pub open spec fn parse_factor(t: Seq<char>, i: int) -> Parsed
    decreases t.len() - i, 2nat,
{
    if 0 <= i < t.len() && t[i] == '-' {
        match parse_dice(t, i + 1) {
            Err(k) => Err(k),
            Ok((a, j)) => Ok((Expr::Neg(Box::new(a)), j)),
        }
    } else {
        parse_dice(t, i)
    }
}

pub open spec fn parse_term_rest(t: Seq<char>, i: int, acc: Expr) -> Parsed
    decreases t.len() - i, 5nat,
{
    if 0 <= i < t.len() && (t[i] == '*' || t[i] == '/') {
        match parse_factor(t, i + 1) {
            Err(k) => Err(k),
            Ok((b, j)) => if advanced(i, j, t) {
                parse_term_rest(
                    t,
                    j,
                    if t[i] == '*' {
                        Expr::Mul(Box::new(acc), Box::new(b))
                    } else {
                        Expr::Div(Box::new(acc), Box::new(b))
                    },
                )
            } else {
                Err(ErrorKind::MissingOperand)
            },
        }
    } else {
        Ok((acc, i))
    }
}

pub open spec fn parse_term(t: Seq<char>, i: int) -> Parsed
    decreases t.len() - i, 3nat,
{
    match parse_factor(t, i) {
        Err(k) => Err(k),
        Ok((a, j)) => if advanced(i, j, t) {
            parse_term_rest(t, j, a)
        } else {
            Err(ErrorKind::MissingOperand)
        },
    }
}

pub open spec fn parse_expr_rest(t: Seq<char>, i: int, acc: Expr) -> Parsed
    decreases t.len() - i, 5nat,
{
    if 0 <= i < t.len() && t[i] == '+' {
        match parse_term(t, i + 1) {
            Err(k) => Err(k),
            Ok((b, j)) => if advanced(i, j, t) {
                parse_expr_rest(t, j, Expr::Add(Box::new(acc), Box::new(b)))
            } else {
                Err(ErrorKind::MissingOperand)
            },
        }
    } else {
        Ok((acc, i))
    }
}

pub open spec fn parse_expr(t: Seq<char>, i: int) -> Parsed
    decreases t.len() - i, 4nat,
{
    match parse_term(t, i) {
        Err(k) => Err(k),
        Ok((a, j)) => if advanced(i, j, t) {
            parse_expr_rest(t, j, a)
        } else {
            Err(ErrorKind::MissingOperand)
        },
    }
}

/// A whole canonical expression.
pub open spec fn parse_all(t: Seq<char>) -> Result<Expr, ErrorKind> {
    match parse_expr(t, 0) {
        Err(k) => Err(k),
        Ok((e, j)) => if j == t.len() {
            Ok(e)
        } else {
            Err(ErrorKind::UnexpectedCharacter)
        },
    }
}


/// An executable parse result that agrees with the spec result `p`.
pub open spec fn agrees(r: Result<(Expr, usize), SyntaxError>, p: Parsed) -> bool {
    match r {
        Ok((e, j)) => p == Ok::<(Expr, int), ErrorKind>((e, j as int)),
        Err(err) => p == Err::<(Expr, int), ErrorKind>(err.kind) && err.line is None && err.col is None,
    }
}

pub open spec fn ends_in(r: Result<(Expr, usize), SyntaxError>, lo: int, t: Seq<char>) -> bool {
    r is Ok ==> lo <= r->Ok_0.1 <= t.len()
}

pub(crate) fn fail(kind: ErrorKind) -> (r: SyntaxError)
    ensures
        r.kind == kind,
        r.line is None,
        r.col is None,
{
    let msg = match kind {
        ErrorKind::DecimalNotAllowed => "decimal numbers are not supported here",
        ErrorKind::UnmatchedParenthesis => "found '(' without matching ')'",
        ErrorKind::MissingOperand => "missing number before or after an operator",
        ErrorKind::InvalidNumber => "invalid number",
        ErrorKind::UnexpectedCharacter => "unexpected character",
        ErrorKind::DivisionByZero => "division by zero",
        ErrorKind::Overflow => "arithmetic overflow",
    };
    SyntaxError::from_string(kind, msg.to_string())
}

fn is_numeral_char(c: char) -> (r: bool)
    ensures
        r == in_numeral(c),
{
    ('0' <= c && c <= '9') || c == '.'
}

fn parse_numeral_exec(t: &Vec<char>, i: usize) -> (r: Result<(Expr, usize), SyntaxError>)
    requires
        i < t@.len(),
        in_numeral(t@[i as int]),
    ensures
        agrees(r, parse_numeral(t@, i as int)),
        ends_in(r, i + 1, t@),
{
    let mut k: usize = i;
    let mut m: u64 = 0;
    let mut big: bool = false;
    let mut nd: usize = 0;
    let mut ndots: usize = 0;
    let mut nfrac: usize = 0;
    while k < t.len() && is_numeral_char(t[k])
        invariant
            i <= k <= t@.len(),
            run_end(t@, i as int) == run_end(t@, k as int),
            !big ==> m as int == digits_value(t@.subrange(i as int, k as int)) && m <= MAX_MANTISSA,
            big ==> digits_value(t@.subrange(i as int, k as int)) > MAX_MANTISSA,
            nd as int == count_digits(t@.subrange(i as int, k as int)),
            ndots as int == count_dots(t@.subrange(i as int, k as int)),
            nfrac as int == frac_digits(t@.subrange(i as int, k as int)),
            nd <= k - i,
            ndots <= k - i,
            nfrac <= k - i,
        decreases t.len() - k,
    {
        let c = t[k];
        let ghost s0 = t@.subrange(i as int, k as int);
        k = k + 1;
        let ghost s1 = t@.subrange(i as int, k as int);
        assert(s1.drop_last() =~= s0);
        if c == '.' {
            ndots = ndots + 1;
            nfrac = 0;
        } else {
            let d: u64 = (c as u32 - '0' as u32) as u64;
            nd = nd + 1;
            if ndots > 0 {
                nfrac = nfrac + 1;
            }
            if !big {
                let v: u128 = m as u128 * 10 + d as u128;
                if v > MAX_MANTISSA as u128 {
                    big = true;
                } else {
                    m = v as u64;
                }
            } else {
                assert(digits_value(s1) > MAX_MANTISSA) by (nonlinear_arith)
                    requires
                        digits_value(s1) == digits_value(s0) * 10 + (c as int - '0' as int),
                        digits_value(s0) > MAX_MANTISSA,
                        '0' <= c,
                ;
            }
        }
    }
    let ghost s = t@.subrange(i as int, k as int);
    assert(k == run_end(t@, i as int));
    if nd == 0 || ndots > 1 || big || nfrac > MAX_SCALE as usize {
        return Err(fail(ErrorKind::InvalidNumber));
    }
    Ok((Expr::Num { mantissa: m, scale: nfrac as u32 }, k))
}

fn parse_atom_exec(t: &Vec<char>, i: usize) -> (r: Result<(Expr, usize), SyntaxError>)
    requires
        i <= t@.len(),
    ensures
        agrees(r, parse_atom(t@, i as int)),
        ends_in(r, i + 1, t@),
    decreases t@.len() - i, 0nat,
{
    if i >= t.len() {
        return Err(fail(ErrorKind::MissingOperand));
    }
    if t[i] == '(' {
        match parse_expr_exec(t, i + 1) {
            Err(e) => Err(e),
            Ok((e, j)) => {
                if j >= t.len() {
                    Err(fail(ErrorKind::UnmatchedParenthesis))
                } else if t[j] == ')' {
                    Ok((e, j + 1))
                } else {
                    Err(fail(ErrorKind::UnexpectedCharacter))
                }
            },
        }
    } else if is_numeral_char(t[i]) {
        parse_numeral_exec(t, i)
    } else {
        Err(fail(ErrorKind::MissingOperand))
    }
}

fn parse_dice_rest_exec(t: &Vec<char>, i: usize, acc: Expr) -> (r: Result<(Expr, usize), SyntaxError>)
    requires
        i <= t@.len(),
    ensures
        agrees(r, parse_dice_rest(t@, i as int, acc)),
        ends_in(r, i as int, t@),
    decreases t@.len() - i, 5nat,
{
    if i < t.len() && t[i] == 'd' {
        match parse_atom_exec(t, i + 1) {
            Err(e) => Err(e),
            Ok((b, j)) => parse_dice_rest_exec(t, j, Expr::Dice(Box::new(acc), Box::new(b))),
        }
    } else {
        Ok((acc, i))
    }
}

fn parse_dice_exec(t: &Vec<char>, i: usize) -> (r: Result<(Expr, usize), SyntaxError>)
    requires
        i <= t@.len(),
    ensures
        agrees(r, parse_dice(t@, i as int)),
        ends_in(r, i + 1, t@),
    decreases t@.len() - i, 1nat,
{
    match parse_atom_exec(t, i) {
        Err(e) => Err(e),
        Ok((a, j)) => parse_dice_rest_exec(t, j, a),
    }
}

fn parse_factor_exec(t: &Vec<char>, i: usize) -> (r: Result<(Expr, usize), SyntaxError>)
    requires
        i <= t@.len(),
    ensures
        agrees(r, parse_factor(t@, i as int)),
        ends_in(r, i + 1, t@),
    decreases t@.len() - i, 2nat,
{
    if i < t.len() && t[i] == '-' {
        match parse_dice_exec(t, i + 1) {
            Err(e) => Err(e),
            Ok((a, j)) => Ok((Expr::Neg(Box::new(a)), j)),
        }
    } else {
        parse_dice_exec(t, i)
    }
}

fn parse_term_rest_exec(t: &Vec<char>, i: usize, acc: Expr) -> (r: Result<(Expr, usize), SyntaxError>)
    requires
        i <= t@.len(),
    ensures
        agrees(r, parse_term_rest(t@, i as int, acc)),
        ends_in(r, i as int, t@),
    decreases t@.len() - i, 5nat,
{
    if i < t.len() && (t[i] == '*' || t[i] == '/') {
        match parse_factor_exec(t, i + 1) {
            Err(e) => Err(e),
            Ok((b, j)) => {
                let next = if t[i] == '*' {
                    Expr::Mul(Box::new(acc), Box::new(b))
                } else {
                    Expr::Div(Box::new(acc), Box::new(b))
                };
                parse_term_rest_exec(t, j, next)
            },
        }
    } else {
        Ok((acc, i))
    }
}

fn parse_term_exec(t: &Vec<char>, i: usize) -> (r: Result<(Expr, usize), SyntaxError>)
    requires
        i <= t@.len(),
    ensures
        agrees(r, parse_term(t@, i as int)),
        ends_in(r, i + 1, t@),
    decreases t@.len() - i, 3nat,
{
    match parse_factor_exec(t, i) {
        Err(e) => Err(e),
        Ok((a, j)) => parse_term_rest_exec(t, j, a),
    }
}

fn parse_expr_rest_exec(t: &Vec<char>, i: usize, acc: Expr) -> (r: Result<(Expr, usize), SyntaxError>)
    requires
        i <= t@.len(),
    ensures
        agrees(r, parse_expr_rest(t@, i as int, acc)),
        ends_in(r, i as int, t@),
    decreases t@.len() - i, 5nat,
{
    if i < t.len() && t[i] == '+' {
        match parse_term_exec(t, i + 1) {
            Err(e) => Err(e),
            Ok((b, j)) => parse_expr_rest_exec(t, j, Expr::Add(Box::new(acc), Box::new(b))),
        }
    } else {
        Ok((acc, i))
    }
}

fn parse_expr_exec(t: &Vec<char>, i: usize) -> (r: Result<(Expr, usize), SyntaxError>)
    requires
        i <= t@.len(),
    ensures
        agrees(r, parse_expr(t@, i as int)),
        ends_in(r, i + 1, t@),
    decreases t@.len() - i, 4nat,
{
    match parse_term_exec(t, i) {
        Err(e) => Err(e),
        Ok((a, j)) => parse_expr_rest_exec(t, j, a),
    }
}

/// Parses a canonical expression (the output of `normalize`) into its tree.
pub fn parse(t: &Vec<char>) -> (r: Result<Expr, SyntaxError>)
    ensures
        match r {
            Ok(e) => parse_all(t@) == Ok::<Expr, ErrorKind>(e),
            Err(err) => parse_all(t@) == Err::<Expr, ErrorKind>(err.kind),
        },
{
    match parse_expr_exec(t, 0) {
        Err(e) => Err(e),
        Ok((e, j)) => {
            if j == t.len() {
                Ok(e)
            } else {
                Err(fail(ErrorKind::UnexpectedCharacter))
            }
        },
    }
}

} // verus!
