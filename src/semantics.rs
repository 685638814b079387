//! What an expression tree evaluates to in each mode.
//!
//! A roll is any value that fair dice can show, computed with `i64`; the
//! minimum and the maximum are the ends of the range that rolls can span; the
//! average is computed exactly, with fractions of `i128`.
use vstd::prelude::*;
use crate::error::ErrorKind;
use crate::syntax::Expr;

verus! {

/// `v` as an `i64` result.
pub open spec fn fit(v: int) -> Result<int, ErrorKind> {
    if i64::MIN <= v <= i64::MAX {
        Ok(v)
    } else {
        Err(ErrorKind::Overflow)
    }
}

/// Division truncating toward zero, for `y != 0`.
pub open spec fn tdiv(x: int, y: int) -> int {
    if x >= 0 && y > 0 {
        x / y
    } else if x < 0 && y < 0 {
        (-x) / (-y)
    } else if x < 0 {
        -((-x) / y)
    } else {
        -(x / (-y))
    }
}

pub open spec fn int_div(x: int, y: int) -> Result<int, ErrorKind> {
    if y == 0 {
        Err(ErrorKind::DivisionByZero)
    } else {
        fit(tdiv(x, y))
    }
}

/// Why `n` dice of `s` sides cannot be thrown, if they cannot.
pub open spec fn dice_fault(n: int, s: int) -> Option<ErrorKind> {
    if !(0 <= n <= u32::MAX && 1 <= s <= u32::MAX) {
        Some(ErrorKind::InvalidNumber)
    } else if n * s > i64::MAX {
        Some(ErrorKind::Overflow)
    } else {
        None
    }
}

/// The integer value of a tree without dice: `*` and `/` as grouped by the
/// parser, division truncating toward zero. A dice term has no plain value.
pub open spec fn plain_value(e: Expr) -> Result<int, ErrorKind>
    decreases e,
{
    match e {
        Expr::Num { mantissa, scale } => if scale == 0 {
            fit(mantissa as int)
        } else {
            Err(ErrorKind::InvalidNumber)
        },
        Expr::Neg(a) => match plain_value(*a) {
            Err(k) => Err(k),
            Ok(x) => fit(-x),
        },
        Expr::Add(a, b) | Expr::Mul(a, b) | Expr::Div(a, b) => match (plain_value(*a), plain_value(*b)) {
            (Err(k), _) => Err(k),
            (Ok(_), Err(k)) => Err(k),
            (Ok(x), Ok(y)) => int_binary(e, x, y),
        },
        Expr::Dice(_, _) => Err(ErrorKind::InvalidNumber),
    }
}

/// Whether `e` holds no dice term.
pub open spec fn dice_free(e: Expr) -> bool
    decreases e,
{
    match e {
        Expr::Num { .. } => true,
        Expr::Neg(a) => dice_free(*a),
        Expr::Add(a, b) => dice_free(*a) && dice_free(*b),
        Expr::Mul(a, b) => dice_free(*a) && dice_free(*b),
        Expr::Div(a, b) => dice_free(*a) && dice_free(*b),
        Expr::Dice(_, _) => false,
    }
}

pub open spec fn min4(a: int, b: int, c: int, d: int) -> int {
    let p = if a <= b { a } else { b };
    let q = if c <= d { c } else { d };
    if p <= q { p } else { q }
}

pub open spec fn max4(a: int, b: int, c: int, d: int) -> int {
    let p = if a >= b { a } else { b };
    let q = if c >= d { c } else { d };
    if p >= q { p } else { q }
}

/// The range spanned by four corner values, each of which must fit an `i64`.
pub open spec fn corners(a: int, b: int, c: int, d: int) -> Result<(int, int), ErrorKind> {
    if fit(a) is Ok && fit(b) is Ok && fit(c) is Ok && fit(d) is Ok {
        Ok((min4(a, b, c, d), max4(a, b, c, d)))
    } else {
        Err(ErrorKind::Overflow)
    }
}

/// The range of a binary node whose operands range over `[l1, h1]` and
/// `[l2, h2]`.
pub open spec fn bounds_binary(e: Expr, l1: int, h1: int, l2: int, h2: int) -> Result<(int, int), ErrorKind> {
    match e {
        Expr::Add(_, _) => if fit(l1 + l2) is Ok && fit(h1 + h2) is Ok {
            Ok((l1 + l2, h1 + h2))
        } else {
            Err(ErrorKind::Overflow)
        },
        Expr::Mul(_, _) => corners(l1 * l2, l1 * h2, h1 * l2, h1 * h2),
        Expr::Div(_, _) => if l2 <= 0 <= h2 {
            Err(ErrorKind::DivisionByZero)
        } else {
            corners(tdiv(l1, l2), tdiv(l1, h2), tdiv(h1, l2), tdiv(h1, h2))
        },
        _ => if !(0 <= l1 && h1 <= u32::MAX && 1 <= l2 && h2 <= u32::MAX) {
            Err(ErrorKind::InvalidNumber)
        } else if h1 * h2 > i64::MAX {
            Err(ErrorKind::Overflow)
        } else {
            Ok((l1, h1 * h2))
        },
    }
}

/// The least and the greatest value that a roll of `e` can come to, the
/// minimum and the maximum of `e`. Negation swaps the pair; a product or a
/// quotient spans its four corner values; a dice term `NdS` spans
/// `N` to `N*S`. A divisor whose range holds 0 is a division by zero.
pub open spec fn bounds(e: Expr) -> Result<(int, int), ErrorKind>
    decreases e,
{
    match e {
        Expr::Num { .. } => match plain_value(e) {
            Err(k) => Err(k),
            Ok(v) => Ok((v, v)),
        },
        Expr::Neg(a) => match bounds(*a) {
            Err(k) => Err(k),
            Ok((lo, hi)) => if fit(-hi) is Ok && fit(-lo) is Ok {
                Ok((-hi, -lo))
            } else {
                Err(ErrorKind::Overflow)
            },
        },
        Expr::Add(a, b) | Expr::Mul(a, b) | Expr::Div(a, b) | Expr::Dice(a, b) => match (bounds(*a), bounds(*b)) {
            (Err(k), _) => Err(k),
            (Ok(_), Err(k)) => Err(k),
            (Ok((l1, h1)), Ok((l2, h2))) => bounds_binary(e, l1, h1, l2, h2),
        },
    }
}

/// The result of a binary integer operator on two evaluated operands.
pub open spec fn int_binary(e: Expr, x: int, y: int) -> Result<int, ErrorKind> {
    match e {
        Expr::Add(_, _) => fit(x + y),
        Expr::Mul(_, _) => fit(x * y),
        _ => int_div(x, y),
    }
}

/// The sum of the values in `s`.
pub open spec fn seq_sum(s: Seq<int>) -> int
    decreases s.len(),
{
    if s.len() == 0 {
        0
    } else {
        seq_sum(s.drop_last()) + s.last()
    }
}

/// Every value in `ds` is a face of a die with `sides` sides.
pub open spec fn faces_in(ds: Seq<int>, sides: int) -> bool {
    forall|i: int| 0 <= i < ds.len() ==> 1 <= #[trigger] ds[i] <= sides
}

/// A roll of `e` in which the dice, one by one in the order they are thrown,
/// show the values at the front of `rolls`; a dice term `NdS` takes the next
/// N of them and comes to their sum. The result, the values left over, and
/// whether each value is a face of its die. Operands are evaluated
/// left to right, and the first error ends the roll.
pub open spec fn roll_eval(e: Expr, rolls: Seq<int>) -> (Result<int, ErrorKind>, Seq<int>, bool)
    decreases e,
{
    match e {
        Expr::Num { .. } => (plain_value(e), rolls, true),
        Expr::Neg(a) => {
            let (ra, rest, ok) = roll_eval(*a, rolls);
            (
                match ra {
                    Err(k) => Err(k),
                    Ok(x) => fit(-x),
                },
                rest,
                ok,
            )
        },
        Expr::Add(a, b) | Expr::Mul(a, b) | Expr::Div(a, b) | Expr::Dice(a, b) => {
            let (ra, r1, ok1) = roll_eval(*a, rolls);
            match ra {
                Err(k) => (Err(k), r1, ok1),
                Ok(x) => {
                    let (rb, r2, ok2) = roll_eval(*b, r1);
                    match rb {
                        Err(k) => (Err(k), r2, ok1 && ok2),
                        Ok(y) => if e is Dice {
                            match dice_fault(x, y) {
                                Some(k) => (Err(k), r2, ok1 && ok2),
                                None => if r2.len() >= x {
                                    (
                                        Ok(seq_sum(r2.take(x))),
                                        r2.skip(x),
                                        ok1 && ok2 && faces_in(r2.take(x), y),
                                    )
                                } else {
                                    (Ok(x), r2, false)
                                },
                            }
                        } else {
                            (int_binary(e, x, y), r2, ok1 && ok2)
                        },
                    }
                },
            }
        },
    }
}

/// Whether a roll of `e` can end in `v`: some totals that its dice can show
/// lead to `v`.
pub open spec fn rolls_to(e: Expr, v: Result<int, ErrorKind>) -> bool {
    exists|rolls: Seq<int>| #[trigger] roll_eval(e, rolls) == (v, Seq::<int>::empty(), true)
}

pub open spec fn pow10(n: nat) -> int
    decreases n,
{
    if n == 0 {
        1
    } else {
        10 * pow10((n - 1) as nat)
    }
}

pub open spec fn fits128(v: int) -> bool {
    i128::MIN <= v <= i128::MAX
}

/// The fraction `num / den` as an `i128` pair.
pub open spec fn frac(num: int, den: int) -> Result<(int, int), ErrorKind> {
    if fits128(num) && fits128(den) {
        Ok((num, den))
    } else {
        Err(ErrorKind::Overflow)
    }
}

pub open spec fn frac_add(x: (int, int), y: (int, int)) -> Result<(int, int), ErrorKind> {
    if fits128(x.0 * y.1) && fits128(y.0 * x.1) {
        frac(x.0 * y.1 + y.0 * x.1, x.1 * y.1)
    } else {
        Err(ErrorKind::Overflow)
    }
}

pub open spec fn frac_mul(x: (int, int), y: (int, int)) -> Result<(int, int), ErrorKind> {
    frac(x.0 * y.0, x.1 * y.1)
}

pub open spec fn frac_div(x: (int, int), y: (int, int)) -> Result<(int, int), ErrorKind> {
    if y.0 == 0 {
        Err(ErrorKind::DivisionByZero)
    } else if !fits128(x.0 * y.1) || !fits128(x.1 * y.0) {
        Err(ErrorKind::Overflow)
    } else if y.0 > 0 {
        Ok((x.0 * y.1, x.1 * y.0))
    } else {
        frac(-(x.0 * y.1), -(x.1 * y.0))
    }
}

/// The whole number that the fraction `x` stands for, if it is one.
pub open spec fn whole(x: (int, int)) -> Option<int> {
    if tdiv(x.0, x.1) * x.1 == x.0 {
        Some(tdiv(x.0, x.1))
    } else {
        None
    }
}

/// The value of `e` in the average mode, as a fraction with a positive
/// denominator.
pub open spec fn avg_value(e: Expr) -> Result<(int, int), ErrorKind>
    decreases e,
{
    match e {
        Expr::Num { mantissa, scale } => frac(mantissa as int, pow10(scale as nat)),
        Expr::Neg(a) => match avg_value(*a) {
            Err(k) => Err(k),
            Ok(x) => frac(-x.0, x.1),
        },
        Expr::Add(a, b) => match (avg_value(*a), avg_value(*b)) {
            (Err(k), _) => Err(k),
            (Ok(_), Err(k)) => Err(k),
            (Ok(x), Ok(y)) => frac_add(x, y),
        },
        Expr::Mul(a, b) => match (avg_value(*a), avg_value(*b)) {
            (Err(k), _) => Err(k),
            (Ok(_), Err(k)) => Err(k),
            (Ok(x), Ok(y)) => frac_mul(x, y),
        },
        Expr::Div(a, b) => match (avg_value(*a), avg_value(*b)) {
            (Err(k), _) => Err(k),
            (Ok(_), Err(k)) => Err(k),
            (Ok(x), Ok(y)) => frac_div(x, y),
        },
        Expr::Dice(a, b) => match (avg_value(*a), avg_value(*b)) {
            (Err(k), _) => Err(k),
            (Ok(_), Err(k)) => Err(k),
            (Ok(x), Ok(y)) => match (whole(x), whole(y)) {
                (Some(n), Some(s)) => match dice_fault(n, s) {
                    Some(k) => Err(k),
                    None => Ok((n * (1 + s), 2)),
                },
                _ => Err(ErrorKind::InvalidNumber),
            },
        },
    }
}

pub proof fn lemma_pow10_positive(n: nat)
    ensures
        pow10(n) >= 1,
    decreases n,
{
    if n > 0 {
        lemma_pow10_positive((n - 1) as nat);
    }
}

pub proof fn lemma_pow10_grows(a: nat, b: nat)
    requires
        a <= b,
    ensures
        pow10(a) <= pow10(b),
    decreases b,
{
    if b > a {
        lemma_pow10_grows(a, (b - 1) as nat);
        lemma_pow10_positive((b - 1) as nat);
    }
}

} // verus!
