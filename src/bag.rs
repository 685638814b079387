//! The dice bag: a random source and the evaluation of expressions in each
//! mode.
use vstd::prelude::*;
use rand::rngs::StdRng;
use rand::{Rng, RngCore, SeedableRng};
use crate::error::{ErrorKind, SyntaxError};
use crate::semantics::{
    avg_value, bounds, bounds_binary, corners, dice_fault, dice_free, fit, fits128, int_binary, max4, min4, tdiv, lemma_pow10_grows, lemma_pow10_positive,
    faces_in, pow10, roll_eval, seq_sum, rolls_to, whole,
};
use crate::syntax::{fail, parse, parse_all, Expr};
use crate::laws::{average_within_bounds, division_free, roll_within_text_bounds};
use crate::text::{canonical, chars_of, dot_reported, has_dot, normalize};

verus! {

#[verifier::external_type_specification]
#[verifier::external_body]
pub struct ExStdRng(StdRng);

/// Relies on `rand::Rng::gen_range` over `1..=sides`: a value in that range.
/// It panics only on an empty range, which `sides >= 1` rules out.
#[verifier::external_body]
fn draw(rng: &mut StdRng, sides: u32) -> (r: u32)
    requires
        sides >= 1,
    ensures
        1 <= r <= sides,
{
    rng.gen_range(1..=sides)
}

/// The eight bytes of `n`, least significant first.
pub open spec fn le_bytes(n: u64) -> Seq<u8> {
    seq![
        (n % 0x100) as u8,
        (n / 0x100 % 0x100) as u8,
        (n / 0x10000 % 0x100) as u8,
        (n / 0x1000000 % 0x100) as u8,
        (n / 0x100000000 % 0x100) as u8,
        (n / 0x10000000000 % 0x100) as u8,
        (n / 0x1000000000000 % 0x100) as u8,
        (n / 0x100000000000000 % 0x100) as u8,
    ]
}

/// The eight bytes of `n`, most significant first.
pub open spec fn be_bytes(n: u64) -> Seq<u8> {
    Seq::new(8, |i: int| le_bytes(n)[7 - i])
}

/// Eight bytes repeated to fill a 32-byte seed.
pub open spec fn spread(b: Seq<u8>) -> Seq<u8> {
    Seq::new(32, |i: int| b[i % 8])
}

/// The generator made from 32 seed bytes, drawn from once for 32 fresh
/// seed bytes, and made anew from those.
pub uninterp spec fn reseeded(seed: Seq<u8>) -> StdRng;

/// Relies on `bytemuck::cast`: the eight bytes of a `u64` as it lies in
/// memory, in the machine's byte order.
#[verifier::external_body]
fn seed_bytes(seed: u64) -> (r: Vec<u8>)
    ensures
        r@ == le_bytes(seed) || r@ == be_bytes(seed),
{
    let b: [u8; 8] = bytemuck::cast(seed);
    b.to_vec()
}

/// Relies on `rand::SeedableRng::from_seed` and `rand::RngCore::fill_bytes`
/// for `StdRng`: a generator seeded with `seed` fills 32 bytes, which seed
/// the result. Both are deterministic, so the result depends on `seed` alone.
#[verifier::external_body]
fn reseeded_rng(seed: &Vec<u8>) -> (r: StdRng)
    requires
        seed@.len() == 32,
    ensures
        r == reseeded(seed@),
{
    let mut first = [0u8; 32];
    first.copy_from_slice(seed.as_slice());
    let mut seeder = StdRng::from_seed(first);
    let mut second = [0u8; 32];
    seeder.fill_bytes(&mut second);
    StdRng::from_seed(second)
}

/// The generator that `simple_rng` makes from `seed`, in either byte order.
pub open spec fn seeded_from(seed: u64, r: StdRng) -> bool {
    r == reseeded(spread(le_bytes(seed))) || r == reseeded(spread(be_bytes(seed)))
}

/// Relies on `std::time::SystemTime::now`: the milliseconds since the Unix
/// epoch, or 0 for a clock set before it.
#[verifier::external_body]
fn clock_millis() -> u64 {
    match std::time::SystemTime::now().duration_since(std::time::UNIX_EPOCH) {
        Ok(d) => d.as_millis() as u64,
        Err(_) => 0,
    }
}

/// Creates a random number generator from a 64-bit seed: the seed's eight
/// bytes, repeated to 32, seed a generator whose first 32 bytes seed the
/// result.
pub fn simple_rng(seed: u64) -> (r: StdRng)
    ensures
        seeded_from(seed, r),
{
    let sub = seed_bytes(seed);
    let mut first: Vec<u8> = Vec::new();
    let mut i: usize = 0;
    while i < 32
        invariant
            i <= 32,
            first@.len() == i,
            sub@.len() == 8,
            forall|j: int| 0 <= j < i ==> first@[j] == sub@[j % 8],
        decreases 32 - i,
    {
        first.push(sub[i % 8]);
        i = i + 1;
    }
    assert(first@ =~= spread(sub@));
    reseeded_rng(&first)
}

/// Creates a random number generator seeded from the system clock.
pub fn new_simple_rng() -> (r: StdRng)
    ensures
        exists|seed: u64| seeded_from(seed, r),
{
    let seed = clock_millis();
    let r = simple_rng(seed);
    assert(seeded_from(seed, r));
    r
}

/// An exact fraction `numerator / denominator`, not reduced to lowest
/// terms: compare two by cross-multiplying rather than with `==`.
#[derive(Clone, Copy, Debug, PartialEq, Eq, Structural)]
pub struct Fraction {
    pub numerator: i128,
    pub denominator: i128,
}

/// The result of evaluating an expression: one roll, and the minimum,
/// maximum and average results.
#[derive(Clone, Copy, Debug, PartialEq, Eq, Structural)]
pub struct DiceRoll {
    /// The amount rolled.
    pub total: i64,
    /// Minimum possible result.
    pub min: i64,
    /// Maximum possible result.
    pub max: i64,
    /// Average result.
    pub average: Fraction,
}

/// The expression tree of `s`, read with or without decimals.
pub open spec fn read_spec(s: Seq<char>, allow_decimal: bool) -> Result<Expr, ErrorKind> {
    if !allow_decimal && has_dot(s) {
        Err(ErrorKind::DecimalNotAllowed)
    } else {
        parse_all(canonical(s))
    }
}

/// The minimum (`maximum == false`) or the maximum of `s`: the least or the
/// greatest total that a roll of it can come to.
pub open spec fn bound_of(s: Seq<char>, maximum: bool) -> Result<int, ErrorKind> {
    match read_spec(s, false) {
        Err(k) => Err(k),
        Ok(e) => match bounds(e) {
            Err(k) => Err(k),
            Ok((lo, hi)) => Ok(if maximum { hi } else { lo }),
        },
    }
}

/// Whether a roll of `s` can end in `v`.
pub open spec fn rolls_of(s: Seq<char>, v: Result<int, ErrorKind>) -> bool {
    match read_spec(s, false) {
        Err(k) => v == Err::<int, ErrorKind>(k),
        Ok(e) => rolls_to(e, v),
    }
}

/// A roll of `s` in which the dice show exactly `draws`, one by one: its
/// result, and whether every draw is a face of its die and all are used.
pub open spec fn roll_of(s: Seq<char>, draws: Seq<int>) -> (Result<int, ErrorKind>, bool) {
    match read_spec(s, false) {
        Err(k) => (Err(k), draws.len() == 0),
        Ok(e) => {
            let (v, rest, ok) = roll_eval(e, draws);
            (v, ok && rest.len() == 0)
        },
    }
}

/// The draws logged after the log `before`.
pub open spec fn new_draws(before: Seq<int>, after: Seq<int>) -> Seq<int> {
    after.skip(before.len() as int)
}

/// The average of `s`, as a fraction.
pub open spec fn average_of(s: Seq<char>) -> Result<(int, int), ErrorKind> {
    match read_spec(s, true) {
        Err(k) => Err(k),
        Ok(e) => avg_value(e),
    }
}

pub open spec fn outcome(r: Result<i64, SyntaxError>) -> Result<int, ErrorKind> {
    match r {
        Ok(v) => Ok(v as int),
        Err(e) => Err(e.kind),
    }
}

pub open spec fn pair_outcome(r: Result<(i128, i128), SyntaxError>) -> Result<(int, int), ErrorKind> {
    match r {
        Ok((n, d)) => Ok((n as int, d as int)),
        Err(e) => Err(e.kind),
    }
}

pub open spec fn frac_outcome(r: Result<Fraction, SyntaxError>) -> Result<(int, int), ErrorKind> {
    match r {
        Ok(f) => Ok((f.numerator as int, f.denominator as int)),
        Err(e) => Err(e.kind),
    }
}

fn overflow<T>() -> (r: Result<T, SyntaxError>)
    ensures
        r is Err && r->Err_0.kind == ErrorKind::Overflow,
{
    Err(fail(ErrorKind::Overflow))
}

/// The whole number that `n / d` stands for, if it is one.
fn whole_exec(n: i128, d: i128) -> (r: Option<i128>)
    requires
        d > 0,
    ensures
        match r {
            Some(q) => whole((n as int, d as int)) == Some(q as int),
            None => whole((n as int, d as int)) is None,
        },
{
    match n.checked_div(d) {
        None => None,
        Some(q) => match q.checked_mul(d) {
            None => None,
            Some(m) => if m == n {
                Some(q)
            } else {
                None
            },
        },
    }
}

/// Evaluates a tree in the average mode, as a fraction with a positive
/// denominator.
fn eval_avg(e: &Expr) -> (r: Result<(i128, i128), SyntaxError>)
    ensures
        pair_outcome(r) == avg_value(*e),
        r is Ok ==> r->Ok_0.1 > 0,
    decreases e,
{
    match e {
        Expr::Num { mantissa, scale } => {
            let mut p: i128 = 1;
            let mut k: u32 = 0;
            while k < *scale
                invariant
                    *e == (Expr::Num { mantissa: *mantissa, scale: *scale }),
                    k <= *scale,
                    p as int == pow10(k as nat),
                decreases *scale - k,
            {
                match p.checked_mul(10) {
                    None => {
                        proof {
                            lemma_pow10_grows((k + 1) as nat, *scale as nat);
                            lemma_pow10_positive(k as nat);
                            assert(pow10((k + 1) as nat) == 10 * pow10(k as nat));
                            assert(!fits128(pow10(*scale as nat)));
                        }
                        return overflow();
                    },
                    Some(q) => p = q,
                }
                k = k + 1;
            }
            proof {
                lemma_pow10_positive(*scale as nat);
            }
            Ok((*mantissa as i128, p))
        },
        Expr::Neg(a) => {
            let (n, d) = match eval_avg(a) {
                Err(err) => return Err(err),
                Ok(x) => x,
            };
            match n.checked_mul(-1) {
                None => overflow(),
                Some(m) => Ok((m, d)),
            }
        },
        Expr::Add(a, b) | Expr::Mul(a, b) | Expr::Div(a, b) | Expr::Dice(a, b) => {
            let (n1, d1) = match eval_avg(a) {
                Err(err) => return Err(err),
                Ok(x) => x,
            };
            let (n2, d2) = match eval_avg(b) {
                Err(err) => return Err(err),
                Ok(x) => x,
            };
            match e {
                Expr::Add(_, _) => {
                    let p = match n1.checked_mul(d2) {
                        None => return overflow(),
                        Some(v) => v,
                    };
                    let q = match n2.checked_mul(d1) {
                        None => return overflow(),
                        Some(v) => v,
                    };
                    let num = match p.checked_add(q) {
                        None => return overflow(),
                        Some(v) => v,
                    };
                    assert(d1 as int * d2 as int > 0) by (nonlinear_arith)
                        requires
                            d1 > 0,
                            d2 > 0,
                    ;
                    match d1.checked_mul(d2) {
                        None => overflow(),
                        Some(den) => Ok((num, den)),
                    }
                },
                Expr::Mul(_, _) => {
                    let num = match n1.checked_mul(n2) {
                        None => return overflow(),
                        Some(v) => v,
                    };
                    assert(d1 as int * d2 as int > 0) by (nonlinear_arith)
                        requires
                            d1 > 0,
                            d2 > 0,
                    ;
                    match d1.checked_mul(d2) {
                        None => overflow(),
                        Some(den) => Ok((num, den)),
                    }
                },
                Expr::Div(_, _) => {
                    if n2 == 0 {
                        return Err(fail(ErrorKind::DivisionByZero));
                    }
                    let num = match n1.checked_mul(d2) {
                        None => return overflow(),
                        Some(v) => v,
                    };
                    let den = match d1.checked_mul(n2) {
                        None => return overflow(),
                        Some(v) => v,
                    };
                    if n2 > 0 {
                        assert(d1 as int * n2 as int > 0) by (nonlinear_arith)
                            requires
                                d1 > 0,
                                n2 > 0,
                        ;
                        Ok((num, den))
                    } else {
                        assert((d1 as int) * (n2 as int) < 0) by (nonlinear_arith)
                            requires
                                d1 > 0,
                                n2 < 0,
                        ;
                        match (num.checked_mul(-1), den.checked_mul(-1)) {
                            (Some(x), Some(y)) => Ok((x, y)),
                            _ => overflow(),
                        }
                    }
                },
                _ => {
                    let (n, s) = match (whole_exec(n1, d1), whole_exec(n2, d2)) {
                        (Some(n), Some(s)) => (n, s),
                        _ => return Err(fail(ErrorKind::InvalidNumber)),
                    };
                    if n < 0 || n > 4294967295 || s < 1 || s > 4294967295 {
                        return Err(fail(ErrorKind::InvalidNumber));
                    }
                    assert(0 <= n as int * s as int <= 4294967295 * 4294967295) by (nonlinear_arith)
                        requires
                            0 <= n <= 4294967295,
                            1 <= s <= 4294967295,
                    ;
                    assert(0 <= n as int * (1 + s as int) <= 4294967295 * 4294967296) by (nonlinear_arith)
                        requires
                            0 <= n <= 4294967295,
                            1 <= s <= 4294967295,
                    ;
                    if n * s > 9223372036854775807 {
                        return overflow();
                    }
                    Ok((n * (1 + s), 2))
                },
            }
        },
    }
}

pub open spec fn range_outcome(r: Result<(i64, i64), SyntaxError>) -> Result<(int, int), ErrorKind> {
    match r {
        Ok((lo, hi)) => Ok((lo as int, hi as int)),
        Err(e) => Err(e.kind),
    }
}

fn corners_exec(a: Option<i64>, b: Option<i64>, c: Option<i64>, d: Option<i64>) -> (r: Result<(i64, i64), SyntaxError>)
    ensures
        (a is Some && b is Some && c is Some && d is Some) ==> range_outcome(r) == Ok::<(int, int), ErrorKind>((
            min4(a->Some_0 as int, b->Some_0 as int, c->Some_0 as int, d->Some_0 as int),
            max4(a->Some_0 as int, b->Some_0 as int, c->Some_0 as int, d->Some_0 as int),
        )),
        !(a is Some && b is Some && c is Some && d is Some) ==> range_outcome(r) == Err::<(int, int), ErrorKind>(
            ErrorKind::Overflow,
        ),
        r is Ok ==> r->Ok_0.0 <= r->Ok_0.1,
{
    match (a, b, c, d) {
        (Some(a), Some(b), Some(c), Some(d)) => {
            let p = if a <= b { a } else { b };
            let q = if c <= d { c } else { d };
            let lo = if p <= q { p } else { q };
            let p = if a >= b { a } else { b };
            let q = if c >= d { c } else { d };
            let hi = if p >= q { p } else { q };
            Ok((lo, hi))
        },
        _ => overflow(),
    }
}

/// The range of a binary node from the ranges of its operands.
fn combine_bounds(e: &Expr, l1: i64, h1: i64, l2: i64, h2: i64) -> (r: Result<(i64, i64), SyntaxError>)
    requires
        !(e is Num || e is Neg),
        l1 <= h1,
        l2 <= h2,
    ensures
        range_outcome(r) == bounds_binary(*e, l1 as int, h1 as int, l2 as int, h2 as int),
        r is Ok ==> r->Ok_0.0 <= r->Ok_0.1,
{
    match e {
        Expr::Add(_, _) => match (l1.checked_add(l2), h1.checked_add(h2)) {
            (Some(x), Some(y)) => Ok((x, y)),
            _ => overflow(),
        },
        Expr::Mul(_, _) => corners_exec(
            l1.checked_mul(l2),
            l1.checked_mul(h2),
            h1.checked_mul(l2),
            h1.checked_mul(h2),
        ),
        Expr::Div(_, _) => {
            if l2 <= 0 && 0 <= h2 {
                return Err(fail(ErrorKind::DivisionByZero));
            }
            corners_exec(l1.checked_div(l2), l1.checked_div(h2), h1.checked_div(l2), h1.checked_div(h2))
        },
        _ => {
            if l1 < 0 || h1 > 4294967295 || l2 < 1 || h2 > 4294967295 {
                return Err(fail(ErrorKind::InvalidNumber));
            }
            assert(l1 <= h1 as int * h2 as int <= 4294967295 * 4294967295) by (nonlinear_arith)
                requires
                    0 <= l1 <= h1 <= 4294967295,
                    1 <= h2 <= 4294967295,
            ;
            let top: i128 = h1 as i128 * h2 as i128;
            if top > 9223372036854775807i128 {
                return overflow();
            }
            Ok((l1, top as i64))
        },
    }
}

/// The minimum and the maximum of a tree.
fn eval_bounds(e: &Expr) -> (r: Result<(i64, i64), SyntaxError>)
    ensures
        range_outcome(r) == bounds(*e),
        r is Ok ==> r->Ok_0.0 <= r->Ok_0.1,
    decreases e,
{
    match e {
        Expr::Num { mantissa, scale } => {
            if *scale != 0 {
                Err(fail(ErrorKind::InvalidNumber))
            } else if *mantissa > 9223372036854775807u64 {
                overflow()
            } else {
                Ok((*mantissa as i64, *mantissa as i64))
            }
        },
        Expr::Neg(a) => {
            let (lo, hi) = match eval_bounds(a) {
                Err(err) => return Err(err),
                Ok(x) => x,
            };
            match (hi.checked_mul(-1), lo.checked_mul(-1)) {
                (Some(x), Some(y)) => Ok((x, y)),
                _ => overflow(),
            }
        },
        Expr::Add(a, b) | Expr::Mul(a, b) | Expr::Div(a, b) | Expr::Dice(a, b) => {
            let (l1, h1) = match eval_bounds(a) {
                Err(err) => return Err(err),
                Ok(x) => x,
            };
            let (l2, h2) = match eval_bounds(b) {
                Err(err) => return Err(err),
                Ok(x) => x,
            };
            combine_bounds(e, l1, h1, l2, h2)
        },
    }
}

/// Reads an expression into its tree.
fn read(s: &str, allow_decimal: bool) -> (r: Result<Expr, SyntaxError>)
    ensures
        match r {
            Ok(e) => read_spec(s@, allow_decimal) == Ok::<Expr, ErrorKind>(e),
            Err(err) => read_spec(s@, allow_decimal) == Err::<Expr, ErrorKind>(err.kind),
        },
        !allow_decimal && has_dot(s@) ==> r is Err && dot_reported(s@, r->Err_0),
{
    let cs = chars_of(s);
    let t = match normalize(&cs, allow_decimal) {
        Err(err) => return Err(err),
        Ok(t) => t,
    };
    parse(&t)
}


/// Evaluates RPG dice notation expressions such as `2d6+3`.
pub struct DiceBag {
    rng: StdRng,
    /// Every die drawn so far, in order.
    drawn: Ghost<Seq<int>>,
}

impl DiceBag {
    /// The random source that dice are drawn from.
    pub closed spec fn source(&self) -> StdRng {
        self.rng
    }

    /// Every die drawn from this bag so far, in order.
    pub closed spec fn drawn(&self) -> Seq<int> {
        self.drawn@
    }

    /// A dice bag that draws from `rng`.
    pub fn new(rng: StdRng) -> (r: DiceBag)
        ensures
            r.source() == rng,
            r.drawn() == Seq::<int>::empty(),
    {
        DiceBag { rng, drawn: Ghost(Seq::empty()) }
    }

    /// Rolls `n` dice of `d` sides and adds `m` to their sum: `n` draws in
    /// `1..=d`, logged in order.
    pub fn roll(&mut self, n: u32, d: u32, m: i64) -> (r: i64)
        requires
            n == 0 || d >= 1,
            n * d + m <= i64::MAX,
        ensures
            final(self).drawn().len() == old(self).drawn().len() + n,
            final(self).drawn().take(old(self).drawn().len() as int) == old(self).drawn(),
            faces_in(final(self).drawn().skip(old(self).drawn().len() as int), d as int),
            r == m + seq_sum(final(self).drawn().skip(old(self).drawn().len() as int)),
            n + m <= r <= n * d + m,
            n == 0 ==> *final(self) == *old(self),
    {
        let ghost start = self.drawn@;
        let mut total: i128 = 0;
        let mut i: u32 = 0;
        while i < n
            invariant
                i <= n,
                n == 0 || d >= 1,
                n * d + m <= i64::MAX,
                i <= total <= i * d,
                self.drawn@.len() == start.len() + i,
                self.drawn@.take(start.len() as int) == start,
                forall|j: int| start.len() <= j < self.drawn@.len() ==> 1 <= #[trigger] self.drawn@[j] <= d,
                total == seq_sum(self.drawn@.skip(start.len() as int)),
                i == 0 ==> *self == *old(self),
                start == old(self).drawn@,
            decreases n - i,
        {
            let x = draw(&mut self.rng, d);
            proof {
                assert((i + 1) * d == i * d + d) by (nonlinear_arith);
                assert((i + 1) * d <= n * d) by (nonlinear_arith)
                    requires
                        i + 1 <= n,
                        d >= 0,
                ;
                assert(0 <= n * d) by (nonlinear_arith);
                let old_log = self.drawn@;
                assert(old_log.push(x as int).skip(start.len() as int).drop_last() =~= old_log.skip(
                    start.len() as int,
                ));
                assert(old_log.push(x as int).take(start.len() as int) =~= old_log.take(start.len() as int));
            }
            self.drawn = Ghost(self.drawn@.push(x as int));
            total = total + x as i128;
            i = i + 1;
        }
        proof {
            assert(0 <= n * d) by (nonlinear_arith);
        }
        proof {
            let ds = self.drawn@.skip(start.len() as int);
            assert forall|i: int| 0 <= i < ds.len() implies 1 <= #[trigger] ds[i] <= d by {
                assert(ds[i] == self.drawn@[start.len() + i]);
            }
        }
        (total + m as i128) as i64
    }

    fn eval_bound(&mut self, s: &str, maximum: bool) -> (r: Result<i64, SyntaxError>)
        ensures
            outcome(r) == bound_of(s@, maximum),
            has_dot(s@) ==> r is Err && dot_reported(s@, r->Err_0),
            *final(self) == *old(self),
    {
        let e = match read(s, false) {
            Err(err) => return Err(err),
            Ok(e) => e,
        };
        match eval_bounds(&e) {
            Err(err) => Err(err),
            Ok((lo, hi)) => Ok(if maximum { hi } else { lo }),
        }
    }

    /// Evaluates `dice_expression` and returns the total of one roll: each
    /// dice term `NdS` is the sum of N fresh draws from this bag, in `1..=S`,
    /// and the new draws are appended to the bag's log.
    pub fn eval_total(&mut self, dice_expression: &str) -> (r: Result<i64, SyntaxError>)
        ensures
            final(self).drawn().take(old(self).drawn().len() as int) == old(self).drawn(),
            roll_of(dice_expression@, new_draws(old(self).drawn(), final(self).drawn())) == (outcome(r), true),
            rolls_of(dice_expression@, outcome(r)),
            has_dot(dice_expression@) ==> r is Err && dot_reported(dice_expression@, r->Err_0),
            read_spec(dice_expression@, false) is Err ==> *final(self) == *old(self),
            read_spec(dice_expression@, false) is Ok && dice_free(read_spec(dice_expression@, false)->Ok_0)
                ==> *final(self) == *old(self),
    {
        let e = match read(dice_expression, false) {
            Err(err) => {
                assert(self.drawn().skip(self.drawn().len() as int) =~= Seq::<int>::empty());
                assert(self.drawn().take(self.drawn().len() as int) =~= self.drawn());
                return Err(err);
            },
            Ok(e) => e,
        };
        let (r, tr) = self.eval_int(&e);
        proof {
            assert(self.drawn().skip(old(self).drawn().len() as int) =~= tr@);
            assert(self.drawn().take(old(self).drawn().len() as int) =~= old(self).drawn());
            assert(tr@ + Seq::<int>::empty() =~= tr@);
            assert(roll_eval(e, tr@ + Seq::<int>::empty()) == (outcome(r), Seq::<int>::empty(), true));
        }
        r
    }

    /// Evaluates `dice_expression` and returns its minimum: the least total
    /// that any roll of it can come to (see `bounds`).
    pub fn eval_min(&mut self, dice_expression: &str) -> (r: Result<i64, SyntaxError>)
        ensures
            outcome(r) == bound_of(dice_expression@, false),
            has_dot(dice_expression@) ==> r is Err && dot_reported(dice_expression@, r->Err_0),
            *final(self) == *old(self),
    {
        self.eval_bound(dice_expression, false)
    }

    /// Evaluates `dice_expression` and returns its maximum: the greatest
    /// total that any roll of it can come to (see `bounds`).
    pub fn eval_max(&mut self, dice_expression: &str) -> (r: Result<i64, SyntaxError>)
        ensures
            outcome(r) == bound_of(dice_expression@, true),
            has_dot(dice_expression@) ==> r is Err && dot_reported(dice_expression@, r->Err_0),
            *final(self) == *old(self),
    {
        self.eval_bound(dice_expression, true)
    }

    /// Evaluates `dice_expression` and returns its exact average.
    pub fn eval_ave(&mut self, dice_expression: &str) -> (r: Result<Fraction, SyntaxError>)
        ensures
            frac_outcome(r) == average_of(dice_expression@),
            r is Ok ==> r->Ok_0.denominator > 0,
            *final(self) == *old(self),
    {
        let e = match read(dice_expression, true) {
            Err(err) => return Err(err),
            Ok(e) => e,
        };
        match eval_avg(&e) {
            Err(err) => Err(err),
            Ok((n, d)) => Ok(Fraction { numerator: n, denominator: d }),
        }
    }

    /// Evaluates `dice_expression` in all four modes: a roll, then the
    /// minimum, the maximum and the average. The first error ends it.
    pub fn eval(&mut self, dice_expression: &str) -> (r: Result<DiceRoll, SyntaxError>)
        ensures
            final(self).drawn().take(old(self).drawn().len() as int) == old(self).drawn(),
            roll_of(dice_expression@, new_draws(old(self).drawn(), final(self).drawn())).1,
            r is Ok ==> {
                let d = r->Ok_0;
                &&& roll_of(dice_expression@, new_draws(old(self).drawn(), final(self).drawn())).0 == Ok::<
                    int,
                    ErrorKind,
                >(d.total as int)
                &&& rolls_of(dice_expression@, Ok(d.total as int))
                &&& bound_of(dice_expression@, false) == Ok::<int, ErrorKind>(d.min as int)
                &&& bound_of(dice_expression@, true) == Ok::<int, ErrorKind>(d.max as int)
                &&& average_of(dice_expression@) == Ok::<(int, int), ErrorKind>(
                    (d.average.numerator as int, d.average.denominator as int),
                )
                &&& d.average.denominator > 0
                &&& d.min <= d.total <= d.max
                &&& forall|v: int| #[trigger] rolls_of(dice_expression@, Ok(v)) ==> d.min <= v <= d.max
                &&& division_free(read_spec(dice_expression@, false)->Ok_0) ==> d.min * d.average.denominator
                    <= d.average.numerator <= d.max * d.average.denominator
            },
            r is Err ==> {
                let k = r->Err_0.kind;
                let t = roll_of(dice_expression@, new_draws(old(self).drawn(), final(self).drawn())).0;
                ||| t == Err::<int, ErrorKind>(k)
                ||| t is Ok && bound_of(dice_expression@, false) == Err::<int, ErrorKind>(k)
                ||| t is Ok && bound_of(dice_expression@, false) is Ok && bound_of(dice_expression@, true)
                    == Err::<int, ErrorKind>(k)
                ||| t is Ok && bound_of(dice_expression@, false) is Ok && bound_of(dice_expression@, true) is Ok
                    && average_of(dice_expression@) == Err::<(int, int), ErrorKind>(k)
            },
            roll_of(dice_expression@, new_draws(old(self).drawn(), final(self).drawn())).0 is Ok && bound_of(
                dice_expression@,
                false,
            ) is Ok && bound_of(dice_expression@, true) is Ok && average_of(dice_expression@) is Ok ==> r is Ok,
    {
        let total = match self.eval_total(dice_expression) {
            Err(err) => return Err(err),
            Ok(v) => v,
        };
        let min = match self.eval_min(dice_expression) {
            Err(err) => return Err(err),
            Ok(v) => v,
        };
        let max = match self.eval_max(dice_expression) {
            Err(err) => return Err(err),
            Ok(v) => v,
        };
        let average = match self.eval_ave(dice_expression) {
            Err(err) => return Err(err),
            Ok(v) => v,
        };
        proof {
            assert forall|v: int| #[trigger] rolls_of(dice_expression@, Ok(v)) implies min <= v <= max by {
                roll_within_text_bounds(dice_expression@, v);
            }
            roll_within_text_bounds(dice_expression@, total as int);
            let e = read_spec(dice_expression@, false)->Ok_0;
            assert(read_spec(dice_expression@, true) == read_spec(dice_expression@, false));
            if division_free(e) {
                average_within_bounds(e);
            }
        }
        Ok(DiceRoll { total, min, max, average })
    }

    /// Rolls a tree; the second result holds the totals that its dice came
    /// to, in the order they were thrown.
    fn eval_int(&mut self, e: &Expr) -> (res: (Result<i64, SyntaxError>, Ghost<Seq<int>>))
        ensures
            forall|tail: Seq<int>| #[trigger] roll_eval(*e, res.1@ + tail) == (outcome(res.0), tail, true),
            final(self).drawn() == old(self).drawn() + res.1@,
            dice_free(*e) ==> *final(self) == *old(self),
        decreases e,
    {
        match e {
            Expr::Num { mantissa, scale } => {
                let r = if *scale != 0 {
                    Err(fail(ErrorKind::InvalidNumber))
                } else if *mantissa > 9223372036854775807u64 {
                    Err(fail(ErrorKind::Overflow))
                } else {
                    Ok(*mantissa as i64)
                };
                let ghost tr = Seq::<int>::empty();
                assert forall|tail: Seq<int>| #[trigger] roll_eval(*e, tr + tail) == (outcome(r), tail, true) by {
                    assert(tr + tail =~= tail);
                }
                assert(self.drawn() + tr =~= self.drawn());
                (r, Ghost(tr))
            },
            Expr::Neg(a) => {
                let (ra, ta) = self.eval_int(a);
                let ghost oa = outcome(ra);
                let r = match ra {
                    Err(err) => Err(err),
                    Ok(x) => match x.checked_mul(-1) {
                        None => Err(fail(ErrorKind::Overflow)),
                        Some(y) => Ok(y),
                    },
                };
                assert forall|tail: Seq<int>| true
                    implies #[trigger] roll_eval(*e, ta@ + tail) == (outcome(r), tail, true) by {
                    assert(roll_eval(**a, ta@ + tail) == (oa, tail, true));
                }
                (r, ta)
            },
            Expr::Add(a, b) | Expr::Mul(a, b) | Expr::Div(a, b) | Expr::Dice(a, b) => {
                let (ra, ta) = self.eval_int(a);
                let ghost oa = outcome(ra);
                let x = match ra {
                    Err(err) => {
                        let r = Err(err);
                        assert forall|tail: Seq<int>| true
                            implies #[trigger] roll_eval(*e, ta@ + tail) == (outcome(r), tail, true) by {
                            assert(roll_eval(**a, ta@ + tail) == (oa, tail, true));
                        }
                        return (r, ta);
                    },
                    Ok(x) => x,
                };
                let (rb, tb) = self.eval_int(b);
                let ghost ob = outcome(rb);
                let y = match rb {
                    Err(err) => {
                        let r = Err(err);
                        let ghost tr = ta@ + tb@;
                        assert(self.drawn() =~= old(self).drawn() + tr);
                        assert forall|tail: Seq<int>| true
                            implies #[trigger] roll_eval(*e, tr + tail) == (outcome(r), tail, true) by {
                            assert(tr + tail =~= ta@ + (tb@ + tail));
                            assert(roll_eval(**a, ta@ + (tb@ + tail)) == (oa, tb@ + tail, true));
                            assert(roll_eval(**b, tb@ + tail) == (ob, tail, true));
                        }
                        return (r, Ghost(tr));
                    },
                    Ok(y) => y,
                };
                let ghost before = self.drawn();
                let r = self.apply(e, x, y);
                let ghost extra = self.drawn().skip(before.len() as int);
                let ghost tr = ta@ + tb@ + extra;
                assert(self.drawn() =~= old(self).drawn() + tr);
                assert forall|tail: Seq<int>| true
                    implies #[trigger] roll_eval(*e, tr + tail) == (outcome(r), tail, true) by {
                    assert(tr + tail =~= ta@ + (tb@ + (extra + tail)));
                    assert(roll_eval(**a, ta@ + (tb@ + (extra + tail))) == (oa, tb@ + (extra + tail), true));
                    assert(roll_eval(**b, tb@ + (extra + tail)) == (ob, extra + tail, true));
                    if e is Dice && r is Ok {
                        assert((extra + tail).take(x as int) =~= extra);
                        assert((extra + tail).skip(x as int) =~= tail);
                    } else {
                        assert(extra + tail =~= tail);
                    }
                }
                (r, Ghost(tr))
            },
        }
    }

    /// The binary operator of `e` applied to rolled operands.
    fn apply(&mut self, e: &Expr, x: i64, y: i64) -> (r: Result<i64, SyntaxError>)
        requires
            !(e is Num || e is Neg),
        ensures
            !(e is Dice) ==> outcome(r) == int_binary(*e, x as int, y as int) && *final(self) == *old(self),
            e is Dice ==> match dice_fault(x as int, y as int) {
                Some(k) => outcome(r) == Err::<int, ErrorKind>(k),
                None => r is Ok && x <= r->Ok_0 <= x * y,
            },
            !(e is Dice && r is Ok) ==> *final(self) == *old(self),
            e is Dice && r is Ok ==> {
                let ds = final(self).drawn().skip(old(self).drawn().len() as int);
                &&& final(self).drawn() == old(self).drawn() + ds
                &&& ds.len() == x
                &&& faces_in(ds, y as int)
                &&& r->Ok_0 == seq_sum(ds)
            },
    {
        match e {
            Expr::Add(_, _) => match x.checked_add(y) {
                None => Err(fail(ErrorKind::Overflow)),
                Some(v) => Ok(v),
            },
            Expr::Mul(_, _) => match x.checked_mul(y) {
                None => Err(fail(ErrorKind::Overflow)),
                Some(v) => Ok(v),
            },
            Expr::Div(_, _) => {
                if y == 0 {
                    Err(fail(ErrorKind::DivisionByZero))
                } else {
                    match x.checked_div(y) {
                        None => Err(fail(ErrorKind::Overflow)),
                        Some(v) => Ok(v),
                    }
                }
            },
            _ => {
                if x < 0 || x > 4294967295 || y < 1 || y > 4294967295 {
                    return Err(fail(ErrorKind::InvalidNumber));
                }
                assert(0 <= x as int * y as int <= 4294967295 * 4294967295) by (nonlinear_arith)
                    requires
                        0 <= x <= 4294967295,
                        0 <= y <= 4294967295,
                ;
                let ns: i128 = x as i128 * y as i128;
                if ns > 9223372036854775807i128 {
                    return Err(fail(ErrorKind::Overflow));
                }
                let v = self.roll(x as u32, y as u32, 0);
                assert(self.drawn() =~= old(self).drawn() + self.drawn().skip(old(self).drawn().len() as int));
                Ok(v)
            },
        }
    }
}

} // verus!
