//! Properties of evaluation that hold for every expression.
use vstd::prelude::*;
use crate::bag::{average_of, bound_of, read_spec, rolls_of};
use crate::error::ErrorKind;
use crate::semantics::{
    avg_value, bounds, dice_fault, faces_in, pow10, seq_sum, dice_free, max4, min4, plain_value, roll_eval, rolls_to, tdiv, whole,
};
use vstd::arithmetic::div_mod::{lemma_div_is_ordered, lemma_div_is_ordered_by_denominator};
use crate::syntax::{parse_all, Expr};
use crate::text::{
    canonical, emit, ends_factor, first_nonspace, has_dot, is_space, last_nonspace, rewrite, with_lead,
};

verus! {

proof fn lemma_dice_free_roll(e: Expr, rolls: Seq<int>)
    requires
        dice_free(e),
    ensures
        roll_eval(e, rolls) == (plain_value(e), rolls, true),
        bounds(e) == match plain_value(e) {
            Err(k) => Err(k),
            Ok(v) => Ok::<(int, int), ErrorKind>((v, v)),
        },
    decreases e,
{
    match e {
        Expr::Num { .. } => {},
        Expr::Neg(a) => {
            lemma_dice_free_roll(*a, rolls);
        },
        Expr::Add(a, b) | Expr::Mul(a, b) | Expr::Div(a, b) => {
            lemma_dice_free_roll(*a, rolls);
            lemma_dice_free_roll(*b, rolls);
        },
        Expr::Dice(_, _) => {},
    }
}

/// An expression without dice rolls to exactly one value, its plain integer
/// value (`*` and `/` before `+`, left to right, division truncating toward
/// zero), which is also its minimum and its maximum.
pub proof fn dice_free_rolls_to_its_value(e: Expr, v: Result<int, ErrorKind>)
    requires
        dice_free(e),
    ensures
        rolls_to(e, v) <==> v == plain_value(e),
        bounds(e) == match plain_value(e) {
            Err(k) => Err(k),
            Ok(x) => Ok::<(int, int), ErrorKind>((x, x)),
        },
{
    lemma_dice_free_roll(e, Seq::<int>::empty());
    if rolls_to(e, v) {
        let rolls = choose|rolls: Seq<int>| #[trigger] roll_eval(e, rolls) == (v, Seq::<int>::empty(), true);
        lemma_dice_free_roll(e, rolls);
    }
}

/// The same, for an expression read from text: the total of a roll is the
/// minimum, which is the maximum.
pub proof fn dice_free_text_total(s: Seq<char>, v: Result<int, ErrorKind>)
    requires
        read_spec(s, false) is Ok,
        dice_free(read_spec(s, false)->Ok_0),
    ensures
        rolls_of(s, v) <==> v == bound_of(s, false),
        bound_of(s, false) == bound_of(s, true),
{
    dice_free_rolls_to_its_value(read_spec(s, false)->Ok_0, v);
}

/// For a dice term `NdS`: the minimum is N, the maximum N*S, the average
/// N*(1+S)/2 lies between them, and every roll lies between them too.
pub proof fn dice_term_bounds(n: u64, s: u64, v: Result<int, ErrorKind>)
    requires
        dice_fault(n as int, s as int) is None,
    ensures
        ({
            let e = Expr::Dice(
                Box::new(Expr::Num { mantissa: n, scale: 0 }),
                Box::new(Expr::Num { mantissa: s, scale: 0 }),
            );
            &&& bounds(e) == Ok::<(int, int), ErrorKind>((n as int, n * s))
            &&& avg_value(e) == Ok::<(int, int), ErrorKind>((n * (1 + s), 2))
            &&& n * 2 <= n * (1 + s) <= n * s * 2
            &&& rolls_to(e, v) ==> v is Ok && n <= v->Ok_0 <= n * s
        }),
{
    let e = Expr::Dice(
        Box::new(Expr::Num { mantissa: n, scale: 0 }),
        Box::new(Expr::Num { mantissa: s, scale: 0 }),
    );
    assert(n * 2 <= n * (1 + s) <= n * s * 2) by (nonlinear_arith)
        requires
            1 <= s,
    ;
    let a = Expr::Num { mantissa: n, scale: 0 };
    let b = Expr::Num { mantissa: s, scale: 0 };
    assert(plain_value(a) == Ok::<int, ErrorKind>(n as int));
    assert(plain_value(b) == Ok::<int, ErrorKind>(s as int));
    assert(avg_value(a) == Ok::<(int, int), ErrorKind>((n as int, 1)));
    assert(avg_value(b) == Ok::<(int, int), ErrorKind>((s as int, 1)));
    assert(bounds(a) == Ok::<(int, int), ErrorKind>((n as int, n as int)));
    assert(bounds(b) == Ok::<(int, int), ErrorKind>((s as int, s as int)));
    assert(bounds(e) == Ok::<(int, int), ErrorKind>((n as int, n * s)));
    assert(tdiv(n as int, 1) == n);
    assert(tdiv(s as int, 1) == s);
    assert(tdiv(n as int, 1) * 1 == n as int) by (nonlinear_arith)
        requires
            tdiv(n as int, 1) == n as int,
    ;
    assert(tdiv(s as int, 1) * 1 == s as int) by (nonlinear_arith)
        requires
            tdiv(s as int, 1) == s as int,
    ;
    assert(whole((n as int, 1)) == Some(n as int));
    assert(whole((s as int, 1)) == Some(s as int));
    assert(avg_value(e) == Ok::<(int, int), ErrorKind>((n * (1 + s), 2)));
    if rolls_to(e, v) {
        let rolls = choose|rolls: Seq<int>| #[trigger] roll_eval(e, rolls) == (v, Seq::<int>::empty(), true);
        assert(roll_eval(a, rolls) == (Ok::<int, ErrorKind>(n as int), rolls, true));
        assert(roll_eval(b, rolls) == (Ok::<int, ErrorKind>(s as int), rolls, true));
        assert(roll_eval(e, rolls) == (v, Seq::<int>::empty(), true));
        lemma_sum_faces(rolls.take(n as int), s as int);
    }
}

/// A sum of dice faces lies between the number of dice and that number times
/// the sides.
pub proof fn lemma_sum_faces(ds: Seq<int>, sides: int)
    requires
        faces_in(ds, sides),
    ensures
        ds.len() <= seq_sum(ds) <= ds.len() * sides,
    decreases ds.len(),
{
    if ds.len() > 0 {
        let init = ds.drop_last();
        assert(faces_in(init, sides)) by {
            assert forall|i: int| 0 <= i < init.len() implies 1 <= #[trigger] init[i] <= sides by {
                assert(init[i] == ds[i]);
            }
        }
        lemma_sum_faces(init, sides);
        assert(1 <= ds[ds.len() - 1] <= sides);
        assert(ds.last() == ds[ds.len() - 1]);
        assert(seq_sum(ds) == seq_sum(init) + ds.last());
        let a = seq_sum(init);
        let b = ds.last();
        let m = init.len() as int;
        assert(m + 1 <= a + b <= (m + 1) * sides) by (nonlinear_arith)
            requires
                m <= a <= m * sides,
                1 <= b <= sides,
        ;
    } else {
        assert(0 * sides == 0);
    }
}

pub open spec fn between(v: int, a: int, b: int) -> bool {
    (a <= v <= b) || (b <= v <= a)
}

proof fn lemma_mul_between(x: int, l: int, h: int, y: int)
    requires
        l <= x <= h,
    ensures
        between(x * y, l * y, h * y),
{
    if y >= 0 {
        assert(l * y <= x * y <= h * y) by (nonlinear_arith)
            requires
                l <= x <= h,
                y >= 0,
        ;
    } else {
        assert(h * y <= x * y <= l * y) by (nonlinear_arith)
            requires
                l <= x <= h,
                y < 0,
        ;
    }
}

/// `tdiv` grows with its dividend for a positive divisor.
proof fn lemma_tdiv_dividend(x1: int, x2: int, y: int)
    requires
        x1 <= x2,
        y > 0,
    ensures
        tdiv(x1, y) <= tdiv(x2, y),
{
    lemma_div_is_ordered(0, if x2 >= 0 { x2 } else { 0 }, y);
    lemma_div_is_ordered(0, if x1 < 0 { -x1 } else { 0 }, y);
    if x1 >= 0 {
        lemma_div_is_ordered(x1, x2, y);
    } else if x2 < 0 {
        lemma_div_is_ordered(-x2, -x1, y);
    }
}

proof fn lemma_tdiv_x_between(x: int, l: int, h: int, y: int)
    requires
        l <= x <= h,
        y != 0,
    ensures
        between(tdiv(x, y), tdiv(l, y), tdiv(h, y)),
{
    if y > 0 {
        lemma_tdiv_dividend(l, x, y);
        lemma_tdiv_dividend(x, h, y);
    } else {
        lemma_tdiv_dividend(l, x, -y);
        lemma_tdiv_dividend(x, h, -y);
        assert(tdiv(x, y) == -tdiv(x, -y));
        assert(tdiv(l, y) == -tdiv(l, -y));
        assert(tdiv(h, y) == -tdiv(h, -y));
    }
}

/// `tdiv` of a fixed dividend moves one way as a positive divisor grows.
proof fn lemma_tdiv_divisor(x: int, y1: int, y2: int)
    requires
        1 <= y1 <= y2,
    ensures
        x >= 0 ==> tdiv(x, y1) >= tdiv(x, y2),
        x < 0 ==> tdiv(x, y1) <= tdiv(x, y2),
{
    if x >= 0 {
        lemma_div_is_ordered_by_denominator(x, y1, y2);
    } else {
        lemma_div_is_ordered_by_denominator(-x, y1, y2);
    }
}

proof fn lemma_tdiv_y_between(x: int, y: int, l: int, h: int)
    requires
        l <= y <= h,
        0 < l || h < 0,
    ensures
        between(tdiv(x, y), tdiv(x, l), tdiv(x, h)),
{
    if l > 0 {
        lemma_tdiv_divisor(x, l, y);
        lemma_tdiv_divisor(x, y, h);
    } else {
        lemma_tdiv_divisor(x, -y, -l);
        lemma_tdiv_divisor(x, -h, -y);
        assert(tdiv(x, y) == -tdiv(x, -y));
        assert(tdiv(x, l) == -tdiv(x, -l));
        assert(tdiv(x, h) == -tdiv(x, -h));
    }
}

proof fn lemma_corner_combine(v: int, p: int, q: int, a: int, b: int, c: int, d: int)
    requires
        between(v, p, q),
        between(p, a, b),
        between(q, c, d),
    ensures
        min4(a, b, c, d) <= v <= max4(a, b, c, d),
{
}

/// Every roll of `e` that succeeds lies between the minimum and the maximum
/// of `e`, whatever the dice show.
pub proof fn roll_within_bounds(e: Expr, rolls: Seq<int>)
    requires
        roll_eval(e, rolls).2,
        roll_eval(e, rolls).0 is Ok,
        bounds(e) is Ok,
    ensures
        bounds(e)->Ok_0.0 <= roll_eval(e, rolls).0->Ok_0 <= bounds(e)->Ok_0.1,
    decreases e,
{
    match e {
        Expr::Num { .. } => {},
        Expr::Neg(a) => {
            roll_within_bounds(*a, rolls);
        },
        Expr::Add(a, b) | Expr::Mul(a, b) | Expr::Div(a, b) | Expr::Dice(a, b) => {
            let (ra, r1, ok1) = roll_eval(*a, rolls);
            roll_within_bounds(*a, rolls);
            let (rb, r2, ok2) = roll_eval(*b, r1);
            roll_within_bounds(*b, r1);
            let x = ra->Ok_0;
            let y = rb->Ok_0;
            let (l1, h1) = bounds(*a)->Ok_0;
            let (l2, h2) = bounds(*b)->Ok_0;
            match e {
                Expr::Mul(_, _) => {
                    lemma_mul_between(x, l1, h1, y);
                    lemma_mul_between(y, l2, h2, l1);
                    lemma_mul_between(y, l2, h2, h1);
                    assert(x * y == y * x && l1 * y == y * l1 && h1 * y == y * h1) by (nonlinear_arith);
                    assert(l2 * l1 == l1 * l2 && h2 * l1 == l1 * h2 && l2 * h1 == h1 * l2 && h2 * h1 == h1 * h2)
                        by (nonlinear_arith);
                    lemma_corner_combine(x * y, l1 * y, h1 * y, l1 * l2, l1 * h2, h1 * l2, h1 * h2);
                },
                Expr::Div(_, _) => {
                    lemma_tdiv_x_between(x, l1, h1, y);
                    lemma_tdiv_y_between(l1, y, l2, h2);
                    lemma_tdiv_y_between(h1, y, l2, h2);
                    lemma_corner_combine(
                        tdiv(x, y),
                        tdiv(l1, y),
                        tdiv(h1, y),
                        tdiv(l1, l2),
                        tdiv(l1, h2),
                        tdiv(h1, l2),
                        tdiv(h1, h2),
                    );
                },
                Expr::Dice(_, _) => {
                    let v = roll_eval(e, rolls).0->Ok_0;
                    lemma_sum_faces(r2.take(x), y);
                    assert(x * y <= h1 * h2) by (nonlinear_arith)
                        requires
                            0 <= x <= h1,
                            1 <= y <= h2,
                    ;
                },
                _ => {},
            }
        },
    }
}

/// The same, for an expression read from text: every total that a roll can
/// come to lies between the minimum and the maximum.
pub proof fn roll_within_text_bounds(s: Seq<char>, v: int)
    requires
        rolls_of(s, Ok(v)),
        bound_of(s, false) is Ok,
    ensures
        bound_of(s, false)->Ok_0 <= v <= bound_of(s, true)->Ok_0,
{
    let e = read_spec(s, false)->Ok_0;
    let rolls = choose|rolls: Seq<int>| #[trigger] roll_eval(e, rolls) == (Ok::<int, ErrorKind>(v), Seq::<int>::empty(), true);
    roll_within_bounds(e, rolls);
}

/// A `.` makes the roll, minimum and maximum modes fail with
/// `DecimalNotAllowed`, while the average mode reads the expression as usual.
pub proof fn decimals_only_in_average(s: Seq<char>, v: Result<int, ErrorKind>)
    requires
        has_dot(s),
    ensures
        bound_of(s, false) == Err::<int, ErrorKind>(ErrorKind::DecimalNotAllowed),
        bound_of(s, true) == Err::<int, ErrorKind>(ErrorKind::DecimalNotAllowed),
        rolls_of(s, v) <==> v == Err::<int, ErrorKind>(ErrorKind::DecimalNotAllowed),
        read_spec(s, true) == parse_all(canonical(s)),
        average_of(s) == match parse_all(canonical(s)) {
            Err(k) => Err(k),
            Ok(e) => avg_value(e),
        },
{
}

/// The character that `emit` of a non-whitespace `p` ends with.
pub open spec fn emitted_last(p: char) -> char {
    if p == '%' {
        '0'
    } else if p == 'x' || p == 'X' {
        '*'
    } else {
        p
    }
}

/// Position `i` of `t` is as normalization leaves it.
pub open spec fn settled_at(t: Seq<char>, i: int) -> bool {
    &&& !is_space(t[i]) && t[i] != '%' && t[i] != 'x' && t[i] != 'X'
    &&& t[i] == '-' ==> i > 0 && (t[i - 1] == '+' || t[i - 1] == '/' || t[i - 1] == '*')
    &&& t[i] == '(' && i > 0 ==> !ends_factor(t[i - 1])
}

/// `t` is a canonical character stream: normalization has nothing to change.
pub open spec fn settled(t: Seq<char>) -> bool {
    &&& forall|i: int| 0 <= i < t.len() ==> #[trigger] settled_at(t, i)
    &&& t.len() > 0 ==> t[0] != '+' && t[0] != '-'
}

proof fn lemma_first_nonspace_push(a: Seq<char>, c: char)
    ensures
        first_nonspace(a.push(c)) == if first_nonspace(a) == ' ' && !is_space(c) {
            c
        } else {
            first_nonspace(a)
        },
        first_nonspace(a) == ' ' || !is_space(first_nonspace(a)),
    decreases a.len(),
{
    if a.len() > 0 {
        assert(a.push(c).drop_first() =~= a.drop_first().push(c));
        assert(a.push(c)[0] == a[0]);
        lemma_first_nonspace_push(a.drop_first(), c);
    } else {
        assert(a.push(c).drop_first() =~= Seq::<char>::empty());
        assert(a.push(c)[0] == c);
        assert(first_nonspace(Seq::<char>::empty()) == ' ');
        assert(is_space(' '));
    }
}

proof fn lemma_last_nonspace_kind(a: Seq<char>)
    ensures
        last_nonspace(a) == ' ' || !is_space(last_nonspace(a)),
        last_nonspace(a) == ' ' <==> first_nonspace(a) == ' ',
    decreases a.len(),
{
    if a.len() > 0 {
        lemma_last_nonspace_kind(a.drop_last());
        lemma_first_nonspace_push(a.drop_last(), a.last());
        assert(a.drop_last().push(a.last()) =~= a);
    }
}

/// What `rewrite` produces from any prefix of `w`.
proof fn lemma_rewrite_settles(w: Seq<char>, n: int)
    requires
        0 <= n <= w.len(),
    ensures
        ({
            let r = rewrite(w.take(n));
            let p = last_nonspace(w.take(n));
            &&& forall|i: int| 0 <= i < r.len() ==> #[trigger] settled_at(r, i)
            &&& r.len() == 0 <==> p == ' '
            &&& r.len() > 0 ==> r.last() == emitted_last(p)
            &&& r.len() > 0 ==> r[0] == emit(first_nonspace(w.take(n)), ' ')[0]
        }),
    decreases n,
{
    if n > 0 {
        lemma_rewrite_settles(w, n - 1);
        let a = w.take(n - 1);
        let c = w[n - 1];
        assert(w.take(n).drop_last() =~= a);
        assert(a.push(c) =~= w.take(n));
        lemma_first_nonspace_push(a, c);
        lemma_last_nonspace_kind(a);
        let r0 = rewrite(a);
        let p = last_nonspace(a);
        let e = emit(c, p);
        let r = rewrite(w.take(n));
        assert(r == r0 + e);
        assert forall|i: int| 0 <= i < r.len() implies #[trigger] settled_at(r, i) by {
            if i < r0.len() {
                assert(settled_at(r0, i));
                assert(r[i] == r0[i]);
                if i > 0 {
                    assert(r[i - 1] == r0[i - 1]);
                }
            } else {
                assert(r[i] == e[i - r0.len()]);
                if i > r0.len() {
                    assert(r[i - 1] == e[i - 1 - r0.len()]);
                } else if i > 0 {
                    assert(r[i - 1] == r0.last());
                }
            }
        }
        if r.len() > 0 && r0.len() == 0 {
            assert(r[0] == e[0]);
        } else if r0.len() > 0 {
            assert(r[0] == r0[0]);
        }
    } else {
        assert(w.take(0) =~= Seq::<char>::empty());
    }
}

/// A settled stream is its own canonical form.
proof fn lemma_settled_fixed(t: Seq<char>)
    requires
        settled(t),
    ensures
        canonical(t) == t,
{
    if t.len() > 0 {
        assert(settled_at(t, 0));
        assert(first_nonspace(t) == t[0]);
    }
    assert(with_lead(t) == t);
    lemma_rewrite_prefix_fixed(t, t.len() as int);
    assert(t.take(t.len() as int) =~= t);
}

proof fn lemma_rewrite_prefix_fixed(t: Seq<char>, n: int)
    requires
        settled(t),
        0 <= n <= t.len(),
    ensures
        rewrite(t.take(n)) == t.take(n),
        n > 0 ==> last_nonspace(t.take(n)) == t[n - 1],
        n == 0 ==> last_nonspace(t.take(n)) == ' ',
    decreases n,
{
    if n > 0 {
        lemma_rewrite_prefix_fixed(t, n - 1);
        assert(t.take(n).drop_last() =~= t.take(n - 1));
        assert(settled_at(t, n - 1));
        if n > 1 {
            assert(settled_at(t, n - 2));
        }
        assert(emit(t[n - 1], last_nonspace(t.take(n - 1))) =~= seq![t[n - 1]]);
        assert(t.take(n - 1) + seq![t[n - 1]] =~= t.take(n));
    } else {
        assert(t.take(0) =~= Seq::<char>::empty());
    }
}

/// Normalizing twice gives what normalizing once gives.
pub proof fn normalize_idempotent(s: Seq<char>)
    ensures
        canonical(canonical(s)) == canonical(s),
{
    let w = with_lead(s);
    lemma_rewrite_settles(w, w.len() as int);
    assert(w.take(w.len() as int) =~= w);
    let t = canonical(s);
    assert(t == rewrite(w.take(w.len() as int)));
    if t.len() > 0 {
        let f = first_nonspace(w);
        assert(t[0] == emit(f, ' ')[0]);
        if first_nonspace(s) == '+' || first_nonspace(s) == '-' {
            assert(w[0] == '0');
            assert(f == '0');
        } else {
            assert(w == s);
        }
        lemma_last_nonspace_kind(w);
        lemma_first_nonspace_push(w, ' ');
        assert(last_nonspace(w) != ' ');
        assert(!is_space(f));
        assert(f != '+' && f != '-');
        assert(!ends_factor(' '));
        if f == '%' {
            assert(emit(f, ' ')[0] == '1');
        } else if f == 'x' || f == 'X' {
            assert(emit(f, ' ')[0] == '*');
        } else if f == '(' {
            assert(emit(f, ' ')[0] == '(');
        } else {
            assert(emit(f, ' ')[0] == f);
        }
    }
    lemma_settled_fixed(t);
}

/// `rewrite` of `y` where the last non-whitespace character before it is `p`.
pub open spec fn rewrite_after(y: Seq<char>, p: char) -> Seq<char>
    decreases y.len(),
{
    if y.len() == 0 {
        seq![]
    } else {
        rewrite_after(y.drop_last(), p) + emit(y.last(), last_nonspace_after(y.drop_last(), p))
    }
}

/// The last non-whitespace character of `y`, or `p` if it has none.
pub open spec fn last_nonspace_after(y: Seq<char>, p: char) -> char
    decreases y.len(),
{
    if y.len() == 0 {
        p
    } else if is_space(y.last()) {
        last_nonspace_after(y.drop_last(), p)
    } else {
        y.last()
    }
}

proof fn lemma_rewrite_concat(x: Seq<char>, y: Seq<char>)
    ensures
        rewrite(x + y) == rewrite(x) + rewrite_after(y, last_nonspace(x)),
        last_nonspace(x + y) == last_nonspace_after(y, last_nonspace(x)),
    decreases y.len(),
{
    if y.len() == 0 {
        assert(x + y =~= x);
        assert(rewrite(x) + rewrite_after(y, last_nonspace(x)) =~= rewrite(x));
    } else {
        lemma_rewrite_concat(x, y.drop_last());
        assert((x + y).drop_last() =~= x + y.drop_last());
        assert((x + y).last() == y.last());
        assert(rewrite(x) + rewrite_after(y, last_nonspace(x)) =~= rewrite(x) + rewrite_after(
            y.drop_last(),
            last_nonspace(x),
        ) + emit(y.last(), last_nonspace_after(y.drop_last(), last_nonspace(x))));
    }
}

/// After `%` and after `0` the rest of an expression is rewritten alike.
proof fn lemma_percent_context(y: Seq<char>)
    ensures
        rewrite_after(y, '%') == rewrite_after(y, '0'),
        last_nonspace_after(y, '%') == last_nonspace_after(y, '0') || (last_nonspace_after(y, '%')
            == '%' && last_nonspace_after(y, '0') == '0'),
    decreases y.len(),
{
    if y.len() > 0 {
        lemma_percent_context(y.drop_last());
        let c = y.last();
        assert(emit(c, last_nonspace_after(y.drop_last(), '%')) == emit(
            c,
            last_nonspace_after(y.drop_last(), '0'),
        ));
    }
}

proof fn lemma_first_nonspace_concat(x: Seq<char>, y: Seq<char>)
    ensures
        first_nonspace(x + y) == if first_nonspace(x) == ' ' {
            first_nonspace(y)
        } else {
            first_nonspace(x)
        },
    decreases x.len(),
{
    if x.len() == 0 {
        assert(x + y =~= y);
    } else {
        assert((x + y).drop_first() =~= x.drop_first() + y);
        assert((x + y)[0] == x[0]);
        lemma_first_nonspace_concat(x.drop_first(), y);
    }
}

proof fn lemma_has_dot_percent(a: Seq<char>, b: Seq<char>)
    ensures
        has_dot(a + seq!['%'] + b) == has_dot(a + seq!['1', '0', '0'] + b),
{
    let u = a + seq!['%'] + b;
    let v = a + seq!['1', '0', '0'] + b;
    if has_dot(u) {
        let j = choose|j: int| 0 <= j < u.len() && #[trigger] u[j] == '.';
        if j < a.len() {
            assert(v[j] == '.');
        } else {
            assert(j > a.len());
            assert(v[j + 2] == '.');
        }
    }
    if has_dot(v) {
        let j = choose|j: int| 0 <= j < v.len() && #[trigger] v[j] == '.';
        if j < a.len() {
            assert(u[j] == '.');
        } else {
            assert(j >= a.len() + 3);
            assert(u[j - 2] == '.');
        }
    }
}

proof fn lemma_hundred(p: char)
    ensures
        rewrite_after(seq!['1', '0', '0'], p) == seq!['1', '0', '0'],
        rewrite_after(seq!['%'], p) == seq!['1', '0', '0'],
        last_nonspace_after(seq!['%'], p) == '%',
        last_nonspace_after(seq!['1', '0', '0'], p) == '0',
{
    assert(seq!['1', '0', '0'].drop_last() =~= seq!['1', '0']);
    assert(seq!['1', '0'].drop_last() =~= seq!['1']);
    assert(seq!['1'].drop_last() =~= Seq::<char>::empty());
    assert(seq!['%'].drop_last() =~= Seq::<char>::empty());
    assert(rewrite_after(Seq::<char>::empty(), p) =~= Seq::<char>::empty());
    assert(emit('1', p) =~= seq!['1']);
    assert(rewrite_after(seq!['1'], p) =~= seq!['1']);
    assert(last_nonspace_after(seq!['1'], p) == '1');
    assert(emit('0', '1') =~= seq!['0']);
    assert(rewrite_after(seq!['1', '0'], p) =~= seq!['1', '0']);
    assert(last_nonspace_after(seq!['1', '0'], p) == '0');
    assert(emit('0', '0') =~= seq!['0']);
    assert(rewrite_after(seq!['1', '0', '0'], p) =~= seq!['1', '0', '0']);
    assert(emit('%', p) =~= seq!['1', '0', '0']);
    assert(rewrite_after(seq!['%'], p) =~= seq!['1', '0', '0']);
    assert(last_nonspace_after(seq!['%'], p) == '%');
    assert(last_nonspace_after(seq!['1', '0', '0'], p) == '0');
}

/// `%` reads as `100` wherever it stands: an expression with `%` written as
/// `100` reads to the same tree, so it rolls, bounds and averages alike.
pub proof fn percent_is_hundred(a: Seq<char>, b: Seq<char>, allow_decimal: bool)
    ensures
        read_spec(a + seq!['%'] + b, allow_decimal) == read_spec(a + seq!['1', '0', '0'] + b, allow_decimal),
{
    let u = a + seq!['%'] + b;
    let v = a + seq!['1', '0', '0'] + b;
    lemma_has_dot_percent(a, b);
    lemma_first_nonspace_concat(a, seq!['%'] + b);
    lemma_first_nonspace_concat(a, seq!['1', '0', '0'] + b);
    assert(u =~= a + (seq!['%'] + b));
    assert(v =~= a + (seq!['1', '0', '0'] + b));
    assert(first_nonspace(seq!['%'] + b) == '%');
    assert(first_nonspace(seq!['1', '0', '0'] + b) == '1');
    let lead = if first_nonspace(a) == '+' || first_nonspace(a) == '-' {
        seq!['0']
    } else {
        Seq::<char>::empty()
    };
    assert(with_lead(u) =~= lead + a + seq!['%'] + b);
    assert(with_lead(v) =~= lead + a + seq!['1', '0', '0'] + b);
    let x = lead + a;
    let p = last_nonspace(x);
    lemma_rewrite_concat(x + seq!['%'], b);
    lemma_rewrite_concat(x + seq!['1', '0', '0'], b);
    lemma_rewrite_concat(x, seq!['%']);
    lemma_rewrite_concat(x, seq!['1', '0', '0']);
    assert(x + seq!['%'] + b =~= with_lead(u));
    assert(x + seq!['1', '0', '0'] + b =~= with_lead(v));
    lemma_hundred(p);
    lemma_percent_context(b);
    assert(canonical(u) == canonical(v));
}

/// Whether `e` holds no division.
pub open spec fn division_free(e: Expr) -> bool
    decreases e,
{
    match e {
        Expr::Num { .. } => true,
        Expr::Neg(a) => division_free(*a),
        Expr::Add(a, b) => division_free(*a) && division_free(*b),
        Expr::Mul(a, b) => division_free(*a) && division_free(*b),
        Expr::Div(_, _) => false,
        Expr::Dice(a, b) => division_free(*a) && division_free(*b),
    }
}

proof fn lemma_min4_scaled(a: int, b: int, c: int, d: int, k: int)
    requires
        k > 0,
    ensures
        min4(a * k, b * k, c * k, d * k) == min4(a, b, c, d) * k,
        max4(a * k, b * k, c * k, d * k) == max4(a, b, c, d) * k,
{
    assert(a <= b <==> a * k <= b * k) by (nonlinear_arith)
        requires
            k > 0,
    ;
    assert(c <= d <==> c * k <= d * k) by (nonlinear_arith)
        requires
            k > 0,
    ;
    assert(a <= c <==> a * k <= c * k) by (nonlinear_arith)
        requires
            k > 0,
    ;
    assert(a <= d <==> a * k <= d * k) by (nonlinear_arith)
        requires
            k > 0,
    ;
    assert(b <= c <==> b * k <= c * k) by (nonlinear_arith)
        requires
            k > 0,
    ;
    assert(b <= d <==> b * k <= d * k) by (nonlinear_arith)
        requires
            k > 0,
    ;
}

/// Without division, the average of `e` (the fraction `n / d`) lies between
/// its minimum and its maximum: `min * d <= n <= max * d`, with `d > 0`.
pub proof fn average_within_bounds(e: Expr)
    requires
        division_free(e),
        avg_value(e) is Ok,
        bounds(e) is Ok,
    ensures
        avg_value(e)->Ok_0.1 > 0,
        bounds(e)->Ok_0.0 * avg_value(e)->Ok_0.1 <= avg_value(e)->Ok_0.0,
        avg_value(e)->Ok_0.0 <= bounds(e)->Ok_0.1 * avg_value(e)->Ok_0.1,
    decreases e,
{
    match e {
        Expr::Num { mantissa, scale } => {
            assert(scale == 0);
            assert(pow10(0) == 1);
            assert(avg_value(e) == Ok::<(int, int), ErrorKind>((mantissa as int, 1)));
            assert(bounds(e) == Ok::<(int, int), ErrorKind>((mantissa as int, mantissa as int)));
            assert(mantissa as int * 1 == mantissa as int);
        },
        Expr::Neg(a) => {
            average_within_bounds(*a);
            let (n, d) = avg_value(*a)->Ok_0;
            let (lo, hi) = bounds(*a)->Ok_0;
            assert((-hi) * d == -(hi * d) && (-lo) * d == -(lo * d)) by (nonlinear_arith);
        },
        Expr::Add(a, b) | Expr::Mul(a, b) | Expr::Div(a, b) | Expr::Dice(a, b) => {
            average_within_bounds(*a);
            average_within_bounds(*b);
            let (n1, d1) = avg_value(*a)->Ok_0;
            let (n2, d2) = avg_value(*b)->Ok_0;
            let (l1, h1) = bounds(*a)->Ok_0;
            let (l2, h2) = bounds(*b)->Ok_0;
            match e {
                Expr::Add(_, _) => {
                    assert(d1 * d2 > 0 && (l1 + l2) * (d1 * d2) <= n1 * d2 + n2 * d1 <= (h1 + h2) * (d1 * d2))
                        by (nonlinear_arith)
                        requires
                            d1 > 0,
                            d2 > 0,
                            l1 * d1 <= n1 <= h1 * d1,
                            l2 * d2 <= n2 <= h2 * d2,
                    ;
                },
                Expr::Mul(_, _) => {
                    let k = d1 * d2;
                    assert(k > 0) by (nonlinear_arith)
                        requires
                            k == d1 * d2,
                            d1 > 0,
                            d2 > 0,
                    ;
                    lemma_mul_between(n1, l1 * d1, h1 * d1, n2);
                    lemma_mul_between(n2, l2 * d2, h2 * d2, l1 * d1);
                    lemma_mul_between(n2, l2 * d2, h2 * d2, h1 * d1);
                    assert(n1 * n2 == n2 * n1 && (l1 * d1) * n2 == n2 * (l1 * d1) && (h1 * d1) * n2 == n2 * (h1
                        * d1)) by (nonlinear_arith);
                    assert((l2 * d2) * (l1 * d1) == (l1 * l2) * k && (h2 * d2) * (l1 * d1) == (l1 * h2) * k
                        && (l2 * d2) * (h1 * d1) == (h1 * l2) * k && (h2 * d2) * (h1 * d1) == (h1 * h2) * k)
                        by (nonlinear_arith)
                        requires
                            k == d1 * d2,
                    ;
                    lemma_corner_combine(
                        n1 * n2,
                        (l1 * d1) * n2,
                        (h1 * d1) * n2,
                        (l1 * l2) * k,
                        (l1 * h2) * k,
                        (h1 * l2) * k,
                        (h1 * h2) * k,
                    );
                    lemma_min4_scaled(l1 * l2, l1 * h2, h1 * l2, h1 * h2, k);
                },
                Expr::Dice(_, _) => {
                    let n = tdiv(n1, d1);
                    let s = tdiv(n2, d2);
                    assert(l1 <= n <= h1) by (nonlinear_arith)
                        requires
                            n * d1 == n1,
                            d1 > 0,
                            l1 * d1 <= n1 <= h1 * d1,
                    ;
                    assert(l2 <= s <= h2) by (nonlinear_arith)
                        requires
                            s * d2 == n2,
                            d2 > 0,
                            l2 * d2 <= n2 <= h2 * d2,
                    ;
                    assert(l1 * 2 <= n * (1 + s) <= h1 * h2 * 2) by (nonlinear_arith)
                        requires
                            0 <= l1 <= n <= h1,
                            1 <= l2 <= s <= h2,
                    ;
                },
                _ => {},
            }
        },
    }
}

} // verus!
