use dicexp::{new_simple_rng, simple_rng, DiceBag, DiceRoll, ErrorKind, Expr, Fraction};

fn average_f64(f: Fraction) -> f64 {
    f.numerator as f64 / f.denominator as f64
}

#[test]
fn arithmatic_checks() {
    let mut dice = DiceBag::new(simple_rng(42));
    assert_eq!(dice.eval_total("1+2").unwrap(), 3);
    assert_eq!(dice.eval_total("-1+2").unwrap(), 1);
    assert_eq!(dice.eval_total("(1+2)x3").unwrap(), 9);
    assert_eq!(dice.eval_total("-3*(1+2)").unwrap(), -9);
    assert_eq!(dice.eval_total("7-(2-5)").unwrap(), 10);
    assert_eq!(dice.eval_total("-1+10").unwrap(), 9);
    assert_eq!(dice.eval_total("7/2").unwrap(), 3);
    assert_eq!(dice.eval_total("-7/2").unwrap(), -3);
    assert_eq!(dice.eval_total("7/-2").unwrap(), -3);
    assert_eq!(dice.eval_total("-7/-2").unwrap(), 3);
    assert_eq!(dice.eval_total("7*2").unwrap(), 14);
    assert_eq!(dice.eval_total("7*-2").unwrap(), -14);
    assert_eq!(dice.eval_total("-7*2").unwrap(), -14);
    assert_eq!(dice.eval_total("-7*-2").unwrap(), 14);
    assert_eq!(dice.eval_total("8+5-9-9+5+8").unwrap(), 8);
    assert_eq!(dice.eval_total("15/5*5/-3*2/2*6-10/5").unwrap(), -32);
    assert_eq!(dice.eval_total("(15/5*5/-3*2/2*6-10/5)").unwrap(), -32);
    assert_eq!(
        dice.eval_total("4(9(10/2-6-3*8+1*4/2)*8/2*5+4)*5+4(7+7-3*8)*3-10*(10)-1").unwrap(),
        -82941
    );
}

#[test]
fn dice_checks() {
    let mut dice = DiceBag::new(simple_rng(42));
    assert!(dice.eval_total("1d20-30").unwrap() <= -10);
    assert!(dice.eval_total("1d20-30").unwrap() > -30);
    assert!(dice.eval_total("1d20+30").unwrap() <= 50);
    assert!(dice.eval_total("1d20+30").unwrap() > 30);
    let roll = dice.eval("3d6").unwrap();
    assert_eq!(roll.max, 18);
    assert_eq!(roll.min, 3);
    assert_eq!(average_f64(roll.average), 3.5 * 3.);
}

#[test]
fn example1() {
    let mut dice_bag = DiceBag::new(new_simple_rng());
    println!("What would you like to roll? ");
    let input = String::from("3d6\n");
    let dice_roll = dice_bag.eval(input.as_str()).expect("invalid dice expression");
    println!("You rolled a {}", dice_roll.total);
    if dice_roll.total >= average_f64(dice_roll.average) as i64 {
        println!("That's a good roll!");
    } else {
        println!("That's not a good roll :(");
    }
}

#[test]
fn example2() {
    let mut dice_bag = DiceBag::new(new_simple_rng());
    let armory = vec![
        ("great axe", "1d12"),
        ("great sword", "2d6"),
        ("heavy crossbow", "1d10+2"),
        ("firebolt", "1d10"),
        ("magic missile", "3d4+3"),
    ];
    println!("Average Damage:");
    for (name, dmg) in armory {
        println!("{}\t{}", average_f64(dice_bag.eval_ave(dmg).unwrap()), name)
    }
}

#[test]
fn three_d_six_bounds_and_average() {
    let mut dice = DiceBag::new(simple_rng(7));
    let roll = dice.eval("3d6").unwrap();
    assert_eq!(roll.min, 3);
    assert_eq!(roll.max, 18);
    assert_eq!(roll.average, Fraction { numerator: 21, denominator: 2 });
    assert!(roll.total >= 3 && roll.total <= 18);
}

#[test]
fn rolls_stay_within_bounds() {
    let mut dice = DiceBag::new(simple_rng(1234));
    for _ in 0..200 {
        let t = dice.eval_total("4d8").unwrap();
        assert!((4..=32).contains(&t));
    }
}

#[test]
fn roll_adds_modifier() {
    let mut dice = DiceBag::new(simple_rng(5));
    for _ in 0..50 {
        let r = dice.roll(2, 6, 3);
        assert!((5..=15).contains(&r));
    }
    assert_eq!(dice.roll(0, 0, 4), 4);
    assert_eq!(dice.roll(0, 6, 5), 5);
    assert_eq!(dice.roll(3, 1, i64::MIN), i64::MIN + 3);
}

#[test]
fn percentile_matches_hundred() {
    let mut a = DiceBag::new(simple_rng(99));
    let mut b = DiceBag::new(simple_rng(99));
    assert_eq!(a.eval("1d%").unwrap(), b.eval("1d100").unwrap());
    assert_eq!(a.eval_min("1d%").unwrap(), 1);
    assert_eq!(a.eval_max("1d%").unwrap(), 100);
    assert_eq!(a.eval_ave("1d%").unwrap(), Fraction { numerator: 101, denominator: 2 });
}

#[test]
fn same_seed_same_rolls() {
    let mut a = DiceBag::new(simple_rng(2024));
    let mut b = DiceBag::new(simple_rng(2024));
    for expr in ["1d20", "3d6+2", "2d10x3", "1d4+1d4"] {
        assert_eq!(a.eval_total(expr).unwrap(), b.eval_total(expr).unwrap());
    }
    let ra: Vec<DiceRoll> = (0..5).map(|_| a.eval("2d6").unwrap()).collect();
    let rb: Vec<DiceRoll> = (0..5).map(|_| b.eval("2d6").unwrap()).collect();
    assert_eq!(ra, rb);
}

#[test]
fn decimal_is_rejected_with_position() {
    let mut dice = DiceBag::new(simple_rng(1));
    let err = dice.eval_total("1+2.5").unwrap_err();
    assert_eq!(err.kind, ErrorKind::DecimalNotAllowed);
    assert_eq!(err.line, Some(1));
    assert_eq!(err.col, Some(4));
    let err = dice.eval_min("1+\n 2.5").unwrap_err();
    assert_eq!(err.kind, ErrorKind::DecimalNotAllowed);
    assert_eq!(err.line, Some(2));
    assert_eq!(err.col, Some(3));
    assert_eq!(dice.eval_ave("1+2.5").unwrap(), Fraction { numerator: 35, denominator: 10 });
}

#[test]
fn malformed_input_errors() {
    let mut dice = DiceBag::new(simple_rng(1));
    assert_eq!(dice.eval_total("(1+2").unwrap_err().kind, ErrorKind::UnmatchedParenthesis);
    assert_eq!(dice.eval_total("*5").unwrap_err().kind, ErrorKind::MissingOperand);
    assert_eq!(dice.eval_total("5*").unwrap_err().kind, ErrorKind::MissingOperand);
    assert_eq!(dice.eval_total("").unwrap_err().kind, ErrorKind::MissingOperand);
    assert_eq!(dice.eval_total("1+2)").unwrap_err().kind, ErrorKind::UnexpectedCharacter);
    assert_eq!(dice.eval_total("1/0").unwrap_err().kind, ErrorKind::DivisionByZero);
    assert_eq!(dice.eval_ave("1/0").unwrap_err().kind, ErrorKind::DivisionByZero);
    assert_eq!(dice.eval_total("1d0").unwrap_err().kind, ErrorKind::InvalidNumber);
    assert_eq!(dice.eval_total("99999999999999999999").unwrap_err().kind, ErrorKind::InvalidNumber);
    assert_eq!(dice.eval_total("9223372036854775807+1").unwrap_err().kind, ErrorKind::Overflow);
    assert_eq!(dice.eval_ave("1.2.3").unwrap_err().kind, ErrorKind::InvalidNumber);
    assert!(dice.eval("(1+2").is_err());
}

#[test]
fn average_arithmetic_is_exact() {
    let mut dice = DiceBag::new(simple_rng(3));
    assert_eq!(average_f64(dice.eval_ave("7/2").unwrap()), 3.5);
    assert_eq!(average_f64(dice.eval_ave("2d6+3").unwrap()), 10.0);
    assert_eq!(average_f64(dice.eval_ave("(1d4+1)x3").unwrap()), 10.5);
    assert_eq!(average_f64(dice.eval_ave("-1d6").unwrap()), -3.5);
}

#[test]
fn implicit_multiplication_and_shorthand() {
    let mut dice = DiceBag::new(simple_rng(3));
    assert_eq!(dice.eval_total("2(3+4)").unwrap(), 14);
    assert_eq!(dice.eval_total(" 2 X 3 ").unwrap(), 6);
    assert_eq!(dice.eval_min("(1+1)d6").unwrap(), 2);
    assert_eq!(dice.eval_max("(1+1)d6").unwrap(), 12);
    assert_eq!(dice.eval_max("2d6x2").unwrap(), 24);
    assert_eq!(dice.eval_min("10-1d4").unwrap(), 6);
    assert_eq!(dice.eval_max("10-1d4").unwrap(), 9);
}

#[test]
fn sanity_check_refuses_quiet_with_range() {
    let args = dicexp::Args {
        show_average: false,
        show_range: true,
        quiet: true,
        seed: None,
        expressions: vec!["1d6".to_string()],
    };
    let err = dicexp::sanity_check(&args).unwrap_err();
    assert!(err.print().starts_with("InvalidArgumentError: Invalid arguments"));
    let ok = dicexp::Args { quiet: false, ..args };
    assert!(dicexp::sanity_check(&ok).is_ok());
}

#[test]
fn syntax_error_text() {
    let mut dice = DiceBag::new(simple_rng(1));
    let err = dice.eval_max("1 +\n\n  0.5").unwrap_err();
    assert_eq!(
        err.print(),
        "SyntaxError: found '.', but only integer arithmetic is supported here; error on line 3, column 4"
    );
    let plain = dicexp::SyntaxError::from_string(ErrorKind::Overflow, "too big".to_string());
    assert_eq!(plain.print(), "SyntaxError: too big");
}

#[test]
fn find_helpers() {
    let text: Vec<char> = "2*(3+(4))-1".chars().collect();
    assert_eq!(dicexp::find_one_of(&text, &vec!['+', '-']), Some(4));
    assert_eq!(dicexp::find_one_of(&text, &vec!['/']), None);
    assert_eq!(dicexp::find_enclosure_from(&text, 0, '(', ')').unwrap(), Some((2, 9)));
    let open: Vec<char> = "(1+(2)".chars().collect();
    assert_eq!(
        dicexp::find_enclosure_from(&open, 0, '(', ')').unwrap_err().kind,
        ErrorKind::UnmatchedParenthesis
    );
    let none: Vec<char> = "1+2".chars().collect();
    assert_eq!(dicexp::find_enclosure_from(&none, 0, '(', ')').unwrap(), None);
}

#[test]
fn normalization_rewrites_and_is_idempotent() {
    let raw: Vec<char> = " -3 x 2(1d%)- 4".chars().collect();
    let once = dicexp::normalize(&raw, false).unwrap();
    let text: String = once.iter().collect();
    assert_eq!(text, "0+-3*2*(1d100)+-4");
    let twice = dicexp::normalize(&once, false).unwrap();
    assert_eq!(once, twice);
    let dotted: Vec<char> = "1.5".chars().collect();
    assert!(dicexp::normalize(&dotted, false).is_err());
    assert_eq!(dicexp::normalize(&dotted, true).unwrap(), dotted);
}

#[test]
fn parse_builds_left_grouped_tree() {
    let t: Vec<char> = "8+-2*3".chars().collect();
    let e = dicexp::parse(&t).unwrap();
    let expected = Expr::Add(
        Box::new(Expr::Num { mantissa: 8, scale: 0 }),
        Box::new(Expr::Mul(
            Box::new(Expr::Neg(Box::new(Expr::Num { mantissa: 2, scale: 0 }))),
            Box::new(Expr::Num { mantissa: 3, scale: 0 }),
        )),
    );
    assert_eq!(e, expected);
    let d: Vec<char> = "1.25".chars().collect();
    assert_eq!(dicexp::parse(&d).unwrap(), Expr::Num { mantissa: 125, scale: 2 });
}

#[test]
fn decimal_digits_render() {
    let s: String = dicexp::text::decimal_digits(1234509).iter().collect();
    assert_eq!(s, "1234509");
    let z: String = dicexp::text::decimal_digits(0).iter().collect();
    assert_eq!(z, "0");
}

#[test]
fn bounds_hold_under_negation_and_division() {
    let mut dice = DiceBag::new(simple_rng(11));
    let r = dice.eval("1-1d2").unwrap();
    assert_eq!((r.min, r.max), (-1, 0));
    assert!(r.min <= r.total && r.total <= r.max);
    let r = dice.eval("12/1d3").unwrap();
    assert_eq!((r.min, r.max), (4, 12));
    let r = dice.eval("-2*1d6").unwrap();
    assert_eq!((r.min, r.max), (-12, -2));
    assert_eq!(dice.eval_min("6/(1d2-1)").unwrap_err().kind, ErrorKind::DivisionByZero);
    for _ in 0..100 {
        let r = dice.eval("10-(1d6)*2").unwrap();
        assert!(r.min <= r.total && r.total <= r.max);
        assert_eq!((r.min, r.max), (-2, 8));
    }
}

#[test]
fn eval_reports_first_failing_mode() {
    let mut dice = DiceBag::new(simple_rng(1));
    let err = dice.eval("9223372036854775807+1+1/0").unwrap_err();
    assert_eq!(err.kind, ErrorKind::Overflow);
}

#[test]
fn whitespace_is_skipped() {
    let mut dice = DiceBag::new(simple_rng(1));
    assert_eq!(dice.eval_total("1\u{A0}+\u{3000}2\t").unwrap(), 3);
}
