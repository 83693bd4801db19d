use dice_parser::{parse, DiceRoll, Exploding, Expr, KeepDrop, ParseError};

fn roll(num_dice: usize, die_size: usize, exploding: Exploding, keep_drop: KeepDrop) -> DiceRoll {
    DiceRoll::new(num_dice, die_size, exploding, keep_drop)
}

fn bin(l: Expr, op: &str, r: Expr) -> Expr {
    Expr::BinaryOp(Box::new(l), op.to_string(), Box::new(r))
}

fn plain(num_dice: usize, die_size: usize) -> DiceRoll {
    roll(num_dice, die_size, Exploding::Never, KeepDrop::KeepAll)
}

fn grammar_error(input: &str) -> usize {
    match parse(input) {
        Err(ParseError::GrammarError { position }) => position,
        other => panic!("expected a grammar error for {:?}, got {:?}", input, other),
    }
}

#[test]
fn count_d_size_is_one_plain_roll() {
    for (text, n, m) in [("1d20", 1, 20), ("3d6", 3, 6), ("10d100", 10, 100), ("007d08", 7, 8)] {
        let (expr, rolls) = parse(text).unwrap();
        assert_eq!(rolls, vec![plain(n, m)]);
        assert_eq!(expr, Expr::DiceRoll(plain(n, m)));
    }
}

#[test]
fn omitted_count_is_one() {
    let (expr, rolls) = parse("d20").unwrap();
    assert_eq!(rolls, vec![plain(1, 20)]);
    assert_eq!(expr, Expr::DiceRoll(plain(1, 20)));
}

#[test]
fn percent_is_one_hundred() {
    let (_, rolls) = parse("d%").unwrap();
    assert_eq!(rolls, vec![plain(1, 100)]);
    let (_, rolls) = parse("3d%!").unwrap();
    assert_eq!(rolls, vec![roll(3, 100, Exploding::Once, KeepDrop::KeepAll)]);
}

#[test]
fn double_bang_wins_over_single() {
    let (_, rolls) = parse("3d6!kh2!!").unwrap();
    assert_eq!(rolls, vec![roll(3, 6, Exploding::Indefinite, KeepDrop::KeepHighest(2))]);
    let (_, rolls) = parse("3d6!!kh1").unwrap();
    assert_eq!(rolls, vec![roll(3, 6, Exploding::Indefinite, KeepDrop::KeepHighest(1))]);
    let (_, rolls) = parse("3d6!!kh2!").unwrap();
    assert_eq!(rolls, vec![roll(3, 6, Exploding::Once, KeepDrop::KeepHighest(2))]);
}

#[test]
fn triple_bang_is_double_then_single() {
    let (_, rolls) = parse("3d6!!!").unwrap();
    assert_eq!(rolls, vec![roll(3, 6, Exploding::Once, KeepDrop::KeepAll)]);
}

#[test]
fn keep_drop_last_wins() {
    let (_, rolls) = parse("4d6kh3dl1").unwrap();
    assert_eq!(rolls, vec![roll(4, 6, Exploding::Never, KeepDrop::DropLowest(1))]);
}

#[test]
fn keep_and_drop_forms() {
    let cases = [
        ("4d6k", KeepDrop::KeepHighest(1)),
        ("4d6k3", KeepDrop::KeepHighest(3)),
        ("4d6kh", KeepDrop::KeepHighest(1)),
        ("4d6kl2", KeepDrop::KeepLowest(2)),
        ("4d6kl", KeepDrop::KeepLowest(1)),
        ("4d6d", KeepDrop::DropHighest(1)),
        ("4d6d2", KeepDrop::DropHighest(2)),
        ("4d6dh3", KeepDrop::DropHighest(3)),
        ("4d6dl1", KeepDrop::DropLowest(1)),
        ("4d6dl", KeepDrop::DropLowest(1)),
    ];
    for (text, kd) in cases {
        let (_, rolls) = parse(text).unwrap();
        assert_eq!(rolls, vec![roll(4, 6, Exploding::Never, kd)], "{}", text);
    }
}

#[test]
fn keep_without_count_keeps_one() {
    let (_, rolls) = parse("1d10kh").unwrap();
    assert_eq!(rolls, vec![roll(1, 10, Exploding::Never, KeepDrop::KeepHighest(1))]);
}

#[test]
fn keep_plus_number_tree() {
    let (expr, rolls) = parse("1d10kh2+3").unwrap();
    let r = roll(1, 10, Exploding::Never, KeepDrop::KeepHighest(2));
    assert_eq!(rolls, vec![r]);
    assert_eq!(expr, bin(Expr::DiceRoll(r), "+", Expr::Number(3)));
}

#[test]
fn operators_chain_left_to_right() {
    let (expr, rolls) = parse("1+2*3").unwrap();
    assert!(rolls.is_empty());
    assert_eq!(
        expr,
        bin(bin(Expr::Number(1), "+", Expr::Number(2)), "*", Expr::Number(3))
    );
    let (expr, _) = parse("8/4-1").unwrap();
    assert_eq!(
        expr,
        bin(bin(Expr::Number(8), "/", Expr::Number(4)), "-", Expr::Number(1))
    );
}

#[test]
fn rolls_follow_the_tree_left_to_right() {
    let (expr, rolls) = parse("2d20kh1 + 3d6!! - floor(4d10) * 5d8").unwrap();
    let a = roll(2, 20, Exploding::Never, KeepDrop::KeepHighest(1));
    let b = roll(3, 6, Exploding::Indefinite, KeepDrop::KeepAll);
    let c = plain(4, 10);
    let d = plain(5, 8);
    assert_eq!(rolls, vec![a, b, c, d]);
    let expected = bin(
        bin(
            bin(Expr::DiceRoll(a), "+", Expr::DiceRoll(b)),
            "-",
            Expr::Function("floor".to_string(), Box::new(Expr::DiceRoll(c))),
        ),
        "*",
        Expr::DiceRoll(d),
    );
    assert_eq!(expr, expected);
}

#[test]
fn nested_functions_and_whitespace() {
    let (expr, rolls) = parse("  max_of ( 1d4 + abs( -2 ) )  ").unwrap();
    assert_eq!(rolls, vec![plain(1, 4)]);
    assert_eq!(
        expr,
        Expr::Function(
            "max_of".to_string(),
            Box::new(bin(
                Expr::DiceRoll(plain(1, 4)),
                "+",
                Expr::Function("abs".to_string(), Box::new(Expr::Number(-2))),
            )),
        )
    );
}

#[test]
fn whitespace_between_tokens_is_insignificant() {
    assert_eq!(parse("2d20kh1 + 3d6!!"), parse("2d20kh1+3d6!!"));
    assert_eq!(parse("\t1d6 -\n2 "), parse("1d6-2"));
}

#[test]
fn parsing_twice_gives_equal_results() {
    let text = "3d12dh1-5+2d4+1";
    let first = parse(text).unwrap();
    let second = parse(text).unwrap();
    assert_eq!(first, second);
    let copy = first.0.clone();
    assert_eq!(copy, second.0);
}

#[test]
fn negative_numbers() {
    let (expr, _) = parse("3--5").unwrap();
    assert_eq!(expr, bin(Expr::Number(3), "-", Expr::Number(-5)));
    let (expr, _) = parse("-9223372036854775808").unwrap();
    assert_eq!(expr, Expr::Number(i64::MIN));
    let (expr, _) = parse("9223372036854775807").unwrap();
    assert_eq!(expr, Expr::Number(i64::MAX));
}

#[test]
fn grammar_error_positions() {
    assert_eq!(grammar_error(""), 0);
    assert_eq!(grammar_error("d"), 1);
    assert_eq!(grammar_error("d%%"), 2);
    assert_eq!(grammar_error("2dX"), 1);
    assert_eq!(grammar_error("2dd20"), 1);
    assert_eq!(grammar_error("1d10+kh2"), 8);
    assert_eq!(grammar_error("1d6 d4"), 4);
    assert_eq!(grammar_error("floor(1d6"), 9);
    assert_eq!(grammar_error("1d6€"), 3);
    assert_eq!(grammar_error("+1"), 0);
}

#[test]
fn zero_sided_die_is_rejected() {
    assert_eq!(grammar_error("1d0"), 2);
    assert_eq!(grammar_error("2+d00"), 3);
}

#[test]
fn numbers_too_large_are_invariant_violations() {
    assert_eq!(
        parse("99999999999999999999d6"),
        Err(ParseError::InternalInvariantViolation { position: 0 })
    );
    assert_eq!(
        parse("1d99999999999999999999"),
        Err(ParseError::InternalInvariantViolation { position: 2 })
    );
    assert_eq!(
        parse("9223372036854775808"),
        Err(ParseError::InternalInvariantViolation { position: 0 })
    );
    assert_eq!(
        parse("1+-9223372036854775809"),
        Err(ParseError::InternalInvariantViolation { position: 2 })
    );
    assert_eq!(
        parse("4d6k99999999999999999999"),
        Err(ParseError::InternalInvariantViolation { position: 4 })
    );
}
