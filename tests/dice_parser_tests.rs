use dice_parser::{parse, DiceRoll, Exploding, Expr, KeepDrop, ParseError};

fn roll(num_dice: usize, die_size: usize, exploding: Exploding, keep_drop: KeepDrop) -> DiceRoll {
    DiceRoll::new(num_dice, die_size, exploding, keep_drop)
}

#[test]
fn test_basic_roll() {
    let (_, rolls) = parse("2d20").unwrap();
    assert_eq!(
        rolls[0],
        DiceRoll::new(2, 20, Exploding::Never, KeepDrop::KeepAll)
    );
}

#[test]
fn lib_test_complex_expression() {
    let (expr, rolls) = parse("2d20k1+1d6!").unwrap();
    println!("Expression: {:?}", expr);
    println!("Rolls: {:?}", rolls);
    assert_eq!(
        rolls[0],
        DiceRoll::new(2, 20, Exploding::Never, KeepDrop::KeepHighest(1))
    );
    assert_eq!(
        rolls[1],
        DiceRoll::new(1, 6, Exploding::Once, KeepDrop::KeepAll)
    );
}

#[test]
fn test_basic_dice_parsing() {
    let (_, rolls) = parse("1d20").unwrap();
    assert_eq!(
        rolls,
        vec![DiceRoll::new(1, 20, Exploding::Never, KeepDrop::KeepAll)]
    );
}

#[test]
fn test_multiple_dice_expressions() {
    let (expr, rolls) = parse("2d6+3").unwrap();
    println!("Expression: {:?}", expr);
    assert_eq!(
        rolls,
        vec![DiceRoll::new(2, 6, Exploding::Never, KeepDrop::KeepAll),]
    );
}

#[test]
fn test_indefinite_dice() {
    let (_, rolls) = parse("4d8!!").unwrap();
    assert_eq!(
        rolls,
        vec![DiceRoll::new(4, 8, Exploding::Indefinite, KeepDrop::KeepAll)]
    );
}

#[test]
fn test_exploding_dice() {
    let (_, rolls) = parse("4d8!").unwrap();
    assert_eq!(
        rolls,
        vec![DiceRoll::new(4, 8, Exploding::Once, KeepDrop::KeepAll,)]
    );
}

#[test]
fn test_keep_highest() {
    let (_, rolls) = parse("1d10kh2").unwrap();
    assert_eq!(
        rolls,
        vec![DiceRoll::new(
            1,
            10,
            Exploding::Never,
            KeepDrop::KeepHighest(2),
        )]
    );
}

#[test]
fn dice_parser_tests_test_complex_expression() {
    let (expr, rolls) = parse("3d12dh1-5+2d4+1").unwrap();

    assert_eq!(
        rolls,
        vec![
            DiceRoll::new(3, 12, Exploding::Never, KeepDrop::DropHighest(1)),
            DiceRoll::new(2, 4, Exploding::Never, KeepDrop::KeepAll)
        ]
    );

    let expected = Expr::BinaryOp(
        Box::new(Expr::BinaryOp(
            Box::new(Expr::BinaryOp(
                Box::new(Expr::DiceRoll(DiceRoll::new(
                    3,
                    12,
                    Exploding::Never,
                    KeepDrop::DropHighest(1),
                ))),
                "-".to_string(),
                Box::new(Expr::Number(5)),
            )),
            "+".to_string(),
            Box::new(Expr::DiceRoll(DiceRoll::new(
                2,
                4,
                Exploding::Never,
                KeepDrop::KeepAll,
            ))),
        )),
        "+".to_string(),
        Box::new(Expr::Number(1)),
    );
    assert_eq!(expr, expected);
}

#[test]
fn test_complex_expression2() {
    let (_expr, rolls) = parse("2d20kh1 + 3d6!! - floor(4d10) * 5d8").unwrap();
    assert_eq!(
        rolls,
        vec![
            roll(2, 20, Exploding::Never, KeepDrop::KeepHighest(1)),
            roll(3, 6, Exploding::Indefinite, KeepDrop::KeepAll),
            roll(4, 10, Exploding::Never, KeepDrop::KeepAll),
            roll(5, 8, Exploding::Never, KeepDrop::KeepAll),
        ]
    );
}

#[test]
fn test_invalid_dice_expressions() {
    let invalid_cases = vec![
        "",         // Empty string
        "d",        // No dice size
        "d%%",      // A second size marker
        "2dX",      // Non-numeric dice size
        "2dd20",    // Extra "d"
        "1d10+kh2", // Modifier without a valid term
    ];

    for input in invalid_cases {
        let result = parse(input);
        assert!(
            matches!(result, Err(ParseError::GrammarError { .. })),
            "Expected failure for '{}'",
            input
        );
    }
}
