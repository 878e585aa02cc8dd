use cmg::CgmError;
use cmg::Step;
use cmg::Symb;
use cmg::TokenRepr;

fn fold_steps(steps: &[Step]) -> f32 {
    let mut n: f32 = 0.0;
    for step in steps {
        match step {
            Step::Add(z) => n += *z as f32,
            Step::Sub(z) => n -= *z as f32,
            Step::Mul(z) => n *= *z as f32,
            Step::Div(z) => n /= *z as f32,
        }
    }
    n
}

#[test]
fn parse_then_render() {
    let tokens = TokenRepr::from_expression("1 + 2 - 4").unwrap();
    assert_eq!(
        tokens,
        vec![
            TokenRepr::Number(1),
            TokenRepr::Symbol(Symb::Plus),
            TokenRepr::Number(2),
            TokenRepr::Symbol(Symb::Minus),
            TokenRepr::Number(4),
        ]
    );
    assert_eq!(TokenRepr::to_expression(&tokens), "1+2-4");
}

#[test]
fn parse_rejects_non_integer_word() {
    let r = TokenRepr::from_expression("1 + x");
    assert_eq!(r, Err(CgmError::ParseIntegerError("x".to_string())));
}

#[test]
fn evaluate_left_to_right() {
    let tokens = vec![
        TokenRepr::Number(1),
        TokenRepr::Symbol(Symb::Plus),
        TokenRepr::Number(2),
        TokenRepr::Symbol(Symb::Minus),
        TokenRepr::Number(4),
    ];
    let steps = TokenRepr::evaluation_steps(&tokens);
    assert_eq!(steps, vec![Step::Add(1), Step::Add(2), Step::Sub(4)]);
    assert_eq!(fold_steps(&steps), -1.0);
}

#[test]
fn render_then_parse_is_not_identity() {
    let tokens = vec![
        TokenRepr::Number(1),
        TokenRepr::Symbol(Symb::Plus),
        TokenRepr::Number(2),
        TokenRepr::Symbol(Symb::Minus),
        TokenRepr::Number(4),
    ];
    let rendered = TokenRepr::to_expression(&tokens);
    assert_eq!(rendered, "1+2-4");
    let reparsed = TokenRepr::from_expression(&rendered);
    assert_ne!(reparsed, Ok(tokens));
    assert_eq!(reparsed, Err(CgmError::ParseIntegerError("1+2-4".to_string())));
}

#[test]
fn render_stops_at_end_token() {
    let tokens = vec![TokenRepr::Number(1), TokenRepr::End, TokenRepr::Number(2)];
    assert_eq!(TokenRepr::to_expression(&tokens), "1");
}

#[test]
fn render_end_symbol_as_newline() {
    let tokens = vec![
        TokenRepr::Number(1),
        TokenRepr::Symbol(Symb::End),
        TokenRepr::Number(2),
    ];
    assert_eq!(TokenRepr::to_expression(&tokens), "1\n2");
}

#[test]
fn evaluate_skips_end_token() {
    let tokens = vec![TokenRepr::Number(1), TokenRepr::End, TokenRepr::Number(2)];
    let steps = TokenRepr::evaluation_steps(&tokens);
    assert_eq!(steps, vec![Step::Add(1), Step::Add(2)]);
    assert_eq!(fold_steps(&steps), 3.0);
}

#[test]
fn evaluate_treats_structural_symbols_as_no_ops() {
    let tokens = vec![
        TokenRepr::Number(5),
        TokenRepr::Symbol(Symb::Equals),
        TokenRepr::Number(7),
    ];
    let steps = TokenRepr::evaluation_steps(&tokens);
    assert_eq!(steps, vec![Step::Add(5)]);
    let tokens = vec![
        TokenRepr::Symbol(Symb::LeftBracket),
        TokenRepr::Number(5),
        TokenRepr::Symbol(Symb::RightBracket),
        TokenRepr::Number(7),
    ];
    let steps = TokenRepr::evaluation_steps(&tokens);
    assert_eq!(steps, vec![]);
}

#[test]
fn evaluate_division() {
    let tokens = vec![
        TokenRepr::Number(9),
        TokenRepr::Symbol(Symb::Division),
        TokenRepr::Number(2),
    ];
    let steps = TokenRepr::evaluation_steps(&tokens);
    assert_eq!(steps, vec![Step::Add(9), Step::Div(2)]);
    assert_eq!(fold_steps(&steps), 4.5);
}

#[test]
fn evaluate_division_by_zero_is_infinite() {
    let tokens = vec![
        TokenRepr::Number(1),
        TokenRepr::Symbol(Symb::Division),
        TokenRepr::Number(0),
    ];
    let steps = TokenRepr::evaluation_steps(&tokens);
    let answer = fold_steps(&steps);
    assert!(answer.is_infinite());
    assert!(answer > 0.0);
}

#[test]
fn parse_accepts_structural_symbols() {
    let tokens = TokenRepr::from_expression("( 1 + 2 ) = 3").unwrap();
    assert_eq!(
        tokens,
        vec![
            TokenRepr::Symbol(Symb::LeftBracket),
            TokenRepr::Number(1),
            TokenRepr::Symbol(Symb::Plus),
            TokenRepr::Number(2),
            TokenRepr::Symbol(Symb::RightBracket),
            TokenRepr::Symbol(Symb::Equals),
            TokenRepr::Number(3),
        ]
    );
}

#[test]
fn parse_accepts_any_whitespace_runs() {
    let tokens = TokenRepr::from_expression("  7 \t *\n 8 ").unwrap();
    assert_eq!(
        tokens,
        vec![
            TokenRepr::Number(7),
            TokenRepr::Symbol(Symb::Multiplication),
            TokenRepr::Number(8),
        ]
    );
}

#[test]
fn parse_of_blank_input_is_empty() {
    assert_eq!(TokenRepr::from_expression(""), Ok(vec![]));
    assert_eq!(TokenRepr::from_expression("   "), Ok(vec![]));
}

#[test]
fn parse_bounds_of_unsigned_integers() {
    let tokens = TokenRepr::from_expression("4294967295").unwrap();
    assert_eq!(tokens, vec![TokenRepr::Number(u32::MAX)]);
    let r = TokenRepr::from_expression("4294967296");
    assert_eq!(r, Err(CgmError::ParseIntegerError("4294967296".to_string())));
}

#[test]
fn parse_accepts_leading_zeros() {
    let tokens = TokenRepr::from_expression("0012 + 0").unwrap();
    assert_eq!(
        tokens,
        vec![TokenRepr::Number(12), TokenRepr::Symbol(Symb::Plus), TokenRepr::Number(0)]
    );
}

#[test]
fn parse_rejects_signed_number_word() {
    let r = TokenRepr::from_expression("+5");
    assert_eq!(r, Err(CgmError::ParseIntegerError("+5".to_string())));
}

#[test]
fn error_messages_name_the_offending_word() {
    let e = CgmError::ParseIntegerError("x".to_string());
    assert_eq!(e.message(), "invalid integer token x");
    let e = CgmError::ParseFloatError("y".to_string());
    assert_eq!(e.message(), "invalid float token y");
    let e = CgmError::UnknownToken("z".to_string());
    assert_eq!(e.message(), "unknown token z");
}

#[test]
fn symbol_display_characters() {
    assert_eq!(Symb::Plus.display_char(), '+');
    assert_eq!(Symb::Minus.display_char(), '-');
    assert_eq!(Symb::Multiplication.display_char(), '*');
    assert_eq!(Symb::Division.display_char(), '/');
    assert_eq!(Symb::Equals.display_char(), '=');
    assert_eq!(Symb::LeftBracket.display_char(), '(');
    assert_eq!(Symb::RightBracket.display_char(), ')');
    assert_eq!(Symb::End.display_char(), '\n');
}

#[test]
fn render_multi_digit_numbers() {
    let tokens = vec![
        TokenRepr::Number(120),
        TokenRepr::Symbol(Symb::Plus),
        TokenRepr::Number(0),
    ];
    assert_eq!(TokenRepr::to_expression(&tokens), "120+0");
}
