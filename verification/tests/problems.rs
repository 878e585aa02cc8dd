use cmg::GenerationMode;
use cmg::ProblemLevel;
use cmg::ProblemType;
use cmg::Request;
use cmg::Step;
use cmg::Symb;
use cmg::TokenRepr;
use cmg::TrimPolicy;
use cmg::generate_numbers;
use cmg::generate_numbers_in_mode;
use cmg::problems;

fn fold_steps(steps: &[Step]) -> f32 {
    let mut n: f32 = 0.0;
    for step in steps {
        match step {
            Step::Add(z) => n += *z as f32,
            Step::Sub(z) => n -= *z as f32,
            Step::Mul(z) => n *= *z as f32,
            Step::Div(z) => n /= *z as f32,
        }
    }
    n
}

#[test]
fn generate_problems() {
    for _ in 0..=100 {
        let n = generate_numbers(ProblemLevel::One);
        assert!(!n.iter().any(|n| *n > 10), "{:?}", n);
    }
}

#[test]
fn problem_three() {
    let pl = ProblemLevel::Three;
    let r = problems(pl, ProblemType::Addition);
    assert_eq!(r.tokens().len(), 5, "{:?}", r);
}

#[test]
fn operand_counts_by_mode() {
    assert_eq!(generate_numbers_in_mode(ProblemLevel::One, GenerationMode::Simple).len(), 2);
    assert_eq!(generate_numbers_in_mode(ProblemLevel::Three, GenerationMode::Simple).len(), 2);
    assert_eq!(generate_numbers_in_mode(ProblemLevel::One, GenerationMode::Extended).len(), 2);
    assert_eq!(generate_numbers_in_mode(ProblemLevel::Two, GenerationMode::Extended).len(), 2);
    assert_eq!(generate_numbers_in_mode(ProblemLevel::Three, GenerationMode::Extended).len(), 3);
}

#[test]
fn operands_stay_within_level_bound() {
    for _ in 0..50 {
        for (level, bound) in [
            (ProblemLevel::One, 10),
            (ProblemLevel::Two, 100),
            (ProblemLevel::Three, 1000),
        ] {
            let ns = generate_numbers(level);
            for z in ns {
                assert!(1 <= z && z <= bound, "{:?}", z);
            }
        }
    }
}

#[test]
fn level_one_addition_answer_at_most_twenty() {
    for _ in 0..100 {
        let q = problems(ProblemLevel::One, ProblemType::Addition);
        let steps = TokenRepr::evaluation_steps(q.tokens());
        let answer = fold_steps(&steps);
        assert!(answer <= 20.0, "{:?}", q);
        assert!(answer > 0.0, "{:?}", q);
    }
}

#[test]
fn pairing_untrimmed_keeps_trailing_operator() {
    let pairs = vec![(1, ProblemType::Addition), (2, ProblemType::Addition)];
    let tokens = TokenRepr::paired(&pairs, TrimPolicy::Untrimmed);
    assert_eq!(
        tokens,
        vec![
            TokenRepr::Number(1),
            TokenRepr::Symbol(Symb::Plus),
            TokenRepr::Number(2),
            TokenRepr::Symbol(Symb::Plus),
        ]
    );
}

#[test]
fn pairing_trimmed_ends_on_number() {
    let pairs = vec![(1, ProblemType::Subtraction), (2, ProblemType::Subtraction)];
    let tokens = TokenRepr::from_problem(pairs);
    assert_eq!(
        tokens,
        vec![TokenRepr::Number(1), TokenRepr::Symbol(Symb::Minus), TokenRepr::Number(2)]
    );
}

#[test]
fn pairing_of_nothing_is_empty() {
    let tokens = TokenRepr::from_problem(Vec::new());
    assert!(tokens.is_empty());
}

#[test]
fn question_expression_matches_tokens() {
    let q = problems(ProblemLevel::Two, ProblemType::Multiplication);
    assert_eq!(q.expression(), &TokenRepr::to_expression(q.tokens()));
}

#[test]
fn request_defaults_to_level_one_addition() {
    let r = Request::default();
    assert_eq!(r.plevel(), ProblemLevel::One);
    assert_eq!(r.ptype(), ProblemType::Addition);
    let r2 = Request::new(ProblemLevel::Three, ProblemType::Division);
    assert_eq!(r2.plevel(), ProblemLevel::Three);
    assert_eq!(r2.ptype(), ProblemType::Division);
}

#[test]
fn operation_maps_to_its_symbol() {
    assert_eq!(Symb::from(ProblemType::Addition), Symb::Plus);
    assert_eq!(Symb::from(ProblemType::Subtraction), Symb::Minus);
    assert_eq!(Symb::from(ProblemType::Multiplication), Symb::Multiplication);
    assert_eq!(Symb::from(ProblemType::Division), Symb::Division);
}
