//! Left-to-right evaluation of a token sequence, with no operator precedence.
//!
//! Walking the tokens yields a plan of accumulator updates: each `Number`
//! applies the pending operator to the accumulator, each `Symbol` replaces the
//! pending operator, and the `End` token is skipped (the evaluator, unlike the
//! renderer, does not stop at it). A pending structural marker (equals or a
//! bracket) applies as a no-op, and the initial `End` pending state applies as
//! an addition. The numeric fold over the plan is left to the caller, which
//! keeps the carrier type (the original design accumulates in single-precision
//! floating point) out of the verified walk.

use vstd::prelude::*;

use crate::serialize::TrimPolicy;
use crate::serialize::pair_with;
use crate::serialize::paired_tokens;
use crate::serialize::untrimmed_tokens;
use crate::token::ProblemType;
use crate::token::Symb;
use crate::token::TokenRepr;

verus! {

/// One accumulator update of the evaluation plan: add, subtract, multiply by
/// or divide by the operand.
#[derive(Clone, Copy, Debug, PartialEq, Eq, Structural)]
pub enum Step {
    Add(u32),
    Sub(u32),
    Mul(u32),
    Div(u32),
}

/// The operand a step carries, whatever its kind.
pub open spec fn step_operand(s: Step) -> u32 {
    match s {
        Step::Add(n) => n,
        Step::Sub(n) => n,
        Step::Mul(n) => n,
        Step::Div(n) => n,
    }
}

/// The steps a number emits under a pending symbol: the sentinel and `Plus`
/// add, the other arithmetic operators map to their step, and a structural
/// marker emits nothing (the accumulator is unchanged).
pub open spec fn pending_step(pending: Symb, n: u32) -> Seq<Step> {
    match pending {
        Symb::Plus => seq![Step::Add(n)],
        Symb::Minus => seq![Step::Sub(n)],
        Symb::Multiplication => seq![Step::Mul(n)],
        Symb::Division => seq![Step::Div(n)],
        Symb::End => seq![Step::Add(n)],
        Symb::Equals => Seq::empty(),
        Symb::LeftBracket => Seq::empty(),
        Symb::RightBracket => Seq::empty(),
    }
}

/// The evaluation plan of a token sequence, given the pending operator.
pub open spec fn steps_from(ts: Seq<TokenRepr>, pending: Symb) -> Seq<Step>
    decreases ts.len(),
{
    if ts.len() == 0 {
        Seq::empty()
    } else {
        match ts[0] {
            TokenRepr::Symbol(s) => steps_from(ts.drop_first(), s),
            TokenRepr::Number(n) => pending_step(pending, n) + steps_from(ts.drop_first(), pending),
            TokenRepr::End => steps_from(ts.drop_first(), pending),
        }
    }
}

/// The evaluation plan of a token sequence, starting from the sentinel
/// pending state (so a leading number is added to the zero accumulator).
pub open spec fn evaluation_plan(ts: Seq<TokenRepr>) -> Seq<Step> {
    steps_from(ts, Symb::End)
}

/// The total of the operands a plan's steps carry.
pub open spec fn operand_total(steps: Seq<Step>) -> int
    decreases steps.len(),
{
    if steps.len() == 0 {
        0
    } else {
        operand_total(steps.drop_last()) + step_operand(steps.last())
    }
}

/// A two-operand addition problem with operands of at most ten evaluates by
/// adding each operand once, and the total added stays between one and
/// twenty. Level-one problems draw two operands of at most ten, so their
/// additive answer never exceeds twenty (exactly so in any numeric carrier
/// that adds small integers without rounding).
pub proof fn lemma_simple_addition_bound(ns: Seq<u32>)
    requires
        ns.len() == 2,
        forall|k: int| 0 <= k < ns.len() ==> 1 <= #[trigger] ns[k] <= 10,
    ensures
        evaluation_plan(paired_tokens(pair_with(ns, ProblemType::Addition), TrimPolicy::Trimmed))
            == seq![Step::Add(ns[0]), Step::Add(ns[1])],
        0 < operand_total(
            evaluation_plan(
                paired_tokens(pair_with(ns, ProblemType::Addition), TrimPolicy::Trimmed),
            ),
        ) <= 20,
{
    reveal_with_fuel(untrimmed_tokens, 3);
    reveal_with_fuel(steps_from, 5);
    reveal_with_fuel(operand_total, 3);
    let pairs = pair_with(ns, ProblemType::Addition);
    let tokens = paired_tokens(pairs, TrimPolicy::Trimmed);
    assert(pairs.drop_last().drop_last() =~= Seq::<(u32, ProblemType)>::empty());
    assert(pairs.drop_last().last() == (ns[0], ProblemType::Addition));
    assert(untrimmed_tokens(pairs) =~= seq![
        TokenRepr::Number(ns[0]),
        TokenRepr::Symbol(Symb::Plus),
        TokenRepr::Number(ns[1]),
        TokenRepr::Symbol(Symb::Plus),
    ]);
    assert(tokens =~= seq![
        TokenRepr::Number(ns[0]),
        TokenRepr::Symbol(Symb::Plus),
        TokenRepr::Number(ns[1]),
    ]);
    let t1 = seq![TokenRepr::Symbol(Symb::Plus), TokenRepr::Number(ns[1])];
    let t2 = seq![TokenRepr::Number(ns[1])];
    assert(tokens.drop_first() =~= t1);
    assert(t1.drop_first() =~= t2);
    assert(t2.drop_first() =~= Seq::<TokenRepr>::empty());
    assert(steps_from(t2, Symb::Plus) =~= seq![Step::Add(ns[1])]);
    assert(steps_from(t1, Symb::End) =~= seq![Step::Add(ns[1])]);
    assert(steps_from(tokens, Symb::End) =~= seq![Step::Add(ns[0]), Step::Add(ns[1])]);
    let plan = seq![Step::Add(ns[0]), Step::Add(ns[1])];
    assert(plan.drop_last() =~= seq![Step::Add(ns[0])]);
    assert(plan.drop_last().drop_last() =~= Seq::<Step>::empty());
    assert(operand_total(plan) == ns[0] + ns[1]);
}

impl TokenRepr {
    /// Walks the token sequence left to right and returns its evaluation
    /// plan: the exact accumulator updates, in order, that evaluating the
    /// sequence performs.
    pub fn evaluation_steps(tokens: &Vec<TokenRepr>) -> (r: Vec<Step>)
        ensures
            r@ == evaluation_plan(tokens@),
    {
        let mut steps: Vec<Step> = Vec::new();
        let mut pending: Symb = Symb::End;
        let mut i: usize = 0;
        proof {
            assert(tokens@.skip(0) =~= tokens@);
            assert(Seq::<Step>::empty() + steps_from(tokens@, Symb::End) =~= steps_from(
                tokens@,
                Symb::End,
            ));
        }
        while i < tokens.len()
            invariant
                i <= tokens.len(),
                evaluation_plan(tokens@) == steps@ + steps_from(tokens@.skip(i as int), pending),
            decreases tokens.len() - i,
        {
            proof {
                assert(tokens@.skip(i as int).drop_first() =~= tokens@.skip(i as int + 1));
                assert(tokens@.skip(i as int)[0] == tokens@[i as int]);
            }
            match &tokens[i] {
                TokenRepr::Symbol(s) => {
                    pending = *s;
                },
                TokenRepr::Number(n) => {
                    match pending {
                        Symb::Plus => steps.push(Step::Add(*n)),
                        Symb::Minus => steps.push(Step::Sub(*n)),
                        Symb::Multiplication => steps.push(Step::Mul(*n)),
                        Symb::Division => steps.push(Step::Div(*n)),
                        Symb::End => steps.push(Step::Add(*n)),
                        Symb::Equals => (),
                        Symb::LeftBracket => (),
                        Symb::RightBracket => (),
                    }
                },
                TokenRepr::End => (),
            }
            i = i + 1;
        }
        proof {
            assert(steps@ + steps_from(tokens@.skip(i as int), pending) =~= steps@);
        }
        steps
    }
}

} // verus!
