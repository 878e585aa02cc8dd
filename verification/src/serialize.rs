//! Tokens to expression text and back: the pairing rule that builds a token
//! sequence from operands, the compact renderer, and decimal digits.
//!
//! Rendering inserts no separators, so its output is in general not valid
//! input to the whitespace-delimited parser; the two serve different purposes
//! (display and structured input) and are deliberately not inverses.

use vstd::prelude::*;

use crate::token::ProblemType;
use crate::token::Symb;
use crate::token::TokenRepr;
use crate::token::symb_char;
use crate::token::symbol_of_type;

verus! {

/// The character of a decimal digit.
pub open spec fn digit_char(d: nat) -> char {
    if d == 0 {
        '0'
    } else if d == 1 {
        '1'
    } else if d == 2 {
        '2'
    } else if d == 3 {
        '3'
    } else if d == 4 {
        '4'
    } else if d == 5 {
        '5'
    } else if d == 6 {
        '6'
    } else if d == 7 {
        '7'
    } else if d == 8 {
        '8'
    } else {
        '9'
    }
}

/// The decimal digits of a number, most significant first, with no leading
/// zeros (zero itself renders as a single digit).
pub open spec fn dec_digits(n: nat) -> Seq<char>
    decreases n,
{
    if n < 10 {
        seq![digit_char(n)]
    } else {
        dec_digits(n / 10) + seq![digit_char(n % 10)]
    }
}

fn digit_to_char(d: u32) -> (c: char)
    requires
        d < 10,
    ensures
        c == digit_char(d as nat),
{
    match d {
        0 => '0',
        1 => '1',
        2 => '2',
        3 => '3',
        4 => '4',
        5 => '5',
        6 => '6',
        7 => '7',
        8 => '8',
        _ => '9',
    }
}

/// Relies on `String::push`: appends exactly the given character.
#[verifier::external_body]
pub(crate) fn push_char(s: &mut String, c: char)
    ensures
        final(s)@ == old(s)@.push(c),
{
    s.push(c);
}

/// Appends the decimal rendering of `n`.
fn push_decimal(n: u32, out: &mut String)
    ensures
        final(out)@ == old(out)@ + dec_digits(n as nat),
    decreases n,
{
    if n < 10 {
        push_char(out, digit_to_char(n));
        proof {
            assert(old(out)@.push(digit_char(n as nat)) =~= old(out)@ + dec_digits(n as nat));
        }
    } else {
        push_decimal(n / 10, out);
        push_char(out, digit_to_char(n % 10));
        proof {
            assert((old(out)@ + dec_digits((n / 10) as nat)).push(digit_char((n % 10) as nat)) =~= old(
                out,
            )@ + dec_digits(n as nat));
        }
    }
}

/// The rendering of one token: a symbol's character, a number's decimal
/// digits, or nothing for the end sentinel.
pub open spec fn render_token(t: TokenRepr) -> Seq<char> {
    match t {
        TokenRepr::Symbol(s) => seq![symb_char(s)],
        TokenRepr::Number(n) => dec_digits(n as nat),
        TokenRepr::End => Seq::empty(),
    }
}

/// The compact rendering of a token sequence, with no separators. The first
/// `End` token stops rendering: nothing after it appears in the text. (A
/// `Symbol(End)` token, by contrast, renders as a newline and does not stop
/// rendering.)
pub open spec fn render_tokens(ts: Seq<TokenRepr>) -> Seq<char>
    decreases ts.len(),
{
    if ts.len() == 0 {
        Seq::empty()
    } else {
        match ts[0] {
            TokenRepr::End => Seq::empty(),
            _ => render_token(ts[0]) + render_tokens(ts.drop_first()),
        }
    }
}

/// Whether the trailing operator left by naive pairing is dropped.
///
/// `Trimmed` sequences end on a number and render to a syntactically complete
/// expression; `Untrimmed` sequences keep the dangling operator, which the
/// evaluator tolerates (it has no following number to apply it to).
#[derive(Clone, Copy, Debug, PartialEq, Eq, Structural)]
pub enum TrimPolicy {
    Trimmed,
    Untrimmed,
}

/// Naive pairing of operands with an operation: `Number, Symbol` for each
/// operand in order, ending on the operation's symbol.
pub open spec fn untrimmed_tokens(pairs: Seq<(u32, ProblemType)>) -> Seq<TokenRepr>
    decreases pairs.len(),
{
    if pairs.len() == 0 {
        Seq::empty()
    } else {
        untrimmed_tokens(pairs.drop_last()) + seq![
            TokenRepr::Number(pairs.last().0),
            TokenRepr::Symbol(symbol_of_type(pairs.last().1)),
        ]
    }
}

/// The token sequence of an operand/operation pairing under a trim policy.
pub open spec fn paired_tokens(pairs: Seq<(u32, ProblemType)>, policy: TrimPolicy) -> Seq<
    TokenRepr,
> {
    let full = untrimmed_tokens(pairs);
    match policy {
        TrimPolicy::Untrimmed => full,
        TrimPolicy::Trimmed => if full.len() == 0 {
            full
        } else {
            full.drop_last()
        },
    }
}

/// Pairing each operand with the operation.
pub open spec fn pair_with(ns: Seq<u32>, pt: ProblemType) -> Seq<(u32, ProblemType)> {
    Seq::new(ns.len(), |i: int| (ns[i], pt))
}

/// Naive pairing emits two tokens per operand.
pub proof fn lemma_untrimmed_len(pairs: Seq<(u32, ProblemType)>)
    ensures
        untrimmed_tokens(pairs).len() == 2 * pairs.len(),
    decreases pairs.len(),
{
    if pairs.len() > 0 {
        lemma_untrimmed_len(pairs.drop_last());
    }
}

/// A trimmed pairing of one or more operands emits two tokens per operand,
/// less the dropped trailing operator.
pub proof fn lemma_trimmed_len(pairs: Seq<(u32, ProblemType)>)
    requires
        pairs.len() > 0,
    ensures
        paired_tokens(pairs, TrimPolicy::Trimmed).len() == 2 * pairs.len() - 1,
{
    lemma_untrimmed_len(pairs);
}

impl TokenRepr {
    /// Pairs each operand with the operation and returns the token sequence,
    /// trimmed or not according to the policy.
    pub fn paired(pairs: &Vec<(u32, ProblemType)>, policy: TrimPolicy) -> (r: Vec<TokenRepr>)
        ensures
            r@ == paired_tokens(pairs@, policy),
    {
        let mut tokens: Vec<TokenRepr> = Vec::new();
        let mut i: usize = 0;
        proof {
            assert(pairs@.take(0) =~= Seq::<(u32, ProblemType)>::empty());
        }
        while i < pairs.len()
            invariant
                i <= pairs.len(),
                tokens@ == untrimmed_tokens(pairs@.take(i as int)),
            decreases pairs.len() - i,
        {
            let (number, pt) = pairs[i];
            tokens.push(TokenRepr::Number(number));
            tokens.push(TokenRepr::Symbol(Symb::from(pt)));
            proof {
                assert(pairs@.take(i as int + 1).drop_last() =~= pairs@.take(i as int));
                assert(pairs@.take(i as int + 1).last() == pairs@[i as int]);
                assert(tokens@ =~= untrimmed_tokens(pairs@.take(i as int + 1)));
            }
            i = i + 1;
        }
        proof {
            assert(pairs@.take(pairs@.len() as int) =~= pairs@);
        }
        match policy {
            TrimPolicy::Trimmed => {
                let _ = tokens.pop();
            },
            TrimPolicy::Untrimmed => (),
        }
        tokens
    }

    /// Pairs each operand with the operation and drops the trailing operator,
    /// so the sequence ends on a number.
    pub fn from_problem(n: Vec<(u32, ProblemType)>) -> (r: Vec<TokenRepr>)
        ensures
            r@ == paired_tokens(n@, TrimPolicy::Trimmed),
    {
        TokenRepr::paired(&n, TrimPolicy::Trimmed)
    }

    /// Renders the token sequence to its compact expression text, stopping at
    /// the first `End` token.
    pub fn to_expression(tokens: &Vec<TokenRepr>) -> (r: String)
        ensures
            r@ == render_tokens(tokens@),
    {
        let mut out = String::new();
        let mut i: usize = 0;
        proof {
            assert(tokens@.skip(0) =~= tokens@);
            assert(Seq::<char>::empty() + render_tokens(tokens@) =~= render_tokens(tokens@));
        }
        while i < tokens.len()
            invariant
                i <= tokens.len(),
                render_tokens(tokens@) == out@ + render_tokens(tokens@.skip(i as int)),
            decreases tokens.len() - i,
        {
            proof {
                assert(tokens@.skip(i as int).drop_first() =~= tokens@.skip(i as int + 1));
                assert(tokens@.skip(i as int)[0] == tokens@[i as int]);
            }
            match &tokens[i] {
                TokenRepr::Symbol(s) => {
                    push_char(&mut out, s.display_char());
                },
                TokenRepr::Number(n) => {
                    push_decimal(*n, &mut out);
                },
                TokenRepr::End => {
                    proof {
                        assert(out@ + render_tokens(tokens@.skip(i as int)) =~= out@);
                    }
                    return out;
                },
            }
            i = i + 1;
        }
        proof {
            assert(out@ + render_tokens(tokens@.skip(i as int)) =~= out@);
        }
        out
    }
}

} // verus!
