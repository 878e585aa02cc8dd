//! Random problem generation: operands sampled within a level's bound, paired
//! with an operation into a token sequence, and packaged with the rendered
//! expression text.

use vstd::prelude::*;

use rand::RngExt;

use crate::evaluate::evaluation_plan;
use crate::evaluate::lemma_simple_addition_bound;
use crate::evaluate::operand_total;
use crate::serialize::TrimPolicy;
use crate::serialize::lemma_trimmed_len;
use crate::serialize::pair_with;
use crate::serialize::paired_tokens;
use crate::serialize::render_tokens;
use crate::token::ProblemLevel;
use crate::token::ProblemType;
use crate::token::TokenRepr;
use crate::token::level_bound;
use crate::token::level_ordinal;

verus! {

/// Relies on `rand::rng` and `rand::RngExt::random_range`: a sample drawn
/// uniformly from the inclusive range, which panics only on an empty range.
#[verifier::external_body]
fn sample_inclusive(lo: u32, hi: u32) -> (r: u32)
    requires
        lo <= hi,
    ensures
        lo <= r <= hi,
{
    rand::rng().random_range(lo..=hi)
}

/// How many operands a problem takes: always two in simple mode, or as many
/// as the level's ordinal (but never fewer than two) in extended mode.
#[derive(Clone, Copy, Debug, PartialEq, Eq, Structural)]
pub enum GenerationMode {
    Simple,
    Extended,
}

/// The operand count of a level under a generation mode.
pub open spec fn operand_count(pl: ProblemLevel, mode: GenerationMode) -> nat {
    match mode {
        GenerationMode::Simple => 2,
        GenerationMode::Extended => if level_ordinal(pl) >= 2 {
            level_ordinal(pl)
        } else {
            2
        },
    }
}

/// A well-bounded operand list for a level: the count the mode asks for, each
/// operand at least one and at most the level's ceiling.
pub open spec fn operands_for(ns: Seq<u32>, pl: ProblemLevel, mode: GenerationMode) -> bool {
    &&& ns.len() == operand_count(pl, mode)
    &&& forall|k: int| 0 <= k < ns.len() ==> 1 <= #[trigger] ns[k] <= level_bound(pl)
}

/// Draws the operands of a problem: each sampled independently from one to
/// the level's ceiling inclusive, with the count the mode asks for.
pub fn generate_numbers_in_mode(pl: ProblemLevel, mode: GenerationMode) -> (r: Vec<u32>)
    ensures
        operands_for(r@, pl, mode),
{
    let count: usize = match mode {
        GenerationMode::Simple => 2,
        GenerationMode::Extended => {
            let o = pl.ordinal();
            if o >= 2 {
                o as usize
            } else {
                2
            }
        },
    };
    let max_value = pl.operand_bound();
    let mut ns: Vec<u32> = Vec::new();
    while ns.len() < count
        invariant
            ns@.len() <= count,
            count == operand_count(pl, mode),
            max_value == level_bound(pl),
            forall|k: int| 0 <= k < ns@.len() ==> 1 <= #[trigger] ns@[k] <= level_bound(pl),
        decreases count - ns.len(),
    {
        ns.push(sample_inclusive(1, max_value));
    }
    ns
}

/// Draws the operands of a problem in extended mode, the mode problem
/// assembly uses.
pub fn generate_numbers(pl: ProblemLevel) -> (r: Vec<u32>)
    ensures
        operands_for(r@, pl, GenerationMode::Extended),
{
    generate_numbers_in_mode(pl, GenerationMode::Extended)
}

/// A generated problem: its token sequence and, derived from it, the rendered
/// expression text. The token sequence is the source of truth.
#[derive(Clone, Debug)]
pub struct Question {
    stringified: String,
    repr: Vec<TokenRepr>,
}

impl Question {
    /// The backing token sequence.
    pub closed spec fn tokens_view(self) -> Seq<TokenRepr> {
        self.repr@
    }

    /// The rendered expression text.
    pub closed spec fn text_view(self) -> Seq<char> {
        self.stringified@
    }

    /// The text is exactly the rendering of the token sequence.
    pub open spec fn wf(self) -> bool {
        self.text_view() == render_tokens(self.tokens_view())
    }

    /// Packages a token sequence with its rendered text.
    pub fn new(repr: Vec<TokenRepr>) -> (q: Question)
        ensures
            q.tokens_view() == repr@,
            q.wf(),
    {
        let stringified = TokenRepr::to_expression(&repr);
        Question { stringified, repr }
    }

    /// The backing token sequence.
    pub fn tokens(&self) -> (r: &Vec<TokenRepr>)
        ensures
            r@ == self.tokens_view(),
    {
        &self.repr
    }

    /// The rendered expression text.
    pub fn expression(&self) -> (r: &String)
        ensures
            r@ == self.text_view(),
    {
        &self.stringified
    }
}

impl Default for Question {
    /// The empty question: no tokens, empty text.
    fn default() -> (q: Self)
        ensures
            q.tokens_view() == Seq::<TokenRepr>::empty(),
            q.wf(),
    {
        Question { stringified: String::new(), repr: Vec::new() }
    }
}

/// Builds a problem of the given level and operation: draws the operands in
/// extended mode, pairs each with the operation, trims the trailing operator,
/// and renders the expression text.
pub fn problems(pl: ProblemLevel, pt: ProblemType) -> (q: Question)
    ensures
        q.wf(),
        exists|ns: Seq<u32>|
            operands_for(ns, pl, GenerationMode::Extended) && q.tokens_view() == paired_tokens(
                pair_with(ns, pt),
                TrimPolicy::Trimmed,
            ),
        q.tokens_view().len() == 2 * operand_count(pl, GenerationMode::Extended) - 1,
{
    let n = generate_numbers(pl);
    let ghost ns = n@;
    let mut v: Vec<(u32, ProblemType)> = Vec::new();
    let mut i: usize = 0;
    while i < n.len()
        invariant
            i <= n.len(),
            n@ == ns,
            v@.len() == i,
            forall|k: int| 0 <= k < i ==> #[trigger] v@[k] == (ns[k], pt),
        decreases n.len() - i,
    {
        v.push((n[i], pt));
        i = i + 1;
    }
    proof {
        assert(v@ =~= pair_with(ns, pt));
        lemma_trimmed_len(pair_with(ns, pt));
    }
    let tokens = TokenRepr::from_problem(v);
    let q = Question::new(tokens);
    proof {
        assert(operands_for(ns, pl, GenerationMode::Extended) && q.tokens_view() == paired_tokens(
            pair_with(ns, pt),
            TrimPolicy::Trimmed,
        ));
    }
    q
}

/// The answer of a level-one addition problem never exceeds twenty: such a
/// problem adds two operands of at most ten each, so the total its evaluation
/// plan accumulates lies between one and twenty. The bound transfers exactly
/// to any numeric carrier that adds such small integers without rounding.
pub proof fn lemma_level_one_addition_question(q: Question)
    requires
        exists|ns: Seq<u32>|
            operands_for(ns, ProblemLevel::One, GenerationMode::Extended) && q.tokens_view()
                == paired_tokens(pair_with(ns, ProblemType::Addition), TrimPolicy::Trimmed),
    ensures
        0 < operand_total(evaluation_plan(q.tokens_view())) <= 20,
{
    let ns = choose|ns: Seq<u32>|
        operands_for(ns, ProblemLevel::One, GenerationMode::Extended) && q.tokens_view()
            == paired_tokens(pair_with(ns, ProblemType::Addition), TrimPolicy::Trimmed);
    lemma_simple_addition_bound(ns);
}

/// The difficulty level and operation type a caller asks a problem for;
/// defaults to level one and addition.
#[derive(Clone, Copy, Debug)]
pub struct Request {
    plevel: ProblemLevel,
    ptype: ProblemType,
}

impl Request {
    /// The requested difficulty level.
    pub closed spec fn spec_plevel(self) -> ProblemLevel {
        self.plevel
    }

    /// The requested operation type.
    pub closed spec fn spec_ptype(self) -> ProblemType {
        self.ptype
    }

    /// A request for the given level and operation.
    pub fn new(plevel: ProblemLevel, ptype: ProblemType) -> (r: Request)
        ensures
            r.spec_plevel() == plevel,
            r.spec_ptype() == ptype,
    {
        Request { plevel, ptype }
    }

    /// The requested difficulty level.
    pub fn plevel(&self) -> (r: ProblemLevel)
        ensures
            r == self.spec_plevel(),
    {
        self.plevel
    }

    /// The requested operation type.
    pub fn ptype(&self) -> (r: ProblemType)
        ensures
            r == self.spec_ptype(),
    {
        self.ptype
    }
}

impl Default for Request {
    /// The default request: level one, addition.
    fn default() -> (r: Self)
        ensures
            r.spec_plevel() == ProblemLevel::One,
            r.spec_ptype() == ProblemType::Addition,
    {
        Request { plevel: ProblemLevel::One, ptype: ProblemType::Addition }
    }
}

} // verus!
