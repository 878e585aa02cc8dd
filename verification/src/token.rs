//! The token vocabulary: operator and structural symbols, tokens, difficulty
//! levels, operation types, and the error taxonomy of the parser.

use vstd::prelude::*;
use vstd::string::StringExecFns;

verus! {

/// Operator and structural-marker vocabulary of a problem expression.
///
/// `Plus`, `Minus`, `Multiplication` and `Division` are arithmetic operators;
/// `Equals`, `LeftBracket` and `RightBracket` are structural markers that the
/// evaluator treats as no-ops; `End` is the sentinel (and default) value.
#[derive(Clone, Copy, Debug, PartialEq, Eq, Structural, Default)]
pub enum Symb {
    Plus,
    Minus,
    Multiplication,
    Division,
    Equals,
    LeftBracket,
    RightBracket,
    #[default]
    End,
}

/// The exact one-character rendering of a symbol; `End` renders as a newline.
pub open spec fn symb_char(s: Symb) -> char {
    match s {
        Symb::Plus => '+',
        Symb::Minus => '-',
        Symb::Multiplication => '*',
        Symb::Division => '/',
        Symb::Equals => '=',
        Symb::LeftBracket => '(',
        Symb::RightBracket => ')',
        Symb::End => '\n',
    }
}

impl Symb {
    /// The character this symbol renders to.
    pub fn display_char(&self) -> (c: char)
        ensures
            c == symb_char(*self),
    {
        match self {
            Symb::Plus => '+',
            Symb::Minus => '-',
            Symb::Multiplication => '*',
            Symb::Division => '/',
            Symb::Equals => '=',
            Symb::LeftBracket => '(',
            Symb::RightBracket => ')',
            Symb::End => '\n',
        }
    }

    /// True of the four operators that change the evaluation accumulator.
    pub open spec fn is_arithmetic(self) -> bool {
        self == Symb::Plus || self == Symb::Minus || self == Symb::Multiplication
            || self == Symb::Division
    }

    /// True of the markers the evaluator accepts but ignores.
    pub open spec fn is_structural(self) -> bool {
        self == Symb::Equals || self == Symb::LeftBracket || self == Symb::RightBracket
    }
}

/// Difficulty level of a generated problem; `One` is the default.
#[derive(Clone, Copy, Debug, PartialEq, Eq, Structural, Default)]
pub enum ProblemLevel {
    #[default]
    One,
    Two,
    Three,
}

/// The ordinal of a level: 1, 2 or 3.
pub open spec fn level_ordinal(pl: ProblemLevel) -> nat {
    match pl {
        ProblemLevel::One => 1,
        ProblemLevel::Two => 2,
        ProblemLevel::Three => 3,
    }
}

/// The operand magnitude ceiling of a level: ten to the power of its ordinal.
pub open spec fn level_bound(pl: ProblemLevel) -> nat {
    match pl {
        ProblemLevel::One => 10,
        ProblemLevel::Two => 100,
        ProblemLevel::Three => 1000,
    }
}

/// The ceiling is exactly `10^ordinal` for every level.
pub proof fn lemma_level_bound_is_pow10(pl: ProblemLevel)
    ensures
        level_bound(pl) == vstd::arithmetic::power::pow(10, level_ordinal(pl)),
{
    reveal_with_fuel(vstd::arithmetic::power::pow, 4);
}

impl ProblemLevel {
    /// The ordinal of this level.
    pub fn ordinal(&self) -> (n: u32)
        ensures
            n == level_ordinal(*self),
    {
        match self {
            ProblemLevel::One => 1,
            ProblemLevel::Two => 2,
            ProblemLevel::Three => 3,
        }
    }

    /// The largest operand a problem of this level may hold.
    pub fn operand_bound(&self) -> (m: u32)
        ensures
            m == level_bound(*self),
    {
        match self {
            ProblemLevel::One => 10,
            ProblemLevel::Two => 100,
            ProblemLevel::Three => 1000,
        }
    }
}

/// The operation a generated problem applies between its operands;
/// `Addition` is the default.
#[derive(Clone, Copy, Debug, PartialEq, Eq, Structural, Default)]
pub enum ProblemType {
    #[default]
    Addition,
    Subtraction,
    Multiplication,
    Division,
}

/// The symbol an operation maps onto. The mapping is injective and produces
/// only arithmetic symbols, never a structural marker or the sentinel.
pub open spec fn symbol_of_type(pt: ProblemType) -> Symb {
    match pt {
        ProblemType::Addition => Symb::Plus,
        ProblemType::Subtraction => Symb::Minus,
        ProblemType::Multiplication => Symb::Multiplication,
        ProblemType::Division => Symb::Division,
    }
}

/// The operation-to-symbol mapping is injective.
pub proof fn lemma_symbol_of_type_injective(a: ProblemType, b: ProblemType)
    requires
        symbol_of_type(a) == symbol_of_type(b),
    ensures
        a == b,
{
}

/// Every symbol an operation maps onto is arithmetic.
pub proof fn lemma_symbol_of_type_arithmetic(pt: ProblemType)
    ensures
        symbol_of_type(pt).is_arithmetic(),
{
}

impl From<ProblemType> for Symb {
    fn from(value: ProblemType) -> (r: Self) {
        match value {
            ProblemType::Addition => Symb::Plus,
            ProblemType::Subtraction => Symb::Minus,
            ProblemType::Multiplication => Symb::Multiplication,
            ProblemType::Division => Symb::Division,
        }
    }
}

impl vstd::std_specs::convert::FromSpecImpl<ProblemType> for Symb {
    open spec fn obeys_from_spec() -> bool {
        true
    }

    open spec fn from_spec(t: ProblemType) -> Symb {
        symbol_of_type(t)
    }
}

/// An atomic unit of a problem expression: an operator or structural symbol,
/// an unsigned number, or the end sentinel (the default value).
#[derive(Clone, Debug, PartialEq, Eq, Structural, Default)]
pub enum TokenRepr {
    Symbol(Symb),
    Number(u32),
    #[default]
    End,
}

/// Errors of the expression parser. Only `ParseIntegerError` is reachable
/// from the current grammar; the other two kinds are reserved.
#[derive(Clone, Debug, PartialEq)]
pub enum CgmError {
    ParseIntegerError(String),
    ParseFloatError(String),
    UnknownToken(String),
}

impl CgmError {
    /// The offending word the error names.
    pub closed spec fn spec_token(self) -> Seq<char> {
        match self {
            CgmError::ParseIntegerError(t) => t@,
            CgmError::ParseFloatError(t) => t@,
            CgmError::UnknownToken(t) => t@,
        }
    }

    /// The human-readable description of the error.
    pub open spec fn spec_message(self) -> Seq<char> {
        match self {
            CgmError::ParseIntegerError(_) => "invalid integer token "@ + self.spec_token(),
            CgmError::ParseFloatError(_) => "invalid float token "@ + self.spec_token(),
            CgmError::UnknownToken(_) => "unknown token "@ + self.spec_token(),
        }
    }

    /// Renders the error as its human-readable description.
    pub fn message(&self) -> (r: String)
        ensures
            r@ == self.spec_message(),
    {
        match self {
            CgmError::ParseIntegerError(t) => {
                let mut m = String::from_str("invalid integer token ");
                m.append(t.as_str());
                m
            },
            CgmError::ParseFloatError(t) => {
                let mut m = String::from_str("invalid float token ");
                m.append(t.as_str());
                m
            },
            CgmError::UnknownToken(t) => {
                let mut m = String::from_str("unknown token ");
                m.append(t.as_str());
                m
            },
        }
    }
}

pub type CgmResult<T> = Result<T, CgmError>;

} // verus!
