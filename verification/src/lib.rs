//! Arithmetic word-problem core: a token vocabulary for simple expressions,
//! random problem generation bounded by a difficulty level, rendering of a
//! token sequence to an expression string, parsing of a whitespace-delimited
//! expression string back into tokens, and a left-to-right evaluation plan
//! over a token sequence.

mod evaluate;
mod generate;
mod parse;
mod serialize;
mod token;

pub use parse::all_digits;
pub use parse::lemma_render_parse_not_inverse;
pub use parse::classify_number;
pub use parse::classify_word;
pub use parse::digit_value;
pub use parse::digits_value;
pub use parse::is_digit;
pub use parse::is_space;
pub use parse::parse_expression;
pub use parse::parse_words;
pub use parse::symb_of_char;
pub use parse::word_len;
pub use parse::words_of;

pub use generate::GenerationMode;
pub use generate::Question;
pub use generate::Request;
pub use generate::generate_numbers;
pub use generate::lemma_level_one_addition_question;
pub use generate::generate_numbers_in_mode;
pub use generate::operand_count;
pub use generate::operands_for;
pub use generate::problems;

pub use serialize::TrimPolicy;
pub use serialize::dec_digits;
pub use serialize::digit_char;
pub use serialize::lemma_trimmed_len;
pub use serialize::lemma_untrimmed_len;
pub use serialize::pair_with;
pub use serialize::paired_tokens;
pub use serialize::render_token;
pub use serialize::render_tokens;
pub use serialize::untrimmed_tokens;

pub use evaluate::Step;
pub use evaluate::evaluation_plan;
pub use evaluate::lemma_simple_addition_bound;
pub use evaluate::operand_total;
pub use evaluate::pending_step;
pub use evaluate::step_operand;
pub use evaluate::steps_from;

pub use token::CgmError;
pub use token::CgmResult;
pub use token::ProblemLevel;
pub use token::ProblemType;
pub use token::Symb;
pub use token::TokenRepr;
pub use token::lemma_level_bound_is_pow10;
pub use token::lemma_symbol_of_type_arithmetic;
pub use token::lemma_symbol_of_type_injective;
pub use token::level_bound;
pub use token::level_ordinal;
pub use token::symb_char;
pub use token::symbol_of_type;
