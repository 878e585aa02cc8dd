//! Parsing a whitespace-delimited expression string back into tokens.
//!
//! The wire format separates every token by whitespace: each word is either
//! one of the exact symbol characters or an unsigned decimal integer. A word
//! that is neither fails the parse with the offending word.

use vstd::prelude::*;
use vstd::string::StrSliceExecFns;

use crate::serialize::dec_digits;
use crate::serialize::push_char;
use crate::serialize::render_tokens;
use crate::token::CgmError;
use crate::token::CgmResult;
use crate::token::Symb;
use crate::token::TokenRepr;

verus! {

/// The whitespace characters that separate tokens in the wire format.
pub open spec fn is_space(c: char) -> bool {
    c == ' ' || c == '\t' || c == '\n' || c == '\r'
}

fn is_space_char(c: char) -> (r: bool)
    ensures
        r == is_space(c),
{
    c == ' ' || c == '\t' || c == '\n' || c == '\r'
}

/// The length of the leading run of non-whitespace characters.
pub open spec fn word_len(s: Seq<char>) -> nat
    decreases s.len(),
{
    if s.len() == 0 || is_space(s[0]) {
        0
    } else {
        (1 + word_len(s.drop_first())) as nat
    }
}

proof fn lemma_word_len_le(s: Seq<char>)
    ensures
        word_len(s) <= s.len(),
    decreases s.len(),
{
    if s.len() == 0 || is_space(s[0]) {
    } else {
        lemma_word_len_le(s.drop_first());
    }
}

/// The whitespace-delimited words of the text, in order: each a maximal
/// nonempty run of non-whitespace characters.
pub open spec fn words_of(s: Seq<char>) -> Seq<Seq<char>>
    decreases s.len(),
        via words_of_decreases
{
    if s.len() == 0 {
        Seq::empty()
    } else if is_space(s[0]) {
        words_of(s.drop_first())
    } else {
        seq![s.take(word_len(s) as int)] + words_of(s.skip(word_len(s) as int))
    }
}

#[via_fn]
proof fn words_of_decreases(s: Seq<char>) {
    if s.len() > 0 && !is_space(s[0]) {
        lemma_word_len_le(s);
    }
}

/// The exact lookup table of symbol characters.
pub open spec fn symb_of_char(c: char) -> Option<Symb> {
    if c == '+' {
        Some(Symb::Plus)
    } else if c == '-' {
        Some(Symb::Minus)
    } else if c == '*' {
        Some(Symb::Multiplication)
    } else if c == '/' {
        Some(Symb::Division)
    } else if c == '=' {
        Some(Symb::Equals)
    } else if c == '(' {
        Some(Symb::LeftBracket)
    } else if c == ')' {
        Some(Symb::RightBracket)
    } else {
        None
    }
}

/// A decimal digit character.
pub open spec fn is_digit(c: char) -> bool {
    '0' as u32 <= c as u32 <= '9' as u32
}

/// The value of a decimal digit character.
pub open spec fn digit_value(c: char) -> nat {
    (c as u32 - '0' as u32) as nat
}

/// Every character of the word is a decimal digit.
pub open spec fn all_digits(w: Seq<char>) -> bool {
    forall|k: int| 0 <= k < w.len() ==> is_digit(#[trigger] w[k])
}

/// The value of a word read as an unsigned decimal integer.
pub open spec fn digits_value(w: Seq<char>) -> nat
    decreases w.len(),
{
    if w.len() == 0 {
        0
    } else {
        digits_value(w.drop_last()) * 10 + digit_value(w.last())
    }
}

/// Reading more digits never lowers the value.
proof fn lemma_digits_value_prefix(w: Seq<char>, m: int)
    requires
        0 <= m <= w.len(),
    ensures
        digits_value(w.take(m)) <= digits_value(w),
    decreases w.len() - m,
{
    if m == w.len() {
        assert(w.take(m) =~= w);
    } else {
        assert(w.take(m + 1).drop_last() =~= w.take(m));
        lemma_digits_value_prefix(w, m + 1);
    }
}

/// A word read as a number: nonempty, all digits, and fitting an unsigned
/// 32-bit integer.
pub open spec fn classify_number(w: Seq<char>) -> Option<TokenRepr> {
    if w.len() > 0 && all_digits(w) && digits_value(w) <= u32::MAX {
        Some(TokenRepr::Number(digits_value(w) as u32))
    } else {
        None
    }
}

/// A word classified: a single symbol character by the exact table, anything
/// else as an unsigned decimal integer, or nothing when it is neither.
pub open spec fn classify_word(w: Seq<char>) -> Option<TokenRepr> {
    if w.len() == 1 {
        match symb_of_char(w[0]) {
            Some(s) => Some(TokenRepr::Symbol(s)),
            None => classify_number(w),
        }
    } else {
        classify_number(w)
    }
}

/// The words classified in order; the first unclassifiable word fails the
/// parse and names the offender.
pub open spec fn parse_words(ws: Seq<Seq<char>>) -> Result<Seq<TokenRepr>, Seq<char>>
    decreases ws.len(),
{
    if ws.len() == 0 {
        Ok(Seq::empty())
    } else {
        match classify_word(ws[0]) {
            None => Err(ws[0]),
            Some(t) => match parse_words(ws.drop_first()) {
                Ok(ts) => Ok(seq![t] + ts),
                Err(w) => Err(w),
            },
        }
    }
}

/// The parse of an expression string: split on whitespace, classify each
/// word.
pub open spec fn parse_expression(s: Seq<char>) -> Result<Seq<TokenRepr>, Seq<char>> {
    parse_words(words_of(s))
}

/// The parse of the remaining text, appended to tokens already parsed.
pub open spec fn parse_continue(acc: Seq<TokenRepr>, rest: Seq<char>) -> Result<
    Seq<TokenRepr>,
    Seq<char>,
> {
    match parse_words(words_of(rest)) {
        Ok(ts) => Ok(acc + ts),
        Err(w) => Err(w),
    }
}

proof fn lemma_words_space(s: Seq<char>, i: int)
    requires
        0 <= i < s.len(),
        is_space(s[i]),
    ensures
        words_of(s.skip(i)) == words_of(s.skip(i + 1)),
{
    assert(s.skip(i)[0] == s[i]);
    assert(s.skip(i).drop_first() =~= s.skip(i + 1));
}

proof fn lemma_word_len_scan(s: Seq<char>, m: int)
    requires
        0 <= m <= s.len(),
        forall|k: int| 0 <= k < m ==> !is_space(#[trigger] s[k]),
        m == s.len() || is_space(s[m]),
    ensures
        word_len(s) == m,
    decreases m,
{
    if m == 0 {
    } else {
        assert(!is_space(s[0]));
        let d = s.drop_first();
        assert(forall|k: int| 0 <= k < d.len() ==> #[trigger] d[k] == s[k + 1]);
        lemma_word_len_scan(d, m - 1);
    }
}

proof fn lemma_words_word(s: Seq<char>, i: int, j: int)
    requires
        0 <= i < j <= s.len(),
        forall|k: int| i <= k < j ==> !is_space(#[trigger] s[k]),
        j == s.len() || is_space(s[j]),
    ensures
        words_of(s.skip(i)) == seq![s.subrange(i, j)] + words_of(s.skip(j)),
{
    let r = s.skip(i);
    assert(forall|k: int| 0 <= k < r.len() ==> #[trigger] r[k] == s[k + i]);
    lemma_word_len_scan(r, j - i);
    assert(r.take(j - i) =~= s.subrange(i, j));
    assert(r.skip(j - i) =~= s.skip(j));
    assert(!is_space(r[0]));
}

proof fn lemma_parse_words_cons(w: Seq<char>, ws: Seq<Seq<char>>)
    ensures
        parse_words(seq![w] + ws) == (match classify_word(w) {
            None => Err::<Seq<TokenRepr>, Seq<char>>(w),
            Some(t) => match parse_words(ws) {
                Ok(ts) => Ok::<Seq<TokenRepr>, Seq<char>>(seq![t] + ts),
                Err(x) => Err::<Seq<TokenRepr>, Seq<char>>(x),
            },
        }),
{
    let c = seq![w] + ws;
    assert(c[0] == w);
    assert(c.drop_first() =~= ws);
}

/// One word consumed: a classified word extends the tokens parsed so far, an
/// unclassifiable one settles the whole parse on its error.
proof fn lemma_parse_continue_word(acc: Seq<TokenRepr>, s: Seq<char>, i: int, j: int)
    requires
        0 <= i < j <= s.len(),
        forall|k: int| i <= k < j ==> !is_space(#[trigger] s[k]),
        j == s.len() || is_space(s[j]),
    ensures
        match classify_word(s.subrange(i, j)) {
            Some(t) => parse_continue(acc, s.skip(i)) == parse_continue(acc.push(t), s.skip(j)),
            None => parse_continue(acc, s.skip(i)) == Err::<Seq<TokenRepr>, Seq<char>>(
                s.subrange(i, j),
            ),
        },
{
    lemma_words_word(s, i, j);
    let w = s.subrange(i, j);
    let ws = words_of(s.skip(j));
    lemma_parse_words_cons(w, ws);
    match classify_word(w) {
        Some(t) => {
            match parse_words(ws) {
                Ok(ts) => {
                    assert(acc + (seq![t] + ts) =~= acc.push(t) + ts);
                },
                Err(_) => {},
            }
        },
        None => {},
    }
}

/// Parsing is not the inverse of rendering: rendering inserts no whitespace,
/// so a rendered expression is in general one unbroken word to the parser.
/// Witnessed by one plus two, whose rendering parses (and fails) as a single
/// word rather than as its three tokens.
pub proof fn lemma_render_parse_not_inverse()
    ensures
        exists|ts: Seq<TokenRepr>|
            #[trigger] parse_expression(render_tokens(ts)) != Ok::<Seq<TokenRepr>, Seq<char>>(ts),
{
    reveal_with_fuel(render_tokens, 4);
    reveal_with_fuel(dec_digits, 2);
    reveal_with_fuel(word_len, 4);
    reveal_with_fuel(words_of, 2);
    reveal_with_fuel(parse_words, 2);
    let ts = seq![
        TokenRepr::Number(1u32),
        TokenRepr::Symbol(Symb::Plus),
        TokenRepr::Number(2u32),
    ];
    let text = seq!['1', '+', '2'];
    let u1 = seq![TokenRepr::Symbol(Symb::Plus), TokenRepr::Number(2u32)];
    let u2 = seq![TokenRepr::Number(2u32)];
    assert(ts.drop_first() =~= u1);
    assert(u1.drop_first() =~= u2);
    assert(u2.drop_first() =~= Seq::<TokenRepr>::empty());
    assert(dec_digits(1) =~= seq!['1']);
    assert(dec_digits(2) =~= seq!['2']);
    assert(render_tokens(ts) =~= text);
    let r1 = seq!['+', '2'];
    let r2 = seq!['2'];
    assert(text.drop_first() =~= r1);
    assert(r1.drop_first() =~= r2);
    assert(r2.drop_first() =~= Seq::<char>::empty());
    assert(word_len(text) == 3);
    assert(text.take(3) =~= text);
    assert(text.skip(3) =~= Seq::<char>::empty());
    assert(words_of(text) =~= seq![text]);
    assert(!is_digit(text[1]));
    assert(!all_digits(text));
    assert(classify_word(text) is None);
    assert(parse_expression(render_tokens(ts)) == Err::<Seq<TokenRepr>, Seq<char>>(text));
    assert(parse_expression(render_tokens(ts)) != Ok::<Seq<TokenRepr>, Seq<char>>(ts));
}

/// The characters of the word from `i` to `j`, as an owned string.
fn substring_of(cs: &Vec<char>, i: usize, j: usize) -> (r: String)
    requires
        i <= j <= cs.len(),
    ensures
        r@ == cs@.subrange(i as int, j as int),
{
    let mut t = String::new();
    let mut k: usize = i;
    proof {
        assert(cs@.subrange(i as int, i as int) =~= Seq::<char>::empty());
    }
    while k < j
        invariant
            i <= k <= j <= cs.len(),
            t@ == cs@.subrange(i as int, k as int),
        decreases j - k,
    {
        push_char(&mut t, cs[k]);
        proof {
            assert(cs@.subrange(i as int, k as int).push(cs@[k as int]) =~= cs@.subrange(
                i as int,
                k as int + 1,
            ));
        }
        k = k + 1;
    }
    t
}

impl TokenRepr {
    /// Parses a whitespace-delimited expression string into tokens: each word
    /// is a symbol by the exact table or an unsigned decimal integer, and the
    /// first word that is neither fails with `ParseIntegerError` naming it.
    pub fn from_expression(s: &str) -> (r: CgmResult<Vec<TokenRepr>>)
        ensures
            match r {
                Ok(ts) => parse_expression(s@) == Ok::<Seq<TokenRepr>, Seq<char>>(ts@),
                Err(CgmError::ParseIntegerError(t)) => parse_expression(s@) == Err::<
                    Seq<TokenRepr>,
                    Seq<char>,
                >(t@),
                Err(_) => false,
            },
    {
        let len = s.unicode_len();
        let mut cs: Vec<char> = Vec::new();
        let mut k: usize = 0;
        proof {
            assert(s@.take(0) =~= Seq::<char>::empty());
        }
        while k < len
            invariant
                k <= len,
                len == s@.len(),
                cs@ == s@.take(k as int),
            decreases len - k,
        {
            cs.push(s.get_char(k));
            proof {
                assert(s@.take(k as int).push(s@[k as int]) =~= s@.take(k as int + 1));
            }
            k = k + 1;
        }
        proof {
            assert(s@.take(len as int) =~= s@);
        }
        let mut tokens: Vec<TokenRepr> = Vec::new();
        let mut i: usize = 0;
        proof {
            assert(s@.skip(0) =~= s@);
            match parse_words(words_of(s@)) {
                Ok(ts) => {
                    assert(Seq::<TokenRepr>::empty() + ts =~= ts);
                },
                Err(_) => {},
            }
        }
        while i < len
            invariant
                i <= len,
                len == s@.len(),
                cs@ == s@,
                parse_expression(s@) == parse_continue(tokens@, s@.skip(i as int)),
            decreases len - i,
        {
            let c = cs[i];
            if is_space_char(c) {
                proof {
                    lemma_words_space(s@, i as int);
                }
                i = i + 1;
            } else {
                let mut j: usize = i + 1;
                loop
                    invariant_except_break
                        i < j <= len,
                        len == s@.len(),
                        cs@ == s@,
                        forall|k2: int| i <= k2 < j ==> !is_space(#[trigger] s@[k2]),
                    ensures
                        i < j <= len,
                        len == s@.len(),
                        cs@ == s@,
                        forall|k2: int| i <= k2 < j ==> !is_space(#[trigger] s@[k2]),
                        j == len || is_space(s@[j as int]),
                    decreases len - j,
                {
                    if j >= len {
                        break ;
                    }
                    if is_space_char(cs[j]) {
                        break ;
                    }
                    j = j + 1;
                }
                let ghost w = s@.subrange(i as int, j as int);
                proof {
                    lemma_parse_continue_word(tokens@, s@, i as int, j as int);
                }
                let mut symbol: Option<Symb> = None;
                if j - i == 1 {
                    symbol = if c == '+' {
                        Some(Symb::Plus)
                    } else if c == '-' {
                        Some(Symb::Minus)
                    } else if c == '*' {
                        Some(Symb::Multiplication)
                    } else if c == '/' {
                        Some(Symb::Division)
                    } else if c == '=' {
                        Some(Symb::Equals)
                    } else if c == '(' {
                        Some(Symb::LeftBracket)
                    } else if c == ')' {
                        Some(Symb::RightBracket)
                    } else {
                        None
                    };
                    proof {
                        assert(w =~= seq![s@[i as int]]);
                        assert(symbol == symb_of_char(w[0]));
                    }
                }
                match symbol {
                    Some(sy) => {
                        proof {
                            assert(classify_word(w) == Some(TokenRepr::Symbol(sy)));
                        }
                        tokens.push(TokenRepr::Symbol(sy));
                        i = j;
                    },
                    None => {
                        // not a lone symbol character: the word must read as a
                        // decimal integer
                        proof {
                            assert(w.len() == 1 ==> classify_word(w) == classify_number(w));
                            assert(classify_word(w) == classify_number(w));
                        }
                        let mut val: u32 = 0;
                        let mut k2: usize = i;
                        proof {
                            assert(w.take(0) =~= Seq::<char>::empty());
                        }
                        while k2 < j
                            invariant
                                i <= k2 <= j <= len,
                                len == s@.len(),
                                cs@ == s@,
                                w == s@.subrange(i as int, j as int),
                                all_digits(w.take(k2 - i)),
                                val == digits_value(w.take(k2 - i)),
                                classify_word(w) == classify_number(w),
                                parse_expression(s@) == parse_continue(
                                    tokens@,
                                    s@.skip(i as int),
                                ),
                                match classify_word(w) {
                                    Some(t) => parse_continue(tokens@, s@.skip(i as int))
                                        == parse_continue(tokens@.push(t), s@.skip(j as int)),
                                    None => parse_continue(tokens@, s@.skip(i as int)) == Err::<
                                        Seq<TokenRepr>,
                                        Seq<char>,
                                    >(w),
                                },
                            decreases j - k2,
                        {
                            let c2 = cs[k2];
                            let ci = c2 as u32;
                            proof {
                                assert(w[k2 - i] == s@[k2 as int]);
                                assert(w.take(k2 - i + 1).drop_last() =~= w.take(k2 - i));
                                assert(w.take(k2 - i + 1).last() == w[k2 - i]);
                            }
                            if ci < 48 || ci > 57 {
                                proof {
                                    assert(!is_digit(w[k2 - i]));
                                    assert(!all_digits(w));
                                    assert(classify_number(w) is None);
                                }
                                let t = substring_of(&cs, i, j);
                                return Err(CgmError::ParseIntegerError(t));
                            }
                            let d = ci - 48;
                            proof {
                                assert(is_digit(w[k2 - i]));
                                assert(digit_value(w[k2 - i]) == d);
                            }
                            let next_val: Option<u32> = match val.checked_mul(10) {
                                Some(v10) => v10.checked_add(d),
                                None => None,
                            };
                            match next_val {
                                Some(v) => {
                                    proof {
                                        assert(digits_value(w.take(k2 - i + 1)) == val * 10 + d);
                                    }
                                    val = v;
                                    k2 = k2 + 1;
                                },
                                None => {
                                    proof {
                                        assert(digits_value(w.take(k2 - i + 1)) == val * 10 + d
                                            > u32::MAX);
                                        lemma_digits_value_prefix(w, k2 - i + 1);
                                        assert(digits_value(w) > u32::MAX);
                                        assert(classify_number(w) is None);
                                    }
                                    let t = substring_of(&cs, i, j);
                                    return Err(CgmError::ParseIntegerError(t));
                                },
                            }
                        }
                        proof {
                            assert(w.take(j - i) =~= w);
                            assert(w.len() > 0);
                            assert(classify_number(w) == Some(TokenRepr::Number(val)));
                        }
                        tokens.push(TokenRepr::Number(val));
                        i = j;
                    },
                }
            }
        }
        proof {
            assert(s@.skip(len as int) =~= Seq::<char>::empty());
            assert(tokens@ + Seq::<TokenRepr>::empty() =~= tokens@);
        }
        Ok(tokens)
    }
}

} // verus!
