//! The lexer: from the characters of an expression to its tokens.
use vstd::prelude::*;
use crate::decimal::{
    decimal_value, is_digit, is_numeral, lemma_value_nonnegative, parse_i64, parsed_i64,
};
use crate::grammar::{
    continues, is_expression, is_white_space, lemma_expression_well_formed, no_negative_literal,
    well_formed,
};
use crate::token::{operator_of, Operator, Token};

verus! {

/// Why an input is no expression.
#[derive(Debug, Clone, Copy, PartialEq, Eq)]
pub enum LexError {
    /// The input holds a character that is no digit, no operator and no white space.
    InvalidCharacter(char),
    /// No digit stands where a number is due: before an operator, or at the end.
    EmptyNumber,
    /// The text of a number does not read as a signed 64-bit integer. In an input that
    /// means that the number does not fit.
    NumberParseFailure,
}

/// Tests whether `c` is white space.
pub fn is_whitespace(c: char) -> (r: bool)
    ensures
        r == is_white_space(c),
{
    let u: u32 = c as u32;
    (0x09 <= u && u <= 0x0D) || u == 0x20 || u == 0x85 || u == 0xA0 || u == 0x1680 || (0x2000 <= u
        && u <= 0x200A) || u == 0x2028 || u == 0x2029 || u == 0x202F || u == 0x205F || u == 0x3000
}

/// The numeric literal that the gathered text `val` makes, or why it makes none.
pub open spec fn literal_token(val: Seq<char>) -> Result<Token, LexError> {
    if val.len() == 0 {
        Err(LexError::EmptyNumber)
    } else {
        match parsed_i64(val) {
            Some(v) => Ok(Token::Num(v)),
            None => Err(LexError::NumberParseFailure),
        }
    }
}

/// What a scan has gathered: the tokens written so far, and the digits read since the
/// last operator.
pub struct Scan {
    pub tokens: Seq<Token>,
    pub digits: Seq<char>,
}

impl Scan {
    /// The scan before its first character: nothing written, and nothing in hand.
    pub open spec fn start() -> Scan {
        Scan { tokens: Seq::empty(), digits: Seq::empty() }
    }
}

/// One step of the scan, on the character `c`. An operator closes the number before it and
/// is written behind it; a digit joins the number being read; white space changes nothing;
/// any other character ends the scan.
pub open spec fn scan_step(state: Scan, c: char) -> Result<Scan, LexError> {
    if let Some(operator) = operator_of(c) {
        match literal_token(state.digits) {
            Ok(literal) => Ok(
                Scan {
                    tokens: state.tokens.push(literal).push(Token::Reserved(operator)),
                    digits: Seq::empty(),
                },
            ),
            Err(e) => Err(e),
        }
    } else if is_digit(c) {
        Ok(Scan { tokens: state.tokens, digits: state.digits.push(c) })
    } else if is_white_space(c) {
        Ok(state)
    } else {
        Err(LexError::InvalidCharacter(c))
    }
}

/// The scan of `input` from left to right, begun with `state` in hand, or the first error
/// on the way.
pub open spec fn scan_from(state: Scan, input: Seq<char>) -> Result<Scan, LexError>
    decreases input.len(),
{
    if input.len() == 0 {
        Ok(state)
    } else {
        match scan_from(state, input.drop_last()) {
            Ok(before) => scan_step(before, input.last()),
            Err(e) => Err(e),
        }
    }
}

/// The scan of `input` from left to right, begun with nothing in hand.
pub open spec fn scan(input: Seq<char>) -> Result<Scan, LexError> {
    scan_from(Scan::start(), input)
}

/// The tokens of `input`: what the scan wrote, the last number, and the end marker.
pub open spec fn tokenized(input: Seq<char>) -> Result<Seq<Token>, LexError> {
    match scan(input) {
        Ok(state) => match literal_token(state.digits) {
            Ok(literal) => Ok(state.tokens.push(literal).push(Token::Eof)),
            Err(e) => Err(e),
        },
        Err(e) => Err(e),
    }
}

/// Appends to `tokens` the numeric literal that `val` makes. Where `val` makes none,
/// `tokens` stays as it was.
pub fn create_new_num_token(tokens: &mut Vec<Token>, val: &str) -> (r: Result<(), LexError>)
    ensures
        match literal_token(val@) {
            Ok(literal) => r is Ok && final(tokens)@ == old(tokens)@.push(literal),
            Err(e) => r == Err::<(), LexError>(e) && final(tokens)@ == old(tokens)@,
        },
{
    if val.is_empty() {
        return Err(LexError::EmptyNumber);
    }
    match parse_i64(val) {
        Some(v) => {
            tokens.push(Token::Num(v));
            Ok(())
        },
        None => Err(LexError::NumberParseFailure),
    }
}

/// Appends to `tokens` the reserved token of `operator`.
pub fn create_new_reserved_token(tokens: &mut Vec<Token>, operator: Operator)
    ensures
        final(tokens)@ == old(tokens)@.push(Token::Reserved(operator)),
{
    tokens.push(Token::Reserved(operator));
}

/// Reads the tokens of `input` in one pass from left to right, or says why it is no
/// expression. The tokens that it returns spell an expression, keep the rules of a token
/// sequence, and hold no negative literal.
pub fn tokenize(input: &str) -> (r: Result<Vec<Token>, LexError>)
    ensures
        match tokenized(input@) {
            Ok(tokens) => r matches Ok(read) && read@ == tokens,
            Err(e) => r == Err::<Vec<Token>, LexError>(e),
        },
        r matches Ok(read) ==> is_expression(read@) && well_formed(read@) && no_negative_literal(
            read@,
        ),
{
    let mut tokens: Vec<Token> = Vec::new();
    let mut num_buf = String::new();
    for c in it: input.chars()
        invariant
            it.seq() == input@,
            scan(input@.take(it.index())) == Ok::<Scan, LexError>(
                Scan { tokens: tokens@, digits: num_buf@ },
            ),
    {
        proof {
            assert(input@.take(it.index() + 1).drop_last() =~= input@.take(it.index()));
            if scan(input@.take(it.index() + 1)) is Err {
                lemma_scan_error_stays(input@, it.index() + 1);
            }
        }
        if c == '+' {
            create_new_num_token(&mut tokens, num_buf.as_str())?;
            create_new_reserved_token(&mut tokens, Operator::Add);
            num_buf = String::new();
        } else if c == '-' {
            create_new_num_token(&mut tokens, num_buf.as_str())?;
            create_new_reserved_token(&mut tokens, Operator::Sub);
            num_buf = String::new();
        } else if c >= '0' && c <= '9' {
            num_buf.push(c);
        } else if !is_whitespace(c) {
            return Err(LexError::InvalidCharacter(c));
        }
    }
    proof {
        assert(input@.take(input@.len() as int) =~= input@);
    }
    create_new_num_token(&mut tokens, num_buf.as_str())?;
    tokens.push(Token::Eof);
    proof {
        lemma_tokenized_is_expression(input@);
        lemma_expression_well_formed(tokens@);
    }
    Ok(tokens)
}

/// An error stays: once the scan of a prefix has failed, the scan of the whole input fails
/// in the same way.
pub proof fn lemma_scan_error_stays(input: Seq<char>, n: int)
    requires
        0 <= n <= input.len(),
        scan(input.take(n)) is Err,
    ensures
        scan(input) == scan(input.take(n)),
    decreases input.len() - n,
{
    if n == input.len() {
        assert(input.take(n) =~= input);
    } else {
        assert(input.take(n + 1).drop_last() =~= input.take(n));
        lemma_scan_error_stays(input, n + 1);
    }
}

/// What a numeral makes: the literal of its number if that fits a signed 64-bit integer,
/// and a parse failure if it does not.
pub proof fn lemma_literal_token(digits: Seq<char>)
    requires
        is_numeral(digits),
    ensures
        0 <= decimal_value(digits),
        literal_token(digits) == if decimal_value(digits) <= i64::MAX {
            Ok::<Token, LexError>(Token::Num(decimal_value(digits) as i64))
        } else {
            Err::<Token, LexError>(LexError::NumberParseFailure)
        },
{
    lemma_value_nonnegative(digits);
    assert(is_digit(digits[0]));
    assert(digits.skip(0) =~= digits);
}

/// Whether a scan in progress has written literals and operators in turn, from a literal
/// to an operator, with no negative literal, and holds digits only.
pub open spec fn in_turn(state: Scan) -> bool {
    &&& state.tokens.len() % 2 == 0
    &&& forall|p: int| 0 <= p < state.tokens.len() ==> continues(state.tokens, p)
    &&& no_negative_literal(state.tokens)
    &&& forall|i: int| 0 <= i < state.digits.len() ==> is_digit(#[trigger] state.digits[i])
}

/// A scan keeps writing literals and operators in turn.
pub proof fn lemma_scan_in_turn(state: Scan, input: Seq<char>)
    requires
        in_turn(state),
        scan_from(state, input) is Ok,
    ensures
        in_turn(scan_from(state, input)->Ok_0),
    decreases input.len(),
{
    if input.len() > 0 {
        lemma_scan_in_turn(state, input.drop_last());
        let before = scan_from(state, input.drop_last())->Ok_0;
        let after = scan_from(state, input)->Ok_0;
        let c = input.last();
        if operator_of(c) is Some {
            lemma_literal_token(before.digits);
            assert forall|p: int| 0 <= p < after.tokens.len() implies continues(
                after.tokens,
                p,
            ) by {
                if p < before.tokens.len() {
                    assert(continues(before.tokens, p));
                }
            }
        }
    }
}

/// The tokens of a text spell an expression, and none of its literals is negative.
pub proof fn lemma_tokenized_is_expression(input: Seq<char>)
    requires
        tokenized(input) is Ok,
    ensures
        is_expression(tokenized(input)->Ok_0),
        no_negative_literal(tokenized(input)->Ok_0),
{
    let start = Scan::start();
    lemma_scan_in_turn(start, input);
    let state = scan(input)->Ok_0;
    lemma_literal_token(state.digits);
    let tokens = tokenized(input)->Ok_0;
    assert forall|p: int| 0 <= p < tokens.len() - 1 implies continues(tokens, p) by {
        if p < state.tokens.len() {
            assert(continues(state.tokens, p));
        }
    }
}

} // verus!
