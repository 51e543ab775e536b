//! What holds of the lexer: white space counts for nothing, the texts that have tokens are
//! the expressions, and each error comes at the first place where something is wrong.
use vstd::prelude::*;
use crate::decimal::{decimal_value, is_digit, is_numeral};
use crate::grammar::{
    expression_text, expression_tokens, is_literal, is_white_space, lemma_expression_text_push,
    operators_of, terms_of, without_spaces,
};
use crate::lexer::{
    lemma_literal_token, lemma_scan_error_stays, scan, scan_from, tokenized, LexError, Scan,
};
use crate::token::{operator_of, Operator, Token};

verus! {

/// The scan of a text in two parts is the scan of the second part, begun with what the
/// scan of the first has in hand.
pub proof fn lemma_scan_concat(state: Scan, first: Seq<char>, second: Seq<char>)
    ensures
        scan_from(state, first + second) == match scan_from(state, first) {
            Ok(middle) => scan_from(middle, second),
            Err(e) => Err(e),
        },
    decreases second.len(),
{
    if second.len() == 0 {
        assert(first + second =~= first);
    } else {
        assert((first + second).drop_last() =~= first + second.drop_last());
        lemma_scan_concat(state, first, second.drop_last());
    }
}

/// Digits join the number being read, and write no token.
pub proof fn lemma_scan_digits(state: Scan, digits: Seq<char>)
    requires
        forall|i: int| 0 <= i < digits.len() ==> is_digit(#[trigger] digits[i]),
    ensures
        scan_from(state, digits) == Ok::<Scan, LexError>(
            Scan { tokens: state.tokens, digits: state.digits + digits },
        ),
    decreases digits.len(),
{
    if digits.len() == 0 {
        assert(state.digits + digits =~= state.digits);
    } else {
        lemma_scan_digits(state, digits.drop_last());
        assert(is_digit(digits.last()));
        assert((state.digits + digits.drop_last()).push(digits.last()) =~= state.digits
            + digits);
    }
}

/// White space counts for nothing: a text scans as it does without its white space.
pub proof fn lemma_scan_without_spaces(state: Scan, input: Seq<char>)
    ensures
        scan_from(state, input) == scan_from(state, without_spaces(input)),
    decreases input.len(),
{
    if input.len() > 0 {
        lemma_scan_without_spaces(state, input.drop_last());
        if !is_white_space(input.last()) {
            assert(without_spaces(input).drop_last() =~= without_spaces(input.drop_last()));
        }
    }
}

/// White space counts for nothing: a text has the tokens that it has without its white
/// space, or fails in the same way.
pub proof fn lemma_tokenized_without_spaces(input: Seq<char>)
    ensures
        tokenized(input) == tokenized(without_spaces(input)),
{
    lemma_scan_without_spaces(Scan::start(), input);
}

/// The scan of an expression's text has written every term but the last, each with the
/// operator behind it, and holds the digits of the last term.
proof fn lemma_scan_expression(terms: Seq<Seq<char>>, operators: Seq<Operator>)
    requires
        terms.len() == operators.len() + 1,
        forall|i: int| 0 <= i < terms.len() ==> is_literal(#[trigger] terms[i]),
    ensures
        scan(expression_text(terms, operators)) == Ok::<Scan, LexError>(
            Scan {
                tokens: expression_tokens(terms, operators).take(2 * operators.len() as int),
                digits: terms.last(),
            },
        ),
    decreases operators.len(),
{
    let start = Scan::start();
    let k = operators.len() as int;
    let tokens = expression_tokens(terms, operators).take(2 * k);
    assert(is_literal(terms.last()));
    if k == 0 {
        lemma_scan_digits(start, terms[0]);
        assert(start.digits + terms[0] =~= terms[0]);
        assert(tokens =~= Seq::<Token>::empty());
    } else {
        let terms_before = terms.drop_last();
        let operators_before = operators.drop_last();
        assert forall|i: int| 0 <= i < terms_before.len() implies is_literal(
            #[trigger] terms_before[i],
        ) by {
            assert(terms_before[i] == terms[i]);
        }
        lemma_scan_expression(terms_before, operators_before);
        let text_before = expression_text(terms_before, operators_before);
        let tokens_before = expression_tokens(terms_before, operators_before).take(2 * (k - 1));
        let symbol = operators.last().symbol();
        let with_operator = text_before.push(symbol);
        assert(with_operator.drop_last() =~= text_before);
        lemma_literal_token(terms_before.last());
        let written = Scan {
            tokens: tokens_before.push(Token::Num(decimal_value(terms_before.last()) as i64)).push(
                Token::Reserved(operators.last()),
            ),
            digits: Seq::empty(),
        };
        assert(scan(with_operator) == Ok::<Scan, LexError>(written));
        lemma_scan_concat(start, with_operator, terms.last());
        lemma_scan_digits(written, terms.last());
        assert(written.digits + terms.last() =~= terms.last());
        assert(written.tokens =~= tokens);
    }
}

/// A text that is an expression but for its white space has that expression's tokens: for
/// `k` operators, `2k + 1` literals and operators in turn, then the end marker. Each
/// literal holds the number of its term, and each reserved token its operator.
pub proof fn lemma_tokenized_expression(
    input: Seq<char>,
    terms: Seq<Seq<char>>,
    operators: Seq<Operator>,
)
    requires
        terms.len() == operators.len() + 1,
        forall|i: int| 0 <= i < terms.len() ==> is_literal(#[trigger] terms[i]),
        without_spaces(input) == expression_text(terms, operators),
    ensures
        tokenized(input) == Ok::<Seq<Token>, LexError>(expression_tokens(terms, operators)),
        expression_tokens(terms, operators).len() == 2 * operators.len() + 2,
        expression_tokens(terms, operators).last() == Token::Eof,
{
    lemma_tokenized_without_spaces(input);
    lemma_scan_expression(terms, operators);
    assert(is_literal(terms.last()));
    lemma_literal_token(terms.last());
    let k = operators.len() as int;
    let tokens = expression_tokens(terms, operators);
    assert(tokens.take(2 * k).push(Token::Num(decimal_value(terms.last()) as i64)).push(
        Token::Eof,
    ) =~= tokens);
}

/// A text that scans is, but for its white space, the text of its terms joined by its
/// operators; every term but the last is a literal, and the last holds the digits in hand.
proof fn lemma_scan_terms(input: Seq<char>)
    requires
        scan(input) is Ok,
    ensures
        terms_of(input).len() == operators_of(input).len() + 1,
        without_spaces(input) == expression_text(terms_of(input), operators_of(input)),
        forall|i: int|
            0 <= i < operators_of(input).len() ==> is_literal(#[trigger] terms_of(input)[i]),
        terms_of(input).last() == scan(input)->Ok_0.digits,
        forall|i: int|
            0 <= i < terms_of(input).last().len() ==> is_digit(
                #[trigger] terms_of(input).last()[i],
            ),
    decreases input.len(),
{
    if input.len() > 0 {
        let before = input.drop_last();
        let c = input.last();
        lemma_scan_terms(before);
        let terms = terms_of(before);
        let operators = operators_of(before);
        if operator_of(c) is Some {
            assert(is_numeral(terms.last()));
            lemma_literal_token(terms.last());
            assert(terms_of(input).drop_last() =~= terms);
            assert(operators_of(input).drop_last() =~= operators);
            assert(expression_text(terms, operators).push(c) + Seq::<char>::empty()
                =~= expression_text(terms, operators).push(c));
            assert forall|i: int| 0 <= i < operators_of(input).len() implies is_literal(
                #[trigger] terms_of(input)[i],
            ) by {
                if i < operators.len() {
                    assert(terms_of(input)[i] == terms[i]);
                }
            }
        } else if is_digit(c) {
            lemma_expression_text_push(terms, operators, c);
            assert forall|i: int| 0 <= i < operators_of(input).len() implies is_literal(
                #[trigger] terms_of(input)[i],
            ) by {
                assert(terms_of(input)[i] == terms[i]);
            }
        }
    }
}

/// Only expressions have tokens: a text that has tokens is, but for its white space, the
/// text of its terms joined by its operators, and each of its terms is a literal. Its
/// tokens are those of that expression.
pub proof fn lemma_tokenized_only_expressions(input: Seq<char>)
    requires
        tokenized(input) is Ok,
    ensures
        terms_of(input).len() == operators_of(input).len() + 1,
        forall|i: int|
            0 <= i < terms_of(input).len() ==> is_literal(#[trigger] terms_of(input)[i]),
        without_spaces(input) == expression_text(terms_of(input), operators_of(input)),
        tokenized(input) == Ok::<Seq<Token>, LexError>(
            expression_tokens(terms_of(input), operators_of(input)),
        ),
{
    lemma_scan_terms(input);
    let last = terms_of(input).last();
    assert(is_numeral(last));
    lemma_literal_token(last);
    lemma_tokenized_expression(input, terms_of(input), operators_of(input));
}

/// What is wrong with a term, if anything: it is empty, or its number does not fit a
/// signed 64-bit integer.
pub open spec fn term_fault(term: Seq<char>) -> Option<LexError> {
    if term.len() == 0 {
        Some(LexError::EmptyNumber)
    } else if decimal_value(term) > i64::MAX {
        Some(LexError::NumberParseFailure)
    } else {
        None
    }
}

/// What is wrong at place `i` of `input`, if anything. At an operator, and at the end of
/// the input, it is what is wrong with the term that ends there; elsewhere, it is a
/// character that is neither digit nor white space.
pub open spec fn fault_at(input: Seq<char>, i: int) -> Option<LexError> {
    if i == input.len() || operator_of(input[i]) is Some {
        term_fault(terms_of(input.take(i)).last())
    } else if is_digit(input[i]) || is_white_space(input[i]) {
        None
    } else {
        Some(LexError::InvalidCharacter(input[i]))
    }
}

/// The first place at or behind `from` where something is wrong with `input`, its end
/// counting as a place; the place behind its end if nothing is wrong.
pub open spec fn first_fault_from(input: Seq<char>, from: int) -> int
    decreases input.len() + 1 - from,
{
    if from <= input.len() && fault_at(input, from) is None {
        first_fault_from(input, from + 1)
    } else {
        from
    }
}

/// The first place where something is wrong with `input`, or the place behind its end.
pub open spec fn first_fault(input: Seq<char>) -> int {
    first_fault_from(input, 0)
}

proof fn lemma_first_fault_from(input: Seq<char>, from: int)
    requires
        0 <= from <= input.len() + 1,
    ensures
        from <= first_fault_from(input, from) <= input.len() + 1,
        forall|j: int| from <= j < first_fault_from(input, from) ==> fault_at(input, j) is None,
        first_fault_from(input, from) <= input.len() ==> fault_at(
            input,
            first_fault_from(input, from),
        ) is Some,
    decreases input.len() + 1 - from,
{
    if from <= input.len() && fault_at(input, from) is None {
        lemma_first_fault_from(input, from + 1);
    }
}

/// As long as nothing is wrong, the scan goes on.
proof fn lemma_scan_without_fault(input: Seq<char>, n: int)
    requires
        0 <= n <= input.len(),
        forall|j: int| 0 <= j < n ==> fault_at(input, j) is None,
    ensures
        scan(input.take(n)) is Ok,
    decreases n,
{
    if n > 0 {
        lemma_scan_without_fault(input, n - 1);
        let before = input.take(n - 1);
        assert(input.take(n).drop_last() =~= before);
        assert(fault_at(input, n - 1) is None);
        lemma_scan_terms(before);
        if operator_of(input[n - 1]) is Some {
            lemma_literal_token(terms_of(before).last());
        }
    }
}

/// What a text has for tokens, said without a scan. If nothing is wrong with the text, it
/// has the tokens of the expression made of its terms and its operators. Else it fails
/// with what is wrong at the first place where something is.
pub proof fn lemma_tokenized_directly(input: Seq<char>)
    ensures
        tokenized(input) == if first_fault(input) > input.len() {
            Ok::<Seq<Token>, LexError>(expression_tokens(terms_of(input), operators_of(input)))
        } else {
            Err::<Seq<Token>, LexError>(fault_at(input, first_fault(input))->Some_0)
        },
{
    lemma_first_fault_from(input, 0);
    let p = first_fault(input);
    let n = input.len() as int;
    if p > n {
        lemma_scan_without_fault(input, n);
        assert(input.take(n) =~= input);
        lemma_scan_terms(input);
        assert(fault_at(input, n) is None);
        lemma_literal_token(terms_of(input).last());
        lemma_tokenized_only_expressions(input);
    } else {
        lemma_scan_without_fault(input, p);
        let before = input.take(p);
        lemma_scan_terms(before);
        let term = terms_of(before).last();
        if term.len() > 0 {
            lemma_literal_token(term);
        }
        if p < n {
            assert(input.take(p + 1).drop_last() =~= before);
            lemma_scan_error_stays(input, p + 1);
        } else {
            assert(before =~= input);
        }
    }
}

} // verus!
