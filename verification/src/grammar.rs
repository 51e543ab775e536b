//! The form of an expression: a numeric literal, then any number of operators, each
//! followed by a numeric literal. This module says what that form is, of a text and of a
//! token sequence.
use vstd::prelude::*;
use crate::decimal::{decimal_value, is_digit, is_numeral};
use crate::token::{operator_of, Operator, Token};

verus! {

/// Whether `c` is white space: one of the characters with the Unicode property
/// `White_Space`.
pub open spec fn is_white_space(c: char) -> bool {
    let u = c as u32;
    ||| 0x09 <= u <= 0x0D
    ||| u == 0x20
    ||| u == 0x85
    ||| u == 0xA0
    ||| u == 0x1680
    ||| 0x2000 <= u <= 0x200A
    ||| u == 0x2028
    ||| u == 0x2029
    ||| u == 0x202F
    ||| u == 0x205F
    ||| u == 0x3000
}

/// The text without its white space.
pub open spec fn without_spaces(text: Seq<char>) -> Seq<char>
    decreases text.len(),
{
    if text.len() == 0 {
        text
    } else if is_white_space(text.last()) {
        without_spaces(text.drop_last())
    } else {
        without_spaces(text.drop_last()).push(text.last())
    }
}

/// Whether `digits` can stand as a numeric literal: a numeral whose number fits a signed
/// 64-bit integer.
pub open spec fn is_literal(digits: Seq<char>) -> bool {
    is_numeral(digits) && decimal_value(digits) <= i64::MAX
}

/// The text of the expression with the numerals `terms`, joined in order by `operators`:
/// one term more than there are operators, and no white space.
pub open spec fn expression_text(terms: Seq<Seq<char>>, operators: Seq<Operator>) -> Seq<char>
    decreases operators.len(),
{
    if operators.len() == 0 {
        terms[0]
    } else {
        expression_text(terms.drop_last(), operators.drop_last()).push(operators.last().symbol())
            + terms.last()
    }
}

/// The tokens of that expression: for `k` operators, `2k + 1` literals and operators in
/// turn, then the end marker. Each literal holds the number of its term.
pub open spec fn expression_tokens(terms: Seq<Seq<char>>, operators: Seq<Operator>) -> Seq<
    Token,
> {
    Seq::new(
        2 * operators.len() + 2,
        |p: int|
            if p == 2 * operators.len() + 1 {
                Token::Eof
            } else if p % 2 == 0 {
                Token::Num(decimal_value(terms[p / 2]) as i64)
            } else {
                Token::Reserved(operators[p / 2])
            },
    )
}

/// The terms of a text: the digits before its first operator, between each operator and
/// the next, and behind its last. Where no digit stands there the term is empty.
pub open spec fn terms_of(text: Seq<char>) -> Seq<Seq<char>>
    decreases text.len(),
{
    if text.len() == 0 {
        seq![Seq::empty()]
    } else {
        let before = terms_of(text.drop_last());
        if operator_of(text.last()) is Some {
            before.push(Seq::empty())
        } else if is_digit(text.last()) {
            before.drop_last().push(before.last().push(text.last()))
        } else {
            before
        }
    }
}

/// The operators of a text, in order.
pub open spec fn operators_of(text: Seq<char>) -> Seq<Operator>
    decreases text.len(),
{
    if text.len() == 0 {
        Seq::empty()
    } else {
        match operator_of(text.last()) {
            Some(operator) => operators_of(text.drop_last()).push(operator),
            None => operators_of(text.drop_last()),
        }
    }
}

/// Whether the token at place `p` carries the expression on: a numeric literal at an even
/// place, a reserved operator at an odd one.
pub open spec fn continues(tokens: Seq<Token>, p: int) -> bool {
    0 <= p < tokens.len() && if p % 2 == 0 {
        tokens[p] is Num
    } else {
        tokens[p] is Reserved
    }
}

/// The first place at or behind `from` whose token does not carry the expression on.
pub open spec fn stop_from(tokens: Seq<Token>, from: int) -> int
    decreases tokens.len() - from,
{
    if continues(tokens, from) {
        stop_from(tokens, from + 1)
    } else {
        from
    }
}

/// The place where the expression stops: the first whose token does not carry it on.
pub open spec fn stop(tokens: Seq<Token>) -> int {
    stop_from(tokens, 0)
}

/// Whether `tokens` spell an expression and nothing more: literals and operators in turn,
/// from a literal to a literal, and then the end marker.
pub open spec fn is_expression(tokens: Seq<Token>) -> bool {
    &&& tokens.len() >= 2
    &&& tokens.len() % 2 == 0
    &&& tokens.last() is Eof
    &&& forall|p: int| 0 <= p < tokens.len() - 1 ==> continues(tokens, p)
}

/// Whether `tokens` keep the rules of a token sequence: the end marker closes the sequence
/// and stands nowhere else; no literal follows a literal; a literal follows each operator;
/// and there is a literal.
pub open spec fn well_formed(tokens: Seq<Token>) -> bool {
    &&& tokens.len() > 0
    &&& forall|p: int|
        0 <= p < tokens.len() ==> (#[trigger] tokens[p] is Eof <==> p == tokens.len() - 1)
    &&& forall|p: int|
        0 <= p < tokens.len() - 1 && #[trigger] tokens[p] is Num ==> !(tokens[p + 1] is Num)
    &&& forall|p: int|
        0 <= p < tokens.len() && #[trigger] tokens[p] is Reserved ==> p + 1 < tokens.len()
            && tokens[p + 1] is Num
    &&& exists|p: int| 0 <= p < tokens.len() && #[trigger] tokens[p] is Num
}

/// Whether no literal among `tokens` holds a negative number.
pub open spec fn no_negative_literal(tokens: Seq<Token>) -> bool {
    forall|p: int|
        0 <= p < tokens.len() ==> (#[trigger] tokens[p] matches Token::Num(v) ==> v >= 0)
}

proof fn lemma_stop_from(tokens: Seq<Token>, from: int)
    requires
        0 <= from <= tokens.len(),
    ensures
        from <= stop_from(tokens, from) <= tokens.len(),
        forall|q: int| from <= q < stop_from(tokens, from) ==> continues(tokens, q),
        !continues(tokens, stop_from(tokens, from)),
    decreases tokens.len() - from,
{
    if continues(tokens, from) {
        lemma_stop_from(tokens, from + 1);
    }
}

/// The expression stops inside the sequence or at its end, every token before that place
/// carries it on, and the token there does not.
pub proof fn lemma_stop(tokens: Seq<Token>)
    ensures
        0 <= stop(tokens) <= tokens.len(),
        forall|q: int| 0 <= q < stop(tokens) ==> continues(tokens, q),
        !continues(tokens, stop(tokens)),
{
    lemma_stop_from(tokens, 0);
}

/// The expression stops at `p` if every token before `p` carries it on and the one at `p`
/// does not.
pub proof fn lemma_stop_at(tokens: Seq<Token>, p: int)
    requires
        0 <= p <= tokens.len(),
        forall|q: int| 0 <= q < p ==> continues(tokens, q),
        !continues(tokens, p),
    ensures
        stop(tokens) == p,
{
    lemma_stop(tokens);
    let s = stop(tokens);
    if s < p {
        assert(continues(tokens, s));
    } else if p < s {
        assert(continues(tokens, p));
    }
}

/// A sequence that spells an expression keeps the rules of a token sequence, and the
/// expression stops at its end marker.
pub proof fn lemma_expression_well_formed(tokens: Seq<Token>)
    requires
        is_expression(tokens),
    ensures
        well_formed(tokens),
        stop(tokens) == tokens.len() - 1,
{
    let n = tokens.len() as int;
    assert forall|p: int| 0 <= p < n implies (#[trigger] tokens[p] is Eof <==> p == n - 1) by {
        if p < n - 1 {
            assert(continues(tokens, p));
        }
    }
    assert forall|p: int| 0 <= p < n - 1 && #[trigger] tokens[p] is Num implies !(tokens[p
        + 1] is Num) by {
        assert(continues(tokens, p));
        if p + 1 < n - 1 {
            assert(continues(tokens, p + 1));
        }
    }
    assert forall|p: int| 0 <= p < n && #[trigger] tokens[p] is Reserved implies p + 1 < n
        && tokens[p + 1] is Num by {
        assert(continues(tokens, p));
        assert(continues(tokens, p + 1));
    }
    assert(continues(tokens, 0));
    assert(tokens[0] is Num);
    lemma_stop_at(tokens, n - 1);
}

/// The tokens of an expression spell an expression.
pub proof fn lemma_expression_tokens(terms: Seq<Seq<char>>, operators: Seq<Operator>)
    ensures
        is_expression(expression_tokens(terms, operators)),
{
    let tokens = expression_tokens(terms, operators);
    assert forall|p: int| 0 <= p < tokens.len() - 1 implies continues(tokens, p) by {}
}

/// A digit put behind an expression's text joins its last term.
pub proof fn lemma_expression_text_push(terms: Seq<Seq<char>>, operators: Seq<Operator>, c: char)
    requires
        terms.len() == operators.len() + 1,
    ensures
        expression_text(terms.drop_last().push(terms.last().push(c)), operators)
            == expression_text(terms, operators).push(c),
{
    let joined = terms.drop_last().push(terms.last().push(c));
    if operators.len() == 0 {
        assert(expression_text(joined, operators) =~= expression_text(terms, operators).push(c));
    } else {
        assert(joined.drop_last() =~= terms.drop_last());
        let head = expression_text(terms.drop_last(), operators.drop_last()).push(
            operators.last().symbol(),
        );
        assert(head + terms.last().push(c) =~= (head + terms.last()).push(c));
    }
}

} // verus!
