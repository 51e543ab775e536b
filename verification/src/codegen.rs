//! The code generator: from the tokens of an expression to its instructions.
use vstd::prelude::*;
use vstd::string::StringExecFns;
use crate::decimal::{decimal_string, decimal_text, decimal_value};
use crate::grammar::{
    continues, expression_tokens, is_expression, is_literal, lemma_expression_tokens,
    lemma_expression_well_formed, lemma_stop, lemma_stop_at, stop,
};
use crate::token::{Operator, Token};

verus! {

/// Why a token sequence is no expression.
#[derive(Debug, Clone, Copy, PartialEq, Eq)]
pub enum CodegenError {
    /// The sequence leaves the form of an expression at `position`. `found` is the token
    /// there, or `None` where the sequence ends without an end marker; `previous` is the
    /// token before it, or `None` at the start.
    UnexpectedTokenKind { position: usize, previous: Option<Token>, found: Option<Token> },
}

/// The instruction that loads `v` into the accumulator.
pub open spec fn load_line(v: i64) -> Seq<char> {
    "mov rax, "@ + decimal_text(v as int)
}

/// The instruction that applies `operator` to the accumulator, with `v` as the operand.
pub open spec fn arith_line(operator: Operator, v: i64) -> Seq<char> {
    operator.mnemonic() + " rax, "@ + decimal_text(v as int)
}

/// Instruction `i` of an expression: the load of its first literal for `i == 0`, else its
/// `i`-th operator applied to the literal behind it.
pub open spec fn instruction(tokens: Seq<Token>, i: int) -> Seq<char> {
    if i == 0 {
        load_line(tokens[0]->Num_0)
    } else {
        arith_line(tokens[2 * i - 1]->Reserved_0, tokens[2 * i]->Num_0)
    }
}

/// The first `n` instructions of an expression, in order.
pub open spec fn instructions(tokens: Seq<Token>, n: nat) -> Seq<Seq<char>> {
    Seq::new(n, |i: int| instruction(tokens, i))
}

/// The error of a token sequence that leaves the form of an expression at place `p`: it
/// names the place, the token before it if there is one, and the token at it if there is
/// one.
pub open spec fn unexpected_at(tokens: Seq<Token>, p: int) -> CodegenError {
    CodegenError::UnexpectedTokenKind {
        position: p as usize,
        previous: if 0 < p <= tokens.len() {
            Some(tokens[p - 1])
        } else {
            None
        },
        found: if 0 <= p < tokens.len() {
            Some(tokens[p])
        } else {
            None
        },
    }
}

/// What the tokens generate. Where the expression stops at an end marker behind a literal,
/// one instruction for each literal before it; else the error at the place where it stops.
pub open spec fn generated(tokens: Seq<Token>) -> Result<Seq<Seq<char>>, CodegenError> {
    let p = stop(tokens);
    if p < tokens.len() && p % 2 == 1 && tokens[p] is Eof {
        Ok(instructions(tokens, ((p + 1) / 2) as nat))
    } else {
        Err(unexpected_at(tokens, p))
    }
}

/// The texts of `lines`, in order.
pub open spec fn texts(lines: Seq<String>) -> Seq<Seq<char>> {
    Seq::new(lines.len(), |i: int| lines[i]@)
}

/// Writes the instruction that loads `v` into the accumulator.
fn load_instruction(v: i64) -> (r: String)
    ensures
        r@ == load_line(v),
{
    let mut line = "mov rax, ".to_owned();
    line.append(decimal_string(v).as_str());
    line
}

/// Writes the instruction that applies `operator` to the accumulator, with `v` as the
/// operand.
fn arith_instruction(operator: Operator, v: i64) -> (r: String)
    ensures
        r@ == arith_line(operator, v),
{
    let mut line = operator.opcode().to_owned();
    line.append(" rax, ");
    line.append(decimal_string(v).as_str());
    line
}

/// Makes the error of a token sequence that leaves the form of an expression at place `p`.
fn unexpected(tokens: &[Token], p: usize) -> (e: CodegenError)
    requires
        p <= tokens.len(),
    ensures
        e == unexpected_at(tokens@, p as int),
{
    CodegenError::UnexpectedTokenKind {
        position: p,
        previous: if p > 0 {
            Some(tokens[p - 1])
        } else {
            None
        },
        found: if p < tokens.len() {
            Some(tokens[p])
        } else {
            None
        },
    }
}

/// Generates the instructions of the expression that `tokens` spell, in one pass from the
/// first token to the end marker, or says where the tokens spell none. Tokens behind the
/// end marker are not read.
pub fn generate(tokens: &[Token]) -> (r: Result<Vec<String>, CodegenError>)
    ensures
        match generated(tokens@) {
            Ok(lines) => r matches Ok(written) && texts(written@) == lines,
            Err(e) => r == Err::<Vec<String>, CodegenError>(e),
        },
{
    let mut lines: Vec<String> = Vec::new();
    let mut pending: Option<Operator> = None;
    let mut p: usize = 0;
    proof {
        assert(texts(lines@) =~= instructions(tokens@, 0));
    }
    loop
        invariant
            p <= tokens.len(),
            forall|q: int| 0 <= q < p ==> continues(tokens@, q),
            texts(lines@) == instructions(tokens@, ((p + 1) / 2) as nat),
            p == 0 ==> pending is None,
            p > 0 && p % 2 == 0 ==> pending == Some(tokens@[p - 1]->Reserved_0),
        decreases tokens.len() - p,
    {
        if p >= tokens.len() {
            proof {
                lemma_stop_at(tokens@, p as int);
            }
            return Err(unexpected(tokens, p));
        }
        if p % 2 == 0 {
            match tokens[p] {
                Token::Num(v) => {
                    let ghost before = texts(lines@);
                    let line = match pending {
                        None => load_instruction(v),
                        Some(operator) => arith_instruction(operator, v),
                    };
                    lines.push(line);
                    proof {
                        assert(continues(tokens@, p - 1) || p == 0);
                        assert(texts(lines@) =~= before.push(instruction(tokens@, p as int / 2)));
                        assert(texts(lines@) =~= instructions(tokens@, ((p + 2) / 2) as nat));
                    }
                },
                _ => {
                    proof {
                        lemma_stop_at(tokens@, p as int);
                    }
                    return Err(unexpected(tokens, p));
                },
            }
        } else {
            match tokens[p] {
                Token::Reserved(operator) => {
                    pending = Some(operator);
                },
                Token::Eof => {
                    proof {
                        lemma_stop_at(tokens@, p as int);
                    }
                    return Ok(lines);
                },
                Token::Num(_) => {
                    proof {
                        lemma_stop_at(tokens@, p as int);
                    }
                    return Err(unexpected(tokens, p));
                },
            }
        }
        p = p + 1;
    }
}

/// The instructions of the expression with the numerals `terms`, joined in order by
/// `operators`: the load of the first term, then each operator applied to the term behind
/// it.
pub open spec fn expression_lines(terms: Seq<Seq<char>>, operators: Seq<Operator>) -> Seq<
    Seq<char>,
> {
    Seq::new(
        operators.len() + 1,
        |i: int|
            if i == 0 {
                load_line(decimal_value(terms[0]) as i64)
            } else {
                arith_line(operators[i - 1], decimal_value(terms[i]) as i64)
            },
    )
}

/// Tokens that spell an expression generate one instruction for each literal: half as many
/// as there are tokens.
pub proof fn lemma_generated_expression(tokens: Seq<Token>)
    requires
        is_expression(tokens),
    ensures
        generated(tokens) == Ok::<Seq<Seq<char>>, CodegenError>(
            instructions(tokens, tokens.len() / 2),
        ),
{
    lemma_expression_well_formed(tokens);
}

/// The tokens of an expression with `k` operators generate `k + 1` instructions: the load
/// of the first term, then for each operator in order the instruction of its mnemonic, with
/// the term behind the operator as its operand.
pub proof fn lemma_generated_expression_tokens(terms: Seq<Seq<char>>, operators: Seq<Operator>)
    requires
        terms.len() == operators.len() + 1,
        forall|i: int| 0 <= i < terms.len() ==> is_literal(#[trigger] terms[i]),
    ensures
        generated(expression_tokens(terms, operators)) == Ok::<Seq<Seq<char>>, CodegenError>(
            expression_lines(terms, operators),
        ),
        expression_lines(terms, operators).len() == operators.len() + 1,
{
    let tokens = expression_tokens(terms, operators);
    lemma_expression_tokens(terms, operators);
    lemma_generated_expression(tokens);
    assert(instructions(tokens, tokens.len() / 2) =~= expression_lines(terms, operators));
}

/// Two operators in a row stop the generator: it reads no token behind the second of
/// them. It fails there or before, with nothing generated, unless the expression had ended
/// at an end marker before the two, and what stands behind an end marker is not read. So
/// it fails wherever no end marker stands before the two.
pub proof fn lemma_adjacent_operators(tokens: Seq<Token>, i: int)
    requires
        0 <= i,
        i + 1 < tokens.len(),
        tokens[i] is Reserved,
        tokens[i + 1] is Reserved,
    ensures
        stop(tokens) <= i + 1,
        generated(tokens) is Ok <==> stop(tokens) < i && stop(tokens) % 2 == 1
            && tokens[stop(tokens)] is Eof,
        generated(tokens) is Err ==> generated(tokens)->Err_0 == unexpected_at(
            tokens,
            stop(tokens),
        ),
        (forall|q: int| 0 <= q < i ==> !(#[trigger] tokens[q] is Eof)) ==> generated(tokens) is Err,
{
    lemma_stop(tokens);
    if i % 2 == 0 {
        assert(!continues(tokens, i));
    } else {
        assert(!continues(tokens, i + 1));
    }
    if stop(tokens) > i + 1 {
        assert(continues(tokens, i));
        assert(continues(tokens, i + 1));
    }
}

} // verus!
