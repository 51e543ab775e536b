//! The whole way: from the text of an expression to its instructions.
use vstd::prelude::*;
use vstd::pervasive::unreached;
use crate::codegen::{
    expression_lines, generate, generated, instructions, lemma_generated_expression,
    lemma_generated_expression_tokens, texts, CodegenError,
};
use crate::grammar::{expression_text, is_literal, without_spaces};
use crate::lexer::{lemma_tokenized_is_expression, tokenize, tokenized, LexError};
use crate::lexer_laws::lemma_tokenized_expression;
use crate::token::Operator;

verus! {

/// What `input` compiles to: one instruction for each literal among its tokens, or the
/// error of the lexer.
pub open spec fn compiled(input: Seq<char>) -> Result<Seq<Seq<char>>, LexError> {
    match tokenized(input) {
        Ok(tokens) => Ok(instructions(tokens, tokens.len() / 2)),
        Err(e) => Err(e),
    }
}

/// How a run of `compile` ended, with each line taken as its text.
pub open spec fn outcome(r: Result<Vec<String>, LexError>) -> Result<Seq<Seq<char>>, LexError> {
    match r {
        Ok(lines) => Ok(texts(lines@)),
        Err(e) => Err(e),
    }
}

/// Compiles the expression `input`: reads its tokens and generates their instructions, in
/// the order in which they run. It fails only where the lexer does, since the tokens of a
/// text always generate.
pub fn compile(input: &str) -> (r: Result<Vec<String>, LexError>)
    ensures
        outcome(r) == compiled(input@),
{
    let tokens = tokenize(input)?;
    proof {
        lemma_generated_expression(tokens@);
    }
    match generate(tokens.as_slice()) {
        Ok(lines) => Ok(lines),
        Err(_) => unreached(),
    }
}

/// The tokens of a text always generate, and what they generate is what the text compiles
/// to.
pub proof fn lemma_tokens_generate(input: Seq<char>)
    requires
        tokenized(input) is Ok,
    ensures
        compiled(input) is Ok,
        generated(tokenized(input)->Ok_0) == Ok::<Seq<Seq<char>>, CodegenError>(
            compiled(input)->Ok_0,
        ),
{
    lemma_tokenized_is_expression(input);
    lemma_generated_expression(tokenized(input)->Ok_0);
}

/// A text that is an expression but for its white space compiles, for `k` operators, to
/// `k + 1` instructions: the load of the first term, then for each operator in order the
/// instruction of its mnemonic, with the term behind the operator as its operand.
pub proof fn lemma_compiled_expression(
    input: Seq<char>,
    terms: Seq<Seq<char>>,
    operators: Seq<Operator>,
)
    requires
        terms.len() == operators.len() + 1,
        forall|i: int| 0 <= i < terms.len() ==> is_literal(#[trigger] terms[i]),
        without_spaces(input) == expression_text(terms, operators),
    ensures
        compiled(input) == Ok::<Seq<Seq<char>>, LexError>(expression_lines(terms, operators)),
        expression_lines(terms, operators).len() == operators.len() + 1,
{
    lemma_tokenized_expression(input, terms, operators);
    lemma_generated_expression_tokens(terms, operators);
    lemma_tokens_generate(input);
}

/// Two runs on the same text end alike: with the same lines, character for character, or
/// with the same error.
pub proof fn lemma_compile_repeats(
    first_input: &str,
    second_input: &str,
    first: Result<Vec<String>, LexError>,
    second: Result<Vec<String>, LexError>,
)
    requires
        first_input@ == second_input@,
        outcome(first) == compiled(first_input@),
        outcome(second) == compiled(second_input@),
    ensures
        outcome(first) == outcome(second),
{
}

} // verus!
