//! A compiler front end for one-line arithmetic. It reads an expression made of decimal
//! literals joined by `+` and `-`, and writes the instructions that leave the
//! expression's value in the accumulator register: a load of the first literal, then
//! one instruction for each operator, applied from left to right.
//!
//! - [`token`]: the operators and the tokens.
//! - [`decimal`]: reading and writing integers in decimal notation.
//! - [`grammar`]: the form of an expression, as text and as tokens.
//! - [`lexer`]: from text to tokens.
//! - [`lexer_laws`]: what holds of the lexer.
//! - [`codegen`]: from tokens to instructions.
//! - [`compiler`]: from text to instructions.
//! - [`std_specs`]: what is taken on trust of the standard library.
pub mod codegen;
pub mod compiler;
pub mod decimal;
pub mod grammar;
pub mod lexer;
pub mod lexer_laws;
pub mod std_specs;
pub mod token;
