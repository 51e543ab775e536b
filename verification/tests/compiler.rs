use expr_asm::codegen::generate;
use expr_asm::compiler::compile;
use expr_asm::lexer::{tokenize, LexError};

#[test]
fn single_literal_compiles_to_one_load() {
    assert_eq!(compile("42"), Ok(vec!["mov rax, 42".to_string()]));
}

#[test]
fn sum_and_difference_compile_in_order() {
    assert_eq!(
        compile("5+3-2"),
        Ok(vec!["mov rax, 5".to_string(), "add rax, 3".to_string(), "sub rax, 2".to_string()])
    );
}

#[test]
fn one_line_for_the_first_literal_and_one_for_each_operator() {
    let input = "10 - 2 + 30 - 4 + 5";
    let lines = compile(input).unwrap();
    let operators: Vec<char> = input.chars().filter(|c| *c == '+' || *c == '-').collect();
    assert_eq!(lines.len(), operators.len() + 1);
    assert!(lines[0].starts_with("mov rax, "));
    for (operator, line) in operators.iter().zip(&lines[1..]) {
        let mnemonic = if *operator == '+' { "add" } else { "sub" };
        assert!(line.starts_with(&format!("{} rax, ", mnemonic)));
    }
    assert_eq!(
        lines,
        vec!["mov rax, 10", "sub rax, 2", "add rax, 30", "sub rax, 4", "add rax, 5"]
    );
}

#[test]
fn compiling_is_generating_from_the_tokens() {
    for input in ["42", "5+3-2", " 1 + 2 ", "0-0"] {
        let tokens = tokenize(input).unwrap();
        assert_eq!(compile(input).ok(), generate(&tokens).ok());
    }
}

#[test]
fn compiling_twice_gives_the_same_lines() {
    for input in ["42", "5+3-2", "+5", "5+", "5*3", "9223372036854775808"] {
        assert_eq!(compile(input), compile(input));
        assert_eq!(compile(input), compile(&input.to_string()));
    }
}

#[test]
fn lexer_errors_come_through() {
    assert_eq!(compile("+5"), Err(LexError::EmptyNumber));
    assert_eq!(compile("5+"), Err(LexError::EmptyNumber));
    assert_eq!(compile("5*3"), Err(LexError::InvalidCharacter('*')));
    assert_eq!(compile("9223372036854775808"), Err(LexError::NumberParseFailure));
}
