use expr_asm::lexer::{
    create_new_num_token, create_new_reserved_token, is_whitespace, tokenize, LexError,
};
use expr_asm::token::{Operator, Token};

#[test]
fn single_literal_gives_literal_and_end_marker() {
    assert_eq!(tokenize("42"), Ok(vec![Token::Num(42), Token::Eof]));
}

#[test]
fn sum_and_difference_give_tokens_in_order() {
    assert_eq!(
        tokenize("5+3-2"),
        Ok(vec![
            Token::Num(5),
            Token::Reserved(Operator::Add),
            Token::Num(3),
            Token::Reserved(Operator::Sub),
            Token::Num(2),
            Token::Eof,
        ])
    );
}

#[test]
fn token_count_is_twice_the_operators_plus_literal_and_end_marker() {
    let input = "1+2-3+4-5+6";
    let operators = input.chars().filter(|c| *c == '+' || *c == '-').count();
    let tokens = tokenize(input).unwrap();
    assert_eq!(tokens.len(), 2 * operators + 2);
    assert_eq!(tokens[tokens.len() - 1], Token::Eof);
    for (place, token) in tokens[..tokens.len() - 1].iter().enumerate() {
        if place % 2 == 0 {
            assert!(matches!(token, Token::Num(_)));
        } else {
            assert!(matches!(token, Token::Reserved(_)));
        }
    }
}

#[test]
fn white_space_around_operators_is_skipped() {
    assert_eq!(tokenize(" 12 + 34 - 5 "), tokenize("12+34-5"));
    assert_eq!(
        tokenize("12 +\t34"),
        Ok(vec![Token::Num(12), Token::Reserved(Operator::Add), Token::Num(34), Token::Eof])
    );
}

#[test]
fn white_space_inside_a_number_joins_its_digits() {
    assert_eq!(
        tokenize("1 2+3"),
        Ok(vec![Token::Num(12), Token::Reserved(Operator::Add), Token::Num(3), Token::Eof])
    );
}

#[test]
fn white_space_beyond_ascii_is_skipped() {
    assert_eq!(tokenize("1\u{a0}+\u{3000}2"), tokenize("1+2"));
}

#[test]
fn leading_operator_is_an_empty_number() {
    assert_eq!(tokenize("+5"), Err(LexError::EmptyNumber));
    assert_eq!(tokenize("-5"), Err(LexError::EmptyNumber));
}

#[test]
fn trailing_operator_is_an_empty_number() {
    assert_eq!(tokenize("5+"), Err(LexError::EmptyNumber));
}

#[test]
fn doubled_operator_is_an_empty_number() {
    assert_eq!(tokenize("5+-3"), Err(LexError::EmptyNumber));
}

#[test]
fn empty_input_is_an_empty_number() {
    assert_eq!(tokenize(""), Err(LexError::EmptyNumber));
    assert_eq!(tokenize("   "), Err(LexError::EmptyNumber));
}

#[test]
fn other_character_is_invalid_and_named() {
    assert_eq!(tokenize("5*3"), Err(LexError::InvalidCharacter('*')));
    assert_eq!(tokenize("a"), Err(LexError::InvalidCharacter('a')));
    assert_eq!(tokenize("1+(2)"), Err(LexError::InvalidCharacter('(')));
}

#[test]
fn first_error_in_reading_order_wins() {
    assert_eq!(tokenize("+*"), Err(LexError::EmptyNumber));
    assert_eq!(tokenize("*+"), Err(LexError::InvalidCharacter('*')));
    assert_eq!(tokenize("99999999999999999999+*"), Err(LexError::NumberParseFailure));
    assert_eq!(tokenize("99999999999999999999*"), Err(LexError::InvalidCharacter('*')));
}

#[test]
fn number_beyond_sixty_four_bits_is_a_parse_failure() {
    assert_eq!(tokenize("9223372036854775808"), Err(LexError::NumberParseFailure));
    assert_eq!(tokenize("1+9223372036854775808"), Err(LexError::NumberParseFailure));
    assert_eq!(tokenize("9223372036854775808+1"), Err(LexError::NumberParseFailure));
}

#[test]
fn largest_number_is_read() {
    assert_eq!(
        tokenize("9223372036854775807"),
        Ok(vec![Token::Num(i64::MAX), Token::Eof])
    );
}

#[test]
fn leading_zeros_do_not_count() {
    assert_eq!(tokenize("007"), Ok(vec![Token::Num(7), Token::Eof]));
    assert_eq!(
        tokenize("00000000000000000000000000000001"),
        Ok(vec![Token::Num(1), Token::Eof])
    );
}

#[test]
fn tokenizing_twice_gives_the_same_tokens() {
    for input in ["42", "5+3-2", "+5", "5*3", " 1 + 2 "] {
        assert_eq!(tokenize(input), tokenize(input));
    }
}

#[test]
fn new_num_token_is_appended() {
    let mut tokens = vec![Token::Num(1), Token::Reserved(Operator::Add)];
    assert_eq!(create_new_num_token(&mut tokens, "23"), Ok(()));
    assert_eq!(tokens, vec![Token::Num(1), Token::Reserved(Operator::Add), Token::Num(23)]);
}

#[test]
fn new_num_token_reads_a_sign() {
    let mut tokens = Vec::new();
    assert_eq!(create_new_num_token(&mut tokens, "-5"), Ok(()));
    assert_eq!(create_new_num_token(&mut tokens, "+6"), Ok(()));
    assert_eq!(tokens, vec![Token::Num(-5), Token::Num(6)]);
}

#[test]
fn new_num_token_from_nothing_is_an_empty_number() {
    let mut tokens = vec![Token::Num(1)];
    assert_eq!(create_new_num_token(&mut tokens, ""), Err(LexError::EmptyNumber));
    assert_eq!(tokens, vec![Token::Num(1)]);
}

#[test]
fn new_num_token_from_other_text_is_a_parse_failure() {
    let mut tokens = vec![Token::Num(1)];
    for val in ["abc", "1a", "-", "+", "1 2", "9223372036854775808", "-9223372036854775809"] {
        assert_eq!(create_new_num_token(&mut tokens, val), Err(LexError::NumberParseFailure));
        assert_eq!(tokens, vec![Token::Num(1)]);
    }
}

#[test]
fn new_reserved_token_is_appended() {
    let mut tokens = vec![Token::Num(1)];
    create_new_reserved_token(&mut tokens, Operator::Sub);
    create_new_reserved_token(&mut tokens, Operator::Add);
    assert_eq!(
        tokens,
        vec![Token::Num(1), Token::Reserved(Operator::Sub), Token::Reserved(Operator::Add)]
    );
}

#[test]
fn white_space_is_what_the_standard_library_calls_white_space() {
    for code in 0..=0x10FFFFu32 {
        if let Some(c) = char::from_u32(code) {
            assert_eq!(is_whitespace(c), c.is_whitespace(), "U+{:04X}", code);
        }
    }
}

#[test]
fn digits_and_operators_are_no_white_space() {
    for c in "0123456789+-".chars() {
        assert!(!is_whitespace(c));
    }
    for c in " \t\n\r\u{b}\u{c}".chars() {
        assert!(is_whitespace(c));
    }
}
