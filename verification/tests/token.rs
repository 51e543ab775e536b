use expr_asm::token::{Operator, Token, TokenKind};

#[test]
fn operators_have_their_mnemonics() {
    assert_eq!(Operator::Add.opcode(), "add");
    assert_eq!(Operator::Sub.opcode(), "sub");
}

#[test]
fn default_kind_is_the_end_marker() {
    assert_eq!(TokenKind::default(), TokenKind::TkEof);
    assert_eq!(Token::default(), Token::Eof);
}

#[test]
fn tokens_have_their_kinds() {
    assert_eq!(Token::Num(1).kind(), TokenKind::TkNum);
    assert_eq!(Token::Reserved(Operator::Add).kind(), TokenKind::TkReserved);
    assert_eq!(Token::Eof.kind(), TokenKind::TkEof);
}

#[test]
fn only_literals_have_a_value() {
    assert_eq!(Token::Num(42).val(), Some(42));
    assert_eq!(Token::Reserved(Operator::Add).val(), None);
    assert_eq!(Token::Eof.val(), None);
}

#[test]
fn only_reserved_tokens_have_an_operator() {
    assert_eq!(Token::Reserved(Operator::Sub).operator(), Some(Operator::Sub));
    assert_eq!(Token::Num(42).operator(), None);
    assert_eq!(Token::Eof.operator(), None);
}

#[test]
fn tokens_are_described_in_one_line() {
    assert_eq!(Token::Num(42).describe(), "kind: TkNum, val: Some(42), operator: None");
    assert_eq!(Token::Num(-3).describe(), "kind: TkNum, val: Some(-3), operator: None");
    assert_eq!(
        Token::Reserved(Operator::Add).describe(),
        "kind: TkReserved, val: None, operator: Some(Add)"
    );
    assert_eq!(
        Token::Reserved(Operator::Sub).describe(),
        "kind: TkReserved, val: None, operator: Some(Sub)"
    );
    assert_eq!(Token::Eof.describe(), "kind: TkEof, val: None, operator: None");
}
