use scanner::decimal::{parse_decimal, render_decimal};
use scanner::tokens::Token;

#[test]
fn keywords_print_as_themselves() {
    assert_eq!(Token::INT.to_string(), "int");
    assert_eq!(Token::WHILE.to_string(), "while");
    assert_eq!(Token::IF.to_string(), "if");
    assert_eq!(Token::ELSE.to_string(), "else");
    assert_eq!(Token::RETURN.to_string(), "return");
    assert_eq!(Token::VOID.to_string(), "void");
}

#[test]
fn operators_print_as_words() {
    assert_eq!(Token::PLUS.to_string(), "plus");
    assert_eq!(Token::MINUS.to_string(), "minus");
    assert_eq!(Token::MULTIPLY.to_string(), "multiply");
    assert_eq!(Token::DIVIDE.to_string(), "divide");
    assert_eq!(Token::LESS_THAN.to_string(), "less than");
    assert_eq!(Token::LT_EQ.to_string(), "less than or equal to");
    assert_eq!(Token::GREATER_THAN.to_string(), "greater than");
    assert_eq!(Token::GT_EQ.to_string(), "greater than or equal to");
    assert_eq!(Token::EQUAL.to_string(), "equal");
    assert_eq!(Token::NOT_EQ.to_string(), "not equal");
    assert_eq!(Token::ASSIGN.to_string(), "assign");
}

#[test]
fn punctuation_prints_as_its_glyph() {
    assert_eq!(Token::SEMICOLON.to_string(), ";");
    assert_eq!(Token::COMMA.to_string(), ",");
    assert_eq!(Token::R_PAREN.to_string(), ")");
    assert_eq!(Token::L_PAREN.to_string(), "(");
    assert_eq!(Token::R_BRACK.to_string(), "]");
    assert_eq!(Token::L_BRACK.to_string(), "[");
    assert_eq!(Token::R_BRACE.to_string(), "}");
    assert_eq!(Token::L_BRACE.to_string(), "{");
}

#[test]
fn payloads_print_as_they_are() {
    assert_eq!(Token::IDENTIFIER(String::from("foo123")).to_string(), "foo123");
    assert_eq!(Token::ERROR("Unexpected token: !").to_string(), "Unexpected token: !");
    assert_eq!(Token::ERROR("Number out of range").to_string(), "Number out of range");
}

#[test]
fn numbers_print_in_decimal() {
    assert_eq!(Token::NUMBER(0).to_string(), "0");
    assert_eq!(Token::NUMBER(7).to_string(), "7");
    assert_eq!(Token::NUMBER(10).to_string(), "10");
    assert_eq!(Token::NUMBER(4200).to_string(), "4200");
    assert_eq!(Token::NUMBER(1000000000).to_string(), "1000000000");
    assert_eq!(Token::NUMBER(4294967295).to_string(), "4294967295");
}

#[test]
fn render_decimal_has_no_leading_zeros() {
    assert_eq!(render_decimal(0), "0");
    assert_eq!(render_decimal(9), "9");
    assert_eq!(render_decimal(100), "100");
    assert_eq!(render_decimal(90210), "90210");
}

#[test]
fn parse_decimal_reads_digit_runs() {
    assert_eq!(parse_decimal("0"), Some(0));
    assert_eq!(parse_decimal("007"), Some(7));
    assert_eq!(parse_decimal("4200"), Some(4200));
    assert_eq!(parse_decimal(""), Some(0));
    assert_eq!(parse_decimal("4294967295"), Some(4294967295));
    assert_eq!(parse_decimal("04294967295"), Some(4294967295));
}

#[test]
fn parse_decimal_rejects_what_does_not_fit() {
    assert_eq!(parse_decimal("4294967296"), None);
    assert_eq!(parse_decimal("4294967300"), None);
    assert_eq!(parse_decimal("42949672950"), None);
    assert_eq!(parse_decimal("100000000000000000000000000000"), None);
}

#[test]
fn parse_and_render_are_inverse() {
    for n in [0u32, 1, 9, 10, 11, 99, 100, 12345, 4294967294, 4294967295] {
        assert_eq!(parse_decimal(&render_decimal(n)), Some(n));
    }
}
