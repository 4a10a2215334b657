use scanner::scan::Scanner;
use scanner::state::State;
use scanner::tokens::Token;

fn loaded(text: &[u8]) -> Scanner {
    let mut scanner = Scanner::new(text.to_vec());
    assert!(scanner.load_char());
    scanner
}

#[test]
fn load_char_reports_the_end_of_input() {
    let mut scanner = Scanner::new(Vec::new());
    assert!(!scanner.load_char());
    assert!(!scanner.load_char());

    let mut scanner = Scanner::new(b"+".to_vec());
    assert!(scanner.load_char());
    assert!(!scanner.load_char());
}

#[test]
fn start_completes_single_character_tokens() {
    assert_eq!(loaded(b"+").transition(State::Start), State::Done(Token::PLUS));
    assert_eq!(loaded(b"-").transition(State::Start), State::Done(Token::MINUS));
    assert_eq!(loaded(b"*").transition(State::Start), State::Done(Token::MULTIPLY));
    assert_eq!(loaded(b";").transition(State::Start), State::Done(Token::SEMICOLON));
    assert_eq!(loaded(b",").transition(State::Start), State::Done(Token::COMMA));
    assert_eq!(loaded(b"(").transition(State::Start), State::Done(Token::L_PAREN));
    assert_eq!(loaded(b")").transition(State::Start), State::Done(Token::R_PAREN));
    assert_eq!(loaded(b"[").transition(State::Start), State::Done(Token::L_BRACK));
    assert_eq!(loaded(b"]").transition(State::Start), State::Done(Token::R_BRACK));
    assert_eq!(loaded(b"{").transition(State::Start), State::Done(Token::L_BRACE));
    assert_eq!(loaded(b"}").transition(State::Start), State::Done(Token::R_BRACE));
}

#[test]
fn single_character_token_is_not_handed_back() {
    let mut scanner = loaded(b"(");
    assert_eq!(scanner.transition(State::Start), State::Done(Token::L_PAREN));
    assert!(!scanner.load_char());
    assert_eq!(scanner.next(), None);
}

#[test]
fn start_enters_the_state_of_what_begins() {
    assert_eq!(loaded(b"/").transition(State::Start), State::InSlash);
    assert_eq!(loaded(b"!").transition(State::Start), State::InNot);
    assert_eq!(loaded(b"=").transition(State::Start), State::InEqual);
    assert_eq!(loaded(b"<").transition(State::Start), State::InLess);
    assert_eq!(loaded(b">").transition(State::Start), State::InGreat);
    assert_eq!(loaded(b"0").transition(State::Start), State::InNum);
    assert_eq!(loaded(b"9").transition(State::Start), State::InNum);
    assert_eq!(loaded(b"a").transition(State::Start), State::InID);
    assert_eq!(loaded(b"z").transition(State::Start), State::InID);
    assert_eq!(loaded(b"A").transition(State::Start), State::InID);
    assert_eq!(loaded(b"Z").transition(State::Start), State::InID);
}

#[test]
fn start_stays_on_what_begins_nothing() {
    for byte in [b' ', b'\t', b'\n', b'\r', b'_', b'@', b'#', b'.', b'"', 0x00, 0x7f, 0x80, 0xff] {
        let mut scanner = loaded(&[byte, b'+']);
        assert_eq!(scanner.transition(State::Start), State::Start);
        assert_eq!(scanner.next(), Some(Token::PLUS));
    }
}

#[test]
fn boundaries_of_letters_and_digits() {
    for byte in [b'/', b':', b'@', b'[', b'`', b'{'] {
        let state = loaded(&[byte]).transition(State::InID);
        assert!(matches!(state, State::Done(_)));
    }
    for byte in [b'0', b'9', b'A', b'Z', b'a', b'z'] {
        assert_eq!(loaded(&[byte]).transition(State::InID), State::InID);
    }
    assert_eq!(loaded(b"@").transition(State::Start), State::Start);
    assert_eq!(loaded(b"`").transition(State::Start), State::Start);
}

#[test]
fn comment_states_follow_the_star_and_the_slash() {
    assert_eq!(loaded(b"*").transition(State::InSlash), State::InComment);
    assert_eq!(loaded(b"*").transition(State::InComment), State::InStar);
    assert_eq!(loaded(b"/").transition(State::InComment), State::InComment);
    assert_eq!(loaded(b"x").transition(State::InComment), State::InComment);
    assert_eq!(loaded(b"+").transition(State::InComment), State::InComment);
    assert_eq!(loaded(b"/").transition(State::InStar), State::Start);
    assert_eq!(loaded(b"*").transition(State::InStar), State::InComment);
    assert_eq!(loaded(b"x").transition(State::InStar), State::InComment);
}

#[test]
fn comment_bytes_are_not_handed_back() {
    let mut scanner = loaded(b"x;");
    assert_eq!(scanner.transition(State::InComment), State::InComment);
    assert!(scanner.load_char());
    assert_eq!(scanner.transition(State::Start), State::Done(Token::SEMICOLON));
}

#[test]
fn short_operator_hands_the_next_byte_back() {
    let cases = [
        (State::InSlash, Token::DIVIDE),
        (State::InEqual, Token::ASSIGN),
        (State::InLess, Token::LESS_THAN),
        (State::InGreat, Token::GREATER_THAN),
    ];
    for (state, token) in cases {
        let mut scanner = loaded(b";");
        assert_eq!(scanner.transition(state), State::Done(token));
        assert!(scanner.load_char());
        assert_eq!(scanner.transition(State::Start), State::Done(Token::SEMICOLON));
        assert!(!scanner.load_char());
    }
}

#[test]
fn long_operator_uses_both_bytes() {
    let cases = [
        (State::InEqual, Token::EQUAL),
        (State::InLess, Token::GT_EQ),
        (State::InGreat, Token::LT_EQ),
        (State::InNot, Token::NOT_EQ),
    ];
    for (state, token) in cases {
        let mut scanner = loaded(b"=");
        assert_eq!(scanner.transition(state), State::Done(token));
        assert!(!scanner.load_char());
    }
}

#[test]
fn lone_not_uses_the_next_byte_up() {
    let mut scanner = loaded(b"x");
    assert_eq!(
        scanner.transition(State::InNot),
        State::Done(Token::ERROR("Unexpected token: !"))
    );
    assert!(!scanner.load_char());
}

#[test]
fn name_is_collected_and_completed_by_hand() {
    let mut scanner = Scanner::new(b"ab1;".to_vec());
    assert!(scanner.load_char());
    assert_eq!(scanner.transition(State::Start), State::InID);
    assert!(scanner.load_char());
    assert_eq!(scanner.transition(State::InID), State::InID);
    assert!(scanner.load_char());
    assert_eq!(scanner.transition(State::InID), State::InID);
    assert!(scanner.load_char());
    assert_eq!(
        scanner.transition(State::InID),
        State::Done(Token::IDENTIFIER(String::from("ab1")))
    );
    assert_eq!(scanner.next(), Some(Token::SEMICOLON));
    assert_eq!(scanner.next(), None);
}

#[test]
fn keyword_is_completed_by_hand() {
    let mut scanner = Scanner::new(b"if(".to_vec());
    assert!(scanner.load_char());
    assert_eq!(scanner.transition(State::Start), State::InID);
    assert!(scanner.load_char());
    assert_eq!(scanner.transition(State::InID), State::InID);
    assert!(scanner.load_char());
    assert_eq!(scanner.transition(State::InID), State::Done(Token::IF));
    assert_eq!(scanner.next(), Some(Token::L_PAREN));
}

#[test]
fn number_is_collected_and_completed_by_hand() {
    let mut scanner = Scanner::new(b"42x ".to_vec());
    assert!(scanner.load_char());
    assert_eq!(scanner.transition(State::Start), State::InNum);
    assert!(scanner.load_char());
    assert_eq!(scanner.transition(State::InNum), State::InNum);
    assert!(scanner.load_char());
    assert_eq!(scanner.transition(State::InNum), State::Done(Token::NUMBER(42)));
    assert_eq!(scanner.next(), Some(Token::IDENTIFIER(String::from("x"))));
}

#[test]
fn completed_state_stays_completed() {
    let mut scanner = loaded(b"a+");
    assert_eq!(scanner.transition(State::Done(Token::COMMA)), State::Done(Token::COMMA));
    assert_eq!(scanner.next(), Some(Token::PLUS));
}

#[test]
fn byte_handed_back_by_next_is_delivered_once_more() {
    let mut scanner = Scanner::new(b"<x;".to_vec());
    assert_eq!(scanner.next(), Some(Token::LESS_THAN));
    assert!(scanner.load_char());
    assert_eq!(scanner.transition(State::Start), State::InID);
    assert!(scanner.load_char());
    assert_eq!(
        scanner.transition(State::InID),
        State::Done(Token::IDENTIFIER(String::from("x")))
    );
    assert!(scanner.load_char());
    assert_eq!(scanner.transition(State::Start), State::Done(Token::SEMICOLON));
    assert!(!scanner.load_char());
}

#[test]
fn scanner_can_be_printed_for_debugging() {
    let scanner = Scanner::new(b"a+b".to_vec());
    let text = format!("{:?}", scanner);
    assert!(text.starts_with("Scanner"));
    assert!(text.contains("reserve: false"));
}
