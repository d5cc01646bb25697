use lox_interpreter::text::{str_equal, usize_to_decimal};
use lox_interpreter::tokenizer::reserved_or_identifier;
use lox_interpreter::tokens::{Token, TokinizationError};

#[test]
fn keyword_and_name_tokens_print_their_spelling() {
    assert_eq!(Token::Var("var").to_string(), "VAR var null");
    assert_eq!(Token::Identifier("foo_1").to_string(), "IDENTIFIER foo_1 null");
    assert_eq!(Token::While("while").to_string(), "WHILE while null");
    assert_eq!(Token::And("and").to_string(), "AND and null");
}

#[test]
fn number_token_prints_spelling_then_value() {
    assert_eq!(Token::Number("42", "42.0").to_string(), "NUMBER 42 42.0");
}

#[test]
fn punctuation_tokens_print_fixed_text() {
    assert_eq!(Token::LessEqual("<=").to_string(), "LESS_EQUAL <= null");
    assert_eq!(Token::GreaterEqual(">=").to_string(), "GREATER_EQUAL >= null");
    assert_eq!(Token::Semicolon(";").to_string(), "SEMICOLON ; null");
    assert_eq!(Token::EOF.to_string(), "EOF  null");
}

#[test]
fn precedence_of_operators() {
    assert_eq!(Token::Or("or").get_precedence(), Some(1));
    assert_eq!(Token::BangEqual("!=").get_precedence(), Some(1));
    assert_eq!(Token::Less("<").get_precedence(), Some(2));
    assert_eq!(Token::Minus("-").get_precedence(), Some(3));
    assert_eq!(Token::Slash("/").get_precedence(), Some(4));
    assert_eq!(Token::Bang("!").get_precedence(), None);
    assert_eq!(Token::Identifier("x").get_precedence(), None);
}

#[test]
fn no_operator_binds_as_strongly_as_a_unary_operand() {
    let highest = Token::get_highest_precedence();
    assert_eq!(highest, 5);
    let ops = [
        Token::And("and"),
        Token::Or("or"),
        Token::EqualEqual("=="),
        Token::BangEqual("!="),
        Token::Less("<"),
        Token::LessEqual("<="),
        Token::Greater(">"),
        Token::GreaterEqual(">="),
        Token::Plus("+"),
        Token::Minus("-"),
        Token::Star("*"),
        Token::Slash("/"),
    ];
    for op in ops.iter() {
        assert!(op.get_precedence().unwrap() < highest);
    }
}

#[test]
fn error_messages_name_the_line() {
    let e = TokinizationError::UnrecognizedCharacter("@".to_string(), 12);
    assert_eq!(e.to_string(), "[line 12] Error: Unexpected character: @");
    let e = TokinizationError::UnterminatedStringLiteral(305);
    assert_eq!(e.to_string(), "[line 305] Error: Unterminated string.");
}

#[test]
fn decimal_writing() {
    assert_eq!(usize_to_decimal(0), "0");
    assert_eq!(usize_to_decimal(7), "7");
    assert_eq!(usize_to_decimal(10), "10");
    assert_eq!(usize_to_decimal(90210), "90210");
    assert_eq!(usize_to_decimal(usize::MAX), usize::MAX.to_string());
}

#[test]
fn string_slice_equality() {
    assert!(str_equal("abc", "abc"));
    assert!(!str_equal("abc", "abd"));
    assert!(!str_equal("abc", "ab"));
    assert!(str_equal("", ""));
    assert!(str_equal("héllo", "héllo"));
}

#[test]
fn reserved_words_become_keyword_tokens() {
    assert!(matches!(reserved_or_identifier("class"), Token::Class("class")));
    assert!(matches!(reserved_or_identifier("fun"), Token::Fun("fun")));
    assert!(matches!(reserved_or_identifier("nil"), Token::Nil("nil")));
    assert!(matches!(reserved_or_identifier("this"), Token::This("this")));
    assert!(matches!(reserved_or_identifier("classy"), Token::Identifier("classy")));
    assert!(matches!(reserved_or_identifier("And"), Token::Identifier("And")));
}
