use lox_interpreter::tokenizer::{CharClass, CharFlags, TokenIterator};
use lox_interpreter::tokens::Token;

fn texts(input: &str) -> Vec<String> {
    let mut it = TokenIterator::new(input);
    it.collect_all()
        .into_iter()
        .map(|r| match r {
            // A number token is printed with the text of its value as a double.
            Ok(Token::Number(spelling, _)) => {
                let value = format!("{:?}", spelling.parse::<f64>().unwrap());
                Token::Number(spelling, &value).to_string()
            }
            Ok(t) => t.to_string(),
            Err(e) => e.to_string(),
        })
        .collect()
}

#[test]
fn numbers_names_and_keywords() {
    assert_eq!(
        texts("var x_1 = 12.5;"),
        vec![
            "VAR var null",
            "IDENTIFIER x_1 null",
            "EQUAL = null",
            "NUMBER 12.5 12.5",
            "SEMICOLON ; null",
            "EOF  null",
        ]
    );
}

#[test]
fn two_character_operators() {
    assert_eq!(
        texts("<= >= < > != ! == ="),
        vec![
            "LESS_EQUAL <= null",
            "GREATER_EQUAL >= null",
            "LESS < null",
            "GREATER > null",
            "BANG_EQUAL != null",
            "BANG ! null",
            "EQUAL_EQUAL == null",
            "EQUAL = null",
            "EOF  null",
        ]
    );
}

#[test]
fn comments_and_white_space_are_skipped() {
    assert_eq!(
        texts("// a comment ( )\n/ -\t\u{a0}-"),
        vec!["SLASH / null", "MINUS - null", "MINUS - null", "EOF  null"]
    );
}

#[test]
fn unicode_letters_make_names() {
    assert_eq!(texts("été1 b"), vec!["IDENTIFIER été1 null", "IDENTIFIER b null", "EOF  null"]);
}

#[test]
fn a_number_with_two_dots_is_flagged_before_it_is_read() {
    assert!(TokenIterator::new("1.2.3").next_is_malformed_number());
    assert!(TokenIterator::new(" // note\n\t1..2 x").next_is_malformed_number());
    assert!(!TokenIterator::new("1.2").next_is_malformed_number());
    assert!(!TokenIterator::new("x1.2.3").next_is_malformed_number());
    assert!(!TokenIterator::new("").next_is_malformed_number());
    assert_eq!(texts("1. 2.5"), vec!["NUMBER 1. 1.0", "NUMBER 2.5 2.5", "EOF  null"]);
    let mut it = TokenIterator::new("x1.2.3");
    assert!(matches!(it.next(), Some(Ok(Token::Identifier("x1")))));
    assert!(matches!(it.next(), Some(Ok(Token::Dot(".")))));
    assert!(it.next_is_malformed_number() == false);
    assert!(matches!(it.next(), Some(Ok(Token::Number("2.3", _)))));
}

#[test]
fn the_end_token_comes_first_only_for_blank_text() {
    for blank in ["", "   ", "// only a comment", " \t// one\n// two\n\u{3000}"] {
        let mut it = TokenIterator::new(blank);
        assert!(matches!(it.next(), Some(Ok(Token::EOF))));
        assert!(it.next().is_none());
    }
    for text in ["// one\n x", " / /", "+ -"] {
        let mut it = TokenIterator::new(text);
        assert!(!matches!(it.next(), Some(Ok(Token::EOF))));
    }
    let mut it = TokenIterator::new("+ -");
    assert!(matches!(it.next(), Some(Ok(Token::Plus("+")))));
    let mut it = TokenIterator::new("a");
    assert!(matches!(it.next_token(), Ok(Token::Identifier("a"))));
    assert!(matches!(it.next_token(), Ok(Token::EOF)));
    assert!(matches!(it.next_token(), Ok(Token::EOF)));
}

#[test]
fn white_space_is_what_std_calls_white_space() {
    for code in 0u32..=0x10ffff {
        if let Some(c) = char::from_u32(code) {
            assert_eq!(
                lox_interpreter::tokenizer::char_is_white_space(c),
                c.is_whitespace(),
                "{:x}",
                code
            );
        }
    }
}

#[test]
fn ascii_letters_and_underscore_start_names() {
    for code in 0u8..0x80 {
        let c = code as char;
        let text = c.to_string();
        let mut it = TokenIterator::new(&text);
        let first = it.next().unwrap();
        let is_name = matches!(first, Ok(Token::Identifier(_)));
        assert_eq!(is_name, c.is_ascii_alphabetic() || c == '_', "{:?}", c);
        assert_eq!(c.is_alphabetic(), c.is_ascii_alphabetic());
        assert_eq!(c.is_alphanumeric(), c.is_ascii_alphanumeric());
    }
}

#[test]
fn unexpected_characters_are_reported_with_their_line() {
    assert_eq!(
        texts("+\n\n@#"),
        vec![
            "PLUS + null",
            "[line 3] Error: Unexpected character: @",
            "[line 3] Error: Unexpected character: #",
            "EOF  null",
        ]
    );
}

#[test]
fn unterminated_string_reports_the_last_line() {
    assert_eq!(
        texts("\"abc\ndef"),
        vec!["[line 2] Error: Unterminated string.", "EOF  null"]
    );
}

#[test]
fn string_literal_spans_lines() {
    let mut it = TokenIterator::new("\"a\nb\"");
    let t = it.next_token().unwrap();
    assert!(matches!(t, Token::StringLiteral("\"a\nb\"", "a\nb")));
}

#[test]
fn nothing_after_the_end_token() {
    let mut it = TokenIterator::new("  ");
    assert!(matches!(it.next(), Some(Ok(Token::EOF))));
    assert!(it.next().is_none());
    assert!(it.next().is_none());
    assert!(it.collect_all().is_empty());
}

#[test]
fn the_end_token_comes_last_and_once() {
    let mut it = TokenIterator::new("a $ \"b");
    let all = it.collect_all();
    assert_eq!(all.len(), 4);
    assert!(matches!(all[3], Ok(Token::EOF)));
    assert!(all[..3].iter().all(|r| !matches!(r, Ok(Token::EOF))));
}

#[test]
fn line_numbers_count_line_breaks_before_a_position() {
    let it = TokenIterator::new("a\nb\n\nc");
    assert_eq!(it.find_line_number(0), 1);
    assert_eq!(it.find_line_number(2), 2);
    assert_eq!(it.find_line_number(5), 4);
    assert_eq!(it.find_line_number(6), 4);
}

#[test]
fn reading_characters() {
    let mut it = TokenIterator::new("ab1.5x\ny");
    assert_eq!(it.peek_char(), Some('a'));
    assert_eq!(it.read_char(), 'a');
    assert_eq!(it.read_while(CharClass::IdentifierChar), Some("b1"));
    assert_eq!(it.read_while(CharClass::NumberChar), Some(".5"));
    assert_eq!(it.read_until_rn(), "x");
    assert_eq!(it.peek_char(), Some('\n'));
    assert_eq!(it.read_char(), '\n');
    assert_eq!(it.read_while(CharClass::NotQuote), None);
    assert_eq!(it.peek_char(), None);
}

#[test]
fn scanning_follows_the_given_classification() {
    let plain = CharFlags { whitespace: false, alphabetic: false, alphanumeric: false };
    let space = CharFlags { whitespace: true, alphabetic: false, alphanumeric: false };
    let letter = CharFlags { whitespace: false, alphabetic: true, alphanumeric: true };
    // "x" is classified as white space, "+" as a letter.
    let mut it = TokenIterator::with_classes("x+y", vec![space, letter, letter]);
    let tokens: Vec<String> = it
        .collect_all()
        .into_iter()
        .map(|r| r.unwrap().to_string())
        .collect();
    assert_eq!(tokens, vec!["IDENTIFIER +y null", "EOF  null"]);
    let mut it = TokenIterator::with_classes("a", vec![plain]);
    assert_eq!(it.next_token().unwrap_err().to_string(), "[line 1] Error: Unexpected character: a");
}
