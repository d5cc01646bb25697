use lox_interpreter::tokenizer::TokenIterator;

#[test]
fn test_token_iterator() {
    let input = "";
    let mut token_iterator = TokenIterator::new(input);
    let token = token_iterator.next().unwrap().unwrap();
    assert_eq!(token.to_string(), "EOF  null");
}

#[test]
fn test_token_iterator_1() {
    let input = "({*.,+*})";

    let mut token_iterator = TokenIterator::new(input);
    let tokens = token_iterator
        .collect_all()
        .into_iter()
        .map(|t| t.unwrap())
        .collect::<Vec<_>>();
    assert_eq!(tokens.len(), 10);
    assert_eq!(tokens[0].to_string(), "LEFT_PAREN ( null");
    assert_eq!(tokens[1].to_string(), "LEFT_BRACE { null");
    assert_eq!(tokens[2].to_string(), "STAR * null");
    assert_eq!(tokens[3].to_string(), "DOT . null");
    assert_eq!(tokens[4].to_string(), "COMMA , null");
    assert_eq!(tokens[5].to_string(), "PLUS + null");
    assert_eq!(tokens[6].to_string(), "STAR * null");
    assert_eq!(tokens[7].to_string(), "RIGHT_BRACE } null");
    assert_eq!(tokens[8].to_string(), "RIGHT_PAREN ) null");
    assert_eq!(tokens.last().unwrap().to_string(), "EOF  null");
}

#[test]
fn test_token_iterator_equal_and_bang() {
    let input = "=!=!==";
    let mut token_iterator = TokenIterator::new(input);
    let tokens = token_iterator
        .collect_all()
        .into_iter()
        .map(|t| t.unwrap())
        .collect::<Vec<_>>();
    assert_eq!(tokens.len(), 5);
    assert_eq!(tokens[0].to_string(), "EQUAL = null");
    assert_eq!(tokens[1].to_string(), "BANG_EQUAL != null");
    assert_eq!(tokens[2].to_string(), "BANG_EQUAL != null");
    assert_eq!(tokens[3].to_string(), "EQUAL = null");
    assert_eq!(tokens[4].to_string(), "EOF  null");
}

#[test]
fn test_token_iterator_string_literal() {
    let input = "\"Hello, World!\"";
    let mut token_iterator = TokenIterator::new(input);
    let tokens = token_iterator
        .collect_all()
        .into_iter()
        .map(|t| t.unwrap())
        .collect::<Vec<_>>();
    assert_eq!(tokens.len(), 2);
    assert_eq!(
        tokens[0].to_string(),
        "STRING \"Hello, World!\" Hello, World!"
    );
    assert_eq!(tokens[1].to_string(), "EOF  null");
}

#[test]
fn test_token_iterator_string_literal_negative() {
    let input = "\"Hello, World!";
    let mut token_iterator = TokenIterator::new(input);
    let tokens_err = token_iterator
        .collect_all()
        .into_iter()
        .map(|t| t.err())
        .flatten()
        .collect::<Vec<_>>();
    assert_eq!(tokens_err.len(), 1);
    assert_eq!(
        tokens_err[0].to_string(),
        "[line 1] Error: Unterminated string."
    );
}

#[test]
fn test_token_iterator_equal() {
    let input = "\"world\" == \"world\"";
    let mut token_iterator = TokenIterator::new(input);
    let tokens = token_iterator
        .collect_all()
        .into_iter()
        .map(|t| t.unwrap())
        .collect::<Vec<_>>();
    assert_eq!(tokens.len(), 4);
    assert_eq!(tokens[0].to_string(), "STRING \"world\" world");
    assert_eq!(tokens[1].to_string(), "EQUAL_EQUAL == null");
    assert_eq!(tokens[2].to_string(), "STRING \"world\" world");
    assert_eq!(tokens[3].to_string(), "EOF  null");
}
