use lox_interpreter::parser::Parser;
use lox_interpreter::syntax::SyntaxNode;
use lox_interpreter::tokens::Token;

/// The text by which the library carries a number literal's value.
fn value_text(v: f64) -> String {
    format!("{:?}", v)
}

#[test]
fn test_parse_number_literal() {
    let v42 = value_text(42.0);
    let tokens = vec![Token::Number("42.0", &v42)];
    let mut parser = Parser::new(tokens);
    let ast = parser.parse().unwrap();
    assert!(matches!(ast, SyntaxNode::NumberLiteral(v) if v.parse::<f64>().unwrap() == 42.0));
    assert_eq!(ast.to_string(), "42.0");
}

#[test]
fn test_parse_bool_literal() {
    let tokens = vec![Token::True("true")];
    let mut parser = Parser::new(tokens);
    let ast = parser.parse().unwrap();
    assert!(matches!(ast, SyntaxNode::BoolLiteral(true)));
    assert_eq!(ast.to_string(), "true");
}

#[test]
fn test_parse_nil_literal() {
    let tokens = vec![Token::Nil("nil")];
    let mut parser = Parser::new(tokens);
    let ast = parser.parse().unwrap();
    assert!(matches!(ast, SyntaxNode::NilLiteral));
    assert_eq!(ast.to_string(), "nil");
}

#[test]
fn test_parse_parens() {
    let tokens = vec![
        Token::LeftParen("("),
        Token::Nil("nil"),
        Token::RightParen(")"),
    ];
    let mut parser = Parser::new(tokens);
    let ast = parser.parse().unwrap();
    assert!(matches!(ast, SyntaxNode::Parens(_)));
    assert_eq!(ast.to_string(), "(group nil)");
}

#[test]
fn test_parse_not() {
    let tokens = vec![Token::Bang("!"), Token::True("true")];
    let mut parser = Parser::new(tokens);
    let ast = parser.parse().unwrap();
    assert!(matches!(ast, SyntaxNode::Not(_)));
    assert_eq!(ast.to_string(), "(! true)");
}

#[test]
fn test_parse_and_or() {
    let tokens = vec![
        Token::True("true"),
        Token::And("and"),
        Token::False("false"),
        Token::Or("or"),
        Token::Nil("nil"),
    ];
    let mut parser = Parser::new(tokens);
    let ast = parser.parse().unwrap();
    assert!(matches!(ast, SyntaxNode::Or(_, _)));
    assert_eq!(ast.to_string(), "(OR (AND true false) nil)");
}

#[test]
fn test_parse_binary_precedence() {
    let (v1, v2, v3) = (value_text(1.0), value_text(2.0), value_text(3.0));
    let tokens = vec![
        Token::Number("1.0", &v1),
        Token::Plus("+"),
        Token::Number("2.0", &v2),
        Token::Star("*"),
        Token::Number("3.0", &v3),
    ];
    let mut parser = Parser::new(tokens);
    let ast = parser.parse().unwrap();
    assert!(matches!(ast, SyntaxNode::PlusBinary(_, _)));
    assert_eq!(ast.to_string(), "(+ 1.0 (* 2.0 3.0))");
}

#[test]
fn test_parse_binary_precedence_paren() {
    let (v1, v2, v3) = (value_text(1.0), value_text(2.0), value_text(3.0));
    let tokens = vec![
        Token::LeftParen("("),
        Token::Number("1.0", &v1),
        Token::Plus("+"),
        Token::Number("2.0", &v2),
        Token::RightParen(")"),
        Token::Star("*"),
        Token::Number("3.0", &v3),
    ];
    let mut parser = Parser::new(tokens);
    let ast = parser.parse().unwrap();
    assert_eq!(ast.to_string(), "(* (group (+ 1.0 2.0)) 3.0)");
}

#[test]
fn test_parse_binary_precedence_1() {
    let (v1, v2, v3) = (value_text(1.0), value_text(2.0), value_text(3.0));
    let tokens = vec![
        Token::Number("1.0", &v1),
        Token::Star("*"),
        Token::Number("2.0", &v2),
        Token::Plus("+"),
        Token::Number("3.0", &v3),
    ];
    let mut parser = Parser::new(tokens);
    let ast = parser.parse().unwrap();
    assert!(matches!(ast, SyntaxNode::PlusBinary(_, _)));
    assert_eq!(ast.to_string(), "(+ (* 1.0 2.0) 3.0)");
}

#[test]
fn test_parse_complex_expression() {
    let (v17, v64, v73, v35) = (
        value_text(17.0),
        value_text(64.0),
        value_text(73.0),
        value_text(35.0),
    );
    let tokens = vec![
        Token::LeftParen("("),
        Token::Number("17.0", &v17),
        Token::Minus("-"),
        Token::Number("64.0", &v64),
        Token::RightParen(")"),
        Token::GreaterEqual(">="),
        Token::Minus("-"),
        Token::LeftParen("("),
        Token::Number("73.0", &v73),
        Token::Slash("/"),
        Token::Number("17.0", &v17),
        Token::Plus("+"),
        Token::Number("35.0", &v35),
        Token::RightParen(")"),
    ];
    let mut parser = Parser::new(tokens);
    let ast = parser.parse().unwrap();
    assert_eq!(
        ast.to_string(),
        "(>= (group (- 17.0 64.0)) (- (group (+ (/ 73.0 17.0) 35.0))))"
    );
}

//"hello"!="foo"
#[test]
fn test_parse_not_equal() {
    let tokens = vec![
        Token::StringLiteral("\"hello\"", "hello"),
        Token::BangEqual("!="),
        Token::StringLiteral("\"foo\"", "foo"),
    ];
    let mut parser = Parser::new(tokens);
    let ast = parser.parse().unwrap();
    assert_eq!(ast.to_string(), "(!= hello foo)");
}

// "world" == "world"
#[test]
fn test_parse_equal() {
    let tokens = vec![
        Token::StringLiteral("\"world\"", "world"),
        Token::EqualEqual("=="),
        Token::StringLiteral("\"world\"", "world"),
    ];
    let mut parser = Parser::new(tokens);
    let ast = parser.parse().unwrap();
    assert_eq!(ast.to_string(), "(== world world)");
}
