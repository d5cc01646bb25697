use lox_interpreter::parser::Parser;
use lox_interpreter::syntax::SyntaxNode;
use lox_interpreter::tokenizer::TokenIterator;
use lox_interpreter::tokens::Token;

fn parse_text(input: &str) -> Result<String, String> {
    let mut it = TokenIterator::new(input);
    let raw: Vec<Token> = it.collect_all().into_iter().map(|r| r.unwrap()).collect();
    // A number token carries the text of its value as a double.
    let values: Vec<String> = raw
        .iter()
        .filter_map(|t| match t {
            Token::Number(spelling, _) => Some(format!("{:?}", spelling.parse::<f64>().unwrap())),
            _ => None,
        })
        .collect();
    let mut next_value = values.iter();
    let tokens: Vec<Token> = raw
        .into_iter()
        .map(|t| match t {
            Token::Number(spelling, _) => Token::Number(spelling, next_value.next().unwrap()),
            other => other,
        })
        .collect();
    let mut parser = Parser::new(tokens);
    parser.parse().map(|ast| ast.to_string())
}

#[test]
fn operators_of_equal_strength_group_to_the_left() {
    assert_eq!(parse_text("1 - 2 - 3").unwrap(), "(- (- 1.0 2.0) 3.0)");
    assert_eq!(parse_text("8 / 4 * 2").unwrap(), "(* (/ 8.0 4.0) 2.0)");
    assert_eq!(parse_text("true and false or nil").unwrap(), "(OR (AND true false) nil)");
}

#[test]
fn the_stronger_operator_takes_the_middle_operand() {
    assert_eq!(parse_text("1 == 2 < 3").unwrap(), "(== 1.0 (< 2.0 3.0))");
    assert_eq!(parse_text("1 < 2 == 3").unwrap(), "(== (< 1.0 2.0) 3.0)");
    assert_eq!(parse_text("1 + 2 * 3").unwrap(), "(+ 1.0 (* 2.0 3.0))");
}

#[test]
fn unary_operators_bind_tightest() {
    assert_eq!(parse_text("-1 + 2").unwrap(), "(+ (- 1.0) 2.0)");
    assert_eq!(parse_text("+1 * 2").unwrap(), "(* (+ 1.0) 2.0)");
    assert_eq!(parse_text("!!true").unwrap(), "(! (! true))");
    assert_eq!(parse_text("-(1 + 2)").unwrap(), "(- (group (+ 1.0 2.0)))");
}

#[test]
fn strings_print_their_contents() {
    assert_eq!(parse_text("\"a\" + \"b\"").unwrap(), "(+ a b)");
}

#[test]
fn parse_errors() {
    assert_eq!(parse_text(")").unwrap_err(), "Unexpected token: RIGHT_PAREN ) null");
    assert_eq!(parse_text("(nil nil").unwrap_err(), "Unexpected token: NIL nil null");
    assert_eq!(parse_text("1 +").unwrap_err(), "Unexpected token: EOF  null");
    assert_eq!(parse_text("x").unwrap_err(), "Unexpected token: IDENTIFIER x null");
    let mut parser = Parser::new(vec![]);
    assert_eq!(parser.parse().unwrap_err(), "Unexpected end of input");
    let mut parser = Parser::new(vec![Token::LeftParen("("), Token::Nil("nil")]);
    assert_eq!(parser.parse().unwrap_err(), "Unexpected end of input");
}

#[test]
fn parse_stops_after_one_expression() {
    let tokens = vec![Token::Nil("nil"), Token::Nil("nil"), Token::EOF];
    let mut parser = Parser::new(tokens);
    assert!(matches!(parser.parse(), Ok(SyntaxNode::NilLiteral)));
    assert!(matches!(parser.parse(), Ok(SyntaxNode::NilLiteral)));
    assert_eq!(parser.parse().unwrap_err(), "Unexpected token: EOF  null");
}

#[test]
fn programs_are_statements_up_to_the_end() {
    let mut it = TokenIterator::new("print 1 + 2; true;\n\"s\";");
    let tokens: Vec<Token> = it.collect_all().into_iter().map(|r| r.unwrap()).collect();
    let mut parser = Parser::new(tokens);
    let program = parser.parse_program().unwrap();
    match &program {
        SyntaxNode::Program(lines) => {
            assert_eq!(lines.len(), 3);
            assert!(matches!(lines[0], SyntaxNode::Print(_)));
            assert!(matches!(lines[1], SyntaxNode::Statement(_)));
        }
        _ => panic!("not a program"),
    }
    assert_eq!(program.to_string(), "(print (+ 1 2))\ntrue\ns\n");
}

#[test]
fn program_statements_need_semicolons() {
    let tokens = vec![Token::True("true"), Token::EOF];
    let mut parser = Parser::new(tokens);
    assert_eq!(parser.parse_program().unwrap_err(), "Unexpected token: EOF  null");
    let mut parser = Parser::new(vec![Token::Print("print"), Token::True("true")]);
    assert_eq!(parser.parse_program().unwrap_err(), "Unexpected end of input");
    let mut parser = Parser::new(vec![]);
    assert!(matches!(parser.parse_program(), Ok(SyntaxNode::Program(v)) if v.is_empty()));
}

#[test]
fn printing_other_nodes() {
    let assign = SyntaxNode::Assign("x", Box::new(SyntaxNode::NumberLiteral("1.0")));
    assert_eq!(assign.to_string(), "(= x 1.0)");
    let var = SyntaxNode::Variable("y", Box::new(SyntaxNode::Identifier("x")));
    assert_eq!(var.to_string(), "(var y x)");
    let block = SyntaxNode::Scoupe(vec![
        SyntaxNode::Statement(Box::new(SyntaxNode::BoolLiteral(false))),
        SyntaxNode::NilLiteral,
    ]);
    assert_eq!(block.to_string(), "false");
    let print = SyntaxNode::Print(Box::new(SyntaxNode::StringLiteral("hi")));
    assert_eq!(print.to_string(), "(print hi)");
}

#[test]
fn a_token_that_starts_no_expression_is_consumed() {
    let tokens = vec![Token::Identifier("a"), Token::Nil("nil")];
    let mut parser = Parser::new(tokens);
    assert_eq!(parser.parse().unwrap_err(), "Unexpected token: IDENTIFIER a null");
    assert!(matches!(parser.parse(), Ok(SyntaxNode::NilLiteral)));
}

#[test]
fn a_missing_closer_is_left_unread() {
    let tokens = vec![Token::LeftParen("("), Token::Nil("nil"), Token::True("true")];
    let mut parser = Parser::new(tokens);
    assert_eq!(parser.parse().unwrap_err(), "Unexpected token: TRUE true null");
    assert!(matches!(parser.parse(), Ok(SyntaxNode::BoolLiteral(true))));
}

#[test]
fn parsing_stops_before_a_weaker_or_non_operator() {
    let tokens = vec![Token::Number("1", "1.0"), Token::Number("2", "2.0")];
    let mut parser = Parser::new(tokens);
    assert!(matches!(parser.parse(), Ok(SyntaxNode::NumberLiteral("1.0"))));
    assert!(matches!(parser.parse(), Ok(SyntaxNode::NumberLiteral("2.0"))));
    let tokens = vec![
        Token::Number("1", "1"),
        Token::Star("*"),
        Token::Number("2", "2"),
        Token::RightParen(")"),
        Token::Plus("+"),
    ];
    let mut parser = Parser::new(tokens);
    assert_eq!(parser.parse().unwrap().to_string(), "(* 1 2)");
    assert_eq!(parser.parse().unwrap_err(), "Unexpected token: RIGHT_PAREN ) null");
}

#[test]
fn operand_and_operator_parsing_can_be_called_directly() {
    let one = Token::Number("1", "1.0");
    let two = Token::Number("2", "2.0");
    let mut parser = Parser::new(vec![one, Token::Star("*"), two, Token::Plus("+"), one]);
    assert_eq!(parser.parse_binary(3).unwrap().to_string(), "(* 1.0 2.0)");
    // The `+` left unread now starts a unary operand.
    assert_eq!(parser.parse_binary(0).unwrap().to_string(), "(+ 1.0)");
    let mut parser = Parser::new(vec![Token::Identifier("a"), Token::Nil("nil")]);
    assert_eq!(
        parser.parse_paren_unalry_or_literal().unwrap_err(),
        "Unexpected token: IDENTIFIER a null"
    );
    assert!(matches!(parser.parse_paren_unalry_or_literal(), Ok(SyntaxNode::NilLiteral)));
    assert_eq!(parser.parse_paren_unalry_or_literal().unwrap_err(), "Unexpected end of input");
    let mut parser = Parser::new(vec![Token::LeftParen("("), Token::Nil("nil")]);
    assert_eq!(parser.parse_paren_unalry_or_literal().unwrap_err(), "Unexpected end of input");
}
