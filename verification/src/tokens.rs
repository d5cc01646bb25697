//! Tokens and tokenization errors, with their printed forms and the
//! binding strength of binary operators.

use vstd::prelude::*;
use vstd::string::*;

use crate::text::decimal;
use crate::text::usize_to_decimal;

verus! {

/// A lexical token. Each variant keeps the piece of source text it was read from.
#[derive(Debug, PartialEq, Clone, Copy)]
pub enum Token<'a> {
    /// A name.
    Identifier(&'a str),
    /// A string literal: its spelling with the quotes, then its contents.
    StringLiteral(&'a str, &'a str),
    /// The end of the input.
    EOF,
    LeftParen(&'a str),
    RightParen(&'a str),
    LeftBrace(&'a str),
    RightBrace(&'a str),
    Star(&'a str),
    Dot(&'a str),
    Comma(&'a str),
    Plus(&'a str),
    Minus(&'a str),
    Semicolon(&'a str),
    Slash(&'a str),
    EqualEqual(&'a str),
    Equal(&'a str),
    Bang(&'a str),
    BangEqual(&'a str),
    Less(&'a str),
    LessEqual(&'a str),
    Greater(&'a str),
    GreaterEqual(&'a str),
    /// A number literal: its spelling, then its value as text (as `{:?}`
    /// writes the double it denotes; the tokenizer leaves the spelling there).
    Number(&'a str, &'a str),
    Class(&'a str),
    Else(&'a str),
    False(&'a str),
    For(&'a str),
    Fun(&'a str),
    If(&'a str),
    Nil(&'a str),
    Or(&'a str),
    Print(&'a str),
    Return(&'a str),
    Super(&'a str),
    This(&'a str),
    True(&'a str),
    While(&'a str),
    Var(&'a str),
    And(&'a str),
}

/// The mathematical model of a [`Token`]: the same variants over character sequences.
pub enum TokenView {
    Identifier(Seq<char>),
    StringLiteral(Seq<char>, Seq<char>),
    EOF,
    LeftParen(Seq<char>),
    RightParen(Seq<char>),
    LeftBrace(Seq<char>),
    RightBrace(Seq<char>),
    Star(Seq<char>),
    Dot(Seq<char>),
    Comma(Seq<char>),
    Plus(Seq<char>),
    Minus(Seq<char>),
    Semicolon(Seq<char>),
    Slash(Seq<char>),
    EqualEqual(Seq<char>),
    Equal(Seq<char>),
    Bang(Seq<char>),
    BangEqual(Seq<char>),
    Less(Seq<char>),
    LessEqual(Seq<char>),
    Greater(Seq<char>),
    GreaterEqual(Seq<char>),
    Number(Seq<char>, Seq<char>),
    Class(Seq<char>),
    Else(Seq<char>),
    False(Seq<char>),
    For(Seq<char>),
    Fun(Seq<char>),
    If(Seq<char>),
    Nil(Seq<char>),
    Or(Seq<char>),
    Print(Seq<char>),
    Return(Seq<char>),
    Super(Seq<char>),
    This(Seq<char>),
    True(Seq<char>),
    While(Seq<char>),
    Var(Seq<char>),
    And(Seq<char>),
}

impl<'a> View for Token<'a> {
    type V = TokenView;

    open spec fn view(&self) -> TokenView {
        match *self {
            Token::Identifier(a) => TokenView::Identifier(a@),
            Token::StringLiteral(a, b) => TokenView::StringLiteral(a@, b@),
            Token::EOF => TokenView::EOF,
            Token::LeftParen(a) => TokenView::LeftParen(a@),
            Token::RightParen(a) => TokenView::RightParen(a@),
            Token::LeftBrace(a) => TokenView::LeftBrace(a@),
            Token::RightBrace(a) => TokenView::RightBrace(a@),
            Token::Star(a) => TokenView::Star(a@),
            Token::Dot(a) => TokenView::Dot(a@),
            Token::Comma(a) => TokenView::Comma(a@),
            Token::Plus(a) => TokenView::Plus(a@),
            Token::Minus(a) => TokenView::Minus(a@),
            Token::Semicolon(a) => TokenView::Semicolon(a@),
            Token::Slash(a) => TokenView::Slash(a@),
            Token::EqualEqual(a) => TokenView::EqualEqual(a@),
            Token::Equal(a) => TokenView::Equal(a@),
            Token::Bang(a) => TokenView::Bang(a@),
            Token::BangEqual(a) => TokenView::BangEqual(a@),
            Token::Less(a) => TokenView::Less(a@),
            Token::LessEqual(a) => TokenView::LessEqual(a@),
            Token::Greater(a) => TokenView::Greater(a@),
            Token::GreaterEqual(a) => TokenView::GreaterEqual(a@),
            Token::Number(a, b) => TokenView::Number(a@, b@),
            Token::Class(a) => TokenView::Class(a@),
            Token::Else(a) => TokenView::Else(a@),
            Token::False(a) => TokenView::False(a@),
            Token::For(a) => TokenView::For(a@),
            Token::Fun(a) => TokenView::Fun(a@),
            Token::If(a) => TokenView::If(a@),
            Token::Nil(a) => TokenView::Nil(a@),
            Token::Or(a) => TokenView::Or(a@),
            Token::Print(a) => TokenView::Print(a@),
            Token::Return(a) => TokenView::Return(a@),
            Token::Super(a) => TokenView::Super(a@),
            Token::This(a) => TokenView::This(a@),
            Token::True(a) => TokenView::True(a@),
            Token::While(a) => TokenView::While(a@),
            Token::Var(a) => TokenView::Var(a@),
            Token::And(a) => TokenView::And(a@),
        }
    }
}

/// The text that [`Token::to_string`] gives for a token.
pub open spec fn token_text(t: TokenView) -> Seq<char> {
    match t {
        TokenView::Identifier(name) => "IDENTIFIER "@ + name + " null"@,
        TokenView::StringLiteral(l, v) => "STRING "@ + l + " "@ + v,
        TokenView::EOF => "EOF  null"@,
        TokenView::LeftParen(_) => "LEFT_PAREN ( null"@,
        TokenView::RightParen(_) => "RIGHT_PAREN ) null"@,
        TokenView::LeftBrace(_) => "LEFT_BRACE { null"@,
        TokenView::RightBrace(_) => "RIGHT_BRACE } null"@,
        TokenView::Star(_) => "STAR * null"@,
        TokenView::Dot(_) => "DOT . null"@,
        TokenView::Comma(_) => "COMMA , null"@,
        TokenView::Plus(_) => "PLUS + null"@,
        TokenView::Minus(_) => "MINUS - null"@,
        TokenView::Semicolon(_) => "SEMICOLON ; null"@,
        TokenView::Slash(_) => "SLASH / null"@,
        TokenView::EqualEqual(_) => "EQUAL_EQUAL == null"@,
        TokenView::Equal(_) => "EQUAL = null"@,
        TokenView::Bang(_) => "BANG ! null"@,
        TokenView::BangEqual(_) => "BANG_EQUAL != null"@,
        TokenView::Less(_) => "LESS < null"@,
        TokenView::LessEqual(_) => "LESS_EQUAL <= null"@,
        TokenView::Greater(_) => "GREATER > null"@,
        TokenView::GreaterEqual(_) => "GREATER_EQUAL >= null"@,
        TokenView::Number(l, v) => "NUMBER "@ + l + " "@ + v,
        TokenView::Class(name) => "CLASS "@ + name + " null"@,
        TokenView::Else(name) => "ELSE "@ + name + " null"@,
        TokenView::False(name) => "FALSE "@ + name + " null"@,
        TokenView::For(name) => "FOR "@ + name + " null"@,
        TokenView::Fun(name) => "FUN "@ + name + " null"@,
        TokenView::If(name) => "IF "@ + name + " null"@,
        TokenView::Nil(name) => "NIL "@ + name + " null"@,
        TokenView::Or(name) => "OR "@ + name + " null"@,
        TokenView::Print(name) => "PRINT "@ + name + " null"@,
        TokenView::Return(name) => "RETURN "@ + name + " null"@,
        TokenView::Super(name) => "SUPER "@ + name + " null"@,
        TokenView::This(name) => "THIS "@ + name + " null"@,
        TokenView::True(name) => "TRUE "@ + name + " null"@,
        TokenView::While(name) => "WHILE "@ + name + " null"@,
        TokenView::Var(name) => "VAR "@ + name + " null"@,
        TokenView::And(name) => "AND "@ + name + " null"@,
    }
}

/// The binding strength of a binary operator token; `None` for every
/// token that is not a binary operator.
pub open spec fn precedence(t: TokenView) -> Option<u8> {
    match t {
        TokenView::And(_) | TokenView::Or(_) | TokenView::EqualEqual(_) | TokenView::BangEqual(_) => Some(1u8),
        TokenView::Less(_) | TokenView::LessEqual(_) | TokenView::Greater(_) | TokenView::GreaterEqual(_) => Some(2u8),
        TokenView::Plus(_) | TokenView::Minus(_) => Some(3u8),
        TokenView::Star(_) | TokenView::Slash(_) => Some(4u8),
        _ => None,
    }
}

/// The binding strength used for the operand of a unary operator: one more
/// than the strongest binary operator.
pub open spec fn highest_precedence() -> u8 {
    5
}

impl<'a> Token<'a> {
    /// The token written as `KIND lexeme value` (`null` where a token has no value).
    pub fn to_string(&self) -> (s: String)
        ensures
            s@ == token_text(self@),
    {
        match *self {
            Token::Identifier(name) => String::from_str("IDENTIFIER ").concat(name).concat(" null"),
            Token::StringLiteral(l, v) => String::from_str("STRING ").concat(l).concat(" ").concat(v),
            Token::EOF => String::from_str("EOF  null"),
            Token::LeftParen(_) => String::from_str("LEFT_PAREN ( null"),
            Token::RightParen(_) => String::from_str("RIGHT_PAREN ) null"),
            Token::LeftBrace(_) => String::from_str("LEFT_BRACE { null"),
            Token::RightBrace(_) => String::from_str("RIGHT_BRACE } null"),
            Token::Star(_) => String::from_str("STAR * null"),
            Token::Dot(_) => String::from_str("DOT . null"),
            Token::Comma(_) => String::from_str("COMMA , null"),
            Token::Plus(_) => String::from_str("PLUS + null"),
            Token::Minus(_) => String::from_str("MINUS - null"),
            Token::Semicolon(_) => String::from_str("SEMICOLON ; null"),
            Token::Slash(_) => String::from_str("SLASH / null"),
            Token::EqualEqual(_) => String::from_str("EQUAL_EQUAL == null"),
            Token::Equal(_) => String::from_str("EQUAL = null"),
            Token::Bang(_) => String::from_str("BANG ! null"),
            Token::BangEqual(_) => String::from_str("BANG_EQUAL != null"),
            Token::Less(_) => String::from_str("LESS < null"),
            Token::LessEqual(_) => String::from_str("LESS_EQUAL <= null"),
            Token::Greater(_) => String::from_str("GREATER > null"),
            Token::GreaterEqual(_) => String::from_str("GREATER_EQUAL >= null"),
            Token::Number(l, v) => String::from_str("NUMBER ").concat(l).concat(" ").concat(v),
            Token::Class(name) => String::from_str("CLASS ").concat(name).concat(" null"),
            Token::Else(name) => String::from_str("ELSE ").concat(name).concat(" null"),
            Token::False(name) => String::from_str("FALSE ").concat(name).concat(" null"),
            Token::For(name) => String::from_str("FOR ").concat(name).concat(" null"),
            Token::Fun(name) => String::from_str("FUN ").concat(name).concat(" null"),
            Token::If(name) => String::from_str("IF ").concat(name).concat(" null"),
            Token::Nil(name) => String::from_str("NIL ").concat(name).concat(" null"),
            Token::Or(name) => String::from_str("OR ").concat(name).concat(" null"),
            Token::Print(name) => String::from_str("PRINT ").concat(name).concat(" null"),
            Token::Return(name) => String::from_str("RETURN ").concat(name).concat(" null"),
            Token::Super(name) => String::from_str("SUPER ").concat(name).concat(" null"),
            Token::This(name) => String::from_str("THIS ").concat(name).concat(" null"),
            Token::True(name) => String::from_str("TRUE ").concat(name).concat(" null"),
            Token::While(name) => String::from_str("WHILE ").concat(name).concat(" null"),
            Token::Var(name) => String::from_str("VAR ").concat(name).concat(" null"),
            Token::And(name) => String::from_str("AND ").concat(name).concat(" null"),
        }
    }

    /// The binding strength of this token as a binary operator.
    pub fn get_precedence(&self) -> (p: Option<u8>)
        ensures
            p == precedence(self@),
    {
        match *self {
            Token::And(_) | Token::Or(_) | Token::EqualEqual(_) | Token::BangEqual(_) => Some(1),
            Token::Less(_) | Token::LessEqual(_) | Token::Greater(_) | Token::GreaterEqual(_) => Some(2),
            Token::Plus(_) | Token::Minus(_) => Some(3),
            Token::Star(_) | Token::Slash(_) => Some(4),
            _ => None,
        }
    }

    /// One more than the binding strength of `*`, the strongest binary operator.
    pub fn get_highest_precedence() -> (p: u8)
        ensures
            p == highest_precedence(),
    {
        Token::Star("*").get_precedence().unwrap() + 1
    }
}

/// No binary operator binds as strongly as the operand of a unary operator.
pub proof fn lemma_precedence_below_highest(t: TokenView)
    ensures
        precedence(t) matches Some(p) ==> p < highest_precedence(),
{
}

/// The binary operators grouped by how strongly they bind, weakest first:
/// `and`, `or`, `==` and `!=`; then `<`, `<=`, `>` and `>=`; then `+` and `-`;
/// then `*` and `/`. Zero for every other token.
pub open spec fn operator_tier(t: TokenView) -> nat {
    if t is And || t is Or || t is EqualEqual || t is BangEqual {
        1
    } else if t is Less || t is LessEqual || t is Greater || t is GreaterEqual {
        2
    } else if t is Plus || t is Minus {
        3
    } else if t is Star || t is Slash {
        4
    } else {
        0
    }
}

/// Law: exactly the binary operators have a binding strength, and one
/// operator binds at least as strongly as another exactly when its tier is
/// at least as high: operators of one tier bind equally, and a higher tier
/// binds more strongly.
pub proof fn lemma_binding_strength_order(t1: TokenView, t2: TokenView)
    ensures
        precedence(t1) is Some <==> operator_tier(t1) > 0,
        precedence(t1) is Some && precedence(t2) is Some ==> (precedence(t1)->0 <= precedence(t2)->0
            <==> operator_tier(t1) <= operator_tier(t2)),
{
}

/// Law: a number token prints as `NUMBER`, its spelling and its value text;
/// a string token as `STRING`, its text with the quotes and its contents; the
/// end token as `EOF`, an empty lexeme and `null`.
pub proof fn lemma_literal_token_text(l: Seq<char>, v: Seq<char>)
    ensures
        token_text(TokenView::Number(l, v)) == "NUMBER"@ + " "@ + l + " "@ + v,
        token_text(TokenView::StringLiteral(l, v)) == "STRING"@ + " "@ + l + " "@ + v,
        token_text(TokenView::EOF) == "EOF"@ + " "@ + Seq::<char>::empty() + " "@ + "null"@,
{
    reveal_strlit("NUMBER");
    reveal_strlit("NUMBER ");
    reveal_strlit("STRING");
    reveal_strlit("STRING ");
    reveal_strlit("EOF");
    reveal_strlit("EOF  null");
    reveal_strlit(" ");
    reveal_strlit("null");
    assert("NUMBER"@ + " "@ =~= "NUMBER "@);
    assert("STRING"@ + " "@ =~= "STRING "@);
    assert("EOF"@ + " "@ + Seq::<char>::empty() + " "@ + "null"@ =~= "EOF  null"@);
}

/// Law: an error prints as `[line `, the line number in decimal, `] Error: `
/// and what went wrong: the unexpected character, or an unterminated string.
pub proof fn lemma_error_text(c: Seq<char>, line: nat)
    ensures
        error_text(TokinizationErrorView::UnrecognizedCharacter(c, line)) == "[line "@ + decimal(
            line,
        ) + "] Error: "@ + "Unexpected character: "@ + c,
        error_text(TokinizationErrorView::UnterminatedStringLiteral(line)) == "[line "@ + decimal(
            line,
        ) + "] Error: "@ + "Unterminated string."@,
{
    reveal_strlit("] Error: ");
    reveal_strlit("Unexpected character: ");
    reveal_strlit("Unterminated string.");
    reveal_strlit("] Error: Unexpected character: ");
    reveal_strlit("] Error: Unterminated string.");
    assert("] Error: "@ + "Unexpected character: "@ =~= "] Error: Unexpected character: "@);
    assert("] Error: "@ + "Unterminated string."@ =~= "] Error: Unterminated string."@);
    let d = decimal(line);
    assert("[line "@ + d + "] Error: "@ + "Unexpected character: "@ + c =~= "[line "@ + d
        + "] Error: Unexpected character: "@ + c);
    assert("[line "@ + d + "] Error: "@ + "Unterminated string."@ =~= "[line "@ + d
        + "] Error: Unterminated string."@);
}

/// An error met while splitting source text into tokens.
#[derive(Debug)]
pub enum TokinizationError {
    /// A character that starts no token, and the line it stands on.
    UnrecognizedCharacter(String, usize),
    /// A string literal with no closing quote; the line where the input ends.
    UnterminatedStringLiteral(usize),
}

/// The mathematical model of a [`TokinizationError`].
pub enum TokinizationErrorView {
    UnrecognizedCharacter(Seq<char>, nat),
    UnterminatedStringLiteral(nat),
}

impl View for TokinizationError {
    type V = TokinizationErrorView;

    open spec fn view(&self) -> TokinizationErrorView {
        match self {
            TokinizationError::UnrecognizedCharacter(c, line) =>
                TokinizationErrorView::UnrecognizedCharacter(c@, *line as nat),
            TokinizationError::UnterminatedStringLiteral(line) =>
                TokinizationErrorView::UnterminatedStringLiteral(*line as nat),
        }
    }
}

/// The message that [`TokinizationError::to_string`] gives for an error.
pub open spec fn error_text(e: TokinizationErrorView) -> Seq<char> {
    match e {
        TokinizationErrorView::UnrecognizedCharacter(c, line) =>
            "[line "@ + decimal(line) + "] Error: Unexpected character: "@ + c,
        TokinizationErrorView::UnterminatedStringLiteral(line) =>
            "[line "@ + decimal(line) + "] Error: Unterminated string."@,
    }
}

impl TokinizationError {
    /// The error message, naming the line it was found on.
    pub fn to_string(&self) -> (s: String)
        ensures
            s@ == error_text(self@),
    {
        match self {
            TokinizationError::UnrecognizedCharacter(ch, line) => {
                let line_text = usize_to_decimal(*line);
                String::from_str("[line ").concat(line_text.as_str()).concat(
                    "] Error: Unexpected character: ",
                ).concat(ch.as_str())
            },
            TokinizationError::UnterminatedStringLiteral(line) => {
                let line_text = usize_to_decimal(*line);
                String::from_str("[line ").concat(line_text.as_str()).concat(
                    "] Error: Unterminated string.",
                )
            },
        }
    }
}

} // verus!
