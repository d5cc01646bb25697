//! Splitting source text into tokens.

use vstd::prelude::*;
use vstd::string::*;

use crate::text::{ascii_upper, str_equal};
use crate::tokens::{token_text, Token, TokenView, TokinizationError, TokinizationErrorView};

verus! {

broadcast use vstd::string::group_string_axioms;

/// Whether `c` has the Unicode `White_Space` property, which is what
/// `char::is_whitespace` answers: the controls from tab to carriage return,
/// the space, next line, no-break space, ogham space mark, the spaces from en
/// quad to hair space, the line and paragraph separators, the narrow no-break
/// space, the medium mathematical space and the ideographic space.
pub open spec fn is_white_space(c: char) -> bool {
    ||| '\u{9}' <= c && c <= '\u{d}'
    ||| c == ' '
    ||| c == '\u{85}'
    ||| c == '\u{a0}'
    ||| c == '\u{1680}'
    ||| '\u{2000}' <= c && c <= '\u{200a}'
    ||| c == '\u{2028}'
    ||| c == '\u{2029}'
    ||| c == '\u{202f}'
    ||| c == '\u{205f}'
    ||| c == '\u{3000}'
}

/// Whether `c` is white space.
pub fn char_is_white_space(c: char) -> (r: bool)
    ensures
        r == is_white_space(c),
{
    ('\u{9}' <= c && c <= '\u{d}') || c == ' ' || c == '\u{85}' || c == '\u{a0}' || c
        == '\u{1680}' || ('\u{2000}' <= c && c <= '\u{200a}') || c == '\u{2028}' || c
        == '\u{2029}' || c == '\u{202f}' || c == '\u{205f}' || c == '\u{3000}'
}

/// An ASCII letter.
pub open spec fn is_ascii_letter(c: char) -> bool {
    ('a' <= c && c <= 'z') || ('A' <= c && c <= 'Z')
}

/// Whether `char::is_alphabetic` holds of `c` (the Unicode `Alphabetic` property).
pub uninterp spec fn is_alphabetic_char(c: char) -> bool;

/// Whether `char::is_alphanumeric` holds of `c` (`Alphabetic` or `Numeric`).
pub uninterp spec fn is_alphanumeric_char(c: char) -> bool;

/// Whether `c` is a letter: among ASCII characters the ASCII letters, beyond
/// them whatever `char::is_alphabetic` says.
pub open spec fn alphabetic(c: char) -> bool {
    if c <= '\u{7f}' {
        is_ascii_letter(c)
    } else {
        is_alphabetic_char(c)
    }
}

/// Whether `c` is a letter or a digit: among ASCII characters the ASCII
/// letters and decimal digits, beyond them whatever `char::is_alphanumeric` says.
pub open spec fn alphanumeric(c: char) -> bool {
    if c <= '\u{7f}' {
        is_ascii_letter(c) || is_decimal_digit(c)
    } else {
        is_alphanumeric_char(c)
    }
}

/// Calls `char::is_alphabetic`, which answers whether `c` has the Unicode
/// `Alphabetic` property. Claimed: the answer is the one named by
/// `is_alphabetic_char` for that character, and among ASCII characters exactly
/// the letters `a`-`z` and `A`-`Z` have the property. Which other characters
/// have it is left to the Unicode tables of std and not stated.
#[verifier::external_body]
fn char_is_alphabetic(c: char) -> (r: bool)
    ensures
        r == is_alphabetic_char(c),
        c <= '\u{7f}' ==> (r == is_ascii_letter(c)),
{
    c.is_alphabetic()
}

/// Calls `char::is_alphanumeric`, which answers whether `c` is alphabetic or
/// numeric. Claimed: the answer is the one named by `is_alphanumeric_char` for
/// that character, and among ASCII characters exactly the letters and the
/// digits `0`-`9` are alphanumeric. Which other characters are is left to the
/// Unicode tables of std and not stated.
#[verifier::external_body]
fn char_is_alphanumeric(c: char) -> (r: bool)
    ensures
        r == is_alphanumeric_char(c),
        c <= '\u{7f}' ==> (r == (is_ascii_letter(c) || is_decimal_digit(c))),
{
    c.is_alphanumeric()
}

/// What the tokenizer needs to know of a character beyond the character
/// itself: whether it is white space, a letter, and a letter or digit.
#[derive(Clone, Copy, Debug, PartialEq, Eq)]
pub struct CharFlags {
    pub whitespace: bool,
    pub alphabetic: bool,
    pub alphanumeric: bool,
}

/// The flags that the classification of std's `char` methods gives each
/// character of `s`.
pub open spec fn std_flags(s: Seq<char>) -> Seq<CharFlags> {
    Seq::new(
        s.len(),
        |i: int|
            CharFlags {
                whitespace: is_white_space(s[i]),
                alphabetic: alphabetic(s[i]),
                alphanumeric: alphanumeric(s[i]),
            },
    )
}

/// Classifies a character as `char::is_whitespace`, `char::is_alphabetic`
/// and `char::is_alphanumeric` do.
fn classify(c: char) -> (f: CharFlags)
    ensures
        f == (CharFlags {
            whitespace: is_white_space(c),
            alphabetic: alphabetic(c),
            alphanumeric: alphanumeric(c),
        }),
{
    CharFlags {
        whitespace: char_is_white_space(c),
        alphabetic: char_is_alphabetic(c),
        alphanumeric: char_is_alphanumeric(c),
    }
}

/// An ASCII decimal digit (what `char::is_digit(10)` accepts).
pub open spec fn is_decimal_digit(c: char) -> bool {
    '0' <= c && c <= '9'
}

fn char_is_decimal_digit(c: char) -> (r: bool)
    ensures
        r == is_decimal_digit(c),
{
    '0' <= c && c <= '9'
}

/// The classes of characters that make up the body of a multi-character token.
#[derive(Clone, Copy, Debug, PartialEq, Eq)]
pub enum CharClass {
    /// Digits and dots, after the first digit of a number.
    NumberChar,
    /// Letters, digits and underscores, after the first character of a name.
    IdentifierChar,
    /// Anything but a double quote, inside a string literal.
    NotQuote,
    /// Anything but a line break, inside a comment.
    NotNewline,
}

/// Whether the character `c`, classified by `f`, belongs to `class`.
pub open spec fn in_class(class: CharClass, c: char, f: CharFlags) -> bool {
    match class {
        CharClass::NumberChar => is_decimal_digit(c) || c == '.',
        CharClass::IdentifierChar => f.alphanumeric || c == '_',
        CharClass::NotQuote => c != '"',
        CharClass::NotNewline => c != '\n',
    }
}

fn char_in_class(class: CharClass, c: char, f: CharFlags) -> (r: bool)
    ensures
        r == in_class(class, c, f),
{
    match class {
        CharClass::NumberChar => char_is_decimal_digit(c) || c == '.',
        CharClass::IdentifierChar => f.alphanumeric || c == '_',
        CharClass::NotQuote => c != '"',
        CharClass::NotNewline => c != '\n',
    }
}

/// The first position at or after `from` whose character is not in `class`,
/// or the end of `s`.
pub open spec fn scan_end(s: Seq<char>, fl: Seq<CharFlags>, from: nat, class: CharClass) -> nat
    decreases s.len() - from,
{
    if from >= s.len() {
        from
    } else if in_class(class, s[from as int], fl[from as int]) {
        scan_end(s, fl, from + 1, class)
    } else {
        from
    }
}

pub proof fn lemma_scan_end(s: Seq<char>, fl: Seq<CharFlags>, from: nat, class: CharClass)
    ensures
        from <= scan_end(s, fl, from, class),
        from <= s.len() ==> scan_end(s, fl, from, class) <= s.len(),
        forall|i: int| from <= i < scan_end(s, fl, from, class) ==> in_class(class, #[trigger] s[i], fl[i]),
        scan_end(s, fl, from, class) < s.len() ==> !in_class(class, s[scan_end(s, fl, from, class) as int], fl[scan_end(s, fl, from, class) as int]),
    decreases s.len() - from,
{
    if from < s.len() && in_class(class, s[from as int], fl[from as int]) {
        lemma_scan_end(s, fl, from + 1, class);
    }
}

/// How many line breaks `s` holds.
pub open spec fn count_newlines(s: Seq<char>) -> nat
    decreases s.len(),
{
    if s.len() == 0 {
        0
    } else {
        count_newlines(s.drop_last()) + if s.last() == '\n' { 1nat } else { 0nat }
    }
}

proof fn lemma_count_newlines_bound(s: Seq<char>)
    ensures
        count_newlines(s) <= s.len(),
    decreases s.len(),
{
    if s.len() > 0 {
        lemma_count_newlines_bound(s.drop_last());
    }
}

/// The line (counted from 1) on which position `pos` of `s` stands.
pub open spec fn line_number(s: Seq<char>, pos: nat) -> nat {
    count_newlines(s.take(pos as int)) + 1
}

/// The token for a name: a keyword token when the name is reserved, else an identifier.
pub open spec fn keyword_or_identifier(s: Seq<char>) -> TokenView {
    if s == "and"@ {
        TokenView::And(s)
    } else if s == "class"@ {
        TokenView::Class(s)
    } else if s == "else"@ {
        TokenView::Else(s)
    } else if s == "false"@ {
        TokenView::False(s)
    } else if s == "for"@ {
        TokenView::For(s)
    } else if s == "fun"@ {
        TokenView::Fun(s)
    } else if s == "if"@ {
        TokenView::If(s)
    } else if s == "nil"@ {
        TokenView::Nil(s)
    } else if s == "or"@ {
        TokenView::Or(s)
    } else if s == "print"@ {
        TokenView::Print(s)
    } else if s == "return"@ {
        TokenView::Return(s)
    } else if s == "super"@ {
        TokenView::Super(s)
    } else if s == "this"@ {
        TokenView::This(s)
    } else if s == "true"@ {
        TokenView::True(s)
    } else if s == "var"@ {
        TokenView::Var(s)
    } else if s == "while"@ {
        TokenView::While(s)
    } else {
        TokenView::Identifier(s)
    }
}

/// The reserved words of the language.
pub open spec fn is_reserved_word(w: Seq<char>) -> bool {
    ||| w == "and"@
    ||| w == "class"@
    ||| w == "else"@
    ||| w == "false"@
    ||| w == "for"@
    ||| w == "fun"@
    ||| w == "if"@
    ||| w == "nil"@
    ||| w == "or"@
    ||| w == "print"@
    ||| w == "return"@
    ||| w == "super"@
    ||| w == "this"@
    ||| w == "true"@
    ||| w == "var"@
    ||| w == "while"@
}

/// Law: the token read for a name prints as its kind, the name and `null`;
/// the kind of a reserved word is that word in upper case, the kind of any
/// other name is `IDENTIFIER`.
pub proof fn lemma_name_token_text(w: Seq<char>)
    ensures
        token_text(keyword_or_identifier(w)) == (if is_reserved_word(w) {
            ascii_upper(w)
        } else {
            "IDENTIFIER"@
        }) + " "@ + w + " null"@,
{
    reveal_strlit("and");
    reveal_strlit("class");
    reveal_strlit("else");
    reveal_strlit("false");
    reveal_strlit("for");
    reveal_strlit("fun");
    reveal_strlit("if");
    reveal_strlit("nil");
    reveal_strlit("or");
    reveal_strlit("print");
    reveal_strlit("return");
    reveal_strlit("super");
    reveal_strlit("this");
    reveal_strlit("true");
    reveal_strlit("var");
    reveal_strlit("while");
    reveal_strlit("AND ");
    reveal_strlit("CLASS ");
    reveal_strlit("ELSE ");
    reveal_strlit("FALSE ");
    reveal_strlit("FOR ");
    reveal_strlit("FUN ");
    reveal_strlit("IF ");
    reveal_strlit("NIL ");
    reveal_strlit("OR ");
    reveal_strlit("PRINT ");
    reveal_strlit("RETURN ");
    reveal_strlit("SUPER ");
    reveal_strlit("THIS ");
    reveal_strlit("TRUE ");
    reveal_strlit("WHILE ");
    reveal_strlit("VAR ");
    reveal_strlit("IDENTIFIER ");
    reveal_strlit("IDENTIFIER");
    reveal_strlit(" ");
    if is_reserved_word(w) {
        assert(token_text(keyword_or_identifier(w)) =~= ascii_upper(w) + " "@ + w + " null"@);
    } else {
        assert("IDENTIFIER "@ =~= "IDENTIFIER"@ + " "@);
    }
}

/// The token for a name read from the source.
pub fn reserved_or_identifier<'a>(ident_str: &'a str) -> (t: Token<'a>)
    ensures
        t@ == keyword_or_identifier(ident_str@),
{
    if str_equal(ident_str, "and") {
        Token::And(ident_str)
    } else if str_equal(ident_str, "class") {
        Token::Class(ident_str)
    } else if str_equal(ident_str, "else") {
        Token::Else(ident_str)
    } else if str_equal(ident_str, "false") {
        Token::False(ident_str)
    } else if str_equal(ident_str, "for") {
        Token::For(ident_str)
    } else if str_equal(ident_str, "fun") {
        Token::Fun(ident_str)
    } else if str_equal(ident_str, "if") {
        Token::If(ident_str)
    } else if str_equal(ident_str, "nil") {
        Token::Nil(ident_str)
    } else if str_equal(ident_str, "or") {
        Token::Or(ident_str)
    } else if str_equal(ident_str, "print") {
        Token::Print(ident_str)
    } else if str_equal(ident_str, "return") {
        Token::Return(ident_str)
    } else if str_equal(ident_str, "super") {
        Token::Super(ident_str)
    } else if str_equal(ident_str, "this") {
        Token::This(ident_str)
    } else if str_equal(ident_str, "true") {
        Token::True(ident_str)
    } else if str_equal(ident_str, "var") {
        Token::Var(ident_str)
    } else if str_equal(ident_str, "while") {
        Token::While(ident_str)
    } else {
        Token::Identifier(ident_str)
    }
}

/// What reading one token from position `pos` of `s` yields: the token or
/// error, and the position just after what was read. White space and
/// `//` comments before the token are skipped.
pub open spec fn spec_next_token(s: Seq<char>, fl: Seq<CharFlags>, pos: nat) -> (
    Result<TokenView, TokinizationErrorView>,
    nat,
)
    decreases s.len() - pos,
{
    if pos >= s.len() {
        (Ok(TokenView::EOF), pos)
    } else {
        let c = s[pos as int];
        let next = (pos + 1) as nat;
        let followed_by_equal = next < s.len() && s[next as int] == '=';
        if fl[pos as int].whitespace {
            spec_next_token(s, fl, next)
        } else if is_decimal_digit(c) {
            let end = scan_end(s, fl, next, CharClass::NumberChar);
            let lexeme = s.subrange(pos as int, end as int);
            (Ok(TokenView::Number(lexeme, lexeme)), end)
        } else if fl[pos as int].alphabetic || c == '_' {
            let end = scan_end(s, fl, next, CharClass::IdentifierChar);
            (Ok(keyword_or_identifier(s.subrange(pos as int, end as int))), end)
        } else if c == '(' {
            (Ok(TokenView::LeftParen("("@)), next)
        } else if c == ')' {
            (Ok(TokenView::RightParen(")"@)), next)
        } else if c == '{' {
            (Ok(TokenView::LeftBrace("{"@)), next)
        } else if c == '}' {
            (Ok(TokenView::RightBrace("}"@)), next)
        } else if c == '*' {
            (Ok(TokenView::Star("*"@)), next)
        } else if c == '.' {
            (Ok(TokenView::Dot("."@)), next)
        } else if c == ',' {
            (Ok(TokenView::Comma(","@)), next)
        } else if c == '+' {
            (Ok(TokenView::Plus("+"@)), next)
        } else if c == '-' {
            (Ok(TokenView::Minus("-"@)), next)
        } else if c == ';' {
            (Ok(TokenView::Semicolon(";"@)), next)
        } else if c == '/' {
            if next < s.len() && s[next as int] == '/' {
                proof {
                    lemma_scan_end(s, fl, next, CharClass::NotNewline);
                }
                spec_next_token(s, fl, scan_end(s, fl, next, CharClass::NotNewline))
            } else {
                (Ok(TokenView::Slash("/"@)), next)
            }
        } else if c == '=' {
            if followed_by_equal {
                (Ok(TokenView::EqualEqual("=="@)), next + 1)
            } else {
                (Ok(TokenView::Equal("="@)), next)
            }
        } else if c == '!' {
            if followed_by_equal {
                (Ok(TokenView::BangEqual("!="@)), next + 1)
            } else {
                (Ok(TokenView::Bang("!"@)), next)
            }
        } else if c == '<' {
            if followed_by_equal {
                (Ok(TokenView::LessEqual("<="@)), next + 1)
            } else {
                (Ok(TokenView::Less("<"@)), next)
            }
        } else if c == '>' {
            if followed_by_equal {
                (Ok(TokenView::GreaterEqual(">="@)), next + 1)
            } else {
                (Ok(TokenView::Greater(">"@)), next)
            }
        } else if c == '"' {
            let end = scan_end(s, fl, next, CharClass::NotQuote);
            if end < s.len() {
                (
                    Ok(
                        TokenView::StringLiteral(
                            s.subrange(pos as int, (end + 1) as int),
                            s.subrange(next as int, end as int),
                        ),
                    ),
                    (end + 1) as nat,
                )
            } else {
                (Err(TokinizationErrorView::UnterminatedStringLiteral(line_number(s, end))), end)
            }
        } else {
            (Err(TokinizationErrorView::UnrecognizedCharacter(seq![c], line_number(s, next))), next)
        }
    }
}

/// The model of a token-or-error result.
pub open spec fn result_view<'a>(r: Result<Token<'a>, TokinizationError>) -> Result<
    TokenView,
    TokinizationErrorView,
> {
    match r {
        Ok(t) => Ok(t@),
        Err(e) => Err(e@),
    }
}

/// The models of a sequence of token-or-error results.
pub open spec fn results_view<'a>(v: Seq<Result<Token<'a>, TokinizationError>>) -> Seq<
    Result<TokenView, TokinizationErrorView>,
> {
    v.map_values(|r: Result<Token<'a>, TokinizationError>| result_view(r))
}

/// Reading a token from inside the text ends inside the text, and moves
/// forward unless it reaches the end.
pub proof fn lemma_next_token_progress(s: Seq<char>, fl: Seq<CharFlags>, pos: nat)
    requires
        pos <= s.len(),
    ensures
        ({
            let (r, next) = spec_next_token(s, fl, pos);
            &&& pos <= next <= s.len()
            &&& r == Ok::<TokenView, TokinizationErrorView>(TokenView::EOF) ==> next == s.len()
            &&& r != Ok::<TokenView, TokinizationErrorView>(TokenView::EOF) ==> pos < next
        }),
    decreases s.len() - pos,
{
    if pos < s.len() {
        let c = s[pos as int];
        let next = (pos + 1) as nat;
        lemma_scan_end(s, fl, next, CharClass::NumberChar);
        lemma_scan_end(s, fl, next, CharClass::IdentifierChar);
        lemma_scan_end(s, fl, next, CharClass::NotQuote);
        lemma_scan_end(s, fl, next, CharClass::NotNewline);
        if fl[pos as int].whitespace {
            lemma_next_token_progress(s, fl, next);
        } else if !is_decimal_digit(c) && !(fl[pos as int].alphabetic || c == '_') && c == '/' && next
            < s.len() && s[next as int] == '/' {
            lemma_next_token_progress(s, fl, scan_end(s, fl, next, CharClass::NotNewline));
        }
    }
}

/// Whether a `//` comment starts at position `pos` of `s`: a slash that is
/// not read as a letter, followed by another slash.
pub open spec fn comment_at(s: Seq<char>, fl: Seq<CharFlags>, pos: nat) -> bool {
    &&& pos + 1 < s.len()
    &&& s[pos as int] == '/'
    &&& s[pos + 1int] == '/'
    &&& !fl[pos as int].alphabetic
}

/// The first position at or after `pos` that is neither white space nor
/// inside a `//` comment (the end of `s` if there is none).
pub open spec fn skip_blank(s: Seq<char>, fl: Seq<CharFlags>, pos: nat) -> nat
    decreases s.len() - pos,
{
    if pos >= s.len() {
        pos
    } else if fl[pos as int].whitespace {
        skip_blank(s, fl, pos + 1)
    } else if comment_at(s, fl, pos) {
        proof {
            lemma_scan_end(s, fl, pos + 1, CharClass::NotNewline);
        }
        skip_blank(s, fl, scan_end(s, fl, pos + 1, CharClass::NotNewline))
    } else {
        pos
    }
}

/// Reading a token skips what `skip_blank` skips, and the position reached
/// is neither white space nor the start of a comment.
pub proof fn lemma_skip_blank(s: Seq<char>, fl: Seq<CharFlags>, pos: nat)
    requires
        pos <= s.len(),
    ensures
        pos <= skip_blank(s, fl, pos) <= s.len(),
        spec_next_token(s, fl, pos) == spec_next_token(s, fl, skip_blank(s, fl, pos)),
        skip_blank(s, fl, pos) < s.len() ==> !fl[skip_blank(s, fl, pos) as int].whitespace
            && !comment_at(s, fl, skip_blank(s, fl, pos)),
    decreases s.len() - pos,
{
    if pos < s.len() {
        lemma_scan_end(s, fl, pos + 1, CharClass::NotNewline);
        if fl[pos as int].whitespace {
            lemma_skip_blank(s, fl, pos + 1);
        } else if comment_at(s, fl, pos) {
            lemma_skip_blank(s, fl, scan_end(s, fl, pos + 1, CharClass::NotNewline));
        }
    }
}

/// Whether position `i` of `s` lies in a `//` comment that starts at `j`:
/// no line break stands from `j` up to `i`.
pub open spec fn in_comment(s: Seq<char>, fl: Seq<CharFlags>, j: int, i: int) -> bool {
    &&& 0 <= j <= i
    &&& comment_at(s, fl, j as nat)
    &&& forall|k: int| j <= k <= i ==> #[trigger] s[k] != '\n'
}

/// Law: what reading skips before a token is only white space and `//`
/// comments, each running up to a line break; reading stops at a character
/// that is neither white space nor the start of a comment.
pub proof fn lemma_skipped_text_is_blank(s: Seq<char>, fl: Seq<CharFlags>, pos: nat)
    requires
        pos <= s.len(),
    ensures
        forall|i: int|
            pos <= i < skip_blank(s, fl, pos) ==> (#[trigger] fl[i]).whitespace || exists|j: int|
                pos <= j && in_comment(s, fl, j, i),
        skip_blank(s, fl, pos) < s.len() ==> !fl[skip_blank(s, fl, pos) as int].whitespace
            && !comment_at(s, fl, skip_blank(s, fl, pos)),
    decreases s.len() - pos,
{
    lemma_skip_blank(s, fl, pos);
    if pos < s.len() {
        lemma_scan_end(s, fl, pos + 1, CharClass::NotNewline);
        if fl[pos as int].whitespace {
            lemma_skipped_text_is_blank(s, fl, pos + 1);
        } else if comment_at(s, fl, pos) {
            let e = scan_end(s, fl, pos + 1, CharClass::NotNewline);
            lemma_skipped_text_is_blank(s, fl, e);
            assert forall|i: int| pos <= i < skip_blank(s, fl, pos) implies (
            #[trigger] fl[i]).whitespace || exists|j: int| pos <= j && in_comment(s, fl, j, i) by {
                if i < e {
                    assert(in_comment(s, fl, pos as int, i));
                }
            }
        }
    }
}

/// Law: reading from `pos` gives the end token exactly when nothing but
/// white space and `//` comments is left; it then stands at the end of the
/// text, and reading from there gives the end token again.
pub proof fn lemma_end_token_iff_only_blank(s: Seq<char>, fl: Seq<CharFlags>, pos: nat)
    requires
        pos <= s.len(),
    ensures
        (spec_next_token(s, fl, pos).0 == Ok::<TokenView, TokinizationErrorView>(TokenView::EOF))
            == (skip_blank(s, fl, pos) == s.len()),
        spec_next_token(s, fl, pos).0 == Ok::<TokenView, TokinizationErrorView>(TokenView::EOF)
            ==> spec_next_token(s, fl, pos).1 == s.len() && spec_next_token(s, fl, s.len()) == (
            Ok::<TokenView, TokinizationErrorView>(TokenView::EOF),
            s.len(),
        ),
{
    lemma_skip_blank(s, fl, pos);
    lemma_next_token_progress(s, fl, pos);
    let b = skip_blank(s, fl, pos);
    if b < s.len() {
        let c = s[b as int];
        if !is_decimal_digit(c) && (fl[b as int].alphabetic || c == '_') {
            let end = scan_end(s, fl, b + 1, CharClass::IdentifierChar);
            assert(keyword_or_identifier(s.subrange(b as int, end as int)) != TokenView::EOF);
        }
    }
}

/// Law: when the first character at or after `pos` that is neither white
/// space nor inside a comment is a decimal digit, the token read is a number
/// whose spelling starts at that digit and runs over all the digits and dots
/// that follow it; reading stops at the first character that is neither.
pub proof fn lemma_digit_starts_number(s: Seq<char>, fl: Seq<CharFlags>, pos: nat)
    requires
        pos <= s.len(),
        skip_blank(s, fl, pos) < s.len(),
        '0' <= s[skip_blank(s, fl, pos) as int] && s[skip_blank(s, fl, pos) as int] <= '9',
    ensures
        ({
            let b = skip_blank(s, fl, pos);
            let (r, q) = spec_next_token(s, fl, pos);
            &&& b < q <= s.len()
            &&& r == Ok::<TokenView, TokinizationErrorView>(
                TokenView::Number(s.subrange(b as int, q as int), s.subrange(b as int, q as int)),
            )
            &&& forall|i: int| b < i < q ==> ('0' <= #[trigger] s[i] && s[i] <= '9') || s[i] == '.'
            &&& q < s.len() ==> !(('0' <= s[q as int] && s[q as int] <= '9') || s[q as int] == '.')
        }),
{
    let b = skip_blank(s, fl, pos);
    lemma_skip_blank(s, fl, pos);
    lemma_scan_end(s, fl, b + 1, CharClass::NumberChar);
    let q = scan_end(s, fl, b + 1, CharClass::NumberChar);
    assert(spec_next_token(s, fl, b) == (
        Ok::<TokenView, TokinizationErrorView>(
            TokenView::Number(s.subrange(b as int, q as int), s.subrange(b as int, q as int)),
        ),
        q,
    ));
}

/// The kind name under which the one- or two-character token spelled
/// `spelling` is printed; `None` for any other spelling.
pub open spec fn symbol_kind(spelling: Seq<char>) -> Option<Seq<char>> {
    if spelling.len() == 1 {
        match spelling[0] {
            '(' => Some("LEFT_PAREN"@),
            ')' => Some("RIGHT_PAREN"@),
            '{' => Some("LEFT_BRACE"@),
            '}' => Some("RIGHT_BRACE"@),
            '*' => Some("STAR"@),
            '.' => Some("DOT"@),
            ',' => Some("COMMA"@),
            '+' => Some("PLUS"@),
            '-' => Some("MINUS"@),
            ';' => Some("SEMICOLON"@),
            '/' => Some("SLASH"@),
            '=' => Some("EQUAL"@),
            '!' => Some("BANG"@),
            '<' => Some("LESS"@),
            '>' => Some("GREATER"@),
            _ => None,
        }
    } else if spelling.len() == 2 && spelling[1] == '=' {
        match spelling[0] {
            '=' => Some("EQUAL_EQUAL"@),
            '!' => Some("BANG_EQUAL"@),
            '<' => Some("LESS_EQUAL"@),
            '>' => Some("GREATER_EQUAL"@),
            _ => None,
        }
    } else {
        None
    }
}

/// Law: a token read from punctuation or an operator sign is the longest
/// sign that stands there (`==`, `!=`, `<=` and `>=` before `=`, `!`, `<` and
/// `>`), and prints as its kind name, a space, the sign as read and `null`.
pub proof fn lemma_symbol_token_text(s: Seq<char>, fl: Seq<CharFlags>, pos: nat)
    requires
        pos <= s.len(),
        skip_blank(s, fl, pos) < s.len(),
        !is_decimal_digit(s[skip_blank(s, fl, pos) as int]),
        !fl[skip_blank(s, fl, pos) as int].alphabetic,
        s[skip_blank(s, fl, pos) as int] != '_',
        s[skip_blank(s, fl, pos) as int] != '"',
    ensures
        ({
            let b = skip_blank(s, fl, pos);
            let c = s[b as int];
            let (res, q) = spec_next_token(s, fl, pos);
            let spelling = s.subrange(b as int, q as int);
            &&& b < q <= s.len()
            &&& q == (if (c == '=' || c == '!' || c == '<' || c == '>') && b + 1 < s.len() && s[b + 1int]
                == '=' {
                b + 2
            } else {
                b + 1
            })
            &&& res is Ok <==> symbol_kind(spelling) is Some
            &&& res is Err ==> q == b + 1 && res == Err::<TokenView, TokinizationErrorView>(
                TokinizationErrorView::UnrecognizedCharacter(seq![c], count_newlines(s.take(b + 1int)) + 1),
            )
            &&& res matches Ok(t) ==> token_text(t) == symbol_kind(spelling)->0 + " "@ + spelling
                + " null"@
        }),
{
    let b = skip_blank(s, fl, pos);
    lemma_skip_blank(s, fl, pos);
    let (res, q) = spec_next_token(s, fl, b);
    let c = s[b as int];
    reveal_strlit("(");
    reveal_strlit("LEFT_PAREN");
    reveal_strlit("LEFT_PAREN ( null");
    reveal_strlit(")");
    reveal_strlit("RIGHT_PAREN");
    reveal_strlit("RIGHT_PAREN ) null");
    reveal_strlit("{");
    reveal_strlit("LEFT_BRACE");
    reveal_strlit("LEFT_BRACE { null");
    reveal_strlit("}");
    reveal_strlit("RIGHT_BRACE");
    reveal_strlit("RIGHT_BRACE } null");
    reveal_strlit("*");
    reveal_strlit("STAR");
    reveal_strlit("STAR * null");
    reveal_strlit(".");
    reveal_strlit("DOT");
    reveal_strlit("DOT . null");
    reveal_strlit(",");
    reveal_strlit("COMMA");
    reveal_strlit("COMMA , null");
    reveal_strlit("+");
    reveal_strlit("PLUS");
    reveal_strlit("PLUS + null");
    reveal_strlit("-");
    reveal_strlit("MINUS");
    reveal_strlit("MINUS - null");
    reveal_strlit(";");
    reveal_strlit("SEMICOLON");
    reveal_strlit("SEMICOLON ; null");
    reveal_strlit("/");
    reveal_strlit("SLASH");
    reveal_strlit("SLASH / null");
    reveal_strlit("==");
    reveal_strlit("EQUAL_EQUAL");
    reveal_strlit("EQUAL_EQUAL == null");
    reveal_strlit("=");
    reveal_strlit("EQUAL");
    reveal_strlit("EQUAL = null");
    reveal_strlit("!");
    reveal_strlit("BANG");
    reveal_strlit("BANG ! null");
    reveal_strlit("!=");
    reveal_strlit("BANG_EQUAL");
    reveal_strlit("BANG_EQUAL != null");
    reveal_strlit("<");
    reveal_strlit("LESS");
    reveal_strlit("LESS < null");
    reveal_strlit("<=");
    reveal_strlit("LESS_EQUAL");
    reveal_strlit("LESS_EQUAL <= null");
    reveal_strlit(">");
    reveal_strlit("GREATER");
    reveal_strlit("GREATER > null");
    reveal_strlit(">=");
    reveal_strlit("GREATER_EQUAL");
    reveal_strlit("GREATER_EQUAL >= null");
    reveal_strlit(" ");
    reveal_strlit(" null");
    let spelling = s.subrange(b as int, q as int);
    if q == b + 2 {
        assert(spelling =~= seq![c, '=']);
    } else {
        assert(spelling =~= seq![c]);
    }
    if c == '(' {
        assert(spelling =~= "("@);
        assert(symbol_kind(spelling) == Some("LEFT_PAREN"@));
        assert("LEFT_PAREN ( null"@ =~= "LEFT_PAREN"@ + " "@ + spelling + " null"@);
    } else if c == ')' {
        assert(spelling =~= ")"@);
        assert(symbol_kind(spelling) == Some("RIGHT_PAREN"@));
        assert("RIGHT_PAREN ) null"@ =~= "RIGHT_PAREN"@ + " "@ + spelling + " null"@);
    } else if c == '{' {
        assert(spelling =~= "{"@);
        assert(symbol_kind(spelling) == Some("LEFT_BRACE"@));
        assert("LEFT_BRACE { null"@ =~= "LEFT_BRACE"@ + " "@ + spelling + " null"@);
    } else if c == '}' {
        assert(spelling =~= "}"@);
        assert(symbol_kind(spelling) == Some("RIGHT_BRACE"@));
        assert("RIGHT_BRACE } null"@ =~= "RIGHT_BRACE"@ + " "@ + spelling + " null"@);
    } else if c == '*' {
        assert(spelling =~= "*"@);
        assert(symbol_kind(spelling) == Some("STAR"@));
        assert("STAR * null"@ =~= "STAR"@ + " "@ + spelling + " null"@);
    } else if c == '.' {
        assert(spelling =~= "."@);
        assert(symbol_kind(spelling) == Some("DOT"@));
        assert("DOT . null"@ =~= "DOT"@ + " "@ + spelling + " null"@);
    } else if c == ',' {
        assert(spelling =~= ","@);
        assert(symbol_kind(spelling) == Some("COMMA"@));
        assert("COMMA , null"@ =~= "COMMA"@ + " "@ + spelling + " null"@);
    } else if c == '+' {
        assert(spelling =~= "+"@);
        assert(symbol_kind(spelling) == Some("PLUS"@));
        assert("PLUS + null"@ =~= "PLUS"@ + " "@ + spelling + " null"@);
    } else if c == '-' {
        assert(spelling =~= "-"@);
        assert(symbol_kind(spelling) == Some("MINUS"@));
        assert("MINUS - null"@ =~= "MINUS"@ + " "@ + spelling + " null"@);
    } else if c == ';' {
        assert(spelling =~= ";"@);
        assert(symbol_kind(spelling) == Some("SEMICOLON"@));
        assert("SEMICOLON ; null"@ =~= "SEMICOLON"@ + " "@ + spelling + " null"@);
    } else if c == '/' {
        assert(spelling =~= "/"@);
        assert(symbol_kind(spelling) == Some("SLASH"@));
        assert("SLASH / null"@ =~= "SLASH"@ + " "@ + spelling + " null"@);
    } else if c == '=' {
        if q == b + 2 {
            assert(spelling =~= "=="@);
        assert(symbol_kind(spelling) == Some("EQUAL_EQUAL"@));
        assert("EQUAL_EQUAL == null"@ =~= "EQUAL_EQUAL"@ + " "@ + spelling + " null"@);
        } else {
            assert(spelling =~= "="@);
        assert(symbol_kind(spelling) == Some("EQUAL"@));
        assert("EQUAL = null"@ =~= "EQUAL"@ + " "@ + spelling + " null"@);
        }
    } else if c == '!' {
        if q == b + 2 {
            assert(spelling =~= "!="@);
        assert(symbol_kind(spelling) == Some("BANG_EQUAL"@));
        assert("BANG_EQUAL != null"@ =~= "BANG_EQUAL"@ + " "@ + spelling + " null"@);
        } else {
            assert(spelling =~= "!"@);
        assert(symbol_kind(spelling) == Some("BANG"@));
        assert("BANG ! null"@ =~= "BANG"@ + " "@ + spelling + " null"@);
        }
    } else if c == '<' {
        if q == b + 2 {
            assert(spelling =~= "<="@);
        assert(symbol_kind(spelling) == Some("LESS_EQUAL"@));
        assert("LESS_EQUAL <= null"@ =~= "LESS_EQUAL"@ + " "@ + spelling + " null"@);
        } else {
            assert(spelling =~= "<"@);
        assert(symbol_kind(spelling) == Some("LESS"@));
        assert("LESS < null"@ =~= "LESS"@ + " "@ + spelling + " null"@);
        }
    } else if c == '>' {
        if q == b + 2 {
            assert(spelling =~= ">="@);
        assert(symbol_kind(spelling) == Some("GREATER_EQUAL"@));
        assert("GREATER_EQUAL >= null"@ =~= "GREATER_EQUAL"@ + " "@ + spelling + " null"@);
        } else {
            assert(spelling =~= ">"@);
        assert(symbol_kind(spelling) == Some("GREATER"@));
        assert("GREATER > null"@ =~= "GREATER"@ + " "@ + spelling + " null"@);
        }
    }
}

/// Law: a name starts at a character classified as a letter, or at `_`,
/// and runs over all the letters, digits and underscores that follow; the
/// token read is the one for that name (see `lemma_name_token_text`).
pub proof fn lemma_letter_starts_name(s: Seq<char>, fl: Seq<CharFlags>, pos: nat)
    requires
        pos <= s.len(),
        skip_blank(s, fl, pos) < s.len(),
        !('0' <= s[skip_blank(s, fl, pos) as int] && s[skip_blank(s, fl, pos) as int] <= '9'),
        fl[skip_blank(s, fl, pos) as int].alphabetic || s[skip_blank(s, fl, pos) as int] == '_',
    ensures
        ({
            let b = skip_blank(s, fl, pos);
            let (r, q) = spec_next_token(s, fl, pos);
            &&& b < q <= s.len()
            &&& r == Ok::<TokenView, TokinizationErrorView>(
                keyword_or_identifier(s.subrange(b as int, q as int)),
            )
            &&& forall|i: int| b < i < q ==> (#[trigger] fl[i]).alphanumeric || s[i] == '_'
            &&& q < s.len() ==> !(fl[q as int].alphanumeric || s[q as int] == '_')
        }),
{
    let b = skip_blank(s, fl, pos);
    lemma_skip_blank(s, fl, pos);
    lemma_scan_end(s, fl, b + 1, CharClass::IdentifierChar);
}

/// Law: a string literal runs from a double quote to the next double quote.
/// Its token holds the text with both quotes, then the text between them,
/// and prints as `STRING`, the former and the latter. With no closing quote,
/// reading goes to the end of the text and reports an unterminated string on
/// the last line.
pub proof fn lemma_quote_starts_string(s: Seq<char>, fl: Seq<CharFlags>, pos: nat)
    requires
        pos <= s.len(),
        skip_blank(s, fl, pos) < s.len(),
        s[skip_blank(s, fl, pos) as int] == '"',
        !fl[skip_blank(s, fl, pos) as int].alphabetic,
    ensures
        ({
            let b = skip_blank(s, fl, pos);
            let (r, q) = spec_next_token(s, fl, pos);
            &&& b < q <= s.len()
            &&& r is Ok ==> {
                &&& b + 2 <= q
                &&& s[q - 1] == '"'
                &&& forall|i: int| b < i < q - 1 ==> #[trigger] s[i] != '"'
                &&& r == Ok::<TokenView, TokinizationErrorView>(
                    TokenView::StringLiteral(
                        s.subrange(b as int, q as int),
                        s.subrange(b + 1int, q - 1int),
                    ),
                )
                &&& token_text(r->Ok_0) == "STRING "@ + s.subrange(b as int, q as int) + " "@
                    + s.subrange(b + 1int, q - 1int)
            }
            &&& r is Err ==> {
                &&& q == s.len()
                &&& forall|i: int| b < i < s.len() ==> #[trigger] s[i] != '"'
                &&& r == Err::<TokenView, TokinizationErrorView>(
                    TokinizationErrorView::UnterminatedStringLiteral(count_newlines(s) + 1),
                )
            }
        }),
{
    let b = skip_blank(s, fl, pos);
    lemma_skip_blank(s, fl, pos);
    lemma_scan_end(s, fl, b + 1, CharClass::NotQuote);
    assert(s.take(s.len() as int) =~= s);
}

/// How many dots `s` holds.
pub open spec fn dot_count(s: Seq<char>) -> nat
    decreases s.len(),
{
    if s.len() == 0 {
        0
    } else {
        dot_count(s.drop_last()) + if s.last() == '.' { 1nat } else { 0nat }
    }
}

/// Whether `r` is a number token whose spelling holds two or more dots:
/// such a spelling denotes no number.
pub open spec fn is_malformed_number(r: Result<TokenView, TokinizationErrorView>) -> bool {
    r matches Ok(TokenView::Number(spelling, _)) && dot_count(spelling) >= 2
}

/// Whether the token read next from `pos` is a number with two or more dots.
pub open spec fn malformed_number_ahead(s: Seq<char>, fl: Seq<CharFlags>, pos: nat) -> bool {
    is_malformed_number(spec_next_token(s, fl, pos).0)
}

/// Whether no result in `rs` is a number with two or more dots.
pub open spec fn no_malformed_number(rs: Seq<Result<TokenView, TokinizationErrorView>>) -> bool {
    forall|i: int| 0 <= i < rs.len() ==> !is_malformed_number(#[trigger] rs[i])
}

/// The results that an iterator at position `pos` hands out from now on:
/// nothing once it has handed out the end token, else one result per read,
/// up to and including the end token.
pub open spec fn token_stream(s: Seq<char>, fl: Seq<CharFlags>, pos: nat, done: bool) -> Seq<
    Result<TokenView, TokinizationErrorView>,
>
    decreases s.len() - pos,
{
    if done {
        Seq::empty()
    } else {
        let (r, next) = spec_next_token(s, fl, pos);
        if r == Ok::<TokenView, TokinizationErrorView>(TokenView::EOF) || next <= pos || next
            > s.len() {
            seq![r]
        } else {
            seq![r] + token_stream(s, fl, next, false)
        }
    }
}

/// Every token stream read from a text is finite, ends with the end token,
/// and holds the end token nowhere else.
pub proof fn lemma_stream_ends_with_eof(s: Seq<char>, fl: Seq<CharFlags>, pos: nat)
    requires
        pos <= s.len(),
    ensures
        ({
            let st = token_stream(s, fl, pos, false);
            &&& st.len() > 0
            &&& st.last() == Ok::<TokenView, TokinizationErrorView>(TokenView::EOF)
            &&& forall|i: int|
                0 <= i < st.len() - 1 ==> st[i] != Ok::<TokenView, TokinizationErrorView>(
                    TokenView::EOF,
                )
        }),
    decreases s.len() - pos,
{
    lemma_next_token_progress(s, fl, pos);
    let (r, next) = spec_next_token(s, fl, pos);
    if r != Ok::<TokenView, TokinizationErrorView>(TokenView::EOF) {
        lemma_stream_ends_with_eof(s, fl, next);
        let rest = token_stream(s, fl, next, false);
        let st = token_stream(s, fl, pos, false);
        assert(st == seq![r] + rest);
        assert forall|i: int|
            0 <= i < st.len() - 1 implies st[i] != Ok::<TokenView, TokinizationErrorView>(
            TokenView::EOF,
        ) by {
            if i > 0 {
                assert(st[i] == rest[i - 1]);
            }
        }
    }
}

/// The characters of `input`, in order.
fn chars_of(input: &str) -> (chars: Vec<char>)
    ensures
        chars@ == input@,
{
    let mut chars: Vec<char> = Vec::new();
    for c in iter: input.chars()
        invariant
            chars@ == iter.seq().take(iter.index() as int),
    {
        chars.push(c);
    }
    chars
}

/// Reads the tokens of a source text one after the other, ending with a
/// single end token.
pub struct TokenIterator<'a> {
    input: &'a str,
    chars: Vec<char>,
    flags: Vec<CharFlags>,
    position: usize,
    is_eof: bool,
}

impl<'a> TokenIterator<'a> {
    #[verifier::type_invariant]
    spec fn well_formed(self) -> bool {
        &&& self.chars@ == self.input@
        &&& self.flags@.len() == self.chars@.len()
        &&& self.position <= self.chars@.len()
        &&& self.chars@.len() < usize::MAX
    }

    /// The text being read.
    pub closed spec fn source(&self) -> Seq<char> {
        self.input@
    }

    /// The classification of each character of the text.
    pub closed spec fn classes(&self) -> Seq<CharFlags> {
        self.flags@
    }

    /// The position (in characters) of the next character to read.
    pub closed spec fn offset(&self) -> nat {
        self.position as nat
    }

    /// Whether the end token has been handed out.
    pub closed spec fn finished(&self) -> bool {
        self.is_eof
    }

    /// Starts reading `input` from its first character, with each character
    /// classified by std.
    pub fn new(input: &'a str) -> (it: Self)
        requires
            input@.len() < usize::MAX,
        ensures
            it.source() == input@,
            it.classes() == std_flags(input@),
            it.offset() == 0,
            !it.finished(),
    {
        let chars = chars_of(input);
        let mut flags: Vec<CharFlags> = Vec::new();
        for i in 0..chars.len()
            invariant
                chars@ == input@,
                flags@ == std_flags(input@).take(i as int),
        {
            flags.push(classify(chars[i]));
            assert(flags@ =~= std_flags(input@).take(i + 1));
        }
        assert(flags@ =~= std_flags(input@));
        TokenIterator { input, chars, flags, position: 0, is_eof: false }
    }

    /// Starts reading `input` from its first character, with the given
    /// classification of its characters.
    pub fn with_classes(input: &'a str, flags: Vec<CharFlags>) -> (it: Self)
        requires
            input@.len() < usize::MAX,
            flags@.len() == input@.len(),
        ensures
            it.source() == input@,
            it.classes() == flags@,
            it.offset() == 0,
            !it.finished(),
    {
        let chars = chars_of(input);
        TokenIterator { input, chars, flags, position: 0, is_eof: false }
    }

    /// The line (counted from 1) on which character position `pos` stands.
    pub fn find_line_number(&self, pos: usize) -> (line: usize)
        requires
            pos <= self.source().len(),
        ensures
            line == line_number(self.source(), pos as nat),
    {
        proof {
            use_type_invariant(self);
        }
        let mut count: usize = 0;
        let mut i: usize = 0;
        while i < pos
            invariant
                pos <= self.chars@.len() < usize::MAX,
                self.chars@ == self.input@,
                i <= pos,
                count == count_newlines(self.chars@.take(i as int)),
                count <= i,
            decreases pos - i,
        {
            assert(self.chars@.take(i + 1).drop_last() =~= self.chars@.take(i as int));
            if self.chars[i] == '\n' {
                count = count + 1;
            }
            i = i + 1;
        }
        count + 1
    }

    /// Reads the next character.
    pub fn read_char(&mut self) -> (ch: char)
        requires
            old(self).offset() < old(self).source().len(),
        ensures
            ch == old(self).source()[old(self).offset() as int],
            final(self).offset() == old(self).offset() + 1,
            final(self).source() == old(self).source(),
            final(self).classes() == old(self).classes(),
            final(self).finished() == old(self).finished(),
    {
        proof {
            use_type_invariant(&*self);
        }
        let ch = self.chars[self.position];
        self.position = self.position + 1;
        ch
    }

    /// Reads up to the next line break (which stays unread) and returns what was read.
    pub fn read_until_rn(&mut self) -> (read: &'a str)
        ensures
            final(self).offset() == scan_end(old(self).source(), old(self).classes(), old(self).offset(), CharClass::NotNewline),
            read@ == old(self).source().subrange(old(self).offset() as int, final(self).offset() as int),
            final(self).source() == old(self).source(),
            final(self).classes() == old(self).classes(),
            final(self).finished() == old(self).finished(),
    {
        let start = self.position;
        let _ = self.read_while(CharClass::NotNewline);
        proof {
            use_type_invariant(&*self);
            lemma_scan_end(self.input@, self.flags@, start as nat, CharClass::NotNewline);
        }
        self.input.substring_char(start, self.position)
    }

    /// Reads the characters of `class` that follow. Returns what was read when a
    /// character outside `class` stops the reading, and `None` when the end of
    /// the text does.
    pub fn read_while(&mut self, class: CharClass) -> (read: Option<&'a str>)
        ensures
            final(self).offset() == scan_end(old(self).source(), old(self).classes(), old(self).offset(), class),
            final(self).source() == old(self).source(),
            final(self).classes() == old(self).classes(),
            final(self).finished() == old(self).finished(),
            match read {
                Some(r) => final(self).offset() < final(self).source().len() && r@ == old(
                    self,
                ).source().subrange(old(self).offset() as int, final(self).offset() as int),
                None => final(self).offset() >= final(self).source().len(),
            },
    {
        proof {
            use_type_invariant(&*self);
        }
        let ghost s = self.input@;
        let ghost fl = self.flags@;
        let start = self.position;
        while self.position < self.chars.len()
            invariant
                self.input@ == s,
                self.flags@ == fl,
                old(self).flags@ == fl,
                fl.len() == s.len(),
                old(self).input@ == s,
                start == old(self).position,
                self.chars@ == s,
                start <= self.position <= s.len(),
                self.is_eof == old(self).is_eof,
                scan_end(s, fl, start as nat, class) == scan_end(s, fl, self.position as nat, class),
            decreases s.len() - self.position,
        {
            proof {
                use_type_invariant(&*self);
            }
            let ch = self.chars[self.position];
            if !char_in_class(class, ch, self.flags[self.position]) {
                return Some(self.input.substring_char(start, self.position));
            }
            self.position = self.position + 1;
        }
        None
    }

    /// The next character, left unread.
    pub fn peek_char(&self) -> (ch: Option<char>)
        ensures
            ch == (if self.offset() < self.source().len() {
                Some(self.source()[self.offset() as int])
            } else {
                None
            }),
    {
        proof {
            use_type_invariant(self);
        }
        if self.position < self.chars.len() {
            Some(self.chars[self.position])
        } else {
            None
        }
    }

    /// The first position at or after `from` whose character is not in
    /// `class`, or the end of the text; nothing is read.
    fn scan_from(&self, from: usize, class: CharClass) -> (end: usize)
        requires
            from <= self.source().len(),
        ensures
            end == scan_end(self.source(), self.classes(), from as nat, class),
    {
        proof {
            use_type_invariant(self);
        }
        let mut end = from;
        while end < self.chars.len() && char_in_class(class, self.chars[end], self.flags[end])
            invariant
                from <= end <= self.chars@.len(),
                self.chars@ == self.input@,
                self.flags@.len() == self.chars@.len(),
                scan_end(self.input@, self.flags@, from as nat, class) == scan_end(
                    self.input@,
                    self.flags@,
                    end as nat,
                    class,
                ),
            decreases self.chars@.len() - end,
        {
            end = end + 1;
        }
        end
    }

    /// Whether the token read next would be a number spelled with two or more
    /// dots, which denotes no value; nothing is read.
    pub fn next_is_malformed_number(&self) -> (b: bool)
        ensures
            b == malformed_number_ahead(self.source(), self.classes(), self.offset()),
    {
        proof {
            use_type_invariant(self);
            lemma_skip_blank(self.input@, self.flags@, self.position as nat);
        }
        let ghost s = self.input@;
        let ghost fl = self.flags@;
        let ghost start = self.position as nat;
        let n = self.chars.len();
        let mut p = self.position;
        loop
            invariant
                self.input@ == s,
                self.flags@ == fl,
                self.chars@ == s,
                fl.len() == s.len(),
                n == s.len(),
                n < usize::MAX,
                start <= p <= n,
                skip_blank(s, fl, start) == skip_blank(s, fl, p as nat),
            ensures
                p == skip_blank(s, fl, start),
                p <= n,
            decreases n - p,
        {
            if p >= n {
                break ;
            }
            if self.flags[p].whitespace {
                p = p + 1;
                continue ;
            }
            if self.chars[p] == '/' && p + 1 < n && self.chars[p + 1] == '/'
                && !self.flags[p].alphabetic {
                proof {
                    lemma_scan_end(s, fl, (p + 1) as nat, CharClass::NotNewline);
                }
                p = self.scan_from(p + 1, CharClass::NotNewline);
                continue ;
            }
            break ;
        }
        if p >= n || !char_is_decimal_digit(self.chars[p]) {
            return false;
        }
        let end = self.scan_from(p + 1, CharClass::NumberChar);
        proof {
            lemma_scan_end(s, fl, (p + 1) as nat, CharClass::NumberChar);
        }
        let mut dots: usize = 0;
        let mut q = p;
        while q < end
            invariant
                self.chars@ == s,
                p <= q <= end <= s.len(),
                dots <= q - p,
                dots == dot_count(s.subrange(p as int, q as int)),
            decreases end - q,
        {
            assert(s.subrange(p as int, q + 1).drop_last() =~= s.subrange(p as int, q as int));
            if self.chars[q] == '.' {
                dots = dots + 1;
            }
            q = q + 1;
        }
        dots >= 2
    }

    /// Reads the next token, skipping white space and `//` comments. At the end
    /// of the text this is the end token. A number token carries its spelling
    /// twice: the value of the literal as a floating-point number is not
    /// computed here. A number spelled with two or more dots denotes no value
    /// and must not be read (see `next_is_malformed_number`).
    pub fn next_token(&mut self) -> (res: Result<Token<'a>, TokinizationError>)
        requires
            !malformed_number_ahead(old(self).source(), old(self).classes(), old(self).offset()),
        ensures
            (result_view(res), final(self).offset()) == spec_next_token(
                old(self).source(),
                old(self).classes(),
                old(self).offset(),
            ),
            final(self).source() == old(self).source(),
            final(self).classes() == old(self).classes(),
            final(self).finished() == old(self).finished(),
    {
        let ghost s = self.input@;
        let ghost fl = self.flags@;
        let ghost goal = spec_next_token(s, fl, self.position as nat);
        loop
            invariant
                self.input@ == s,
                self.flags@ == fl,
                old(self).flags@ == fl,
                old(self).input@ == s,
                self.is_eof == old(self).is_eof,
                goal == spec_next_token(old(self).input@, old(self).flags@, old(self).position as nat),
                spec_next_token(s, fl, self.position as nat) == goal,
            decreases s.len() - self.position,
        {
            proof {
                use_type_invariant(&*self);
            }
            if self.position >= self.chars.len() {
                return Ok(Token::EOF);
            }
            let start = self.position;
            let c = self.read_char();
            proof {
                let next = (start + 1) as nat;
                lemma_scan_end(s, fl, next, CharClass::NumberChar);
                lemma_scan_end(s, fl, next, CharClass::IdentifierChar);
                lemma_scan_end(s, fl, next, CharClass::NotQuote);
                lemma_scan_end(s, fl, next, CharClass::NotNewline);
            }
            if self.flags[start].whitespace {
                continue ;
            }
            if char_is_decimal_digit(c) {
                let _ = self.read_while(CharClass::NumberChar);
                let lexeme = self.input.substring_char(start, self.position);
                return Ok(Token::Number(lexeme, lexeme));
            }
            if self.flags[start].alphabetic || c == '_' {
                let _ = self.read_while(CharClass::IdentifierChar);
                let ident = self.input.substring_char(start, self.position);
                return Ok(reserved_or_identifier(ident));
            }
            if c == '(' {
                return Ok(Token::LeftParen("("));
            }
            if c == ')' {
                return Ok(Token::RightParen(")"));
            }
            if c == '{' {
                return Ok(Token::LeftBrace("{"));
            }
            if c == '}' {
                return Ok(Token::RightBrace("}"));
            }
            if c == '*' {
                return Ok(Token::Star("*"));
            }
            if c == '.' {
                return Ok(Token::Dot("."));
            }
            if c == ',' {
                return Ok(Token::Comma(","));
            }
            if c == '+' {
                return Ok(Token::Plus("+"));
            }
            if c == '-' {
                return Ok(Token::Minus("-"));
            }
            if c == ';' {
                return Ok(Token::Semicolon(";"));
            }
            if c == '/' {
                if let Some('/') = self.peek_char() {
                    let _ = self.read_until_rn();
                    continue ;
                }
                return Ok(Token::Slash("/"));
            }
            if c == '=' {
                if let Some('=') = self.peek_char() {
                    self.read_char();
                    return Ok(Token::EqualEqual("=="));
                }
                return Ok(Token::Equal("="));
            }
            if c == '!' {
                if let Some('=') = self.peek_char() {
                    self.read_char();
                    return Ok(Token::BangEqual("!="));
                }
                return Ok(Token::Bang("!"));
            }
            if c == '<' {
                if let Some('=') = self.peek_char() {
                    self.read_char();
                    return Ok(Token::LessEqual("<="));
                }
                return Ok(Token::Less("<"));
            }
            if c == '>' {
                if let Some('=') = self.peek_char() {
                    self.read_char();
                    return Ok(Token::GreaterEqual(">="));
                }
                return Ok(Token::Greater(">"));
            }
            if c == '"' {
                match self.read_while(CharClass::NotQuote) {
                    Some(contents) => {
                        self.read_char();
                        let lexeme = self.input.substring_char(start, self.position);
                        return Ok(Token::StringLiteral(lexeme, contents));
                    },
                    None => {
                        proof {
                            use_type_invariant(&*self);
                            lemma_count_newlines_bound(s.take(self.position as int));
                        }
                        let line = self.find_line_number(self.position);
                        return Err(TokinizationError::UnterminatedStringLiteral(line));
                    },
                }
            }
            let pos = self.position;
            proof {
                lemma_count_newlines_bound(s.take(pos as int));
            }
            let line = self.find_line_number(pos);
            let ch = String::from_str(self.input.substring_char(start, pos));
            assert(ch@ =~= seq![c]);
            return Err(TokinizationError::UnrecognizedCharacter(ch, line));
        }
    }

    /// Hands out the next token or error; after the end token, `None`.
    pub fn next(&mut self) -> (item: Option<Result<Token<'a>, TokinizationError>>)
        requires
            !old(self).finished() ==> !malformed_number_ahead(
                old(self).source(),
                old(self).classes(),
                old(self).offset(),
            ),
        ensures
            final(self).source() == old(self).source(),
            final(self).classes() == old(self).classes(),
            final(self).offset() <= final(self).source().len(),
            old(self).finished() ==> item is None && final(self).offset() == old(self).offset()
                && final(self).finished(),
            !old(self).finished() ==> (item matches Some(r) && (
                result_view(r),
                final(self).offset(),
            ) == spec_next_token(old(self).source(), old(self).classes(), old(self).offset()) && final(self).finished()
                == (result_view(r) == Ok::<TokenView, TokinizationErrorView>(TokenView::EOF))),
    {
        proof {
            use_type_invariant(&*self);
        }
        if self.is_eof {
            return None;
        }
        let token = self.next_token();
        proof {
            use_type_invariant(&*self);
        }
        if let Ok(Token::EOF) = token {
            self.is_eof = true;
            Some(Ok(Token::EOF))
        } else {
            Some(token)
        }
    }

    /// Everything the iterator hands out from now on, in order: the tokens and
    /// errors up to and including the end token.
    pub fn collect_all(&mut self) -> (all: Vec<Result<Token<'a>, TokinizationError>>)
        requires
            no_malformed_number(
                token_stream(old(self).source(), old(self).classes(), old(self).offset(), old(self).finished()),
            ),
        ensures
            results_view(all@) == token_stream(old(self).source(), old(self).classes(), old(self).offset(), old(self).finished()),
            final(self).source() == old(self).source(),
            final(self).classes() == old(self).classes(),
            final(self).finished(),
    {
        proof {
            use_type_invariant(&*self);
        }
        let ghost s = self.source();
        let ghost fl = self.classes();
        let ghost total = token_stream(s, fl, self.offset(), self.finished());
        let mut all: Vec<Result<Token<'a>, TokinizationError>> = Vec::new();
        loop
            invariant
                self.source() == s,
                self.classes() == fl,
                self.offset() <= s.len(),
                old(self).source() == s,
                old(self).classes() == fl,
                total == token_stream(s, fl, old(self).offset(), old(self).finished()),
                results_view(all@) + token_stream(s, fl, self.offset(), self.finished()) == total,
                no_malformed_number(token_stream(s, fl, self.offset(), self.finished())),
            decreases s.len() - self.offset() + if self.finished() {
                0int
            } else {
                1int
            },
        {
            let ghost before = self.offset();
            let ghost was_done = self.finished();
            proof {
                if !was_done {
                    let st = token_stream(s, fl, before, false);
                    assert(st[0] == spec_next_token(s, fl, before).0);
                }
            }
            match self.next() {
                Some(r) => {
                    proof {
                        lemma_next_token_progress(s, fl, before);
                        let v = result_view(r);
                        assert(results_view(all@.push(r)) =~= results_view(all@).push(v));
                        let rest = token_stream(s, fl, self.offset(), self.finished());
                        let st = token_stream(s, fl, before, was_done);
                        assert(st == seq![v] + rest);
                        assert forall|i: int| 0 <= i < rest.len() implies !is_malformed_number(
                            #[trigger] rest[i],
                        ) by {
                            assert(rest[i] == st[i + 1]);
                        }
                        assert(results_view(all@).push(v) + rest =~= results_view(all@) + (seq![v]
                            + rest));
                    }
                    all.push(r);
                },
                None => {
                    assert(results_view(all@) =~= total);
                    return all;
                },
            }
        }
    }
}

} // verus!
