//! Building syntax trees from tokens: expressions by binding strength, and
//! programs as `;`-terminated statements.

use vstd::prelude::*;
use vstd::string::*;

use crate::syntax::{lines_renderable, node_text, renderable, SyntaxNode};
use crate::text::ascii_upper;
use crate::tokenizer::{
    is_decimal_digit, keyword_or_identifier, lemma_scan_end, lemma_skip_blank, scan_end, skip_blank,
    spec_next_token, CharClass, CharFlags,
};
use crate::tokens::{
    highest_precedence, precedence, token_text, Token, TokenView,
};

verus! {

/// What parsing from a position gives: a node and the position after it, or
/// an error message and the position the parser stopped at.
pub enum Parsed<'a> {
    Node(SyntaxNode<'a>, nat),
    Failure(Seq<char>, nat),
}

/// The message for a token that cannot stand where it was found.
pub open spec fn unexpected_text<'a>(t: Token<'a>) -> Seq<char> {
    "Unexpected token: "@ + token_text(t@)
}

/// The message for running out of tokens.
pub open spec fn end_of_input_text() -> Seq<char> {
    "Unexpected end of input"@
}

/// The node that a binary operator token builds from its two operands.
pub open spec fn binary_node<'a>(
    op: TokenView,
    left: SyntaxNode<'a>,
    right: SyntaxNode<'a>,
) -> SyntaxNode<'a> {
    let l = Box::new(left);
    let r = Box::new(right);
    match op {
        TokenView::And(_) => SyntaxNode::And(l, r),
        TokenView::Or(_) => SyntaxNode::Or(l, r),
        TokenView::Plus(_) => SyntaxNode::PlusBinary(l, r),
        TokenView::Minus(_) => SyntaxNode::MinusBinary(l, r),
        TokenView::Star(_) => SyntaxNode::MultiplyBinary(l, r),
        TokenView::Slash(_) => SyntaxNode::DivideBinary(l, r),
        TokenView::EqualEqual(_) => SyntaxNode::Equal(l, r),
        TokenView::BangEqual(_) => SyntaxNode::NotEqual(l, r),
        TokenView::Less(_) => SyntaxNode::Less(l, r),
        TokenView::LessEqual(_) => SyntaxNode::LessEqual(l, r),
        TokenView::Greater(_) => SyntaxNode::Greater(l, r),
        _ => SyntaxNode::GreaterEqual(l, r),
    }
}

/// The tokens that close a construct.
#[derive(Clone, Copy, Debug, PartialEq, Eq)]
pub enum Closer {
    RightParen,
    Semicolon,
}

pub open spec fn closes<'a>(c: Closer, t: Token<'a>) -> bool {
    match c {
        Closer::RightParen => matches!(t, Token::RightParen(_)),
        Closer::Semicolon => matches!(t, Token::Semicolon(_)),
    }
}

/// Expecting the closing token `c` at `p`: the position after it, or the
/// message for what stands there instead (which is left unread).
pub open spec fn expect_spec<'a>(ts: Seq<Token<'a>>, p: nat, c: Closer) -> Result<nat, Seq<char>> {
    if p < ts.len() && closes(c, ts[p as int]) {
        Ok((p + 1) as nat)
    } else if p < ts.len() {
        Err(unexpected_text(ts[p as int]))
    } else {
        Err(end_of_input_text())
    }
}

/// A literal, a unary operator applied to its operand, or a parenthesized
/// expression, starting at `p`.
pub open spec fn primary_spec<'a>(ts: Seq<Token<'a>>, p: nat) -> Parsed<'a>
    decreases ts.len() - p, 0nat,
{
    if p >= ts.len() {
        Parsed::Failure(end_of_input_text(), p)
    } else {
        let next = (p + 1) as nat;
        match ts[p as int] {
            Token::True(_) => Parsed::Node(SyntaxNode::BoolLiteral(true), next),
            Token::False(_) => Parsed::Node(SyntaxNode::BoolLiteral(false), next),
            Token::Nil(_) => Parsed::Node(SyntaxNode::NilLiteral, next),
            Token::Number(_, v) => Parsed::Node(SyntaxNode::NumberLiteral(v), next),
            Token::StringLiteral(_, v) => Parsed::Node(SyntaxNode::StringLiteral(v), next),
            Token::Minus(_) => match binary_spec(ts, next, highest_precedence()) {
                Parsed::Node(e, q) => Parsed::Node(SyntaxNode::MinusUnary(Box::new(e)), q),
                Parsed::Failure(m, q) => Parsed::Failure(m, q),
            },
            Token::Plus(_) => match binary_spec(ts, next, highest_precedence()) {
                Parsed::Node(e, q) => Parsed::Node(SyntaxNode::PlusUnary(Box::new(e)), q),
                Parsed::Failure(m, q) => Parsed::Failure(m, q),
            },
            Token::LeftParen(_) => match binary_spec(ts, next, 0) {
                Parsed::Node(e, q) => match expect_spec(ts, q, Closer::RightParen) {
                    Ok(r) => Parsed::Node(SyntaxNode::Parens(Box::new(e)), r),
                    Err(m) => Parsed::Failure(m, q),
                },
                Parsed::Failure(m, q) => Parsed::Failure(m, q),
            },
            Token::Bang(_) => match primary_spec(ts, next) {
                Parsed::Node(e, q) => Parsed::Node(SyntaxNode::Not(Box::new(e)), q),
                Parsed::Failure(m, q) => Parsed::Failure(m, q),
            },
            t => Parsed::Failure(unexpected_text(t), next),
        }
    }
}

/// An expression starting at `p` whose binary operators all bind more
/// strongly than `min`: an operand, then operators and operands, each
/// operator taking as its right operand everything that binds more strongly
/// than itself (so operators of equal strength group to the left).
pub open spec fn binary_spec<'a>(ts: Seq<Token<'a>>, p: nat, min: u8) -> Parsed<'a>
    decreases ts.len() - p, 1nat,
{
    match primary_spec(ts, p) {
        Parsed::Node(left, q) => if p < q <= ts.len() {
            binary_tail_spec(ts, q, min, left)
        } else {
            Parsed::Node(left, q)
        },
        Parsed::Failure(m, q) => Parsed::Failure(m, q),
    }
}

/// The operators and operands that follow `left` at `p`, folded onto `left`.
pub open spec fn binary_tail_spec<'a>(
    ts: Seq<Token<'a>>,
    p: nat,
    min: u8,
    left: SyntaxNode<'a>,
) -> Parsed<'a>
    decreases ts.len() - p, 2nat,
{
    if p < ts.len() && precedence(ts[p as int]@) is Some && precedence(ts[p as int]@)->0 > min {
        let prec = precedence(ts[p as int]@)->0;
        match binary_spec(ts, (p + 1) as nat, prec) {
            Parsed::Node(right, r) => {
                let combined = binary_node(ts[p as int]@, left, right);
                if p < r <= ts.len() {
                    binary_tail_spec(ts, r, min, combined)
                } else {
                    Parsed::Node(combined, r)
                }
            },
            Parsed::Failure(m, q) => Parsed::Failure(m, q),
        }
    } else {
        Parsed::Node(left, p)
    }
}

/// One statement starting at `p`: `print` and an expression, or an
/// expression alone, closed by `;`.
pub open spec fn statement_spec<'a>(ts: Seq<Token<'a>>, p: nat) -> Parsed<'a> {
    if p < ts.len() && ts[p as int] is Print {
        match binary_spec(ts, (p + 1) as nat, 0) {
            Parsed::Node(e, q) => match expect_spec(ts, q, Closer::Semicolon) {
                Ok(r) => Parsed::Node(SyntaxNode::Print(Box::new(e)), r),
                Err(m) => Parsed::Failure(m, q),
            },
            Parsed::Failure(m, q) => Parsed::Failure(m, q),
        }
    } else {
        match binary_spec(ts, p, 0) {
            Parsed::Node(e, q) => match expect_spec(ts, q, Closer::Semicolon) {
                Ok(r) => Parsed::Node(SyntaxNode::Statement(Box::new(e)), r),
                Err(m) => Parsed::Failure(m, q),
            },
            Parsed::Failure(m, q) => Parsed::Failure(m, q),
        }
    }
}

/// What parsing a program from a position gives: its statements and the
/// position after them, or an error message and the position the parser
/// stopped at.
pub enum ProgramParsed<'a> {
    Lines(Seq<SyntaxNode<'a>>, nat),
    Failure(Seq<char>, nat),
}

/// The statements from `p` up to the end token (or the end of the tokens).
pub open spec fn program_spec<'a>(ts: Seq<Token<'a>>, p: nat) -> ProgramParsed<'a>
    decreases ts.len() - p,
{
    if p >= ts.len() || ts[p as int] is EOF {
        ProgramParsed::Lines(Seq::empty(), p)
    } else {
        match statement_spec(ts, p) {
            Parsed::Node(st, q) => if p < q <= ts.len() {
                match program_spec(ts, q) {
                    ProgramParsed::Lines(rest, r) => ProgramParsed::Lines(seq![st] + rest, r),
                    ProgramParsed::Failure(m, r) => ProgramParsed::Failure(m, r),
                }
            } else {
                ProgramParsed::Lines(seq![st], q)
            },
            Parsed::Failure(m, q) => ProgramParsed::Failure(m, q),
        }
    }
}

/// `lines` followed by what `rest` parsed.
pub open spec fn prepend_lines<'a>(lines: Seq<SyntaxNode<'a>>, rest: ProgramParsed<'a>) -> ProgramParsed<'a> {
    match rest {
        ProgramParsed::Lines(more, q) => ProgramParsed::Lines(lines + more, q),
        ProgramParsed::Failure(m, q) => ProgramParsed::Failure(m, q),
    }
}

/// Law: a program ends at the end token or where the tokens run out: from
/// there it has no lines, and the parser stays there.
pub proof fn lemma_program_ends_at_end_token<'a>(ts: Seq<Token<'a>>, p: nat)
    requires
        p >= ts.len() || ts[p as int] is EOF,
    ensures
        program_spec(ts, p) == ProgramParsed::Lines::<'a>(Seq::empty(), p),
{
}

/// Law: a statement `print e ;` is the line `Print(n)`, where `n` is what `e`
/// parses to as a whole expression (binding strength 0, as `parse` reads it);
/// the program goes on after the `;`.
pub proof fn lemma_print_statement<'a>(ts: Seq<Token<'a>>, p: nat, e: SyntaxNode<'a>, q: nat)
    requires
        p < ts.len(),
        ts[p as int] is Print,
        binary_spec(ts, p + 1, 0) == Parsed::Node(e, q),
        q < ts.len(),
        ts[q as int] is Semicolon,
    ensures
        program_spec(ts, p) == prepend_lines(
            seq![SyntaxNode::Print(Box::new(e))],
            program_spec(ts, q + 1),
        ),
{
    lemma_binary_bounds(ts, p + 1, 0);
}

/// Law: a statement `e ;` that does not start with `print` is the line
/// `Statement(n)`, where `n` is what `e` parses to as a whole expression
/// (binding strength 0, as `parse` reads it); the program goes on after the `;`.
pub proof fn lemma_expression_statement<'a>(ts: Seq<Token<'a>>, p: nat, e: SyntaxNode<'a>, q: nat)
    requires
        p < ts.len(),
        !(ts[p as int] is Print),
        !(ts[p as int] is EOF),
        binary_spec(ts, p, 0) == Parsed::Node(e, q),
        q < ts.len(),
        ts[q as int] is Semicolon,
    ensures
        program_spec(ts, p) == prepend_lines(
            seq![SyntaxNode::Statement(Box::new(e))],
            program_spec(ts, q + 1),
        ),
{
    lemma_binary_bounds(ts, p, 0);
}

/// The message for `ts[q]` standing where a token of another kind was
/// needed, or for the tokens running out at `q`.
pub open spec fn message_at<'a>(ts: Seq<Token<'a>>, q: nat) -> Seq<char> {
    if q < ts.len() {
        "Unexpected token: "@ + token_text(ts[q as int]@)
    } else {
        "Unexpected end of input"@
    }
}

/// Law: a statement whose expression is not followed by `;` is an error
/// that names what stands there instead (or the end of the tokens), and the
/// parser stops before it; for `print` statements and others alike.
pub proof fn lemma_statement_needs_semicolon<'a>(ts: Seq<Token<'a>>, p: nat, e: SyntaxNode<'a>, q: nat)
    requires
        p < ts.len(),
        !(ts[p as int] is EOF),
        binary_spec(ts, if ts[p as int] is Print { p + 1 } else { p }, 0) == Parsed::Node(e, q),
        !(q < ts.len() && ts[q as int] is Semicolon),
    ensures
        program_spec(ts, p) == ProgramParsed::Failure(message_at(ts, q), q),
{
}

/// Law: an operand cannot start with a token other than a literal, `-`,
/// `+`, `(` or `!`: parsing reads that token and fails naming it. With no
/// token left, parsing fails at the end of the tokens.
pub proof fn lemma_operand_start<'a>(ts: Seq<Token<'a>>, p: nat, min: u8)
    requires
        p < ts.len() ==> !is_literal(ts[p as int]) && !(ts[p as int] is Minus) && !(
        ts[p as int] is Plus) && !(ts[p as int] is LeftParen) && !(ts[p as int] is Bang),
    ensures
        p < ts.len() ==> binary_spec(ts, p, min) == Parsed::Failure::<'a>(
            "Unexpected token: "@ + token_text(ts[p as int]@),
            p + 1,
        ),
        p >= ts.len() ==> binary_spec(ts, p, min) == Parsed::Failure::<'a>(
            "Unexpected end of input"@,
            p,
        ),
{
}

/// Law: a prefix operator applies to the operand that follows it and binds
/// more strongly than any binary operator: `-a o b`, `+a o b` and `!a o b`
/// with literal `a` and `b` build the unary node of the prefix (`-` negation,
/// `+` plus, `!` not) on `a`, and then `o` on that and `b`. A literal in
/// parentheses builds a group node on it.
pub proof fn lemma_prefix_forms<'a>(u: Token<'a>, a: Token<'a>, o: Token<'a>, b: Token<'a>, c: Token<'a>)
    requires
        is_literal(a),
        is_literal(b),
        precedence(o@) is Some,
    ensures
        ({
            let la = literal_node(a);
            let unary = if u is Minus {
                SyntaxNode::MinusUnary(Box::new(la))
            } else if u is Plus {
                SyntaxNode::PlusUnary(Box::new(la))
            } else {
                SyntaxNode::Not(Box::new(la))
            };
            &&& (u is Minus || u is Plus || u is Bang) ==> binary_spec(seq![u, a], 0, 0)
                == Parsed::Node(unary, 2)
            &&& (u is Minus || u is Plus || u is Bang) ==> binary_spec(seq![u, a, o, b], 0, 0)
                == Parsed::Node(binary_node(o@, unary, literal_node(b)), 4)
            &&& (u is LeftParen && c is RightParen) ==> binary_spec(seq![u, a, c], 0, 0)
                == Parsed::Node(SyntaxNode::Parens(Box::new(la)), 3)
        }),
{
    let la = literal_node(a);
    let lb = literal_node(b);
    let hp = highest_precedence();
    let p = precedence(o@)->0;
    let two = seq![u, a];
    let four = seq![u, a, o, b];
    let three = seq![u, a, c];
    assert(primary_spec(two, 1) == Parsed::Node(la, 2));
    assert(binary_tail_spec(two, 2, hp, la) == Parsed::Node(la, 2));
    assert(binary_spec(two, 1, hp) == Parsed::Node(la, 2));
    assert(primary_spec(two, 1) == Parsed::Node(la, 2));
    assert(primary_spec(four, 1) == Parsed::Node(la, 2));
    assert(binary_tail_spec(four, 2, hp, la) == Parsed::Node(la, 2));
    assert(binary_spec(four, 1, hp) == Parsed::Node(la, 2));
    assert(primary_spec(four, 1) == Parsed::Node(la, 2));
    assert(primary_spec(four, 3) == Parsed::Node(lb, 4));
    assert(binary_tail_spec(four, 4, p, lb) == Parsed::Node(lb, 4));
    assert(binary_spec(four, 3, p) == Parsed::Node(lb, 4));
    if u is Minus || u is Plus || u is Bang {
        let unary = if u is Minus {
            SyntaxNode::MinusUnary(Box::new(la))
        } else if u is Plus {
            SyntaxNode::PlusUnary(Box::new(la))
        } else {
            SyntaxNode::Not(Box::new(la))
        };
        assert(binary_tail_spec(two, 2, 0, unary) == Parsed::Node(unary, 2));
        let whole = binary_node(o@, unary, lb);
        assert(binary_tail_spec(four, 4, 0, whole) == Parsed::Node(whole, 4));
        assert(binary_tail_spec(four, 2, 0, unary) == Parsed::Node(whole, 4));
    }
    if u is LeftParen && c is RightParen {
        assert(primary_spec(three, 1) == Parsed::Node(la, 2));
        assert(binary_tail_spec(three, 2, 0, la) == Parsed::Node(la, 2));
        assert(binary_spec(three, 1, 0) == Parsed::Node(la, 2));
        let g = SyntaxNode::Parens(Box::new(la));
        assert(binary_tail_spec(three, 3, 0, g) == Parsed::Node(g, 3));
    }
}

/// Whether an executable result agrees with a parse outcome, where `at` is
/// the position the parser stopped at.
pub open spec fn agrees<'a>(res: Result<SyntaxNode<'a>, String>, at: nat, expected: Parsed<'a>) -> bool {
    match expected {
        Parsed::Node(n, q) => res matches Ok(r) && r == n && at == q,
        Parsed::Failure(m, q) => res matches Err(e) && e@ == m && at == q,
    }
}

/// Whether a token is a literal on its own: `true`, `false`, `nil`, a number
/// or a string.
pub open spec fn is_literal<'a>(t: Token<'a>) -> bool {
    t is True || t is False || t is Nil || t is Number || t is StringLiteral
}

/// The node a literal token stands for.
pub open spec fn literal_node<'a>(t: Token<'a>) -> SyntaxNode<'a> {
    match t {
        Token::True(_) => SyntaxNode::BoolLiteral(true),
        Token::False(_) => SyntaxNode::BoolLiteral(false),
        Token::Number(_, v) => SyntaxNode::NumberLiteral(v),
        Token::StringLiteral(_, v) => SyntaxNode::StringLiteral(v),
        _ => SyntaxNode::NilLiteral,
    }
}

/// Law: in `a o1 b o2 c` with literal operands, the operator that binds more
/// strongly takes the middle operand; when both bind equally, the left one
/// does (operators group to the left). The whole sequence is read.
pub proof fn lemma_binding_strength<'a>(
    a: Token<'a>,
    o1: Token<'a>,
    b: Token<'a>,
    o2: Token<'a>,
    c: Token<'a>,
)
    requires
        is_literal(a),
        is_literal(b),
        is_literal(c),
        precedence(o1@) is Some,
        precedence(o2@) is Some,
    ensures
        ({
            let ts = seq![a, o1, b, o2, c];
            let (la, lb, lc) = (literal_node(a), literal_node(b), literal_node(c));
            if precedence(o1@)->0 < precedence(o2@)->0 {
                binary_spec(ts, 0, 0) == Parsed::Node(
                    binary_node(o1@, la, binary_node(o2@, lb, lc)),
                    5,
                )
            } else {
                binary_spec(ts, 0, 0) == Parsed::Node(
                    binary_node(o2@, binary_node(o1@, la, lb), lc),
                    5,
                )
            }
        }),
{
    let ts = seq![a, o1, b, o2, c];
    let (la, lb, lc) = (literal_node(a), literal_node(b), literal_node(c));
    let p1 = precedence(o1@)->0;
    let p2 = precedence(o2@)->0;
    assert(p1 > 0 && p2 > 0);
    assert(primary_spec(ts, 0) == Parsed::Node(la, 1));
    assert(primary_spec(ts, 2) == Parsed::Node(lb, 3));
    assert(primary_spec(ts, 4) == Parsed::Node(lc, 5));
    assert(binary_tail_spec(ts, 5, p2, lc) == Parsed::Node(lc, 5));
    assert(binary_spec(ts, 4, p2) == Parsed::Node(lc, 5));
    if p1 < p2 {
        let right = binary_node(o2@, lb, lc);
        assert(binary_tail_spec(ts, 5, p1, right) == Parsed::Node(right, 5));
        assert(binary_tail_spec(ts, 3, p1, lb) == Parsed::Node(right, 5));
        assert(binary_spec(ts, 2, p1) == Parsed::Node(right, 5));
        let whole = binary_node(o1@, la, right);
        assert(binary_tail_spec(ts, 5, 0, whole) == Parsed::Node(whole, 5));
        assert(binary_tail_spec(ts, 1, 0, la) == Parsed::Node(whole, 5));
    } else {
        assert(binary_tail_spec(ts, 3, p1, lb) == Parsed::Node(lb, 3));
        assert(binary_spec(ts, 2, p1) == Parsed::Node(lb, 3));
        let left = binary_node(o1@, la, lb);
        let whole = binary_node(o2@, left, lc);
        assert(binary_tail_spec(ts, 5, 0, whole) == Parsed::Node(whole, 5));
        assert(binary_tail_spec(ts, 3, 0, left) == Parsed::Node(whole, 5));
        assert(binary_tail_spec(ts, 1, 0, la) == Parsed::Node(whole, 5));
    }
}

/// The two operands of a binary node; `None` for any other node.
pub open spec fn operands<'a>(n: SyntaxNode<'a>) -> Option<(SyntaxNode<'a>, SyntaxNode<'a>)> {
    match n {
        SyntaxNode::And(l, r) => Some((*l, *r)),
        SyntaxNode::Or(l, r) => Some((*l, *r)),
        SyntaxNode::PlusBinary(l, r) => Some((*l, *r)),
        SyntaxNode::MinusBinary(l, r) => Some((*l, *r)),
        SyntaxNode::MultiplyBinary(l, r) => Some((*l, *r)),
        SyntaxNode::DivideBinary(l, r) => Some((*l, *r)),
        SyntaxNode::Equal(l, r) => Some((*l, *r)),
        SyntaxNode::NotEqual(l, r) => Some((*l, *r)),
        SyntaxNode::Less(l, r) => Some((*l, *r)),
        SyntaxNode::LessEqual(l, r) => Some((*l, *r)),
        SyntaxNode::Greater(l, r) => Some((*l, *r)),
        SyntaxNode::GreaterEqual(l, r) => Some((*l, *r)),
        _ => None,
    }
}

/// Law: `a o b`, with literal operands and a binary operator `o`, parses as
/// a single node of the kind that `o` names, whose operands are `a` and `b`
/// in that order; each operator token names its own kind of node.
pub proof fn lemma_operator_builds_its_own_node<'a>(a: Token<'a>, o: Token<'a>, b: Token<'a>)
    requires
        is_literal(a),
        is_literal(b),
        precedence(o@) is Some,
    ensures
        binary_spec(seq![a, o, b], 0, 0) matches Parsed::Node(n, q) && q == 3 && operands(n) == Some(
            (literal_node(a), literal_node(b)),
        ) && (o is And <==> n is And) && (o is Or <==> n is Or) && (o is Plus <==> n is PlusBinary)
            && (o is Minus <==> n is MinusBinary) && (o is Star <==> n is MultiplyBinary) && (o is Slash
            <==> n is DivideBinary) && (o is EqualEqual <==> n is Equal) && (o is BangEqual <==> n is NotEqual)
            && (o is Less <==> n is Less) && (o is LessEqual <==> n is LessEqual) && (o is Greater <==> n is Greater)
            && (o is GreaterEqual <==> n is GreaterEqual),
{
    let ts = seq![a, o, b];
    let p = precedence(o@)->0;
    assert(primary_spec(ts, 0) == Parsed::Node(literal_node(a), 1));
    assert(primary_spec(ts, 2) == Parsed::Node(literal_node(b), 3));
    assert(binary_tail_spec(ts, 3, p, literal_node(b)) == Parsed::Node(literal_node(b), 3));
    assert(binary_spec(ts, 2, p) == Parsed::Node(literal_node(b), 3));
    let n = binary_node(o@, literal_node(a), literal_node(b));
    assert(binary_tail_spec(ts, 3, 0, n) == Parsed::Node(n, 3));
    assert(binary_tail_spec(ts, 1, 0, literal_node(a)) == Parsed::Node(n, 3));
}

/// Law: a binary node prints its operator as the operator was spelled in the
/// source, in upper case: when the token read from `s` at `pos` is a binary
/// operator, the node it builds from `l` and `r` prints as `(`, the text that
/// was read for the operator in upper case, a space, `l`, a space, `r` and `)`.
pub proof fn lemma_binary_node_prints_its_operator<'a>(
    s: Seq<char>,
    fl: Seq<CharFlags>,
    pos: nat,
    l: SyntaxNode<'a>,
    r: SyntaxNode<'a>,
)
    requires
        pos <= s.len(),
        spec_next_token(s, fl, pos).0 is Ok,
        precedence(spec_next_token(s, fl, pos).0->Ok_0) is Some,
    ensures
        ({
            let (res, q) = spec_next_token(s, fl, pos);
            let spelling = s.subrange(skip_blank(s, fl, pos) as int, q as int);
            node_text(binary_node(res->Ok_0, l, r)) == "("@ + ascii_upper(spelling) + " "@
                + node_text(l) + " "@ + node_text(r) + ")"@
        }),
{
    let b = skip_blank(s, fl, pos);
    lemma_skip_blank(s, fl, pos);
    let (res, q) = spec_next_token(s, fl, b);
    let o = res->Ok_0;
    let spelling = s.subrange(b as int, q as int);
    reveal_strlit("(");
    reveal_strlit(" ");
    reveal_strlit("and");
    reveal_strlit("or");
    reveal_strlit("(AND ");
    reveal_strlit("(OR ");
    reveal_strlit("(+ ");
    reveal_strlit("(- ");
    reveal_strlit("(* ");
    reveal_strlit("(/ ");
    reveal_strlit("(== ");
    reveal_strlit("(!= ");
    reveal_strlit("(< ");
    reveal_strlit("(<= ");
    reveal_strlit("(> ");
    reveal_strlit("(>= ");
    let head = "("@ + ascii_upper(spelling) + " "@;
    let c = s[b as int];
    if !is_decimal_digit(c) && (fl[b as int].alphabetic || c == '_') {
        lemma_scan_end(s, fl, b + 1, CharClass::IdentifierChar);
        let end = scan_end(s, fl, b + 1, CharClass::IdentifierChar);
        assert(o == keyword_or_identifier(s.subrange(b as int, end as int)));
        assert(q == end);
        if o is And {
            assert(spelling == "and"@);
            assert(head =~= "(AND "@);
        } else {
            assert(spelling == "or"@);
            assert(head =~= "(OR "@);
        }
    } else {
        assert(ascii_upper(spelling) =~= spelling);
        if q == b + 2 {
            assert(spelling =~= seq![c, '=']);
        } else {
            assert(spelling =~= seq![c]);
        }
        match o {
            TokenView::Plus(_) => assert(head =~= "(+ "@),
            TokenView::Minus(_) => assert(head =~= "(- "@),
            TokenView::Star(_) => assert(head =~= "(* "@),
            TokenView::Slash(_) => assert(head =~= "(/ "@),
            TokenView::EqualEqual(_) => assert(head =~= "(== "@),
            TokenView::BangEqual(_) => assert(head =~= "(!= "@),
            TokenView::Less(_) => assert(head =~= "(< "@),
            TokenView::LessEqual(_) => assert(head =~= "(<= "@),
            TokenView::Greater(_) => assert(head =~= "(> "@),
            TokenView::GreaterEqual(_) => assert(head =~= "(>= "@),
            _ => {},
        }
    }
}

/// Whether parsing an expression may stop before position `q` when its
/// operators must bind more strongly than `min`: at the end of the tokens, or
/// before a token that is no binary operator or binds no more strongly.
pub open spec fn stops_before<'a>(ts: Seq<Token<'a>>, q: nat, min: u8) -> bool {
    q >= ts.len() || precedence(ts[q as int]@) is None || precedence(ts[q as int]@)->0 <= min
}

proof fn lemma_primary_bounds<'a>(ts: Seq<Token<'a>>, p: nat)
    ensures
        primary_spec(ts, p) matches Parsed::Node(_, q) ==> p < q <= ts.len(),
    decreases ts.len() - p, 0nat,
{
    if p < ts.len() {
        let next = (p + 1) as nat;
        match ts[p as int] {
            Token::Minus(_) | Token::Plus(_) => {
                lemma_binary_bounds(ts, next, highest_precedence());
            },
            Token::LeftParen(_) => {
                lemma_binary_bounds(ts, next, 0);
            },
            Token::Bang(_) => {
                lemma_primary_bounds(ts, next);
            },
            _ => {},
        }
    }
}

proof fn lemma_binary_bounds<'a>(ts: Seq<Token<'a>>, p: nat, min: u8)
    ensures
        binary_spec(ts, p, min) matches Parsed::Node(_, q) ==> p < q <= ts.len() && stops_before(
            ts,
            q,
            min,
        ),
    decreases ts.len() - p, 1nat,
{
    lemma_primary_bounds(ts, p);
    if let Parsed::Node(left, q) = primary_spec(ts, p) {
        lemma_tail_bounds(ts, q, min, left);
    }
}

proof fn lemma_tail_bounds<'a>(ts: Seq<Token<'a>>, p: nat, min: u8, left: SyntaxNode<'a>)
    requires
        p <= ts.len(),
    ensures
        binary_tail_spec(ts, p, min, left) matches Parsed::Node(_, q) ==> p <= q <= ts.len()
            && stops_before(ts, q, min),
    decreases ts.len() - p, 2nat,
{
    if p < ts.len() && precedence(ts[p as int]@) is Some && precedence(ts[p as int]@)->0 > min {
        let prec = precedence(ts[p as int]@)->0;
        lemma_binary_bounds(ts, (p + 1) as nat, prec);
        if let Parsed::Node(right, r) = binary_spec(ts, (p + 1) as nat, prec) {
            lemma_tail_bounds(ts, r, min, binary_node(ts[p as int]@, left, right));
        }
    }
}

/// Law: an expression parsed from `p` with operators binding more strongly
/// than `min` takes at least one token, and stops at the end of the tokens or
/// just before a token that is no binary operator or binds no more strongly
/// than `min`; what follows is left unread.
pub proof fn lemma_parse_stops_at_weaker_operator<'a>(ts: Seq<Token<'a>>, p: nat, min: u8)
    ensures
        binary_spec(ts, p, min) matches Parsed::Node(_, q) ==> p < q <= ts.len() && stops_before(
            ts,
            q,
            min,
        ),
{
    lemma_binary_bounds(ts, p, min);
}

/// Parses a sequence of tokens.
pub struct Parser<'a> {
    tokens: Vec<Token<'a>>,
    position: usize,
}

impl<'a> Parser<'a> {
    #[verifier::type_invariant]
    spec fn well_formed(self) -> bool {
        self.position <= self.tokens@.len()
    }

    /// The tokens being parsed.
    pub closed spec fn input(&self) -> Seq<Token<'a>> {
        self.tokens@
    }

    /// The position of the next token to read.
    pub closed spec fn cursor(&self) -> nat {
        self.position as nat
    }

    /// A parser at the first of `tokens`.
    pub fn new(tokens: Vec<Token<'a>>) -> (p: Self)
        ensures
            p.input() == tokens@,
            p.cursor() == 0,
    {
        Parser { tokens, position: 0 }
    }

    /// Parses one expression from the current position.
    pub fn parse(&mut self) -> (res: Result<SyntaxNode<'a>, String>)
        ensures
            final(self).input() == old(self).input(),
            agrees(res, final(self).cursor(), binary_spec(old(self).input(), old(self).cursor(), 0)),
            res matches Ok(n) ==> renderable(n),
    {
        self.parse_binary(0)
    }

    /// Parses statements up to the end token.
    pub fn parse_program(&mut self) -> (res: Result<SyntaxNode<'a>, String>)
        ensures
            final(self).input() == old(self).input(),
            match program_spec(old(self).input(), old(self).cursor()) {
                ProgramParsed::Lines(ls, q) => res matches Ok(SyntaxNode::Program(v)) && v@ == ls
                    && final(self).cursor() == q && lines_renderable(ls),
                ProgramParsed::Failure(m, q) => res matches Err(e) && e@ == m
                    && final(self).cursor() == q,
            },
    {
        proof {
            use_type_invariant(&*self);
        }
        let ghost ts = self.input();
        let ghost start = self.cursor();
        let mut lines: Vec<SyntaxNode<'a>> = Vec::new();
        loop
            invariant
                self.input() == ts,
                ts == old(self).input(),
                start == old(self).cursor(),
                start <= self.cursor() <= ts.len(),
                program_spec(ts, start) == prepend_lines(lines@, program_spec(ts, self.cursor())),
                lines_renderable(lines@),
            ensures
                lines_renderable(lines@),
                self.input() == ts,
                program_spec(ts, start) == ProgramParsed::Lines(lines@, self.cursor()),
            decreases ts.len() - self.cursor(),
        {
            proof {
                use_type_invariant(&*self);
            }
            if self.position >= self.tokens.len() {
                assert(lines@ + Seq::empty() =~= lines@);
                break ;
            }
            let t = self.tokens[self.position];
            if matches!(t, Token::EOF) {
                assert(lines@ + Seq::empty() =~= lines@);
                break ;
            }
            let ghost before = self.cursor();
            let line = if matches!(t, Token::Print(_)) {
                self.position = self.position + 1;
                let expr = self.parse_binary(0)?;
                self.match_token(Closer::Semicolon)?;
                SyntaxNode::Print(Box::new(expr))
            } else {
                let expr = self.parse_binary(0)?;
                self.match_token(Closer::Semicolon)?;
                SyntaxNode::Statement(Box::new(expr))
            };
            proof {
                let rest = program_spec(ts, self.cursor());
                assert(program_spec(ts, before) == prepend_lines(seq![line], rest));
                assert(lines@.push(line) =~= lines@ + seq![line]);
                match rest {
                    ProgramParsed::Lines(more, q) => {
                        assert(lines@ + (seq![line] + more) =~= lines@.push(line) + more);
                    },
                    ProgramParsed::Failure(m, q) => {},
                }
            }
            proof {
                assert(renderable(line));
                assert(lines@.push(line).drop_last() =~= lines@);
                assert(lines_renderable(lines@.push(line)));
            }
            lines.push(line);
        }
        Ok(SyntaxNode::Program(lines))
    }

    fn message_for(&self) -> (m: String)
        ensures
            m@ == (if self.cursor() < self.input().len() {
                unexpected_text(self.input()[self.cursor() as int])
            } else {
                end_of_input_text()
            }),
    {
        proof {
            use_type_invariant(self);
        }
        if self.position < self.tokens.len() {
            let t = self.tokens[self.position].to_string();
            String::from_str("Unexpected token: ").concat(t.as_str())
        } else {
            String::from_str("Unexpected end of input")
        }
    }

    /// Parses a literal, a unary operator with its operand, or a parenthesized
    /// expression. A token that starts none of these is read, and named in the
    /// error.
    pub fn parse_paren_unalry_or_literal(&mut self) -> (res: Result<SyntaxNode<'a>, String>)
        ensures
            final(self).input() == old(self).input(),
            agrees(res, final(self).cursor(), primary_spec(old(self).input(), old(self).cursor())),
            res is Ok ==> old(self).cursor() < final(self).cursor() <= old(self).input().len(),
            res matches Ok(n) ==> renderable(n),
        decreases old(self).input().len() - old(self).cursor(), 0nat,
    {
        proof {
            use_type_invariant(&*self);
        }
        if self.position >= self.tokens.len() {
            return Err(self.message_for());
        }
        let t = self.tokens[self.position];
        match t {
            Token::True(_) => {
                self.position = self.position + 1;
                Ok(SyntaxNode::BoolLiteral(true))
            },
            Token::False(_) => {
                self.position = self.position + 1;
                Ok(SyntaxNode::BoolLiteral(false))
            },
            Token::Nil(_) => {
                self.position = self.position + 1;
                Ok(SyntaxNode::NilLiteral)
            },
            Token::Number(_, v) => {
                self.position = self.position + 1;
                Ok(SyntaxNode::NumberLiteral(v))
            },
            Token::StringLiteral(_, v) => {
                self.position = self.position + 1;
                Ok(SyntaxNode::StringLiteral(v))
            },
            Token::Minus(_) => {
                self.position = self.position + 1;
                let operand = self.parse_binary(Token::get_highest_precedence())?;
                Ok(SyntaxNode::MinusUnary(Box::new(operand)))
            },
            Token::Plus(_) => {
                self.position = self.position + 1;
                let operand = self.parse_binary(Token::get_highest_precedence())?;
                Ok(SyntaxNode::PlusUnary(Box::new(operand)))
            },
            Token::LeftParen(_) => {
                self.position = self.position + 1;
                let expr = self.parse_binary(0)?;
                self.match_token(Closer::RightParen)?;
                Ok(SyntaxNode::Parens(Box::new(expr)))
            },
            Token::Bang(_) => {
                self.position = self.position + 1;
                let operand = self.parse_paren_unalry_or_literal()?;
                Ok(SyntaxNode::Not(Box::new(operand)))
            },
            _ => {
                let m = self.message_for();
                self.position = self.position + 1;
                Err(m)
            },
        }
    }

    /// Parses an expression whose binary operators all bind more strongly than
    /// `min_precedence`, stopping before the first token that does not.
    pub fn parse_binary(&mut self, min_precedence: u8) -> (res: Result<SyntaxNode<'a>, String>)
        ensures
            final(self).input() == old(self).input(),
            agrees(
                res,
                final(self).cursor(),
                binary_spec(old(self).input(), old(self).cursor(), min_precedence),
            ),
            res is Ok ==> old(self).cursor() < final(self).cursor() <= old(self).input().len(),
            res matches Ok(n) ==> renderable(n),
        decreases old(self).input().len() - old(self).cursor(), 1nat,
    {
        let ghost ts = self.input();
        let ghost start = self.cursor();
        let mut left = self.parse_paren_unalry_or_literal()?;
        loop
            invariant
                self.input() == ts,
                ts == old(self).input(),
                start == old(self).cursor(),
                start < self.cursor() <= ts.len(),
                renderable(left),
                binary_spec(ts, start, min_precedence) == binary_tail_spec(
                    ts,
                    self.cursor(),
                    min_precedence,
                    left,
                ),
            ensures
                self.input() == ts,
                start < self.cursor() <= ts.len(),
                renderable(left),
                binary_spec(ts, start, min_precedence) == Parsed::Node(left, self.cursor()),
            decreases ts.len() - self.cursor(),
        {
            proof {
                use_type_invariant(&*self);
            }
            if self.position >= self.tokens.len() {
                break ;
            }
            let op = self.tokens[self.position];
            let precedence = match op.get_precedence() {
                Some(p) => p,
                None => break ,
            };
            if precedence <= min_precedence {
                break ;
            }
            self.position = self.position + 1;
            let right = self.parse_binary(precedence)?;
            left =
            match op {
                Token::And(_) => SyntaxNode::And(Box::new(left), Box::new(right)),
                Token::Or(_) => SyntaxNode::Or(Box::new(left), Box::new(right)),
                Token::Plus(_) => SyntaxNode::PlusBinary(Box::new(left), Box::new(right)),
                Token::Minus(_) => SyntaxNode::MinusBinary(Box::new(left), Box::new(right)),
                Token::Star(_) => SyntaxNode::MultiplyBinary(Box::new(left), Box::new(right)),
                Token::Slash(_) => SyntaxNode::DivideBinary(Box::new(left), Box::new(right)),
                Token::EqualEqual(_) => SyntaxNode::Equal(Box::new(left), Box::new(right)),
                Token::BangEqual(_) => SyntaxNode::NotEqual(Box::new(left), Box::new(right)),
                Token::Less(_) => SyntaxNode::Less(Box::new(left), Box::new(right)),
                Token::LessEqual(_) => SyntaxNode::LessEqual(Box::new(left), Box::new(right)),
                Token::Greater(_) => SyntaxNode::Greater(Box::new(left), Box::new(right)),
                _ => SyntaxNode::GreaterEqual(Box::new(left), Box::new(right)),
            };
        }
        Ok(left)
    }

    /// Reads the closing token `expected`; an error names what stands there instead.
    fn match_token(&mut self, expected: Closer) -> (res: Result<Token<'a>, String>)
        ensures
            final(self).input() == old(self).input(),
            match expect_spec(old(self).input(), old(self).cursor(), expected) {
                Ok(q) => res matches Ok(t) && t == old(self).input()[old(self).cursor() as int]
                    && final(self).cursor() == q,
                Err(m) => res matches Err(e) && e@ == m && final(self).cursor() == old(self).cursor(),
            },
    {
        proof {
            use_type_invariant(&*self);
        }
        if self.position < self.tokens.len() {
            let t = self.tokens[self.position];
            let ok = match expected {
                Closer::RightParen => matches!(t, Token::RightParen(_)),
                Closer::Semicolon => matches!(t, Token::Semicolon(_)),
            };
            if ok {
                self.position = self.position + 1;
                return Ok(t);
            }
        }
        Err(self.message_for())
    }
}

} // verus!
