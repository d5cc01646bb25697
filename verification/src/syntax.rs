//! The syntax tree and its printed form.

use vstd::prelude::*;
use vstd::string::*;

verus! {

/// A node of the syntax tree. Names and literal texts are borrowed from the
/// tokens the tree was built from.
#[derive(Debug)]
pub enum SyntaxNode<'a> {
    BoolLiteral(bool),
    And(Box<SyntaxNode<'a>>, Box<SyntaxNode<'a>>),
    Or(Box<SyntaxNode<'a>>, Box<SyntaxNode<'a>>),
    Not(Box<SyntaxNode<'a>>),
    Equal(Box<SyntaxNode<'a>>, Box<SyntaxNode<'a>>),
    Less(Box<SyntaxNode<'a>>, Box<SyntaxNode<'a>>),
    LessEqual(Box<SyntaxNode<'a>>, Box<SyntaxNode<'a>>),
    Greater(Box<SyntaxNode<'a>>, Box<SyntaxNode<'a>>),
    GreaterEqual(Box<SyntaxNode<'a>>, Box<SyntaxNode<'a>>),
    NotEqual(Box<SyntaxNode<'a>>, Box<SyntaxNode<'a>>),
    /// A number literal, by the text of its value.
    NumberLiteral(&'a str),
    /// A string literal, by its contents.
    StringLiteral(&'a str),
    PlusBinary(Box<SyntaxNode<'a>>, Box<SyntaxNode<'a>>),
    MinusBinary(Box<SyntaxNode<'a>>, Box<SyntaxNode<'a>>),
    MultiplyBinary(Box<SyntaxNode<'a>>, Box<SyntaxNode<'a>>),
    DivideBinary(Box<SyntaxNode<'a>>, Box<SyntaxNode<'a>>),
    PlusUnary(Box<SyntaxNode<'a>>),
    MinusUnary(Box<SyntaxNode<'a>>),
    Parens(Box<SyntaxNode<'a>>),
    /// A block: its statements run in a scope of their own.
    Scoupe(Vec<SyntaxNode<'a>>),
    Print(Box<SyntaxNode<'a>>),
    Statement(Box<SyntaxNode<'a>>),
    Variable(&'a str, Box<SyntaxNode<'a>>),
    Identifier(&'a str),
    Assign(&'a str, Box<SyntaxNode<'a>>),
    NilLiteral,
    /// A whole program: its statements in order.
    Program(Vec<SyntaxNode<'a>>),
}

/// `head` followed by `a`, a space, `b` and a closing parenthesis.
pub open spec fn pair_text(head: Seq<char>, a: Seq<char>, b: Seq<char>) -> Seq<char> {
    head + a + " "@ + b + ")"@
}

/// `head` followed by `a` and a closing parenthesis.
pub open spec fn single_text(head: Seq<char>, a: Seq<char>) -> Seq<char> {
    head + a + ")"@
}

/// The printed form of a node: operators in prefix form inside parentheses.
/// A block prints as its first statement.
pub open spec fn node_text<'a>(n: SyntaxNode<'a>) -> Seq<char>
    decreases n,
{
    match n {
        SyntaxNode::BoolLiteral(v) => if v { "true"@ } else { "false"@ },
        SyntaxNode::And(l, r) => pair_text("(AND "@, node_text(*l), node_text(*r)),
        SyntaxNode::Or(l, r) => pair_text("(OR "@, node_text(*l), node_text(*r)),
        SyntaxNode::Not(e) => single_text("(! "@, node_text(*e)),
        SyntaxNode::NumberLiteral(v) => v@,
        SyntaxNode::StringLiteral(v) => v@,
        SyntaxNode::PlusBinary(l, r) => pair_text("(+ "@, node_text(*l), node_text(*r)),
        SyntaxNode::MinusBinary(l, r) => pair_text("(- "@, node_text(*l), node_text(*r)),
        SyntaxNode::MultiplyBinary(l, r) => pair_text("(* "@, node_text(*l), node_text(*r)),
        SyntaxNode::DivideBinary(l, r) => pair_text("(/ "@, node_text(*l), node_text(*r)),
        SyntaxNode::PlusUnary(e) => single_text("(+ "@, node_text(*e)),
        SyntaxNode::MinusUnary(e) => single_text("(- "@, node_text(*e)),
        SyntaxNode::Parens(e) => single_text("(group "@, node_text(*e)),
        SyntaxNode::NilLiteral => "nil"@,
        SyntaxNode::Equal(l, r) => pair_text("(== "@, node_text(*l), node_text(*r)),
        SyntaxNode::Less(l, r) => pair_text("(< "@, node_text(*l), node_text(*r)),
        SyntaxNode::LessEqual(l, r) => pair_text("(<= "@, node_text(*l), node_text(*r)),
        SyntaxNode::Greater(l, r) => pair_text("(> "@, node_text(*l), node_text(*r)),
        SyntaxNode::GreaterEqual(l, r) => pair_text("(>= "@, node_text(*l), node_text(*r)),
        SyntaxNode::NotEqual(l, r) => pair_text("(!= "@, node_text(*l), node_text(*r)),
        SyntaxNode::Scoupe(v) => if v@.len() > 0 { node_text(v@[0]) } else { Seq::empty() },
        SyntaxNode::Print(e) => single_text("(print "@, node_text(*e)),
        SyntaxNode::Statement(e) => node_text(*e),
        SyntaxNode::Variable(name, e) => pair_text("(var "@, name@, node_text(*e)),
        SyntaxNode::Identifier(name) => name@,
        SyntaxNode::Assign(name, e) => pair_text("(= "@, name@, node_text(*e)),
        SyntaxNode::Program(v) => lines_text(v@),
    }
}

/// The printed forms of `lines`, each followed by a line break.
pub open spec fn lines_text<'a>(lines: Seq<SyntaxNode<'a>>) -> Seq<char>
    decreases lines,
{
    if lines.len() == 0 {
        Seq::empty()
    } else {
        lines_text(lines.drop_last()) + node_text(lines.last()) + "\n"@
    }
}

/// Law: how each kind of node other than a binary operator prints. Literals
/// print as their value (`true`, `false`, `nil`, the number's value text, the
/// string's contents), names as themselves; a prefix operator, a group or a
/// `print` statement prints as `(`, its word or sign, a space, its operand and
/// `)`; an expression statement prints as its expression.
pub proof fn lemma_printed_forms<'a>(n: SyntaxNode<'a>)
    ensures
        match n {
            SyntaxNode::BoolLiteral(v) => node_text(n) == (if v { "true"@ } else { "false"@ }),
            SyntaxNode::NilLiteral => node_text(n) == "nil"@,
            SyntaxNode::NumberLiteral(v) => node_text(n) == v@,
            SyntaxNode::StringLiteral(v) => node_text(n) == v@,
            SyntaxNode::Identifier(x) => node_text(n) == x@,
            SyntaxNode::MinusUnary(e) => node_text(n) == "("@ + "-"@ + " "@ + node_text(*e) + ")"@,
            SyntaxNode::PlusUnary(e) => node_text(n) == "("@ + "+"@ + " "@ + node_text(*e) + ")"@,
            SyntaxNode::Not(e) => node_text(n) == "("@ + "!"@ + " "@ + node_text(*e) + ")"@,
            SyntaxNode::Parens(e) => node_text(n) == "("@ + "group"@ + " "@ + node_text(*e) + ")"@,
            SyntaxNode::Print(e) => node_text(n) == "("@ + "print"@ + " "@ + node_text(*e) + ")"@,
            SyntaxNode::Statement(e) => node_text(n) == node_text(*e),
            _ => true,
        },
{
    reveal_strlit("(");
    reveal_strlit(" ");
    reveal_strlit("-");
    reveal_strlit("+");
    reveal_strlit("!");
    reveal_strlit("group");
    reveal_strlit("print");
    reveal_strlit("(- ");
    reveal_strlit("(+ ");
    reveal_strlit("(! ");
    reveal_strlit("(group ");
    reveal_strlit("(print ");
    match n {
        SyntaxNode::MinusUnary(e) => assert("("@ + "-"@ + " "@ =~= "(- "@),
        SyntaxNode::PlusUnary(e) => assert("("@ + "+"@ + " "@ =~= "(+ "@),
        SyntaxNode::Not(e) => assert("("@ + "!"@ + " "@ =~= "(! "@),
        SyntaxNode::Parens(e) => assert("("@ + "group"@ + " "@ =~= "(group "@),
        SyntaxNode::Print(e) => assert("("@ + "print"@ + " "@ =~= "(print "@),
        _ => {},
    }
}

/// Law: a program prints each of its lines followed by a line break, in
/// order: no lines print as nothing, and one more line adds its text and a
/// line break at the end.
pub proof fn lemma_program_text<'a>(
    program: Vec<SyntaxNode<'a>>,
    lines: Seq<SyntaxNode<'a>>,
    last: SyntaxNode<'a>,
)
    ensures
        node_text(SyntaxNode::Program(program)) == lines_text(program@),
        lines_text(Seq::<SyntaxNode<'a>>::empty()) == Seq::<char>::empty(),
        lines_text(lines.push(last)) == lines_text(lines) + node_text(last) + "\n"@,
{
    assert(lines.push(last).drop_last() =~= lines);
}

/// Whether a node can be printed: every block that printing reaches
/// holds at least one statement.
pub open spec fn renderable<'a>(n: SyntaxNode<'a>) -> bool
    decreases n,
{
    match n {
        SyntaxNode::And(l, r) => renderable(*l) && renderable(*r),
        SyntaxNode::Or(l, r) => renderable(*l) && renderable(*r),
        SyntaxNode::Equal(l, r) => renderable(*l) && renderable(*r),
        SyntaxNode::Less(l, r) => renderable(*l) && renderable(*r),
        SyntaxNode::LessEqual(l, r) => renderable(*l) && renderable(*r),
        SyntaxNode::Greater(l, r) => renderable(*l) && renderable(*r),
        SyntaxNode::GreaterEqual(l, r) => renderable(*l) && renderable(*r),
        SyntaxNode::NotEqual(l, r) => renderable(*l) && renderable(*r),
        SyntaxNode::PlusBinary(l, r) => renderable(*l) && renderable(*r),
        SyntaxNode::MinusBinary(l, r) => renderable(*l) && renderable(*r),
        SyntaxNode::MultiplyBinary(l, r) => renderable(*l) && renderable(*r),
        SyntaxNode::DivideBinary(l, r) => renderable(*l) && renderable(*r),
        SyntaxNode::Not(e) => renderable(*e),
        SyntaxNode::PlusUnary(e) => renderable(*e),
        SyntaxNode::MinusUnary(e) => renderable(*e),
        SyntaxNode::Parens(e) => renderable(*e),
        SyntaxNode::Print(e) => renderable(*e),
        SyntaxNode::Statement(e) => renderable(*e),
        SyntaxNode::Variable(_, e) => renderable(*e),
        SyntaxNode::Assign(_, e) => renderable(*e),
        SyntaxNode::Scoupe(v) => v@.len() > 0 && renderable(v@[0]),
        SyntaxNode::Program(v) => lines_renderable(v@),
        _ => true,
    }
}

/// Whether every line can be printed.
pub open spec fn lines_renderable<'a>(lines: Seq<SyntaxNode<'a>>) -> bool
    decreases lines,
{
    if lines.len() == 0 {
        true
    } else {
        lines_renderable(lines.drop_last()) && renderable(lines.last())
    }
}

proof fn lemma_lines_renderable<'a>(lines: Seq<SyntaxNode<'a>>, i: int)
    requires
        lines_renderable(lines),
        0 <= i < lines.len(),
    ensures
        renderable(lines[i]),
    decreases lines.len(),
{
    if i < lines.len() - 1 {
        lemma_lines_renderable(lines.drop_last(), i);
    }
}

proof fn lemma_lines_renderable_prefix<'a>(lines: Seq<SyntaxNode<'a>>, n: int)
    requires
        lines_renderable(lines),
        0 <= n <= lines.len(),
    ensures
        lines_renderable(lines.take(n)),
    decreases lines.len(),
{
    if n < lines.len() {
        lemma_lines_renderable_prefix(lines.drop_last(), n);
        assert(lines.drop_last().take(n) =~= lines.take(n));
    } else {
        assert(lines.take(n) =~= lines);
    }
}

impl<'a> SyntaxNode<'a> {

    /// Whether this node can be printed (see [`renderable`]).
    pub fn can_render(&self) -> (ok: bool)
        ensures
            ok == renderable(*self),
        decreases self,
    {
        match self {
            SyntaxNode::And(l, r) => l.can_render() && r.can_render(),
            SyntaxNode::Or(l, r) => l.can_render() && r.can_render(),
            SyntaxNode::Equal(l, r) => l.can_render() && r.can_render(),
            SyntaxNode::Less(l, r) => l.can_render() && r.can_render(),
            SyntaxNode::LessEqual(l, r) => l.can_render() && r.can_render(),
            SyntaxNode::Greater(l, r) => l.can_render() && r.can_render(),
            SyntaxNode::GreaterEqual(l, r) => l.can_render() && r.can_render(),
            SyntaxNode::NotEqual(l, r) => l.can_render() && r.can_render(),
            SyntaxNode::PlusBinary(l, r) => l.can_render() && r.can_render(),
            SyntaxNode::MinusBinary(l, r) => l.can_render() && r.can_render(),
            SyntaxNode::MultiplyBinary(l, r) => l.can_render() && r.can_render(),
            SyntaxNode::DivideBinary(l, r) => l.can_render() && r.can_render(),
            SyntaxNode::Not(e) => e.can_render(),
            SyntaxNode::PlusUnary(e) => e.can_render(),
            SyntaxNode::MinusUnary(e) => e.can_render(),
            SyntaxNode::Parens(e) => e.can_render(),
            SyntaxNode::Print(e) => e.can_render(),
            SyntaxNode::Statement(e) => e.can_render(),
            SyntaxNode::Variable(_, e) => e.can_render(),
            SyntaxNode::Assign(_, e) => e.can_render(),
            SyntaxNode::Scoupe(v) => v.len() > 0 && v[0].can_render(),
            SyntaxNode::Program(lines) => {
                let n = lines.len();
                let mut i: usize = 0;
                while i < n
                    invariant
                        n == lines@.len(),
                        i <= n,
                        *self == SyntaxNode::Program(*lines),
                        lines_renderable(lines@.take(i as int)),
                    decreases n - i,
                {
                    proof {
                        assert(decreases_to!(*self => self->Program_0));
                        assert(decreases_to!(*lines => lines@));
                        assert(decreases_to!(lines@ => lines@[i as int]));
                    }
                    let ok = lines[i].can_render();
                    assert(lines@.take(i + 1).drop_last() =~= lines@.take(i as int));
                    if !ok {
                        proof {
                            if lines_renderable(lines@) {
                                lemma_lines_renderable_prefix(lines@, (i + 1) as int);
                                assert(lines@.take(i + 1).last() == lines@[i as int]);
                            }
                        }
                        return false;
                    }
                    i = i + 1;
                }
                assert(lines@.take(n as int) =~= lines@);
                true
            },
            _ => true,
        }
    }
    /// The printed form of this node.
    pub fn to_string(&self) -> (s: String)
        requires
            renderable(*self),
        ensures
            s@ == node_text(*self),
        decreases self,
    {
        match self {
            SyntaxNode::BoolLiteral(v) => if *v {
                String::from_str("true")
            } else {
                String::from_str("false")
            },
            SyntaxNode::And(l, r) => {
                let ls = l.to_string();
                let rs = r.to_string();
                String::from_str("(AND ").concat(ls.as_str()).concat(" ").concat(rs.as_str()).concat(")")
            },
            SyntaxNode::Or(l, r) => {
                let ls = l.to_string();
                let rs = r.to_string();
                String::from_str("(OR ").concat(ls.as_str()).concat(" ").concat(rs.as_str()).concat(")")
            },
            SyntaxNode::Equal(l, r) => {
                let ls = l.to_string();
                let rs = r.to_string();
                String::from_str("(== ").concat(ls.as_str()).concat(" ").concat(rs.as_str()).concat(")")
            },
            SyntaxNode::Less(l, r) => {
                let ls = l.to_string();
                let rs = r.to_string();
                String::from_str("(< ").concat(ls.as_str()).concat(" ").concat(rs.as_str()).concat(")")
            },
            SyntaxNode::LessEqual(l, r) => {
                let ls = l.to_string();
                let rs = r.to_string();
                String::from_str("(<= ").concat(ls.as_str()).concat(" ").concat(rs.as_str()).concat(")")
            },
            SyntaxNode::Greater(l, r) => {
                let ls = l.to_string();
                let rs = r.to_string();
                String::from_str("(> ").concat(ls.as_str()).concat(" ").concat(rs.as_str()).concat(")")
            },
            SyntaxNode::GreaterEqual(l, r) => {
                let ls = l.to_string();
                let rs = r.to_string();
                String::from_str("(>= ").concat(ls.as_str()).concat(" ").concat(rs.as_str()).concat(")")
            },
            SyntaxNode::NotEqual(l, r) => {
                let ls = l.to_string();
                let rs = r.to_string();
                String::from_str("(!= ").concat(ls.as_str()).concat(" ").concat(rs.as_str()).concat(")")
            },
            SyntaxNode::PlusBinary(l, r) => {
                let ls = l.to_string();
                let rs = r.to_string();
                String::from_str("(+ ").concat(ls.as_str()).concat(" ").concat(rs.as_str()).concat(")")
            },
            SyntaxNode::MinusBinary(l, r) => {
                let ls = l.to_string();
                let rs = r.to_string();
                String::from_str("(- ").concat(ls.as_str()).concat(" ").concat(rs.as_str()).concat(")")
            },
            SyntaxNode::MultiplyBinary(l, r) => {
                let ls = l.to_string();
                let rs = r.to_string();
                String::from_str("(* ").concat(ls.as_str()).concat(" ").concat(rs.as_str()).concat(")")
            },
            SyntaxNode::DivideBinary(l, r) => {
                let ls = l.to_string();
                let rs = r.to_string();
                String::from_str("(/ ").concat(ls.as_str()).concat(" ").concat(rs.as_str()).concat(")")
            },
            SyntaxNode::Not(e) => {
                let es = e.to_string();
                String::from_str("(! ").concat(es.as_str()).concat(")")
            },
            SyntaxNode::PlusUnary(e) => {
                let es = e.to_string();
                String::from_str("(+ ").concat(es.as_str()).concat(")")
            },
            SyntaxNode::MinusUnary(e) => {
                let es = e.to_string();
                String::from_str("(- ").concat(es.as_str()).concat(")")
            },
            SyntaxNode::Parens(e) => {
                let es = e.to_string();
                String::from_str("(group ").concat(es.as_str()).concat(")")
            },
            SyntaxNode::Print(e) => {
                let es = e.to_string();
                String::from_str("(print ").concat(es.as_str()).concat(")")
            },
            SyntaxNode::NumberLiteral(v) => String::from_str(*v),
            SyntaxNode::StringLiteral(v) => String::from_str(*v),
            SyntaxNode::NilLiteral => String::from_str("nil"),
            SyntaxNode::Scoupe(v) => v[0].to_string(),
            SyntaxNode::Statement(e) => e.to_string(),
            SyntaxNode::Variable(name, e) => {
                let es = e.to_string();
                String::from_str("(var ").concat(*name).concat(" ").concat(es.as_str()).concat(")")
            },
            SyntaxNode::Identifier(name) => String::from_str(*name),
            SyntaxNode::Assign(name, e) => {
                let es = e.to_string();
                String::from_str("(= ").concat(*name).concat(" ").concat(es.as_str()).concat(")")
            },
            SyntaxNode::Program(lines) => {
                let mut out = String::new();
                let n = lines.len();
                for i in 0..n
                    invariant
                        n == lines@.len(),
                        *self == SyntaxNode::Program(*lines),
                        lines_renderable(lines@),
                        out@ == lines_text(lines@.take(i as int)),
                {
                    proof {
                        lemma_lines_renderable(lines@, i as int);
                        assert(decreases_to!(*self => self->Program_0));
                        assert(decreases_to!(*lines => lines@));
                        assert(decreases_to!(lines@ => lines@[i as int]));
                    }
                    let line = lines[i].to_string();
                    out.append(line.as_str());
                    out.append("\n");
                    assert(lines@.take(i + 1).drop_last() =~= lines@.take(i as int));
                }
                assert(lines@.take(n as int) =~= lines@);
                out
            },
        }
    }
}

} // verus!
