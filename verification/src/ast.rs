//! The abstract syntax tree the parser produces.
//!
//! `Expr` and `Statement` form strict trees: every node exclusively owns its
//! children. The ghost types `SpecExpr` and `SpecStatement` are their
//! mathematical models (textual payloads as character sequences, vectors as
//! sequences); the parser's and the lowering stage's contracts speak of them.

use vstd::prelude::*;

verus! {

/// A binary arithmetic operator.
#[derive(Debug, Clone, Copy, PartialEq)]
pub enum BinOp {
    Add,
    Subtract,
    Multiply,
    Divide,
}

/// An expression node.
#[derive(Debug, PartialEq)]
pub enum Expr {
    /// A 64-bit signed integer literal.
    Number(i64),
    /// A string literal; the payload is the text between the quotes.
    String(String),
    Boolean(bool),
    Identifier(String),
    BinaryOp(Box<Expr>, BinOp, Box<Expr>),
    /// An array literal, in source order.
    Array(Vec<Expr>),
    /// An asynchronous wrapper; no grammar production builds one, and the
    /// lowering stage rejects it as unsupported.
    Async(Box<Expr>),
    /// An await unwrapper; lowers to its inner expression's value unchanged.
    Await(Box<Expr>),
}

/// A top-level statement.
#[derive(Debug, PartialEq)]
pub enum Statement {
    /// `venti <identifier> = <expression> ;`
    VariableDeclaration { identifier: String, value: Expr },
    /// `<identifier> <expression> ;` — rebinds an existing global.
    VariableAssignment { identifier: String, value: Expr },
    /// `printventi <expression> ;`
    Print(Expr),
    /// `<identifier> ( <arguments> )`
    FunctionCall { identifier: String, args: Vec<Expr> },
    /// `async <identifier> { <statements> }`
    AsyncFunction { identifier: String, body: Vec<Statement> },
}

/// The mathematical model of an `Expr`.
pub ghost enum SpecExpr {
    Number(i64),
    String(Seq<char>),
    Boolean(bool),
    Identifier(Seq<char>),
    BinaryOp(Box<SpecExpr>, BinOp, Box<SpecExpr>),
    Array(Seq<SpecExpr>),
    Async(Box<SpecExpr>),
    Await(Box<SpecExpr>),
}

/// The mathematical model of a `Statement`.
pub ghost enum SpecStatement {
    VariableDeclaration { identifier: Seq<char>, value: SpecExpr },
    VariableAssignment { identifier: Seq<char>, value: SpecExpr },
    Print(SpecExpr),
    FunctionCall { identifier: Seq<char>, args: Seq<SpecExpr> },
    AsyncFunction { identifier: Seq<char>, body: Seq<SpecStatement> },
}

/// The models of a sequence of expressions, element by element.
pub open spec fn deep_view_exprs(es: Seq<Expr>) -> Seq<SpecExpr>
    decreases es,
{
    if es.len() == 0 {
        Seq::empty()
    } else {
        seq![es[0].deep_view()] + deep_view_exprs(es.subrange(1, es.len() as int))
    }
}

/// The models of a sequence of statements, element by element.
pub open spec fn deep_view_stmts(ss: Seq<Statement>) -> Seq<SpecStatement>
    decreases ss,
{
    if ss.len() == 0 {
        Seq::empty()
    } else {
        seq![ss[0].deep_view()] + deep_view_stmts(ss.subrange(1, ss.len() as int))
    }
}

/// `deep_view_exprs` is the element-wise model of its argument.
pub proof fn lemma_deep_view_exprs(es: Seq<Expr>)
    ensures
        deep_view_exprs(es).len() == es.len(),
        forall|i: int| 0 <= i < es.len() ==> deep_view_exprs(es)[i] == #[trigger] es[i].deep_view(),
    decreases es,
{
    if es.len() != 0 {
        let rest = es.subrange(1, es.len() as int);
        lemma_deep_view_exprs(rest);
        assert forall|i: int| 0 <= i < es.len() implies deep_view_exprs(es)[i]
            == #[trigger] es[i].deep_view() by {
            if i > 0 {
                assert(deep_view_exprs(es) == seq![es[0].deep_view()] + deep_view_exprs(rest));
                assert(deep_view_exprs(es)[i] == deep_view_exprs(rest)[i - 1]);
                assert(rest[i - 1] == es[i]);
            }
        }
    }
}

/// `deep_view_stmts` is the element-wise model of its argument.
pub proof fn lemma_deep_view_stmts(ss: Seq<Statement>)
    ensures
        deep_view_stmts(ss).len() == ss.len(),
        forall|i: int| 0 <= i < ss.len() ==> deep_view_stmts(ss)[i] == #[trigger] ss[i].deep_view(),
    decreases ss,
{
    if ss.len() != 0 {
        let rest = ss.subrange(1, ss.len() as int);
        lemma_deep_view_stmts(rest);
        assert forall|i: int| 0 <= i < ss.len() implies deep_view_stmts(ss)[i]
            == #[trigger] ss[i].deep_view() by {
            if i > 0 {
                assert(deep_view_stmts(ss) == seq![ss[0].deep_view()] + deep_view_stmts(rest));
                assert(deep_view_stmts(ss)[i] == deep_view_stmts(rest)[i - 1]);
                assert(rest[i - 1] == ss[i]);
            }
        }
    }
}

/// Pushing an expression appends its model.
pub proof fn lemma_deep_view_exprs_push(es: Seq<Expr>, e: Expr)
    ensures
        deep_view_exprs(es.push(e)) == deep_view_exprs(es) + seq![e.deep_view()],
{
    lemma_deep_view_exprs(es);
    lemma_deep_view_exprs(es.push(e));
    assert forall|i: int| 0 <= i < es.len() + 1 implies deep_view_exprs(es.push(e))[i] == (
    deep_view_exprs(es) + seq![e.deep_view()])[i] by {
        assert(deep_view_exprs(es.push(e))[i] == es.push(e)[i].deep_view());
        if i < es.len() {
            assert(es.push(e)[i] == es[i]);
            assert(deep_view_exprs(es)[i] == es[i].deep_view());
        } else {
            assert(es.push(e)[i] == e);
        }
    }
    assert(deep_view_exprs(es.push(e)) =~= deep_view_exprs(es) + seq![e.deep_view()]);
}

/// Pushing a statement appends its model.
pub proof fn lemma_deep_view_stmts_push(ss: Seq<Statement>, s: Statement)
    ensures
        deep_view_stmts(ss.push(s)) == deep_view_stmts(ss) + seq![s.deep_view()],
{
    lemma_deep_view_stmts(ss);
    lemma_deep_view_stmts(ss.push(s));
    assert forall|i: int| 0 <= i < ss.len() + 1 implies deep_view_stmts(ss.push(s))[i] == (
    deep_view_stmts(ss) + seq![s.deep_view()])[i] by {
        assert(deep_view_stmts(ss.push(s))[i] == ss.push(s)[i].deep_view());
        if i < ss.len() {
            assert(ss.push(s)[i] == ss[i]);
            assert(deep_view_stmts(ss)[i] == ss[i].deep_view());
        } else {
            assert(ss.push(s)[i] == s);
        }
    }
    assert(deep_view_stmts(ss.push(s)) =~= deep_view_stmts(ss) + seq![s.deep_view()]);
}

impl DeepView for Expr {
    type V = SpecExpr;

    open spec fn deep_view(&self) -> SpecExpr
        decreases self,
    {
        match self {
            Expr::Number(n) => SpecExpr::Number(*n),
            Expr::String(s) => SpecExpr::String(s@),
            Expr::Boolean(b) => SpecExpr::Boolean(*b),
            Expr::Identifier(s) => SpecExpr::Identifier(s@),
            Expr::BinaryOp(l, op, r) => SpecExpr::BinaryOp(
                Box::new((**l).deep_view()),
                *op,
                Box::new((**r).deep_view()),
            ),
            Expr::Array(es) => SpecExpr::Array(deep_view_exprs(es@)),
            Expr::Async(e) => SpecExpr::Async(Box::new((**e).deep_view())),
            Expr::Await(e) => SpecExpr::Await(Box::new((**e).deep_view())),
        }
    }
}

impl DeepView for Statement {
    type V = SpecStatement;

    open spec fn deep_view(&self) -> SpecStatement
        decreases self,
    {
        match self {
            Statement::VariableDeclaration { identifier, value } => {
                SpecStatement::VariableDeclaration {
                    identifier: identifier@,
                    value: value.deep_view(),
                }
            },
            Statement::VariableAssignment { identifier, value } => {
                SpecStatement::VariableAssignment {
                    identifier: identifier@,
                    value: value.deep_view(),
                }
            },
            Statement::Print(e) => SpecStatement::Print(e.deep_view()),
            Statement::FunctionCall { identifier, args } => SpecStatement::FunctionCall {
                identifier: identifier@,
                args: deep_view_exprs(args@),
            },
            Statement::AsyncFunction { identifier, body } => SpecStatement::AsyncFunction {
                identifier: identifier@,
                body: deep_view_stmts(body@),
            },
        }
    }
}

} // verus!
