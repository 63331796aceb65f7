use vstd::prelude::*;

use crate::error::LineInfo;
use std::rc::Rc;

verus! {

// ---------------------------------------------------------------------------
// The abstract syntax tree produced by the parser and walked by the
// interpreter, together with its mathematical model.
// ---------------------------------------------------------------------------

#[derive(Debug, Clone, Copy, PartialEq, Eq, Structural)]
pub enum UnOp {
    Neg,
    Not,
}

#[derive(Debug, Clone, Copy, PartialEq, Eq, Structural)]
pub enum BinOp {
    Add,
    Sub,
    Mul,
    Div,
    Eq,
    Ne,
    Lt,
    Le,
    Gt,
    Ge,
}

#[derive(Debug, Clone, Copy, PartialEq, Eq, Structural)]
pub enum LogOp {
    And,
    Or,
}

/// A literal as it appears in the source.
#[derive(Debug)]
pub enum Lit {
    Num(i64),
    Str(Vec<char>),
    True,
    False,
    Nil,
}

/// Mathematical model of a literal.
#[verifier::ext_equal]
pub enum LitM {
    Num(i64),
    Str(Seq<char>),
    True,
    False,
    Nil,
}

/// An expression; each variant carries the position of its leading token.
#[derive(Debug)]
pub enum Expr {
    Literal(Lit, LineInfo),
    Variable(Vec<char>, LineInfo),
    Assign(Vec<char>, Box<Expr>, LineInfo),
    Unary(UnOp, Box<Expr>, LineInfo),
    Binary(BinOp, Box<Expr>, Box<Expr>, LineInfo),
    Logical(LogOp, Box<Expr>, Box<Expr>, LineInfo),
    Call(Box<Expr>, Vec<Expr>, LineInfo),
    Grouping(Box<Expr>),
}

/// A function definition: parameter names and body. Shared by reference
/// between the declaration site and every closure value made from it.
#[derive(Debug)]
pub struct FnDef {
    pub params: Vec<Vec<char>>,
    pub body: Vec<Stmt>,
}

/// A statement; position-carrying variants hold the position of their
/// leading token.
#[derive(Debug)]
pub enum Stmt {
    ExprStmt(Expr),
    VarDecl(Vec<char>, Option<Expr>, LineInfo),
    Block(Vec<Stmt>),
    If(Expr, Box<Stmt>, Option<Box<Stmt>>, LineInfo),
    While(Expr, Box<Stmt>, LineInfo),
    FnDecl(Vec<char>, Rc<FnDef>, LineInfo),
    Return(Option<Expr>, LineInfo),
}

/// Mathematical model of an expression.
#[verifier::ext_equal]
pub enum ExprM {
    Literal(LitM, LineInfo),
    Variable(Seq<char>, LineInfo),
    Assign(Seq<char>, Box<ExprM>, LineInfo),
    Unary(UnOp, Box<ExprM>, LineInfo),
    Binary(BinOp, Box<ExprM>, Box<ExprM>, LineInfo),
    Logical(LogOp, Box<ExprM>, Box<ExprM>, LineInfo),
    Call(Box<ExprM>, Seq<ExprM>, LineInfo),
    Grouping(Box<ExprM>),
}

/// Mathematical model of a function definition.
#[verifier::ext_equal]
pub struct FnDefM {
    pub params: Seq<Seq<char>>,
    pub body: Seq<StmtM>,
}

/// Mathematical model of a statement.
#[verifier::ext_equal]
pub enum StmtM {
    ExprStmt(ExprM),
    VarDecl(Seq<char>, Option<ExprM>, LineInfo),
    Block(Seq<StmtM>),
    If(ExprM, Box<StmtM>, Option<Box<StmtM>>, LineInfo),
    While(ExprM, Box<StmtM>, LineInfo),
    FnDecl(Seq<char>, FnDefM, LineInfo),
    Return(Option<ExprM>, LineInfo),
}

pub open spec fn lit_view(l: &Lit) -> LitM {
    match l {
        Lit::Num(n) => LitM::Num(*n),
        Lit::Str(s) => LitM::Str(s@),
        Lit::True => LitM::True,
        Lit::False => LitM::False,
        Lit::Nil => LitM::Nil,
    }
}

pub open spec fn names_view(ns: Seq<Vec<char>>) -> Seq<Seq<char>> {
    ns.map_values(|n: Vec<char>| n@)
}

pub open spec fn expr_view(e: &Expr) -> ExprM
    decreases e,
{
    match e {
        Expr::Literal(l, li) => ExprM::Literal(lit_view(l), *li),
        Expr::Variable(n, li) => ExprM::Variable(n@, *li),
        Expr::Assign(n, r, li) => ExprM::Assign(n@, Box::new(expr_view(r)), *li),
        Expr::Unary(op, a, li) => ExprM::Unary(*op, Box::new(expr_view(a)), *li),
        Expr::Binary(op, a, b, li) => ExprM::Binary(
            *op,
            Box::new(expr_view(a)),
            Box::new(expr_view(b)),
            *li,
        ),
        Expr::Logical(op, a, b, li) => ExprM::Logical(
            *op,
            Box::new(expr_view(a)),
            Box::new(expr_view(b)),
            *li,
        ),
        Expr::Call(f, args, li) => ExprM::Call(Box::new(expr_view(f)), exprs_view(args@), *li),
        Expr::Grouping(a) => ExprM::Grouping(Box::new(expr_view(a))),
    }
}

pub open spec fn exprs_view(es: Seq<Expr>) -> Seq<ExprM>
    decreases es,
{
    if es.len() == 0 {
        Seq::empty()
    } else {
        exprs_view(es.subrange(0, es.len() - 1)).push(expr_view(&es[es.len() - 1]))
    }
}

pub open spec fn fndef_view(d: &FnDef) -> FnDefM {
    FnDefM { params: names_view(d.params@), body: stmts_view(d.body@) }
}

pub open spec fn stmt_view(s: &Stmt) -> StmtM
    decreases s,
{
    match s {
        Stmt::ExprStmt(e) => StmtM::ExprStmt(expr_view(e)),
        Stmt::VarDecl(n, init, li) => StmtM::VarDecl(
            n@,
            match init {
                Some(e) => Some(expr_view(e)),
                None => None,
            },
            *li,
        ),
        Stmt::Block(ss) => StmtM::Block(stmts_view(ss@)),
        Stmt::If(c, t, e, li) => StmtM::If(
            expr_view(c),
            Box::new(stmt_view(t)),
            match e {
                Some(s2) => Some(Box::new(stmt_view(s2))),
                None => None,
            },
            *li,
        ),
        Stmt::While(c, b, li) => StmtM::While(expr_view(c), Box::new(stmt_view(b)), *li),
        Stmt::FnDecl(n, d, li) => StmtM::FnDecl(
            n@,
            FnDefM { params: names_view(d.params@), body: stmts_view(d.body@) },
            *li,
        ),
        Stmt::Return(e, li) => StmtM::Return(
            match e {
                Some(e2) => Some(expr_view(e2)),
                None => None,
            },
            *li,
        ),
    }
}

pub open spec fn stmts_view(ss: Seq<Stmt>) -> Seq<StmtM>
    decreases ss,
{
    if ss.len() == 0 {
        Seq::empty()
    } else {
        stmts_view(ss.subrange(0, ss.len() - 1)).push(stmt_view(&ss[ss.len() - 1]))
    }
}

/// `stmts_view` and `exprs_view` are the element-by-element views.
pub proof fn lemma_stmts_view_index(ss: Seq<Stmt>, i: int)
    requires
        0 <= i < ss.len(),
    ensures
        stmts_view(ss).len() == ss.len(),
        stmts_view(ss)[i] == stmt_view(&ss[i]),
    decreases ss.len(),
{
    lemma_stmts_view_len(ss);
    if ss.len() > 0 && i < ss.len() - 1 {
        lemma_stmts_view_index(ss.subrange(0, ss.len() - 1), i);
    }
}

pub proof fn lemma_stmts_view_len(ss: Seq<Stmt>)
    ensures
        stmts_view(ss).len() == ss.len(),
    decreases ss.len(),
{
    if ss.len() > 0 {
        lemma_stmts_view_len(ss.subrange(0, ss.len() - 1));
    }
}

pub proof fn lemma_exprs_view_index(es: Seq<Expr>, i: int)
    requires
        0 <= i < es.len(),
    ensures
        exprs_view(es).len() == es.len(),
        exprs_view(es)[i] == expr_view(&es[i]),
    decreases es.len(),
{
    lemma_exprs_view_len(es);
    if es.len() > 0 && i < es.len() - 1 {
        lemma_exprs_view_index(es.subrange(0, es.len() - 1), i);
    }
}

pub proof fn lemma_exprs_view_len(es: Seq<Expr>)
    ensures
        exprs_view(es).len() == es.len(),
    decreases es.len(),
{
    if es.len() > 0 {
        lemma_exprs_view_len(es.subrange(0, es.len() - 1));
    }
}

pub proof fn lemma_stmts_view_push(ss: Seq<Stmt>, s: Stmt)
    ensures
        stmts_view(ss.push(s)) == stmts_view(ss).push(stmt_view(&s)),
{
    assert(ss.push(s).subrange(0, ss.push(s).len() - 1) =~= ss);
    assert(ss.push(s)[ss.push(s).len() - 1] == s);
}

pub proof fn lemma_exprs_view_push(es: Seq<Expr>, e: Expr)
    ensures
        exprs_view(es.push(e)) == exprs_view(es).push(expr_view(&e)),
{
    assert(es.push(e).subrange(0, es.push(e).len() - 1) =~= es);
    assert(es.push(e)[es.push(e).len() - 1] == e);
}

} // verus!
