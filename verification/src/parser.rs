use vstd::prelude::*;

use crate::error::{ErrM, Error, ErrorType, LineInfo};
use crate::nodes::{
    expr_view, exprs_view, lemma_exprs_view_push, lemma_stmts_view_push, names_view, stmt_view,
    stmts_view, BinOp, Expr, ExprM, FnDef, FnDefM, Lit, LitM, LogOp, Stmt, StmtM, UnOp,
};
use crate::token::{toks_vm, TokM, Token, TokenM, TokenType};
use crate::value::clone_chars;
use std::rc::Rc;

verus! {

// ---------------------------------------------------------------------------
// The parser, at the mathematical level: recursive descent over the token
// sequence, one token of lookahead, failing at the first offending token.
// Each function returns the parsed node and the index just past it.
// ---------------------------------------------------------------------------

/// A syntax error at a token.
pub open spec fn perr(t: TokenM, msg: Seq<char>) -> ErrM {
    ErrM {
        line: t.info.line as int,
        col: t.info.col as int,
        ty: ErrorType::SyntaxError,
        msg,
    }
}

/// A syntax error past the last token; the lexer always ends the stream with
/// an end-of-input token, so the pipeline never reaches this.
pub open spec fn eoi_err() -> ErrM {
    ErrM { line: 0, col: 0, ty: ErrorType::SyntaxError, msg: "unexpected end of input"@ }
}

/// Reported if a subparser ever failed to consume a token; the executable
/// parser proves its cursor always advances, so this too is unreachable.
pub open spec fn stuck_err() -> ErrM {
    ErrM { line: 0, col: 0, ty: ErrorType::SyntaxError, msg: "parser did not advance"@ }
}

pub open spec fn bad_cursor(toks: Seq<TokenM>, i: nat, j: nat) -> bool {
    j <= i || j > toks.len()
}

/// Does level `level` of the precedence tower treat `k` as its operator?
/// Tiers, loosest first: or, and, equality, comparison, additive,
/// multiplicative.
pub open spec fn tok_op(level: int, k: TokM) -> bool {
    if level == 0 {
        k is OrOr
    } else if level == 1 {
        k is AndAnd
    } else if level == 2 {
        k is EqualEqual || k is BangEqual
    } else if level == 3 {
        k is Less || k is LessEqual || k is Greater || k is GreaterEqual
    } else if level == 4 {
        k is Plus || k is Minus
    } else {
        k is Star || k is Slash
    }
}

pub open spec fn binop_of(k: TokM) -> BinOp {
    match k {
        TokM::EqualEqual => BinOp::Eq,
        TokM::BangEqual => BinOp::Ne,
        TokM::Less => BinOp::Lt,
        TokM::LessEqual => BinOp::Le,
        TokM::Greater => BinOp::Gt,
        TokM::GreaterEqual => BinOp::Ge,
        TokM::Plus => BinOp::Add,
        TokM::Minus => BinOp::Sub,
        TokM::Star => BinOp::Mul,
        _ => BinOp::Div,
    }
}

pub open spec fn mk_binm(level: int, k: TokM, a: ExprM, b: ExprM, li: LineInfo) -> ExprM {
    if level == 0 {
        ExprM::Logical(LogOp::Or, Box::new(a), Box::new(b), li)
    } else if level == 1 {
        ExprM::Logical(LogOp::And, Box::new(a), Box::new(b), li)
    } else {
        ExprM::Binary(binop_of(k), Box::new(a), Box::new(b), li)
    }
}

/// primary := number | string | true | false | nil | identifier | "(" expression ")"
pub open spec fn p_primary(toks: Seq<TokenM>, i: nat) -> Result<(ExprM, nat), ErrM>
    decreases toks.len() - i, 3int,
{
    if i >= toks.len() {
        Err(eoi_err())
    } else {
        let t = toks[i as int];
        match t.kind {
            TokM::Number(n) => Ok((ExprM::Literal(LitM::Num(n), t.info), i + 1)),
            TokM::Str(s) => Ok((ExprM::Literal(LitM::Str(s), t.info), i + 1)),
            TokM::True => Ok((ExprM::Literal(LitM::True, t.info), i + 1)),
            TokM::False => Ok((ExprM::Literal(LitM::False, t.info), i + 1)),
            TokM::Nil => Ok((ExprM::Literal(LitM::Nil, t.info), i + 1)),
            TokM::Identifier(n) => Ok((ExprM::Variable(n, t.info), i + 1)),
            TokM::LeftParen => match p_expr(toks, i + 1) {
                Ok((e, j)) => if bad_cursor(toks, i, j) {
                    Err(stuck_err())
                } else if j < toks.len() && toks[j as int].kind is RightParen {
                    Ok((ExprM::Grouping(Box::new(e)), j + 1))
                } else if j < toks.len() {
                    Err(perr(toks[j as int], "expected closing parenthesis"@))
                } else {
                    Err(eoi_err())
                },
                Err(e) => Err(e),
            },
            _ => Err(perr(t, "expected expression"@)),
        }
    }
}

/// arguments := ")" | expression ("," expression)* ")"
pub open spec fn p_args(toks: Seq<TokenM>, i: nat) -> Result<(Seq<ExprM>, nat), ErrM>
    decreases toks.len() - i, 70int,
{
    if i >= toks.len() {
        Err(eoi_err())
    } else if toks[i as int].kind is RightParen {
        Ok((Seq::empty(), i + 1))
    } else {
        match p_expr(toks, i) {
            Ok((a, j)) => if bad_cursor(toks, i, j) {
                Err(stuck_err())
            } else if j < toks.len() && toks[j as int].kind is Comma {
                match p_args(toks, j + 1) {
                    Ok((rest, k)) => Ok((seq![a] + rest, k)),
                    Err(e) => Err(e),
                }
            } else if j < toks.len() && toks[j as int].kind is RightParen {
                Ok((seq![a], j + 1))
            } else if j < toks.len() {
                Err(perr(toks[j as int], "expected comma or closing parenthesis"@))
            } else {
                Err(eoi_err())
            },
            Err(e) => Err(e),
        }
    }
}

/// Trailing call suffixes: callee "(" arguments ... repeatedly.
pub open spec fn p_call_rest(toks: Seq<TokenM>, callee: ExprM, i: nat) -> Result<
    (ExprM, nat),
    ErrM,
>
    decreases toks.len() - i, 5int,
{
    if i < toks.len() && toks[i as int].kind is LeftParen {
        match p_args(toks, i + 1) {
            Ok((args, j)) => if bad_cursor(toks, i, j) {
                Err(stuck_err())
            } else {
                p_call_rest(toks, ExprM::Call(Box::new(callee), args, toks[i as int].info), j)
            },
            Err(e) => Err(e),
        }
    } else {
        Ok((callee, i))
    }
}

/// call := primary ("(" arguments)*
pub open spec fn p_postfix(toks: Seq<TokenM>, i: nat) -> Result<(ExprM, nat), ErrM>
    decreases toks.len() - i, 6int,
{
    match p_primary(toks, i) {
        Ok((e, j)) => if bad_cursor(toks, i, j) {
            Err(stuck_err())
        } else {
            p_call_rest(toks, e, j)
        },
        Err(e) => Err(e),
    }
}

/// unary := ("-" | "!") unary | call
pub open spec fn p_unary(toks: Seq<TokenM>, i: nat) -> Result<(ExprM, nat), ErrM>
    decreases toks.len() - i, 8int,
{
    if i < toks.len() && (toks[i as int].kind is Minus || toks[i as int].kind is Bang) {
        let op = if toks[i as int].kind is Minus {
            UnOp::Neg
        } else {
            UnOp::Not
        };
        match p_unary(toks, i + 1) {
            Ok((e, j)) => Ok((ExprM::Unary(op, Box::new(e), toks[i as int].info), j)),
            Err(e) => Err(e),
        }
    } else {
        p_postfix(toks, i)
    }
}

/// One level of the left-associative binary tower.
pub open spec fn p_binary(toks: Seq<TokenM>, level: int, i: nat) -> Result<(ExprM, nat), ErrM>
    decreases toks.len() - i, (if level < 5 { 20int - 2 * level } else { 10int }),
{
    let sub = if level < 5 {
        p_binary(toks, level + 1, i)
    } else {
        p_unary(toks, i)
    };
    match sub {
        Ok((lhs, j)) => if bad_cursor(toks, i, j) {
            Err(stuck_err())
        } else {
            p_binary_rest(toks, level, lhs, j)
        },
        Err(e) => Err(e),
    }
}

pub open spec fn p_binary_rest(toks: Seq<TokenM>, level: int, lhs: ExprM, i: nat) -> Result<
    (ExprM, nat),
    ErrM,
>
    decreases toks.len() - i, (if level < 5 { 19int - 2 * level } else { 9int }),
{
    if i < toks.len() && tok_op(level, toks[i as int].kind) {
        let sub = if level < 5 {
            p_binary(toks, level + 1, i + 1)
        } else {
            p_unary(toks, i + 1)
        };
        match sub {
            Ok((rhs, j)) => if bad_cursor(toks, i, j) {
                Err(stuck_err())
            } else {
                p_binary_rest(
                    toks,
                    level,
                    mk_binm(level, toks[i as int].kind, lhs, rhs, toks[i as int].info),
                    j,
                )
            },
            Err(e) => Err(e),
        }
    } else {
        Ok((lhs, i))
    }
}

/// expression := assignment; assignment is right-associative and its target
/// must be a plain variable.
pub open spec fn p_expr(toks: Seq<TokenM>, i: nat) -> Result<(ExprM, nat), ErrM>
    decreases toks.len() - i, 30int,
{
    match p_binary(toks, 0, i) {
        Ok((lhs, j)) => if bad_cursor(toks, i, j) {
            Err(stuck_err())
        } else if j < toks.len() && toks[j as int].kind is Equal {
            match lhs {
                ExprM::Variable(name, li) => match p_expr(toks, j + 1) {
                    Ok((rhs, k)) => Ok((ExprM::Assign(name, Box::new(rhs), li), k)),
                    Err(e) => Err(e),
                },
                _ => Err(perr(toks[j as int], "invalid assignment target"@)),
            }
        } else {
            Ok((lhs, j))
        },
        Err(e) => Err(e),
    }
}

/// parameters := ")" | name ("," name)* ")"
pub open spec fn p_params(toks: Seq<TokenM>, i: nat) -> Result<(Seq<Seq<char>>, nat), ErrM>
    decreases toks.len() - i,
{
    if i >= toks.len() {
        Err(eoi_err())
    } else if toks[i as int].kind is RightParen {
        Ok((Seq::empty(), i + 1))
    } else {
        match toks[i as int].kind {
            TokM::Identifier(n) => if i + 1 < toks.len() && toks[i as int + 1].kind is Comma {
                match p_params(toks, i + 2) {
                    Ok((rest, k)) => Ok((seq![n] + rest, k)),
                    Err(e) => Err(e),
                }
            } else if i + 1 < toks.len() && toks[i as int + 1].kind is RightParen {
                Ok((seq![n], i + 2))
            } else if i + 1 < toks.len() {
                Err(perr(toks[i as int + 1], "expected comma or closing parenthesis"@))
            } else {
                Err(eoi_err())
            },
            _ => Err(perr(toks[i as int], "expected parameter name"@)),
        }
    }
}

/// Consumes one optional semicolon.
pub open spec fn skip_semi(toks: Seq<TokenM>, i: nat) -> nat {
    if i < toks.len() && toks[i as int].kind is Semicolon {
        i + 1
    } else {
        i
    }
}

/// block := "{" statement* "}"; returns the statements of the block.
pub open spec fn p_block(toks: Seq<TokenM>, i: nat) -> Result<(Seq<StmtM>, nat), ErrM>
    decreases toks.len() - i, 45int,
{
    if i < toks.len() && toks[i as int].kind is LeftBrace {
        p_block_items(toks, i + 1)
    } else if i < toks.len() {
        Err(perr(toks[i as int], "expected block"@))
    } else {
        Err(eoi_err())
    }
}

pub open spec fn p_block_items(toks: Seq<TokenM>, i: nat) -> Result<(Seq<StmtM>, nat), ErrM>
    decreases toks.len() - i, 60int,
{
    if i >= toks.len() {
        Err(eoi_err())
    } else if toks[i as int].kind is RightBrace {
        Ok((Seq::empty(), i + 1))
    } else if toks[i as int].kind is Eof {
        Err(perr(toks[i as int], "expected closing brace"@))
    } else {
        match p_stmt(toks, i) {
            Ok((s, j)) => if bad_cursor(toks, i, j) {
                Err(stuck_err())
            } else {
                match p_block_items(toks, j) {
                    Ok((rest, k)) => Ok((seq![s] + rest, k)),
                    Err(e) => Err(e),
                }
            },
            Err(e) => Err(e),
        }
    }
}

/// statement := declaration | block | conditional | loop | function
/// declaration | return | expression statement
pub open spec fn p_stmt(toks: Seq<TokenM>, i: nat) -> Result<(StmtM, nat), ErrM>
    decreases toks.len() - i, 50int,
{
    if i >= toks.len() {
        Err(eoi_err())
    } else {
        let t = toks[i as int];
        match t.kind {
            TokM::Var => if i + 1 < toks.len() {
                match toks[i as int + 1].kind {
                    TokM::Identifier(name) => if i + 2 < toks.len() && toks[i as int
                        + 2].kind is Equal {
                        match p_expr(toks, i + 3) {
                            Ok((e, j)) => if bad_cursor(toks, i, j) {
                                Err(stuck_err())
                            } else {
                                Ok(
                                    (
                                        StmtM::VarDecl(name, Some(e), t.info),
                                        skip_semi(toks, j),
                                    ),
                                )
                            },
                            Err(e) => Err(e),
                        }
                    } else {
                        Ok((StmtM::VarDecl(name, None, t.info), skip_semi(toks, i + 2)))
                    },
                    _ => Err(perr(toks[i as int + 1], "expected identifier"@)),
                }
            } else {
                Err(eoi_err())
            },
            TokM::LeftBrace => match p_block(toks, i) {
                Ok((ss, j)) => Ok((StmtM::Block(ss), j)),
                Err(e) => Err(e),
            },
            TokM::If => p_if(toks, i),
            TokM::While => match p_expr(toks, i + 1) {
                Ok((c, j)) => if bad_cursor(toks, i, j) {
                    Err(stuck_err())
                } else {
                    match p_block(toks, j) {
                        Ok((body, k)) => Ok(
                            (StmtM::While(c, Box::new(StmtM::Block(body)), t.info), k),
                        ),
                        Err(e) => Err(e),
                    }
                },
                Err(e) => Err(e),
            },
            TokM::Fn => if i + 2 < toks.len() {
                match toks[i as int + 1].kind {
                    TokM::Identifier(name) => if toks[i as int + 2].kind is LeftParen {
                        match p_params(toks, i + 3) {
                            Ok((params, j)) => if bad_cursor(toks, i, j) {
                                Err(stuck_err())
                            } else {
                                match p_block(toks, j) {
                                    Ok((body, k)) => Ok(
                                        (
                                            StmtM::FnDecl(
                                                name,
                                                FnDefM { params, body },
                                                t.info,
                                            ),
                                            k,
                                        ),
                                    ),
                                    Err(e) => Err(e),
                                }
                            },
                            Err(e) => Err(e),
                        }
                    } else {
                        Err(perr(toks[i as int + 2], "expected parameter list"@))
                    },
                    _ => Err(perr(toks[i as int + 1], "expected identifier"@)),
                }
            } else {
                Err(eoi_err())
            },
            TokM::Return => if i + 1 < toks.len() && (toks[i as int + 1].kind is Semicolon) {
                Ok((StmtM::Return(None, t.info), i + 2))
            } else if i + 1 < toks.len() && (toks[i as int + 1].kind is RightBrace || toks[i as int
                + 1].kind is Eof) {
                Ok((StmtM::Return(None, t.info), i + 1))
            } else {
                match p_expr(toks, i + 1) {
                    Ok((e, j)) => if bad_cursor(toks, i, j) {
                        Err(stuck_err())
                    } else {
                        Ok((StmtM::Return(Some(e), t.info), skip_semi(toks, j)))
                    },
                    Err(e) => Err(e),
                }
            },
            _ => match p_expr(toks, i) {
                Ok((e, j)) => if bad_cursor(toks, i, j) {
                    Err(stuck_err())
                } else {
                    Ok((StmtM::ExprStmt(e), skip_semi(toks, j)))
                },
                Err(e) => Err(e),
            },
        }
    }
}

/// conditional := "if" expression block ("else" (conditional | block))?
pub open spec fn p_if(toks: Seq<TokenM>, i: nat) -> Result<(StmtM, nat), ErrM>
    decreases toks.len() - i, 48int,
{
    if i >= toks.len() {
        Err(eoi_err())
    } else {
        let t = toks[i as int];
        match p_expr(toks, i + 1) {
            Ok((c, j)) => if bad_cursor(toks, i, j) {
                Err(stuck_err())
            } else {
                match p_block(toks, j) {
                    Ok((thn, k)) => if bad_cursor(toks, j, k) {
                        Err(stuck_err())
                    } else if k < toks.len() && toks[k as int].kind is Else {
                        if k + 1 < toks.len() && toks[k as int + 1].kind is If {
                            match p_if(toks, k + 1) {
                                Ok((els, m)) => Ok(
                                    (
                                        StmtM::If(
                                            c,
                                            Box::new(StmtM::Block(thn)),
                                            Some(Box::new(els)),
                                            t.info,
                                        ),
                                        m,
                                    ),
                                ),
                                Err(e) => Err(e),
                            }
                        } else {
                            match p_block(toks, k + 1) {
                                Ok((els, m)) => Ok(
                                    (
                                        StmtM::If(
                                            c,
                                            Box::new(StmtM::Block(thn)),
                                            Some(Box::new(StmtM::Block(els))),
                                            t.info,
                                        ),
                                        m,
                                    ),
                                ),
                                Err(e) => Err(e),
                            }
                        }
                    } else {
                        Ok((StmtM::If(c, Box::new(StmtM::Block(thn)), None, t.info), k))
                    },
                    Err(e) => Err(e),
                }
            },
            Err(e) => Err(e),
        }
    }
}

/// program := statement* end-of-input
pub open spec fn p_program(toks: Seq<TokenM>, i: nat) -> Result<Seq<StmtM>, ErrM>
    decreases toks.len() - i, 60int,
{
    if i >= toks.len() || toks[i as int].kind is Eof {
        Ok(Seq::empty())
    } else {
        match p_stmt(toks, i) {
            Ok((s, j)) => if bad_cursor(toks, i, j) {
                Err(stuck_err())
            } else {
                match p_program(toks, j) {
                    Ok(rest) => Ok(seq![s] + rest),
                    Err(e) => Err(e),
                }
            },
            Err(e) => Err(e),
        }
    }
}

// ---------------------------------------------------------------------------
// The executable parser: proved to return exactly what the mathematical
// parser returns, and to always advance its cursor.
// ---------------------------------------------------------------------------

fn err_at(t: &Token, msg: &str) -> (r: Error)
    ensures
        r@ == perr(t@, msg@),
{
    Error::new(t.info, msg.to_owned(), ErrorType::SyntaxError)
}

fn err_eoi() -> (r: Error)
    ensures
        r@ == eoi_err(),
{
    Error::new(LineInfo::new(0, 0), "unexpected end of input".to_owned(), ErrorType::SyntaxError)
}

/// Does level `level` treat this token as its operator?
fn is_op(level: usize, t: &Token) -> (r: bool)
    ensures
        r == tok_op(level as int, t@.kind),
{
    if level == 0 {
        matches!(t.ttype, TokenType::OrOr)
    } else if level == 1 {
        matches!(t.ttype, TokenType::AndAnd)
    } else if level == 2 {
        matches!(t.ttype, TokenType::EqualEqual) || matches!(t.ttype, TokenType::BangEqual)
    } else if level == 3 {
        matches!(t.ttype, TokenType::Less) || matches!(t.ttype, TokenType::LessEqual) || matches!(
            t.ttype,
            TokenType::Greater,
        ) || matches!(t.ttype, TokenType::GreaterEqual)
    } else if level == 4 {
        matches!(t.ttype, TokenType::Plus) || matches!(t.ttype, TokenType::Minus)
    } else {
        matches!(t.ttype, TokenType::Star) || matches!(t.ttype, TokenType::Slash)
    }
}

fn mk_bin(level: usize, t: &Token, a: Expr, b: Expr) -> (r: Expr)
    ensures
        expr_view(&r) == mk_binm(level as int, t@.kind, expr_view(&a), expr_view(&b), t@.info),
{
    if level == 0 {
        Expr::Logical(LogOp::Or, Box::new(a), Box::new(b), t.info)
    } else if level == 1 {
        Expr::Logical(LogOp::And, Box::new(a), Box::new(b), t.info)
    } else {
        let op = match &t.ttype {
            TokenType::EqualEqual => BinOp::Eq,
            TokenType::BangEqual => BinOp::Ne,
            TokenType::Less => BinOp::Lt,
            TokenType::LessEqual => BinOp::Le,
            TokenType::Greater => BinOp::Gt,
            TokenType::GreaterEqual => BinOp::Ge,
            TokenType::Plus => BinOp::Add,
            TokenType::Minus => BinOp::Sub,
            TokenType::Star => BinOp::Mul,
            _ => BinOp::Div,
        };
        Expr::Binary(op, Box::new(a), Box::new(b), t.info)
    }
}

#[verifier::rlimit(100)]
fn e_primary(toks: &Vec<Token>, i: usize) -> (r: Result<(Expr, usize), Error>)
    ensures
        match r {
            Ok(p) => p_primary(toks_vm(toks@), i as nat) == Ok::<(ExprM, nat), ErrM>(
                (expr_view(&p.0), p.1 as nat),
            ) && i < p.1 <= toks@.len(),
            Err(e) => p_primary(toks_vm(toks@), i as nat) == Err::<(ExprM, nat), ErrM>(e@),
        },
    decreases toks@.len() - i, 3int,
{
    if i >= toks.len() {
        return Err(err_eoi());
    }
    let t = &toks[i];
    match &t.ttype {
        TokenType::Number(n) => Ok((Expr::Literal(Lit::Num(*n), t.info), i + 1)),
        TokenType::Str(sv) => Ok((Expr::Literal(Lit::Str(clone_chars(sv)), t.info), i + 1)),
        TokenType::True => Ok((Expr::Literal(Lit::True, t.info), i + 1)),
        TokenType::False => Ok((Expr::Literal(Lit::False, t.info), i + 1)),
        TokenType::Nil => Ok((Expr::Literal(Lit::Nil, t.info), i + 1)),
        TokenType::Identifier(n) => Ok((Expr::Variable(clone_chars(n), t.info), i + 1)),
        TokenType::LeftParen => match e_expr(toks, i + 1) {
            Ok((e, j)) => {
                if j < toks.len() && matches!(toks[j].ttype, TokenType::RightParen) {
                    Ok((Expr::Grouping(Box::new(e)), j + 1))
                } else if j < toks.len() {
                    Err(err_at(&toks[j], "expected closing parenthesis"))
                } else {
                    Err(err_eoi())
                }
            },
            Err(e) => Err(e),
        },
        _ => Err(err_at(t, "expected expression")),
    }
}

#[verifier::rlimit(100)]
fn e_args(toks: &Vec<Token>, i: usize) -> (r: Result<(Vec<Expr>, usize), Error>)
    requires
        i <= toks@.len(),
    ensures
        match r {
            Ok(p) => p_args(toks_vm(toks@), i as nat) == Ok::<(Seq<ExprM>, nat), ErrM>(
                (exprs_view(p.0@), p.1 as nat),
            ) && i < p.1 <= toks@.len(),
            Err(e) => p_args(toks_vm(toks@), i as nat) == Err::<(Seq<ExprM>, nat), ErrM>(e@),
        },
    decreases toks@.len() - i, 70int,
{
    let ghost tm = toks_vm(toks@);
    let mut out: Vec<Expr> = Vec::new();
    let mut k = i;
    loop
        invariant
            tm == toks_vm(toks@),
            i <= k <= toks@.len(),
            match p_args(tm, k as nat) {
                Ok(p) => p_args(tm, i as nat) == Ok::<(Seq<ExprM>, nat), ErrM>(
                    (exprs_view(out@) + p.0, p.1),
                ),
                Err(e) => p_args(tm, i as nat) == Err::<(Seq<ExprM>, nat), ErrM>(e),
            },
        decreases toks@.len() - k,
    {
        if k >= toks.len() {
            return Err(err_eoi());
        }
        if matches!(toks[k].ttype, TokenType::RightParen) {
            proof {
                assert(exprs_view(out@) + Seq::<ExprM>::empty() =~= exprs_view(out@));
            }
            return Ok((out, k + 1));
        }
        match e_expr(toks, k) {
            Ok((a, j)) => {
                let ghost out0 = out@;
                let ghost av = expr_view(&a);
                out.push(a);
                proof {
                    lemma_exprs_view_push(out0, out@[out@.len() - 1]);
                    assert(exprs_view(out@) =~= exprs_view(out0).push(av));
                }
                if j < toks.len() && matches!(toks[j].ttype, TokenType::Comma) {
                    proof {
                        if p_args(tm, (j + 1) as nat) is Ok {
                            let rest = p_args(tm, (j + 1) as nat)->Ok_0;
                            assert(exprs_view(out@) + rest.0 =~= exprs_view(out0) + (seq![av]
                                + rest.0));
                        }
                    }
                    k = j + 1;
                } else if j < toks.len() && matches!(toks[j].ttype, TokenType::RightParen) {
                    proof {
                        assert(exprs_view(out@) =~= exprs_view(out0) + seq![av]);
                    }
                    return Ok((out, j + 1));
                } else if j < toks.len() {
                    return Err(err_at(&toks[j], "expected comma or closing parenthesis"));
                } else {
                    return Err(err_eoi());
                }
            },
            Err(e) => {
                return Err(e);
            },
        }
    }
}

#[verifier::rlimit(100)]
fn e_call_rest(toks: &Vec<Token>, callee: Expr, i: usize) -> (r: Result<(Expr, usize), Error>)
    requires
        i <= toks@.len(),
    ensures
        match r {
            Ok(p) => p_call_rest(toks_vm(toks@), expr_view(&callee), i as nat) == Ok::<
                (ExprM, nat),
                ErrM,
            >((expr_view(&p.0), p.1 as nat)) && i <= p.1 <= toks@.len(),
            Err(e) => p_call_rest(toks_vm(toks@), expr_view(&callee), i as nat) == Err::<
                (ExprM, nat),
                ErrM,
            >(e@),
        },
    decreases toks@.len() - i, 5int,
{
    if i < toks.len() && matches!(toks[i].ttype, TokenType::LeftParen) {
        let info = toks[i].info;
        match e_args(toks, i + 1) {
            Ok((args, j)) => e_call_rest(toks, Expr::Call(Box::new(callee), args, info), j),
            Err(e) => Err(e),
        }
    } else {
        Ok((callee, i))
    }
}

fn e_postfix(toks: &Vec<Token>, i: usize) -> (r: Result<(Expr, usize), Error>)
    ensures
        match r {
            Ok(p) => p_postfix(toks_vm(toks@), i as nat) == Ok::<(ExprM, nat), ErrM>(
                (expr_view(&p.0), p.1 as nat),
            ) && i < p.1 <= toks@.len(),
            Err(e) => p_postfix(toks_vm(toks@), i as nat) == Err::<(ExprM, nat), ErrM>(e@),
        },
    decreases toks@.len() - i, 6int,
{
    match e_primary(toks, i) {
        Ok((e, j)) => e_call_rest(toks, e, j),
        Err(e) => Err(e),
    }
}

fn e_unary(toks: &Vec<Token>, i: usize) -> (r: Result<(Expr, usize), Error>)
    ensures
        match r {
            Ok(p) => p_unary(toks_vm(toks@), i as nat) == Ok::<(ExprM, nat), ErrM>(
                (expr_view(&p.0), p.1 as nat),
            ) && i < p.1 <= toks@.len(),
            Err(e) => p_unary(toks_vm(toks@), i as nat) == Err::<(ExprM, nat), ErrM>(e@),
        },
    decreases toks@.len() - i, 8int,
{
    if i < toks.len() && (matches!(toks[i].ttype, TokenType::Minus) || matches!(
        toks[i].ttype,
        TokenType::Bang,
    )) {
        let op = if matches!(toks[i].ttype, TokenType::Minus) {
            UnOp::Neg
        } else {
            UnOp::Not
        };
        let info = toks[i].info;
        match e_unary(toks, i + 1) {
            Ok((e, j)) => Ok((Expr::Unary(op, Box::new(e), info), j)),
            Err(e) => Err(e),
        }
    } else {
        e_postfix(toks, i)
    }
}

#[verifier::rlimit(100)]
fn e_binary(toks: &Vec<Token>, level: usize, i: usize) -> (r: Result<(Expr, usize), Error>)
    ensures
        match r {
            Ok(p) => p_binary(toks_vm(toks@), level as int, i as nat) == Ok::<
                (ExprM, nat),
                ErrM,
            >((expr_view(&p.0), p.1 as nat)) && i < p.1 <= toks@.len(),
            Err(e) => p_binary(toks_vm(toks@), level as int, i as nat) == Err::<
                (ExprM, nat),
                ErrM,
            >(e@),
        },
    decreases toks@.len() - i, (if level < 5 { 20int - 2 * level } else { 10int }),
{
    let sub = if level < 5 {
        e_binary(toks, level + 1, i)
    } else {
        e_unary(toks, i)
    };
    match sub {
        Ok((lhs, j)) => e_binary_rest(toks, level, lhs, j),
        Err(e) => Err(e),
    }
}

#[verifier::rlimit(100)]
fn e_binary_rest(toks: &Vec<Token>, level: usize, lhs: Expr, i: usize) -> (r: Result<
    (Expr, usize),
    Error,
>)
    requires
        i <= toks@.len(),
    ensures
        match r {
            Ok(p) => p_binary_rest(toks_vm(toks@), level as int, expr_view(&lhs), i as nat)
                == Ok::<(ExprM, nat), ErrM>((expr_view(&p.0), p.1 as nat)) && i <= p.1
                <= toks@.len(),
            Err(e) => p_binary_rest(toks_vm(toks@), level as int, expr_view(&lhs), i as nat)
                == Err::<(ExprM, nat), ErrM>(e@),
        },
    decreases toks@.len() - i, (if level < 5 { 19int - 2 * level } else { 9int }),
{
    if i < toks.len() && is_op(level, &toks[i]) {
        let sub = if level < 5 {
            e_binary(toks, level + 1, i + 1)
        } else {
            e_unary(toks, i + 1)
        };
        match sub {
            Ok((rhs, j)) => {
                let combined = mk_bin(level, &toks[i], lhs, rhs);
                e_binary_rest(toks, level, combined, j)
            },
            Err(e) => Err(e),
        }
    } else {
        Ok((lhs, i))
    }
}

#[verifier::rlimit(100)]
fn e_expr(toks: &Vec<Token>, i: usize) -> (r: Result<(Expr, usize), Error>)
    ensures
        match r {
            Ok(p) => p_expr(toks_vm(toks@), i as nat) == Ok::<(ExprM, nat), ErrM>(
                (expr_view(&p.0), p.1 as nat),
            ) && i < p.1 <= toks@.len(),
            Err(e) => p_expr(toks_vm(toks@), i as nat) == Err::<(ExprM, nat), ErrM>(e@),
        },
    decreases toks@.len() - i, 30int,
{
    match e_binary(toks, 0, i) {
        Ok((lhs, j)) => {
            if j < toks.len() && matches!(toks[j].ttype, TokenType::Equal) {
                match lhs {
                    Expr::Variable(name, li) => match e_expr(toks, j + 1) {
                        Ok((rhs, k)) => Ok((Expr::Assign(name, Box::new(rhs), li), k)),
                        Err(e) => Err(e),
                    },
                    _ => Err(err_at(&toks[j], "invalid assignment target")),
                }
            } else {
                Ok((lhs, j))
            }
        },
        Err(e) => Err(e),
    }
}

#[verifier::rlimit(100)]
fn e_params(toks: &Vec<Token>, i: usize) -> (r: Result<(Vec<Vec<char>>, usize), Error>)
    requires
        i <= toks@.len(),
    ensures
        match r {
            Ok(p) => p_params(toks_vm(toks@), i as nat) == Ok::<(Seq<Seq<char>>, nat), ErrM>(
                (names_view(p.0@), p.1 as nat),
            ) && i < p.1 <= toks@.len(),
            Err(e) => p_params(toks_vm(toks@), i as nat) == Err::<(Seq<Seq<char>>, nat), ErrM>(
                e@,
            ),
        },
    decreases toks@.len() - i,
{
    let ghost tm = toks_vm(toks@);
    let mut out: Vec<Vec<char>> = Vec::new();
    let mut k = i;
    loop
        invariant
            tm == toks_vm(toks@),
            i <= k <= toks@.len(),
            match p_params(tm, k as nat) {
                Ok(p) => p_params(tm, i as nat) == Ok::<(Seq<Seq<char>>, nat), ErrM>(
                    (names_view(out@) + p.0, p.1),
                ),
                Err(e) => p_params(tm, i as nat) == Err::<(Seq<Seq<char>>, nat), ErrM>(e),
            },
        decreases toks@.len() - k,
    {
        if k >= toks.len() {
            return Err(err_eoi());
        }
        if matches!(toks[k].ttype, TokenType::RightParen) {
            proof {
                assert(names_view(out@) + Seq::<Seq<char>>::empty() =~= names_view(out@));
            }
            return Ok((out, k + 1));
        }
        match &toks[k].ttype {
            TokenType::Identifier(n) => {
                let nc = clone_chars(n);
                let ghost out0 = out@;
                out.push(nc);
                proof {
                    assert(names_view(out@) =~= names_view(out0).push(toks@[k as int].ttype@
                        ->Identifier_0));
                }
                if k + 1 < toks.len() && matches!(toks[k + 1].ttype, TokenType::Comma) {
                    proof {
                        if p_params(tm, (k + 2) as nat) is Ok {
                            let rest = p_params(tm, (k + 2) as nat)->Ok_0;
                            assert(names_view(out@) + rest.0 =~= names_view(out0) + (seq![
                                toks@[k as int].ttype@->Identifier_0] + rest.0));
                        }
                    }
                    k = k + 2;
                } else if k + 1 < toks.len() && matches!(toks[k + 1].ttype, TokenType::RightParen) {
                    proof {
                        assert(names_view(out@) =~= names_view(out0) + seq![toks@[k as int].ttype@
                            ->Identifier_0]);
                    }
                    return Ok((out, k + 2));
                } else if k + 1 < toks.len() {
                    return Err(err_at(&toks[k + 1], "expected comma or closing parenthesis"));
                } else {
                    return Err(err_eoi());
                }
            },
            _ => {
                return Err(err_at(&toks[k], "expected parameter name"));
            },
        }
    }
}

/// Consumes one optional semicolon.
fn e_skip_semi(toks: &Vec<Token>, i: usize) -> (r: usize)
    requires
        i <= toks@.len(),
    ensures
        r == skip_semi(toks_vm(toks@), i as nat),
        i <= r <= toks@.len(),
{
    if i < toks.len() && matches!(toks[i].ttype, TokenType::Semicolon) {
        i + 1
    } else {
        i
    }
}

#[verifier::rlimit(100)]
fn e_block(toks: &Vec<Token>, i: usize) -> (r: Result<(Vec<Stmt>, usize), Error>)
    ensures
        match r {
            Ok(p) => p_block(toks_vm(toks@), i as nat) == Ok::<(Seq<StmtM>, nat), ErrM>(
                (stmts_view(p.0@), p.1 as nat),
            ) && i < p.1 <= toks@.len(),
            Err(e) => p_block(toks_vm(toks@), i as nat) == Err::<(Seq<StmtM>, nat), ErrM>(e@),
        },
    decreases toks@.len() - i, 45int,
{
    if i < toks.len() && matches!(toks[i].ttype, TokenType::LeftBrace) {
        e_block_items(toks, i + 1)
    } else if i < toks.len() {
        Err(err_at(&toks[i], "expected block"))
    } else {
        Err(err_eoi())
    }
}

#[verifier::rlimit(100)]
fn e_block_items(toks: &Vec<Token>, i: usize) -> (r: Result<(Vec<Stmt>, usize), Error>)
    requires
        i <= toks@.len(),
    ensures
        match r {
            Ok(p) => p_block_items(toks_vm(toks@), i as nat) == Ok::<(Seq<StmtM>, nat), ErrM>(
                (stmts_view(p.0@), p.1 as nat),
            ) && i < p.1 <= toks@.len(),
            Err(e) => p_block_items(toks_vm(toks@), i as nat) == Err::<(Seq<StmtM>, nat), ErrM>(
                e@,
            ),
        },
    decreases toks@.len() - i, 60int,
{
    let ghost tm = toks_vm(toks@);
    let mut out: Vec<Stmt> = Vec::new();
    let mut k = i;
    loop
        invariant
            tm == toks_vm(toks@),
            i <= k <= toks@.len(),
            match p_block_items(tm, k as nat) {
                Ok(p) => p_block_items(tm, i as nat) == Ok::<(Seq<StmtM>, nat), ErrM>(
                    (stmts_view(out@) + p.0, p.1),
                ),
                Err(e) => p_block_items(tm, i as nat) == Err::<(Seq<StmtM>, nat), ErrM>(e),
            },
        decreases toks@.len() - k,
    {
        if k >= toks.len() {
            return Err(err_eoi());
        }
        if matches!(toks[k].ttype, TokenType::RightBrace) {
            proof {
                assert(stmts_view(out@) + Seq::<StmtM>::empty() =~= stmts_view(out@));
            }
            return Ok((out, k + 1));
        }
        if matches!(toks[k].ttype, TokenType::Eof) {
            return Err(err_at(&toks[k], "expected closing brace"));
        }
        match e_stmt(toks, k) {
            Ok((s, j)) => {
                let ghost out0 = out@;
                let ghost sv = stmt_view(&s);
                out.push(s);
                proof {
                    lemma_stmts_view_push(out0, out@[out@.len() - 1]);
                    assert(stmts_view(out@) =~= stmts_view(out0).push(sv));
                    if p_block_items(tm, j as nat) is Ok {
                        let rest = p_block_items(tm, j as nat)->Ok_0;
                        assert(stmts_view(out@) + rest.0 =~= stmts_view(out0) + (seq![sv]
                            + rest.0));
                    }
                }
                k = j;
            },
            Err(e) => {
                return Err(e);
            },
        }
    }
}

#[verifier::rlimit(100)]
fn e_stmt(toks: &Vec<Token>, i: usize) -> (r: Result<(Stmt, usize), Error>)
    ensures
        match r {
            Ok(p) => p_stmt(toks_vm(toks@), i as nat) == Ok::<(StmtM, nat), ErrM>(
                (stmt_view(&p.0), p.1 as nat),
            ) && i < p.1 <= toks@.len(),
            Err(e) => p_stmt(toks_vm(toks@), i as nat) == Err::<(StmtM, nat), ErrM>(e@),
        },
    decreases toks@.len() - i, 50int,
{
    if i >= toks.len() {
        return Err(err_eoi());
    }
    let info = toks[i].info;
    match &toks[i].ttype {
        TokenType::Var => {
            if i + 1 < toks.len() {
                match &toks[i + 1].ttype {
                    TokenType::Identifier(n) => {
                        let name = clone_chars(n);
                        if i + 2 < toks.len() && matches!(toks[i + 2].ttype, TokenType::Equal) {
                            match e_expr(toks, i + 3) {
                                Ok((e, j)) => {
                                    let j2 = e_skip_semi(toks, j);
                                    Ok((Stmt::VarDecl(name, Some(e), info), j2))
                                },
                                Err(e) => Err(e),
                            }
                        } else {
                            let j2 = e_skip_semi(toks, i + 2);
                            Ok((Stmt::VarDecl(name, None, info), j2))
                        }
                    },
                    _ => Err(err_at(&toks[i + 1], "expected identifier")),
                }
            } else {
                Err(err_eoi())
            }
        },
        TokenType::LeftBrace => match e_block(toks, i) {
            Ok((ss, j)) => Ok((Stmt::Block(ss), j)),
            Err(e) => Err(e),
        },
        TokenType::If => e_if(toks, i),
        TokenType::While => match e_expr(toks, i + 1) {
            Ok((c, j)) => match e_block(toks, j) {
                Ok((body, k)) => {
                    let ghost bv = stmts_view(body@);
                    let b = Stmt::Block(body);
                    proof {
                        assert(stmt_view(&b) == StmtM::Block(bv));
                    }
                    Ok((Stmt::While(c, Box::new(b), info), k))
                },
                Err(e) => Err(e),
            },
            Err(e) => Err(e),
        },
        TokenType::Fn => {
            if toks.len() - i > 2 {
                match &toks[i + 1].ttype {
                    TokenType::Identifier(n) => {
                        let name = clone_chars(n);
                        if matches!(toks[i + 2].ttype, TokenType::LeftParen) {
                            match e_params(toks, i + 3) {
                                Ok((params, j)) => match e_block(toks, j) {
                                    Ok((body, k)) => {
                                        let def = Rc::new(FnDef { params, body });
                                        Ok((Stmt::FnDecl(name, def, info), k))
                                    },
                                    Err(e) => Err(e),
                                },
                                Err(e) => Err(e),
                            }
                        } else {
                            Err(err_at(&toks[i + 2], "expected parameter list"))
                        }
                    },
                    _ => Err(err_at(&toks[i + 1], "expected identifier")),
                }
            } else {
                Err(err_eoi())
            }
        },
        TokenType::Return => {
            if i + 1 < toks.len() && matches!(toks[i + 1].ttype, TokenType::Semicolon) {
                Ok((Stmt::Return(None, info), i + 2))
            } else if i + 1 < toks.len() && (matches!(toks[i + 1].ttype, TokenType::RightBrace)
                || matches!(toks[i + 1].ttype, TokenType::Eof)) {
                Ok((Stmt::Return(None, info), i + 1))
            } else {
                match e_expr(toks, i + 1) {
                    Ok((e, j)) => {
                        let j2 = e_skip_semi(toks, j);
                        Ok((Stmt::Return(Some(e), info), j2))
                    },
                    Err(e) => Err(e),
                }
            }
        },
        _ => match e_expr(toks, i) {
            Ok((e, j)) => {
                let j2 = e_skip_semi(toks, j);
                Ok((Stmt::ExprStmt(e), j2))
            },
            Err(e) => Err(e),
        },
    }
}

#[verifier::rlimit(100)]
fn e_if(toks: &Vec<Token>, i: usize) -> (r: Result<(Stmt, usize), Error>)
    ensures
        match r {
            Ok(p) => p_if(toks_vm(toks@), i as nat) == Ok::<(StmtM, nat), ErrM>(
                (stmt_view(&p.0), p.1 as nat),
            ) && i < p.1 <= toks@.len(),
            Err(e) => p_if(toks_vm(toks@), i as nat) == Err::<(StmtM, nat), ErrM>(e@),
        },
    decreases toks@.len() - i, 48int,
{
    if i >= toks.len() {
        return Err(err_eoi());
    }
    let info = toks[i].info;
    match e_expr(toks, i + 1) {
        Ok((c, j)) => match e_block(toks, j) {
            Ok((thn, k)) => {
                let ghost tv = stmts_view(thn@);
                let bthn = Stmt::Block(thn);
                proof {
                    assert(stmt_view(&bthn) == StmtM::Block(tv));
                }
                if k < toks.len() && matches!(toks[k].ttype, TokenType::Else) {
                    if k + 1 < toks.len() && matches!(toks[k + 1].ttype, TokenType::If) {
                        match e_if(toks, k + 1) {
                            Ok((els, m)) => Ok(
                                (Stmt::If(c, Box::new(bthn), Some(Box::new(els)), info), m),
                            ),
                            Err(e) => Err(e),
                        }
                    } else {
                        match e_block(toks, k + 1) {
                            Ok((els, m)) => {
                                let ghost ev = stmts_view(els@);
                                let bels = Stmt::Block(els);
                                proof {
                                    assert(stmt_view(&bels) == StmtM::Block(ev));
                                }
                                Ok(
                                    (
                                        Stmt::If(
                                            c,
                                            Box::new(bthn),
                                            Some(Box::new(bels)),
                                            info,
                                        ),
                                        m,
                                    ),
                                )
                            },
                            Err(e) => Err(e),
                        }
                    }
                } else {
                    Ok((Stmt::If(c, Box::new(bthn), None, info), k))
                }
            },
            Err(e) => Err(e),
        },
        Err(e) => Err(e),
    }
}

fn tok_is_eof(toks: &Vec<Token>, k: usize) -> (r: bool)
    requires
        k < toks@.len(),
    ensures
        r == (toks_vm(toks@)[k as int].kind is Eof),
{
    matches!(toks[k].ttype, TokenType::Eof)
}

/// The parser: consumes the token sequence in order and produces the
/// program's statement sequence, or fails with the first syntax error.
pub struct Parser {
    pub toks: Vec<Token>,
}

impl Parser {
    pub fn new(toks: Vec<Token>) -> (r: Self)
        ensures
            r.toks@ == toks@,
    {
        Parser { toks }
    }

    /// Parses the whole program. The result is exactly what the mathematical
    /// parser `p_program` yields on the token sequence.
    #[verifier::rlimit(100)]
    pub fn init(&self) -> (r: Result<Vec<Stmt>, Error>)
        ensures
            match r {
                Ok(tree) => p_program(toks_vm(self.toks@), 0) == Ok::<Seq<StmtM>, ErrM>(
                    stmts_view(tree@),
                ),
                Err(e) => p_program(toks_vm(self.toks@), 0) == Err::<Seq<StmtM>, ErrM>(e@),
            },
    {
        let toks = &self.toks;
        let ghost tm = toks_vm(toks@);
        let mut out: Vec<Stmt> = Vec::new();
        let mut k: usize = 0;
        while k < toks.len() && !tok_is_eof(toks, k)
            invariant
                toks@ == self.toks@,
                tm == toks_vm(toks@),
                k <= toks@.len(),
                match p_program(tm, k as nat) {
                    Ok(rest) => p_program(tm, 0) == Ok::<Seq<StmtM>, ErrM>(
                        stmts_view(out@) + rest,
                    ),
                    Err(e) => p_program(tm, 0) == Err::<Seq<StmtM>, ErrM>(e),
                },
            decreases toks@.len() - k,
        {
            match e_stmt(toks, k) {
                Ok((s, j)) => {
                    let ghost out0 = out@;
                    let ghost sv = stmt_view(&s);
                    out.push(s);
                    proof {
                        lemma_stmts_view_push(out0, out@[out@.len() - 1]);
                        assert(stmts_view(out@) =~= stmts_view(out0).push(sv));
                        if p_program(tm, j as nat) is Ok {
                            let rest = p_program(tm, j as nat)->Ok_0;
                            assert(stmts_view(out@) + rest =~= stmts_view(out0) + (seq![sv]
                                + rest));
                        }
                    }
                    k = j;
                },
                Err(e) => {
                    return Err(e);
                },
            }
        }
        proof {
            assert(k >= toks@.len() || tm[k as int].kind is Eof);
            assert(stmts_view(out@) + Seq::<StmtM>::empty() =~= stmts_view(out@));
        }
        Ok(out)
    }
}


} // verus!
