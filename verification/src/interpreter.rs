use vstd::prelude::*;

use crate::environment::{
    chain_defining, chain_lookup, env_assign, env_define, env_wf, Environment, ScopeM,
};
use crate::error::{ErrM, Error, ErrorType, LineInfo};
use crate::nodes::{
    expr_view, exprs_view, lemma_exprs_view_index, lemma_exprs_view_len, lemma_stmts_view_index,
    lemma_stmts_view_len, stmt_view, stmts_view, BinOp, Expr, ExprM, Lit, LitM, LogOp, Stmt, StmtM,
    UnOp,
};
use crate::value::{
    clone_chars, clone_value, truthy, truthy_spec, value_view, Native, Value, ValueM,
};

verus! {

// ---------------------------------------------------------------------------
// The interpreter, at the mathematical level: a tree walk over the statement
// sequence, driven by a step budget so that runaway recursion and unending
// loops fail as runtime errors rather than running forever.
// ---------------------------------------------------------------------------

/// The interpreter's state: the scope arena, the current scope, and the
/// values printed so far.
#[verifier::ext_equal]
pub struct StM {
    pub env: Seq<ScopeM>,
    pub cur: int,
    pub out: Seq<ValueM>,
}

pub open spec fn st_wf(st: StM) -> bool {
    &&& env_wf(st.env)
    &&& 0 <= st.cur < st.env.len()
}

/// Result of evaluating an expression: the new state and a value, or the
/// state at failure and the error.
#[verifier::ext_equal]
pub enum EvalR {
    Val(StM, ValueM),
    Fail(StM, ErrM),
}

/// Result of evaluating an argument list.
#[verifier::ext_equal]
pub enum ArgsR {
    Vals(StM, Seq<ValueM>),
    Fail(StM, ErrM),
}

/// Result of executing a statement: normal completion, a return signal
/// carrying its value and position, or failure.
#[verifier::ext_equal]
pub enum ExecR {
    Norm(StM),
    Ret(StM, ValueM, LineInfo),
    Fail(StM, ErrM),
}

pub open spec fn rerr(li: LineInfo, msg: Seq<char>) -> ErrM {
    ErrM { line: li.line as int, col: li.col as int, ty: ErrorType::RuntimeError, msg }
}

pub open spec fn terr(li: LineInfo, msg: Seq<char>) -> ErrM {
    ErrM { line: li.line as int, col: li.col as int, ty: ErrorType::TypeError, msg }
}

pub open spec fn merr(li: LineInfo, msg: Seq<char>) -> ErrM {
    ErrM { line: li.line as int, col: li.col as int, ty: ErrorType::MathError, msg }
}

pub open spec fn depth_err() -> ErrM {
    ErrM { line: 0, col: 0, ty: ErrorType::RuntimeError, msg: "step budget exhausted"@ }
}

pub open spec fn lit_val(l: LitM) -> ValueM {
    match l {
        LitM::Num(n) => ValueM::Num(n),
        LitM::Str(s) => ValueM::Str(s),
        LitM::True => ValueM::Bool(true),
        LitM::False => ValueM::Bool(false),
        LitM::Nil => ValueM::Nil,
    }
}

pub open spec fn abs_of(a: int) -> int {
    if a < 0 {
        -a
    } else {
        a
    }
}

/// Truncating division: the quotient of the magnitudes, with the sign of the
/// exact quotient.
pub open spec fn div_trunc(a: int, b: int) -> int {
    let q = abs_of(a) / abs_of(b);
    if (a < 0) == (b < 0) {
        q
    } else {
        -q
    }
}

/// Language equality: values of the same primitive kind compare by content,
/// values of different kinds are unequal, callables cannot be compared.
pub open spec fn val_eq(a: ValueM, b: ValueM, li: LineInfo) -> Result<bool, ErrM> {
    if (a is Func || a is Native || b is Func || b is Native) {
        Err(terr(li, "cannot compare functions"@))
    } else {
        Ok(
            match (a, b) {
                (ValueM::Num(x), ValueM::Num(y)) => x == y,
                (ValueM::Str(x), ValueM::Str(y)) => x == y,
                (ValueM::Bool(x), ValueM::Bool(y)) => x == y,
                (ValueM::Nil, ValueM::Nil) => true,
                _ => false,
            },
        )
    }
}

/// Unary operators.
pub open spec fn un_val(op: UnOp, v: ValueM, li: LineInfo) -> Result<ValueM, ErrM> {
    match op {
        UnOp::Neg => match v {
            ValueM::Num(n) => if n == i64::MIN {
                Err(merr(li, "integer overflow"@))
            } else {
                Ok(ValueM::Num((-(n as int)) as i64))
            },
            _ => Err(terr(li, "operand must be a number"@)),
        },
        UnOp::Not => Ok(ValueM::Bool(!truthy_spec(v))),
    }
}

/// Binary operators: arithmetic and ordering demand numbers, `+` also joins
/// two strings; division by zero and results outside `i64` are math errors.
pub open spec fn bin_val(op: BinOp, a: ValueM, b: ValueM, li: LineInfo) -> Result<ValueM, ErrM> {
    match op {
        BinOp::Add => match (a, b) {
            (ValueM::Num(x), ValueM::Num(y)) => {
                let s = x as int + y as int;
                if s < i64::MIN || s > i64::MAX {
                    Err(merr(li, "integer overflow"@))
                } else {
                    Ok(ValueM::Num(s as i64))
                }
            },
            (ValueM::Str(x), ValueM::Str(y)) => Ok(ValueM::Str(x + y)),
            _ => Err(terr(li, "operands must be two numbers or two strings"@)),
        },
        BinOp::Sub => match (a, b) {
            (ValueM::Num(x), ValueM::Num(y)) => {
                let s = x as int - y as int;
                if s < i64::MIN || s > i64::MAX {
                    Err(merr(li, "integer overflow"@))
                } else {
                    Ok(ValueM::Num(s as i64))
                }
            },
            _ => Err(terr(li, "operands must be numbers"@)),
        },
        BinOp::Mul => match (a, b) {
            (ValueM::Num(x), ValueM::Num(y)) => {
                let s = x as int * y as int;
                if s < i64::MIN || s > i64::MAX {
                    Err(merr(li, "integer overflow"@))
                } else {
                    Ok(ValueM::Num(s as i64))
                }
            },
            _ => Err(terr(li, "operands must be numbers"@)),
        },
        BinOp::Div => match (a, b) {
            (ValueM::Num(x), ValueM::Num(y)) => if y == 0 {
                Err(merr(li, "division by zero"@))
            } else if x == i64::MIN && y == -1 {
                Err(merr(li, "integer overflow"@))
            } else {
                Ok(ValueM::Num(div_trunc(x as int, y as int) as i64))
            },
            _ => Err(terr(li, "operands must be numbers"@)),
        },
        BinOp::Eq => match val_eq(a, b, li) {
            Ok(r) => Ok(ValueM::Bool(r)),
            Err(e) => Err(e),
        },
        BinOp::Ne => match val_eq(a, b, li) {
            Ok(r) => Ok(ValueM::Bool(!r)),
            Err(e) => Err(e),
        },
        BinOp::Lt => match (a, b) {
            (ValueM::Num(x), ValueM::Num(y)) => Ok(ValueM::Bool(x < y)),
            _ => Err(terr(li, "operands must be numbers"@)),
        },
        BinOp::Le => match (a, b) {
            (ValueM::Num(x), ValueM::Num(y)) => Ok(ValueM::Bool(x <= y)),
            _ => Err(terr(li, "operands must be numbers"@)),
        },
        BinOp::Gt => match (a, b) {
            (ValueM::Num(x), ValueM::Num(y)) => Ok(ValueM::Bool(x > y)),
            _ => Err(terr(li, "operands must be numbers"@)),
        },
        BinOp::Ge => match (a, b) {
            (ValueM::Num(x), ValueM::Num(y)) => Ok(ValueM::Bool(x >= y)),
            _ => Err(terr(li, "operands must be numbers"@)),
        },
    }
}

/// Parameter binding: declares `params[0..k]` one by one in scope `s`.
pub open spec fn bind_upto(
    env: Seq<ScopeM>,
    s: int,
    params: Seq<Seq<char>>,
    vals: Seq<ValueM>,
    k: nat,
) -> Seq<ScopeM>
    decreases k,
{
    if k == 0 {
        env
    } else {
        env_define(bind_upto(env, s, params, vals, (k - 1) as nat), s, params[k - 1], vals[k - 1])
    }
}

/// Evaluating an expression.
pub open spec fn ev_expr(st: StM, e: ExprM, fuel: nat) -> EvalR
    decreases fuel, 0int,
{
    if fuel == 0 {
        EvalR::Fail(st, depth_err())
    } else {
        match e {
            ExprM::Literal(l, _) => EvalR::Val(st, lit_val(l)),
            ExprM::Variable(n, li) => match chain_lookup(st.env, st.cur, n) {
                Some(v) => EvalR::Val(st, v),
                None => EvalR::Fail(st, rerr(li, "undefined variable"@)),
            },
            ExprM::Assign(n, r, li) => match ev_expr(st, *r, (fuel - 1) as nat) {
                EvalR::Val(st1, v) => if chain_defining(st1.env, st1.cur, n) is Some {
                    EvalR::Val(StM { env: env_assign(st1.env, st1.cur, n, v), ..st1 }, v)
                } else {
                    EvalR::Fail(st1, rerr(li, "undefined variable"@))
                },
                f => f,
            },
            ExprM::Unary(op, a, li) => match ev_expr(st, *a, (fuel - 1) as nat) {
                EvalR::Val(st1, v) => match un_val(op, v, li) {
                    Ok(v2) => EvalR::Val(st1, v2),
                    Err(er) => EvalR::Fail(st1, er),
                },
                f => f,
            },
            ExprM::Binary(op, a, b, li) => match ev_expr(st, *a, (fuel - 1) as nat) {
                EvalR::Val(st1, va) => match ev_expr(st1, *b, (fuel - 1) as nat) {
                    EvalR::Val(st2, vb) => match bin_val(op, va, vb, li) {
                        Ok(v2) => EvalR::Val(st2, v2),
                        Err(er) => EvalR::Fail(st2, er),
                    },
                    f => f,
                },
                f => f,
            },
            ExprM::Logical(op, a, b, _li) => match ev_expr(st, *a, (fuel - 1) as nat) {
                EvalR::Val(st1, va) => {
                    let take_left = match op {
                        LogOp::Or => truthy_spec(va),
                        LogOp::And => !truthy_spec(va),
                    };
                    if take_left {
                        EvalR::Val(st1, va)
                    } else {
                        ev_expr(st1, *b, (fuel - 1) as nat)
                    }
                },
                f => f,
            },
            ExprM::Call(f, args, li) => match ev_expr(st, *f, (fuel - 1) as nat) {
                EvalR::Val(st1, fv) => match ev_args(
                    st1,
                    args,
                    0,
                    Seq::empty(),
                    (fuel - 1) as nat,
                ) {
                    ArgsR::Vals(st2, vals) => call_val(st2, fv, vals, li, (fuel - 1) as nat),
                    ArgsR::Fail(st2, er) => EvalR::Fail(st2, er),
                },
                f => f,
            },
            ExprM::Grouping(a) => ev_expr(st, *a, (fuel - 1) as nat),
        }
    }
}

/// Evaluating an argument list left to right, accumulating the values.
pub open spec fn ev_args(st: StM, args: Seq<ExprM>, k: nat, acc: Seq<ValueM>, fuel: nat) -> ArgsR
    decreases fuel, args.len() - k + 1,
{
    if k >= args.len() {
        ArgsR::Vals(st, acc)
    } else {
        match ev_expr(st, args[k as int], fuel) {
            EvalR::Val(st1, v) => ev_args(st1, args, k + 1, acc.push(v), fuel),
            EvalR::Fail(st1, er) => ArgsR::Fail(st1, er),
        }
    }
}

/// Calling a value. A user function runs its body in a fresh scope whose
/// parent is the scope the function was declared in (lexical scoping); the
/// native `print` appends its argument to the output.
pub open spec fn call_val(st: StM, fv: ValueM, vals: Seq<ValueM>, li: LineInfo, fuel: nat) -> EvalR
    decreases fuel, 1int,
{
    if fuel == 0 {
        EvalR::Fail(st, depth_err())
    } else {
        match fv {
            ValueM::Native(Native::Print) => if vals.len() == 1 {
                EvalR::Val(StM { out: st.out.push(vals[0]), ..st }, ValueM::Nil)
            } else {
                EvalR::Fail(st, rerr(li, "wrong number of arguments"@))
            },
            ValueM::Func(def, captured) => if vals.len() != def.params.len() {
                EvalR::Fail(st, rerr(li, "wrong number of arguments"@))
            } else if !(0 <= captured < st.env.len()) {
                EvalR::Fail(st, rerr(li, "function scope is gone"@))
            } else {
                let ns = st.env.len() as int;
                let env1 = st.env.push(ScopeM { vars: Seq::empty(), parent: Some(captured) });
                let env2 = bind_upto(env1, ns, def.params, vals, def.params.len());
                match ex_stmts(
                    StM { env: env2, cur: ns, out: st.out },
                    def.body,
                    0,
                    (fuel - 1) as nat,
                ) {
                    ExecR::Norm(st2) => EvalR::Val(StM { cur: st.cur, ..st2 }, ValueM::Nil),
                    ExecR::Ret(st2, v, _) => EvalR::Val(StM { cur: st.cur, ..st2 }, v),
                    ExecR::Fail(st2, er) => EvalR::Fail(st2, er),
                }
            },
            _ => EvalR::Fail(st, terr(li, "can only call functions"@)),
        }
    }
}

/// Executing one statement.
pub open spec fn ex_stmt(st: StM, s: StmtM, fuel: nat) -> ExecR
    decreases fuel, 0int,
{
    if fuel == 0 {
        ExecR::Fail(st, depth_err())
    } else {
        match s {
            StmtM::ExprStmt(e) => match ev_expr(st, e, (fuel - 1) as nat) {
                EvalR::Val(st1, _) => ExecR::Norm(st1),
                EvalR::Fail(st1, er) => ExecR::Fail(st1, er),
            },
            StmtM::VarDecl(n, init, _li) => {
                let r = match init {
                    Some(e) => ev_expr(st, e, (fuel - 1) as nat),
                    None => EvalR::Val(st, ValueM::Nil),
                };
                match r {
                    EvalR::Val(st1, v) => ExecR::Norm(
                        StM { env: env_define(st1.env, st1.cur, n, v), ..st1 },
                    ),
                    EvalR::Fail(st1, er) => ExecR::Fail(st1, er),
                }
            },
            StmtM::Block(ss) => {
                let child = st.env.len() as int;
                let st1 = StM {
                    env: st.env.push(ScopeM { vars: Seq::empty(), parent: Some(st.cur) }),
                    cur: child,
                    out: st.out,
                };
                match ex_stmts(st1, ss, 0, (fuel - 1) as nat) {
                    ExecR::Norm(st2) => ExecR::Norm(StM { cur: st.cur, ..st2 }),
                    ExecR::Ret(st2, v, li) => ExecR::Ret(StM { cur: st.cur, ..st2 }, v, li),
                    f => f,
                }
            },
            StmtM::If(c, t, e, _li) => match ev_expr(st, c, (fuel - 1) as nat) {
                EvalR::Val(st1, cv) => if truthy_spec(cv) {
                    ex_stmt(st1, *t, (fuel - 1) as nat)
                } else {
                    match e {
                        Some(s2) => ex_stmt(st1, *s2, (fuel - 1) as nat),
                        None => ExecR::Norm(st1),
                    }
                },
                EvalR::Fail(st1, er) => ExecR::Fail(st1, er),
            },
            StmtM::While(c, b, li) => ex_while(st, c, *b, li, (fuel - 1) as nat),
            StmtM::FnDecl(n, def, _li) => ExecR::Norm(
                StM { env: env_define(st.env, st.cur, n, ValueM::Func(def, st.cur)), ..st },
            ),
            StmtM::Return(init, li) => {
                let r = match init {
                    Some(e) => ev_expr(st, e, (fuel - 1) as nat),
                    None => EvalR::Val(st, ValueM::Nil),
                };
                match r {
                    EvalR::Val(st1, v) => ExecR::Ret(st1, v, li),
                    EvalR::Fail(st1, er) => ExecR::Fail(st1, er),
                }
            },
        }
    }
}

/// The loop: test, then run the body, as long as the condition is truthy.
pub open spec fn ex_while(st: StM, c: ExprM, b: StmtM, li: LineInfo, fuel: nat) -> ExecR
    decreases fuel, 1int,
{
    if fuel == 0 {
        ExecR::Fail(st, depth_err())
    } else {
        match ev_expr(st, c, (fuel - 1) as nat) {
            EvalR::Val(st1, cv) => if !truthy_spec(cv) {
                ExecR::Norm(st1)
            } else {
                match ex_stmt(st1, b, (fuel - 1) as nat) {
                    ExecR::Norm(st2) => ex_while(st2, c, b, li, (fuel - 1) as nat),
                    f => f,
                }
            },
            EvalR::Fail(st1, er) => ExecR::Fail(st1, er),
        }
    }
}

/// Executing the statements `ss[k..]` in order.
pub open spec fn ex_stmts(st: StM, ss: Seq<StmtM>, k: nat, fuel: nat) -> ExecR
    decreases fuel, ss.len() - k + 1,
{
    if k >= ss.len() {
        ExecR::Norm(st)
    } else {
        match ex_stmt(st, ss[k as int], fuel) {
            ExecR::Norm(st1) => ex_stmts(st1, ss, k + 1, fuel),
            f => f,
        }
    }
}

/// Running a whole program: a return signal reaching the top level is a
/// runtime error.
pub open spec fn prog_result(st: StM, prog: Seq<StmtM>, fuel: nat) -> ExecR {
    match ex_stmts(st, prog, 0, fuel) {
        ExecR::Ret(st2, _, li) => ExecR::Fail(st2, rerr(li, "return outside function"@)),
        other => other,
    }
}

// ---------------------------------------------------------------------------
// Laws of evaluation.
// ---------------------------------------------------------------------------

/// Expressions built only from numeric literals, negation, and the
/// arithmetic operators.
pub open spec fn arith_only(e: ExprM) -> bool
    decreases e,
{
    match e {
        ExprM::Literal(l, _) => l is Num,
        ExprM::Unary(op, a, _) => op is Neg && arith_only(*a),
        ExprM::Binary(op, a, b, _) => (op is Add || op is Sub || op is Mul || op is Div)
            && arith_only(*a) && arith_only(*b),
        ExprM::Grouping(a) => arith_only(*a),
        _ => false,
    }
}

/// Exact integer arithmetic over such an expression: its value, or the
/// math error it raises (division by zero, a result outside `i64`).
pub open spec fn arith_eval(e: ExprM) -> Result<ValueM, ErrM>
    decreases e,
{
    match e {
        ExprM::Literal(l, _) => Ok(lit_val(l)),
        ExprM::Unary(op, a, li) => match arith_eval(*a) {
            Ok(v) => un_val(op, v, li),
            Err(er) => Err(er),
        },
        ExprM::Binary(op, a, b, li) => match arith_eval(*a) {
            Ok(va) => match arith_eval(*b) {
                Ok(vb) => bin_val(op, va, vb, li),
                Err(er) => Err(er),
            },
            Err(er) => Err(er),
        },
        ExprM::Grouping(a) => arith_eval(*a),
        _ => Err(depth_err()),
    }
}

/// The height of an expression tree: a sufficient step budget for its
/// evaluation.
pub open spec fn eheight(e: ExprM) -> nat
    decreases e,
{
    match e {
        ExprM::Literal(_, _) => 1,
        ExprM::Variable(_, _) => 1,
        ExprM::Assign(_, a, _) => 1 + eheight(*a),
        ExprM::Unary(_, a, _) => 1 + eheight(*a),
        ExprM::Binary(_, a, b, _) => 1 + if eheight(*a) > eheight(*b) {
            eheight(*a)
        } else {
            eheight(*b)
        },
        ExprM::Logical(_, a, b, _) => 1 + if eheight(*a) > eheight(*b) {
            eheight(*a)
        } else {
            eheight(*b)
        },
        ExprM::Call(f, _, _) => 1 + eheight(*f),
        ExprM::Grouping(a) => 1 + eheight(*a),
    }
}

/// The outcome that exact arithmetic dictates, against an untouched state.
pub open spec fn arith_outcome(st: StM, e: ExprM) -> EvalR {
    match arith_eval(e) {
        Ok(v) => EvalR::Val(st, v),
        Err(er) => EvalR::Fail(st, er),
    }
}

/// Evaluation of an expression built only from numeric literals and
/// arithmetic operators is pure and exact: against any state, with any
/// sufficient step budget, it leaves the state untouched and yields
/// precisely the exact integer result, including the math error on division
/// by zero or on a result outside `i64`.
pub proof fn lemma_arith_pure(stt: StM, e: ExprM, fuel: nat)
    requires
        arith_only(e),
        eheight(e) <= fuel,
    ensures
        ev_expr(stt, e, fuel) == arith_outcome(stt, e),
    decreases eheight(e),
{
    match e {
        ExprM::Literal(_, _) => {},
        ExprM::Unary(_, a, _) => {
            lemma_arith_pure(stt, *a, (fuel - 1) as nat);
        },
        ExprM::Binary(_, a, b, _) => {
            lemma_arith_pure(stt, *a, (fuel - 1) as nat);
            match arith_eval(*a) {
                Ok(_) => {
                    lemma_arith_pure(stt, *b, (fuel - 1) as nat);
                },
                Err(_) => {},
            }
        },
        ExprM::Grouping(a) => {
            lemma_arith_pure(stt, *a, (fuel - 1) as nat);
        },
        _ => {},
    }
}

// ---------------------------------------------------------------------------
// The executable interpreter: proved to compute exactly what the
// mathematical interpreter computes.
// ---------------------------------------------------------------------------

pub open spec fn vals_vm(vs: Seq<Value>) -> Seq<ValueM> {
    vs.map_values(|v: Value| value_view(&v))
}

/// The mutable interpreter state.
#[derive(Debug)]
pub struct Interp {
    pub environ: Environment,
    pub cur: usize,
    pub output: Vec<Value>,
}

pub open spec fn st_of(it: Interp) -> StM {
    StM { env: it.environ@, cur: it.cur as int, out: vals_vm(it.output@) }
}

pub open spec fn it_wf(it: Interp) -> bool {
    st_wf(st_of(it))
}

/// A normal or early-returning completion of a statement.
#[derive(Debug)]
pub enum Flow {
    Norm,
    Ret(Value, LineInfo),
}

fn err_depth() -> (r: Error)
    ensures
        r@ == depth_err(),
{
    Error::new(LineInfo::new(0, 0), "step budget exhausted".to_owned(), ErrorType::RuntimeError)
}

fn err_run(li: LineInfo, msg: &str) -> (r: Error)
    ensures
        r@ == rerr(li, msg@),
{
    Error::new(li, msg.to_owned(), ErrorType::RuntimeError)
}

fn err_type(li: LineInfo, msg: &str) -> (r: Error)
    ensures
        r@ == terr(li, msg@),
{
    Error::new(li, msg.to_owned(), ErrorType::TypeError)
}

fn err_math(li: LineInfo, msg: &str) -> (r: Error)
    ensures
        r@ == merr(li, msg@),
{
    Error::new(li, msg.to_owned(), ErrorType::MathError)
}

/// Joins two character sequences.
fn concat_chars(a: &Vec<char>, b: &Vec<char>) -> (r: Vec<char>)
    ensures
        r@ == a@ + b@,
{
    let mut r = clone_chars(a);
    let mut k: usize = 0;
    while k < b.len()
        invariant
            k <= b@.len(),
            r@ == a@ + b@.subrange(0, k as int),
        decreases b@.len() - k,
    {
        r.push(b[k]);
        k = k + 1;
        assert(r@ =~= a@ + b@.subrange(0, k as int));
    }
    assert(r@ =~= a@ + b@);
    r
}

/// The magnitude of a signed number.
fn abs_mag(x: i64) -> (r: u64)
    ensures
        r as int == abs_of(x as int),
{
    if x >= 0 {
        x as u64
    } else {
        (-(x as i128)) as u64
    }
}

/// Truncating division of machine integers.
fn div_vals(x: i64, y: i64) -> (r: i64)
    requires
        y != 0,
        !(x == i64::MIN && y == -1),
    ensures
        r as int == div_trunc(x as int, y as int),
        i64::MIN <= div_trunc(x as int, y as int) <= i64::MAX,
{
    let xm = abs_mag(x);
    let ym = abs_mag(y);
    let q = xm / ym;
    proof {
        assert(q <= xm) by (nonlinear_arith)
            requires
                q == xm / ym,
                ym >= 1,
        {}
        if xm == 0x8000_0000_0000_0000u64 && ym == 1 {
            assert(y == 1 || y == -1);
        }
        if q == 0x8000_0000_0000_0000u64 {
            assert(q * ym <= xm) by (nonlinear_arith)
                requires
                    q == xm / ym,
                    ym >= 1,
            {}
            assert(ym == 1);
        }
    }
    if (x < 0) == (y < 0) {
        q as i64
    } else {
        if q == 0x8000_0000_0000_0000u64 {
            i64::MIN
        } else {
            -(q as i64)
        }
    }
}

/// Language equality on values.
fn val_equal(a: &Value, b: &Value, li: LineInfo) -> (r: Result<bool, Error>)
    ensures
        match r {
            Ok(eq) => val_eq(value_view(a), value_view(b), li) == Ok::<bool, ErrM>(eq),
            Err(e) => val_eq(value_view(a), value_view(b), li) == Err::<bool, ErrM>(e@),
        },
{
    match (a, b) {
        (Value::Func(_, _), _) | (Value::Native(_), _) | (_, Value::Func(_, _)) | (
            _,
            Value::Native(_),
        ) => Err(err_type(li, "cannot compare functions")),
        (Value::Num(x), Value::Num(y)) => Ok(*x == *y),
        (Value::Str(x), Value::Str(y)) => Ok(crate::value::chars_eq(x, y)),
        (Value::Bool(x), Value::Bool(y)) => Ok(*x == *y),
        (Value::Nil, Value::Nil) => Ok(true),
        _ => Ok(false),
    }
}

/// Applies a unary operator.
fn eval_un(op: UnOp, v: Value, li: LineInfo) -> (r: Result<Value, Error>)
    ensures
        match r {
            Ok(v2) => un_val(op, value_view(&v), li) == Ok::<ValueM, ErrM>(value_view(&v2)),
            Err(e) => un_val(op, value_view(&v), li) == Err::<ValueM, ErrM>(e@),
        },
{
    match op {
        UnOp::Neg => match v {
            Value::Num(n) => if n == i64::MIN {
                Err(err_math(li, "integer overflow"))
            } else {
                Ok(Value::Num(-n))
            },
            _ => Err(err_type(li, "operand must be a number")),
        },
        UnOp::Not => {
            let t = truthy(&v);
            Ok(Value::Bool(!t))
        },
    }
}

/// Applies a binary operator.
#[verifier::rlimit(100)]
fn eval_bin(op: BinOp, a: Value, b: Value, li: LineInfo) -> (r: Result<Value, Error>)
    ensures
        match r {
            Ok(v2) => bin_val(op, value_view(&a), value_view(&b), li) == Ok::<ValueM, ErrM>(
                value_view(&v2),
            ),
            Err(e) => bin_val(op, value_view(&a), value_view(&b), li) == Err::<ValueM, ErrM>(e@),
        },
{
    match op {
        BinOp::Add => match (&a, &b) {
            (Value::Num(x), Value::Num(y)) => {
                let s = (*x as i128) + (*y as i128);
                if s < i64::MIN as i128 || s > i64::MAX as i128 {
                    Err(err_math(li, "integer overflow"))
                } else {
                    Ok(Value::Num(s as i64))
                }
            },
            (Value::Str(x), Value::Str(y)) => Ok(Value::Str(concat_chars(x, y))),
            _ => Err(err_type(li, "operands must be two numbers or two strings")),
        },
        BinOp::Sub => match (&a, &b) {
            (Value::Num(x), Value::Num(y)) => {
                let s = (*x as i128) - (*y as i128);
                if s < i64::MIN as i128 || s > i64::MAX as i128 {
                    Err(err_math(li, "integer overflow"))
                } else {
                    Ok(Value::Num(s as i64))
                }
            },
            _ => Err(err_type(li, "operands must be numbers")),
        },
        BinOp::Mul => match (&a, &b) {
            (Value::Num(x), Value::Num(y)) => {
                proof {
                    assert((*x as int) * (*y as int) <= 0x4000_0000_0000_0000_0000_0000_0000_0000int
                        && (*x as int) * (*y as int)
                        >= -0x4000_0000_0000_0000_0000_0000_0000_0000int) by (nonlinear_arith)
                        requires
                            -0x8000_0000_0000_0000 <= *x as int <= 0x7fff_ffff_ffff_ffff,
                            -0x8000_0000_0000_0000 <= *y as int <= 0x7fff_ffff_ffff_ffff,
                    {}
                }
                let s = (*x as i128) * (*y as i128);
                if s < i64::MIN as i128 || s > i64::MAX as i128 {
                    Err(err_math(li, "integer overflow"))
                } else {
                    Ok(Value::Num(s as i64))
                }
            },
            _ => Err(err_type(li, "operands must be numbers")),
        },
        BinOp::Div => match (&a, &b) {
            (Value::Num(x), Value::Num(y)) => if *y == 0 {
                Err(err_math(li, "division by zero"))
            } else if *x == i64::MIN && *y == -1 {
                Err(err_math(li, "integer overflow"))
            } else {
                Ok(Value::Num(div_vals(*x, *y)))
            },
            _ => Err(err_type(li, "operands must be numbers")),
        },
        BinOp::Eq => match val_equal(&a, &b, li) {
            Ok(eq) => Ok(Value::Bool(eq)),
            Err(e) => Err(e),
        },
        BinOp::Ne => match val_equal(&a, &b, li) {
            Ok(eq) => Ok(Value::Bool(!eq)),
            Err(e) => Err(e),
        },
        BinOp::Lt => match (&a, &b) {
            (Value::Num(x), Value::Num(y)) => Ok(Value::Bool(*x < *y)),
            _ => Err(err_type(li, "operands must be numbers")),
        },
        BinOp::Le => match (&a, &b) {
            (Value::Num(x), Value::Num(y)) => Ok(Value::Bool(*x <= *y)),
            _ => Err(err_type(li, "operands must be numbers")),
        },
        BinOp::Gt => match (&a, &b) {
            (Value::Num(x), Value::Num(y)) => Ok(Value::Bool(*x > *y)),
            _ => Err(err_type(li, "operands must be numbers")),
        },
        BinOp::Ge => match (&a, &b) {
            (Value::Num(x), Value::Num(y)) => Ok(Value::Bool(*x >= *y)),
            _ => Err(err_type(li, "operands must be numbers")),
        },
    }
}

/// Evaluates an expression against the current state.
#[verifier::rlimit(100)]
fn eval_expr(it: &mut Interp, e: &Expr, fuel: u64) -> (r: Result<Value, Error>)
    requires
        it_wf(*old(it)),
    ensures
        it_wf(*final(it)),
        old(it).environ@.len() <= final(it).environ@.len(),
        match r {
            Ok(v) => ev_expr(st_of(*old(it)), expr_view(e), fuel as nat) == EvalR::Val(
                st_of(*final(it)),
                value_view(&v),
            ),
            Err(er) => ev_expr(st_of(*old(it)), expr_view(e), fuel as nat) == EvalR::Fail(
                st_of(*final(it)),
                er@,
            ),
        },
    decreases fuel, 0int,
{
    if fuel == 0 {
        return Err(err_depth());
    }
    match e {
        Expr::Literal(l, _) => match l {
            Lit::Num(n) => Ok(Value::Num(*n)),
            Lit::Str(sv) => Ok(Value::Str(clone_chars(sv))),
            Lit::True => Ok(Value::Bool(true)),
            Lit::False => Ok(Value::Bool(false)),
            Lit::Nil => Ok(Value::Nil),
        },
        Expr::Variable(n, li) => match it.environ.get(it.cur, n) {
            Some(v) => Ok(v),
            None => Err(err_run(*li, "undefined variable")),
        },
        Expr::Assign(n, sub, li) => match eval_expr(it, sub, fuel - 1) {
            Ok(v) => {
                let v2 = clone_value(&v);
                let ghost envpre = it.environ@;
                let ghost vv = value_view(&v);
                let ghost sc = it.cur as int;
                let ok = it.environ.assign(it.cur, n, v);
                proof {
                    crate::environment::lemma_env_ops_len(envpre, sc, n@, vv);
                }
                if ok {
                    Ok(v2)
                } else {
                    Err(err_run(*li, "undefined variable"))
                }
            },
            Err(er) => Err(er),
        },
        Expr::Unary(op, sub, li) => match eval_expr(it, sub, fuel - 1) {
            Ok(v) => eval_un(*op, v, *li),
            Err(er) => Err(er),
        },
        Expr::Binary(op, sa, sb, li) => match eval_expr(it, sa, fuel - 1) {
            Ok(va) => match eval_expr(it, sb, fuel - 1) {
                Ok(vb) => eval_bin(*op, va, vb, *li),
                Err(er) => Err(er),
            },
            Err(er) => Err(er),
        },
        Expr::Logical(op, sa, sb, _li) => match eval_expr(it, sa, fuel - 1) {
            Ok(va) => {
                let t = truthy(&va);
                let take_left = match op {
                    LogOp::Or => t,
                    LogOp::And => !t,
                };
                if take_left {
                    Ok(va)
                } else {
                    eval_expr(it, sb, fuel - 1)
                }
            },
            Err(er) => Err(er),
        },
        Expr::Call(f, args, li) => match eval_expr(it, f, fuel - 1) {
            Ok(fv) => match eval_args(it, args, fuel - 1) {
                Ok(argv) => call_value(it, fv, argv, *li, fuel - 1),
                Err(er) => Err(er),
            },
            Err(er) => Err(er),
        },
        Expr::Grouping(sub) => eval_expr(it, sub, fuel - 1),
    }
}

/// Evaluates an argument list left to right.
#[verifier::rlimit(100)]
#[verifier::loop_isolation(false)]
fn eval_args(it: &mut Interp, args: &Vec<Expr>, fuel: u64) -> (r: Result<Vec<Value>, Error>)
    requires
        it_wf(*old(it)),
    ensures
        it_wf(*final(it)),
        old(it).environ@.len() <= final(it).environ@.len(),
        match r {
            Ok(vs) => ev_args(
                st_of(*old(it)),
                exprs_view(args@),
                0,
                Seq::empty(),
                fuel as nat,
            ) == ArgsR::Vals(st_of(*final(it)), vals_vm(vs@)),
            Err(er) => ev_args(
                st_of(*old(it)),
                exprs_view(args@),
                0,
                Seq::empty(),
                fuel as nat,
            ) == ArgsR::Fail(st_of(*final(it)), er@),
        },
    decreases fuel, args@.len() + 1,
{
    let ghost st0 = st_of(*it);
    let ghost am = exprs_view(args@);
    proof {
        lemma_exprs_view_len(args@);
    }
    let mut out: Vec<Value> = Vec::new();
    proof {
        assert(vals_vm(out@) =~= Seq::<ValueM>::empty());
    }
    let mut k: usize = 0;
    while k < args.len()
        invariant
            it_wf(*it),
            old(it).environ@.len() <= it.environ@.len(),
            k <= args@.len(),
            am == exprs_view(args@),
            am.len() == args@.len(),
            ev_args(st0, am, 0, Seq::empty(), fuel as nat) == ev_args(
                st_of(*it),
                am,
                k as nat,
                vals_vm(out@),
                fuel as nat,
            ),
        decreases args@.len() - k,
    {
        proof {
            lemma_exprs_view_index(args@, k as int);
        }
        match eval_expr(it, &args[k], fuel) {
            Ok(v) => {
                let ghost out0 = out@;
                let ghost vv = value_view(&v);
                out.push(v);
                proof {
                    assert(vals_vm(out@) =~= vals_vm(out0).push(vv));
                }
                k = k + 1;
            },
            Err(er) => {
                return Err(er);
            },
        }
    }
    Ok(out)
}

/// Calls a value on already-evaluated arguments.
#[verifier::rlimit(100)]
#[verifier::loop_isolation(false)]
fn call_value(it: &mut Interp, fv: Value, argv: Vec<Value>, li: LineInfo, fuel: u64) -> (r: Result<
    Value,
    Error,
>)
    requires
        it_wf(*old(it)),
    ensures
        it_wf(*final(it)),
        old(it).environ@.len() <= final(it).environ@.len(),
        match r {
            Ok(v) => call_val(
                st_of(*old(it)),
                value_view(&fv),
                vals_vm(argv@),
                li,
                fuel as nat,
            ) == EvalR::Val(st_of(*final(it)), value_view(&v)),
            Err(er) => call_val(
                st_of(*old(it)),
                value_view(&fv),
                vals_vm(argv@),
                li,
                fuel as nat,
            ) == EvalR::Fail(st_of(*final(it)), er@),
        },
    decreases fuel, 1int,
{
    if fuel == 0 {
        return Err(err_depth());
    }
    match fv {
        Value::Native(Native::Print) => {
            if argv.len() == 1 {
                let mut argv = argv;
                let ghost argv0 = argv@;
                let v = argv.remove(0);
                let ghost out0 = it.output@;
                it.output.push(v);
                proof {
                    assert(vals_vm(it.output@) =~= vals_vm(out0).push(vals_vm(argv0)[0]));
                }
                Ok(Value::Nil)
            } else {
                Err(err_run(li, "wrong number of arguments"))
            }
        },
        Value::Func(def, captured) => {
            if argv.len() != def.params.len() {
                return Err(err_run(li, "wrong number of arguments"));
            }
            if captured >= it.environ.scopes.len() {
                return Err(err_run(li, "function scope is gone"));
            }
            proof {
                assert(it.environ@.len() == it.environ.scopes@.len());
            }
            let ns = it.environ.push_scope(captured);
            let ghost env1 = it.environ@;
            let n = def.params.len();
            let mut k: usize = 0;
            while k < n
        invariant
                    env_wf(it.environ@),
                    ns < it.environ@.len(),
                    k <= n,
                    n == def.params@.len(),
                    n == argv@.len(),
                    it.cur == old(it).cur,
                    it.output == old(it).output,
                    env1.len() <= it.environ@.len(),
                    it.environ@ =~~= bind_upto(
                        env1,
                        ns as int,
                        crate::nodes::names_view(def.params@),
                        vals_vm(argv@),
                        k as nat,
                    ),
                decreases n - k,
            {
                let v = clone_value(&argv[k]);
                it.environ.define(ns, &def.params[k], v);
                proof {
                    assert(it.environ@ =~~= bind_upto(
                        env1,
                        ns as int,
                        crate::nodes::names_view(def.params@),
                        vals_vm(argv@),
                        (k + 1) as nat,
                    ));
                }
                k = k + 1;
            }
            let savedcur = it.cur;
            it.cur = ns;
            let body_r = exec_stmts(it, &def.body, fuel - 1);
            match body_r {
                Ok(Flow::Norm) => {
                    it.cur = savedcur;
                    Ok(Value::Nil)
                },
                Ok(Flow::Ret(v, _)) => {
                    it.cur = savedcur;
                    Ok(v)
                },
                Err(er) => Err(er),
            }
        },
        _ => Err(err_type(li, "can only call functions")),
    }
}

/// Executes one statement.
#[verifier::rlimit(100)]
fn exec_stmt(it: &mut Interp, s: &Stmt, fuel: u64) -> (r: Result<Flow, Error>)
    requires
        it_wf(*old(it)),
    ensures
        it_wf(*final(it)),
        old(it).environ@.len() <= final(it).environ@.len(),
        match r {
            Ok(f) => match f {
                Flow::Norm => ex_stmt(st_of(*old(it)), stmt_view(s), fuel as nat) == ExecR::Norm(
                    st_of(*final(it)),
                ),
                Flow::Ret(v, li) => ex_stmt(st_of(*old(it)), stmt_view(s), fuel as nat)
                    == ExecR::Ret(st_of(*final(it)), value_view(&v), li),
            },
            Err(er) => ex_stmt(st_of(*old(it)), stmt_view(s), fuel as nat) == ExecR::Fail(
                st_of(*final(it)),
                er@,
            ),
        },
    decreases fuel, 0int,
{
    if fuel == 0 {
        return Err(err_depth());
    }
    match s {
        Stmt::ExprStmt(e) => match eval_expr(it, e, fuel - 1) {
            Ok(_) => Ok(Flow::Norm),
            Err(er) => Err(er),
        },
        Stmt::VarDecl(n, init, _li) => {
            let rv = match init {
                Some(e) => eval_expr(it, e, fuel - 1),
                None => Ok(Value::Nil),
            };
            match rv {
                Ok(v) => {
                    let ghost envpre = it.environ@;
                    let ghost vv = value_view(&v);
                    let ghost sc = it.cur as int;
                    it.environ.define(it.cur, n, v);
                    proof {
                        crate::environment::lemma_env_ops_len(envpre, sc, n@, vv);
                    }
                    Ok(Flow::Norm)
                },
                Err(er) => Err(er),
            }
        },
        Stmt::Block(ss) => {
            let child = it.environ.push_scope(it.cur);
            let saved = it.cur;
            it.cur = child;
            match exec_stmts(it, ss, fuel - 1) {
                Ok(Flow::Norm) => {
                    it.cur = saved;
                    Ok(Flow::Norm)
                },
                Ok(Flow::Ret(v, li)) => {
                    it.cur = saved;
                    Ok(Flow::Ret(v, li))
                },
                Err(er) => Err(er),
            }
        },
        Stmt::If(c, t, els, _li) => match eval_expr(it, c, fuel - 1) {
            Ok(cv) => {
                if truthy(&cv) {
                    exec_stmt(it, t, fuel - 1)
                } else {
                    match els {
                        Some(s2) => exec_stmt(it, s2, fuel - 1),
                        None => Ok(Flow::Norm),
                    }
                }
            },
            Err(er) => Err(er),
        },
        Stmt::While(c, b, li) => exec_while(it, c, b, *li, fuel - 1),
        Stmt::FnDecl(n, def, _li) => {
            let v = Value::Func(def.clone(), it.cur);
            let ghost envpre = it.environ@;
            let ghost vv = value_view(&v);
            let ghost sc = it.cur as int;
            it.environ.define(it.cur, n, v);
            proof {
                crate::environment::lemma_env_ops_len(envpre, sc, n@, vv);
            }
            Ok(Flow::Norm)
        },
        Stmt::Return(init, li) => {
            let rv = match init {
                Some(e) => eval_expr(it, e, fuel - 1),
                None => Ok(Value::Nil),
            };
            match rv {
                Ok(v) => Ok(Flow::Ret(v, *li)),
                Err(er) => Err(er),
            }
        },
    }
}

/// Runs a loop: test, then body, while the condition is truthy.
#[verifier::rlimit(100)]
#[verifier::loop_isolation(false)]
fn exec_while(it: &mut Interp, c: &Expr, b: &Stmt, li: LineInfo, fuel: u64) -> (r: Result<
    Flow,
    Error,
>)
    requires
        it_wf(*old(it)),
    ensures
        it_wf(*final(it)),
        old(it).environ@.len() <= final(it).environ@.len(),
        match r {
            Ok(f) => match f {
                Flow::Norm => ex_while(
                    st_of(*old(it)),
                    expr_view(c),
                    stmt_view(b),
                    li,
                    fuel as nat,
                ) == ExecR::Norm(st_of(*final(it))),
                Flow::Ret(v, rli) => ex_while(
                    st_of(*old(it)),
                    expr_view(c),
                    stmt_view(b),
                    li,
                    fuel as nat,
                ) == ExecR::Ret(st_of(*final(it)), value_view(&v), rli),
            },
            Err(er) => ex_while(st_of(*old(it)), expr_view(c), stmt_view(b), li, fuel as nat)
                == ExecR::Fail(st_of(*final(it)), er@),
        },
    decreases fuel, 1int,
{
    let ghost st0 = st_of(*it);
    let mut g = fuel;
    loop
        invariant
            it_wf(*it),
            old(it).environ@.len() <= it.environ@.len(),
            g <= fuel,
            ex_while(st0, expr_view(c), stmt_view(b), li, fuel as nat) == ex_while(
                st_of(*it),
                expr_view(c),
                stmt_view(b),
                li,
                g as nat,
            ),
        decreases g,
    {
        if g == 0 {
            return Err(err_depth());
        }
        match eval_expr(it, c, g - 1) {
            Ok(cv) => {
                if !truthy(&cv) {
                    return Ok(Flow::Norm);
                }
                match exec_stmt(it, b, g - 1) {
                    Ok(Flow::Norm) => {
                        g = g - 1;
                    },
                    Ok(Flow::Ret(v, rli)) => {
                        return Ok(Flow::Ret(v, rli));
                    },
                    Err(er) => {
                        return Err(er);
                    },
                }
            },
            Err(er) => {
                return Err(er);
            },
        }
    }
}

/// Executes the statements of `ss` in order.
#[verifier::rlimit(100)]
#[verifier::loop_isolation(false)]
fn exec_stmts(it: &mut Interp, ss: &Vec<Stmt>, fuel: u64) -> (r: Result<Flow, Error>)
    requires
        it_wf(*old(it)),
    ensures
        it_wf(*final(it)),
        old(it).environ@.len() <= final(it).environ@.len(),
        match r {
            Ok(f) => match f {
                Flow::Norm => ex_stmts(st_of(*old(it)), stmts_view(ss@), 0, fuel as nat)
                    == ExecR::Norm(st_of(*final(it))),
                Flow::Ret(v, li) => ex_stmts(st_of(*old(it)), stmts_view(ss@), 0, fuel as nat)
                    == ExecR::Ret(st_of(*final(it)), value_view(&v), li),
            },
            Err(er) => ex_stmts(st_of(*old(it)), stmts_view(ss@), 0, fuel as nat) == ExecR::Fail(
                st_of(*final(it)),
                er@,
            ),
        },
    decreases fuel, ss@.len() + 1,
{
    let ghost st0 = st_of(*it);
    let ghost sm = stmts_view(ss@);
    proof {
        lemma_stmts_view_len(ss@);
    }
    let mut k: usize = 0;
    while k < ss.len()
        invariant
            it_wf(*it),
            old(it).environ@.len() <= it.environ@.len(),
            k <= ss@.len(),
            sm == stmts_view(ss@),
            sm.len() == ss@.len(),
            ex_stmts(st0, sm, 0, fuel as nat) == ex_stmts(st_of(*it), sm, k as nat, fuel as nat),
        decreases ss@.len() - k,
    {
        proof {
            lemma_stmts_view_index(ss@, k as int);
        }
        match exec_stmt(it, &ss[k], fuel) {
            Ok(Flow::Norm) => {
                k = k + 1;
            },
            Ok(Flow::Ret(v, li)) => {
                return Ok(Flow::Ret(v, li));
            },
            Err(er) => {
                return Err(er);
            },
        }
    }
    Ok(Flow::Norm)
}

/// The step budget of one run: ample for real programs, and enough to make
/// every run finish.
pub const RUN_FUEL: u64 = 1_000_000;

/// The interpreter: walks the statement sequence against its environment.
/// On success the environment holds every effect; on failure the effects of
/// the statements before the failing one persist in `st`.
#[derive(Debug)]
pub struct Interpreter {
    pub tree: Vec<Stmt>,
    pub st: Interp,
}

impl Interpreter {
    pub fn new(tree: Vec<Stmt>, environ: Environment) -> (r: Self)
        ensures
            r.tree@ == tree@,
            r.st.environ@ == environ@,
            r.st.cur == 0,
            r.st.output@.len() == 0,
            env_wf(environ@) ==> it_wf(r.st),
    {
        Interpreter { tree, st: Interp { environ, cur: 0, output: Vec::new() } }
    }

    /// Runs the whole program with the standard step budget. The outcome is
    /// exactly the mathematical interpreter's outcome on the program.
    pub fn init(&mut self) -> (r: Result<(), Error>)
        requires
            it_wf(old(self).st),
        ensures
            it_wf(final(self).st),
            final(self).tree@ == old(self).tree@,
            match r {
                Ok(_) => prog_result(
                    st_of(old(self).st),
                    stmts_view(old(self).tree@),
                    RUN_FUEL as nat,
                ) == ExecR::Norm(st_of(final(self).st)),
                Err(e) => prog_result(
                    st_of(old(self).st),
                    stmts_view(old(self).tree@),
                    RUN_FUEL as nat,
                ) == ExecR::Fail(st_of(final(self).st), e@),
            },
    {
        match exec_stmts(&mut self.st, &self.tree, RUN_FUEL) {
            Ok(Flow::Norm) => Ok(()),
            Ok(Flow::Ret(_, li)) => Err(err_run(li, "return outside function")),
            Err(e) => Err(e),
        }
    }
}

} // verus!
