use vstd::prelude::*;

use crate::nodes::{fndef_view, FnDef, FnDefM};
use std::rc::Rc;

verus! {

/// The host-provided operations.
#[derive(Debug, Clone, Copy, PartialEq, Eq, Structural)]
pub enum Native {
    /// Appends its single argument to the interpreter's output.
    Print,
}

/// A runtime value. A user function captures its definition and the index of
/// the environment scope it was declared in (lexical scoping: calls run in a
/// child of that scope, not of the caller's).
#[derive(Debug, Clone)]
pub enum Value {
    Num(i64),
    Str(Vec<char>),
    Bool(bool),
    Nil,
    Func(Rc<FnDef>, usize),
    Native(Native),
}

/// Mathematical model of a runtime value.
#[verifier::ext_equal]
pub enum ValueM {
    Num(i64),
    Str(Seq<char>),
    Bool(bool),
    Nil,
    Func(FnDefM, int),
    Native(Native),
}

pub open spec fn value_view(v: &Value) -> ValueM {
    match v {
        Value::Num(n) => ValueM::Num(*n),
        Value::Str(s) => ValueM::Str(s@),
        Value::Bool(b) => ValueM::Bool(*b),
        Value::Nil => ValueM::Nil,
        Value::Func(d, env) => ValueM::Func(fndef_view(d), *env as int),
        Value::Native(n) => ValueM::Native(*n),
    }
}

pub open spec fn opt_value_view(v: &Option<Value>) -> Option<ValueM> {
    match v {
        Some(v2) => Some(value_view(v2)),
        None => None,
    }
}

/// Truthiness: `nil` and `false` are falsy, every other value is truthy.
pub open spec fn truthy_spec(v: ValueM) -> bool {
    match v {
        ValueM::Nil => false,
        ValueM::Bool(b) => b,
        _ => true,
    }
}

pub fn truthy(v: &Value) -> (r: bool)
    ensures
        r == truthy_spec(value_view(v)),
{
    match v {
        Value::Nil => false,
        Value::Bool(b) => *b,
        _ => true,
    }
}

/// Copies a sequence of characters.
pub fn clone_chars(s: &Vec<char>) -> (r: Vec<char>)
    ensures
        r@ == s@,
{
    let mut r: Vec<char> = Vec::new();
    let mut k: usize = 0;
    while k < s.len()
        invariant
            k <= s@.len(),
            r@ == s@.subrange(0, k as int),
        decreases s@.len() - k,
    {
        r.push(s[k]);
        k = k + 1;
        assert(r@ =~= s@.subrange(0, k as int));
    }
    assert(r@ =~= s@);
    r
}

/// Copies a value; a function value is copied by sharing its definition.
pub fn clone_value(v: &Value) -> (r: Value)
    ensures
        value_view(&r) == value_view(v),
{
    match v {
        Value::Num(n) => Value::Num(*n),
        Value::Str(s) => Value::Str(clone_chars(s)),
        Value::Bool(b) => Value::Bool(*b),
        Value::Nil => Value::Nil,
        Value::Func(d, env) => Value::Func(d.clone(), *env),
        Value::Native(n) => Value::Native(*n),
    }
}

/// Character-sequence equality.
pub fn chars_eq(a: &Vec<char>, b: &Vec<char>) -> (r: bool)
    ensures
        r == (a@ == b@),
{
    if a.len() != b.len() {
        return false;
    }
    let mut k: usize = 0;
    while k < a.len()
        invariant
            a@.len() == b@.len(),
            k <= a@.len(),
            forall|m: int| 0 <= m < k ==> a@[m] == b@[m],
        decreases a@.len() - k,
    {
        if a[k] != b[k] {
            return false;
        }
        k = k + 1;
    }
    proof {
        assert(a@ =~= b@);
    }
    true
}

} // verus!
