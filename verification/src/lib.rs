use vstd::prelude::*;

pub mod environment;
pub mod error;
pub mod interpreter;
pub mod lexer;
pub mod nodes;
pub mod parser;
pub mod token;
pub mod value;

verus! {

use crate::environment::{env_define, env_wf, Environment, ScopeM};
use crate::error::{ErrM, Error};
use crate::interpreter::{prog_result, rerr, vals_vm, ExecR, Interpreter, StM, RUN_FUEL};
use crate::lexer::{lex_from, Lexer, MAX_SOURCE_LEN};
use crate::parser::{p_program, Parser};
use crate::value::{Native, Value, ValueM};

/// A successful run: the environment with every effect applied, and the
/// values printed, in order.
pub struct RunResult {
    pub environ: Environment,
    pub output: Vec<Value>,
}

/// The whole pipeline, at the mathematical level: lex, parse, then interpret
/// against `env` with the native `print` bound in the global scope. Each
/// stage stops the pipeline at its first error.
pub open spec fn run_spec(src: Seq<char>, env: Seq<ScopeM>) -> Result<StM, ErrM> {
    match lex_from(src, 0, 1, 1) {
        Err(e) => Err(e),
        Ok(ts) => match p_program(ts, 0) {
            Err(e) => Err(e),
            Ok(prog) => {
                let st0 = StM {
                    env: env_define(env, 0, "print"@, ValueM::Native(Native::Print)),
                    cur: 0,
                    out: Seq::empty(),
                };
                match prog_result(st0, prog, RUN_FUEL as nat) {
                    ExecR::Norm(st) => Ok(st),
                    ExecR::Ret(_, _, li) => Err(rerr(li, "return outside function"@)),
                    ExecR::Fail(_, e) => Err(e),
                }
            },
        },
    }
}

fn print_name() -> (r: Vec<char>)
    ensures
        r@ == "print"@,
{
    proof {
        reveal_strlit("print");
    }
    let mut r: Vec<char> = Vec::new();
    r.push('p');
    r.push('r');
    r.push('i');
    r.push('n');
    r.push('t');
    proof {
        assert(r@ =~= "print"@);
    }
    r
}

/// Runs source text against an environment: the three-stage pipeline. On
/// success the result holds the updated environment and the printed values;
/// on failure, the first error, with its position and category.
pub fn run(source: Vec<char>, environ: Environment) -> (r: Result<RunResult, Error>)
    requires
        source@.len() <= MAX_SOURCE_LEN,
        env_wf(environ@),
    ensures
        match r {
            Ok(rr) => {
                &&& run_spec(source@, environ@) matches Ok(st) && st.env == rr.environ@
                    && st.out == vals_vm(rr.output@)
                &&& env_wf(rr.environ@)
            },
            Err(e) => run_spec(source@, environ@) == Err::<StM, ErrM>(e@),
        },
{
    let lexer = Lexer::new(source);
    let toks = match lexer.init() {
        Ok(t) => t,
        Err(e) => {
            return Err(e);
        },
    };
    let parser = Parser::new(toks);
    let tree = match parser.init() {
        Ok(t) => t,
        Err(e) => {
            return Err(e);
        },
    };
    let mut environ = environ;
    let pname = print_name();
    environ.define(0, &pname, Value::Native(Native::Print));
    let mut interp = Interpreter::new(tree, environ);
    proof {
        assert(vals_vm(interp.st.output@) =~= Seq::<ValueM>::empty());
    }
    match interp.init() {
        Ok(_) => Ok(RunResult { environ: interp.st.environ, output: interp.st.output }),
        Err(e) => Err(e),
    }
}

} // verus!
