use vstd::prelude::*;

use crate::value::{chars_eq, clone_chars, clone_value, opt_value_view, value_view, Value, ValueM};

verus! {

// ---------------------------------------------------------------------------
// The environment: a chain of scopes, each mapping names to values and
// pointing at its enclosing scope. Scopes live in one arena so that closure
// values can keep their defining scope alive by index; a scope's binding
// list is append-only, and a lookup reads the newest binding of a name.
// ---------------------------------------------------------------------------

/// One scope: its bindings, newest last, and the index of its parent.
#[derive(Debug, Clone)]
pub struct Scope {
    pub vars: Vec<(Vec<char>, Value)>,
    pub parent: Option<usize>,
}

/// Mathematical model of a scope.
#[verifier::ext_equal]
pub struct ScopeM {
    pub vars: Seq<(Seq<char>, ValueM)>,
    pub parent: Option<int>,
}

pub open spec fn scope_view(s: &Scope) -> ScopeM {
    ScopeM {
        vars: s.vars@.map_values(|p: (Vec<char>, Value)| (p.0@, value_view(&p.1))),
        parent: match s.parent {
            Some(p) => Some(p as int),
            None => None,
        },
    }
}

/// Well-formed environment: scope 0 is the global scope, and every parent
/// reference points at an earlier scope.
pub open spec fn env_wf(env: Seq<ScopeM>) -> bool {
    &&& env.len() >= 1
    &&& env[0].parent is None
    &&& forall|i: int|
        0 <= i < env.len() ==> (#[trigger] env[i].parent matches Some(p) ==> 0 <= p < i)
}

/// The newest binding of `name` in one scope's binding list.
pub open spec fn scope_lookup(vs: Seq<(Seq<char>, ValueM)>, name: Seq<char>) -> Option<ValueM>
    decreases vs.len(),
{
    if vs.len() == 0 {
        None
    } else if vs[vs.len() - 1].0 == name {
        Some(vs[vs.len() - 1].1)
    } else {
        scope_lookup(vs.subrange(0, vs.len() - 1), name)
    }
}

/// A name lookup walks the chain from the innermost scope outward and
/// returns the first match.
pub open spec fn chain_lookup(env: Seq<ScopeM>, s: int, name: Seq<char>) -> Option<ValueM>
    decreases s,
{
    if 0 <= s < env.len() {
        match scope_lookup(env[s].vars, name) {
            Some(v) => Some(v),
            None => match env[s].parent {
                Some(p) => if 0 <= p < s {
                    chain_lookup(env, p, name)
                } else {
                    None
                },
                None => None,
            },
        }
    } else {
        None
    }
}

/// The innermost scope of the chain that binds `name`, if any.
pub open spec fn chain_defining(env: Seq<ScopeM>, s: int, name: Seq<char>) -> Option<int>
    decreases s,
{
    if 0 <= s < env.len() {
        if scope_lookup(env[s].vars, name) is Some {
            Some(s)
        } else {
            match env[s].parent {
                Some(p) => if 0 <= p < s {
                    chain_defining(env, p, name)
                } else {
                    None
                },
                None => None,
            }
        }
    } else {
        None
    }
}

/// Declaring a name: a new binding in the chosen scope.
pub open spec fn env_define(env: Seq<ScopeM>, s: int, name: Seq<char>, v: ValueM) -> Seq<ScopeM> {
    env.update(s, ScopeM { vars: env[s].vars.push((name, v)), parent: env[s].parent })
}

/// Assigning a name: a new binding in the innermost scope of the chain that
/// already binds it; the environment is unchanged when no scope does.
pub open spec fn env_assign(env: Seq<ScopeM>, s: int, name: Seq<char>, v: ValueM) -> Seq<
    ScopeM,
> {
    match chain_defining(env, s, name) {
        Some(d) => env_define(env, d, name, v),
        None => env,
    }
}

/// Declaring and assigning never change the number of scopes.
pub proof fn lemma_env_ops_len(env: Seq<ScopeM>, s: int, name: Seq<char>, v: ValueM)
    requires
        0 <= s < env.len(),
    ensures
        env_define(env, s, name, v).len() == env.len(),
        env_assign(env, s, name, v).len() == env.len(),
{
    match chain_defining(env, s, name) {
        Some(d) => {
            lemma_chain_defining(env, s, name);
            assert(env_assign(env, s, name, v) == env_define(env, d, name, v));
        },
        None => {},
    }
}

/// If the chain from `s` resolves `name` in scope `d`, the chain lookup is
/// exactly that scope's own lookup.
pub proof fn lemma_chain_defining(env: Seq<ScopeM>, s: int, name: Seq<char>)
    requires
        0 <= s < env.len(),
    ensures
        match chain_defining(env, s, name) {
            Some(d) => {
                &&& 0 <= d <= s
                &&& scope_lookup(env[d].vars, name) is Some
                &&& chain_lookup(env, s, name) == scope_lookup(env[d].vars, name)
            },
            None => chain_lookup(env, s, name) is None,
        },
    decreases s,
{
    if scope_lookup(env[s].vars, name) is None {
        match env[s].parent {
            Some(p) => {
                if 0 <= p < s {
                    lemma_chain_defining(env, p, name);
                }
            },
            None => {},
        }
    }
}

// ---------------------------------------------------------------------------
// Laws of scoping.
// ---------------------------------------------------------------------------

/// Lookups depend only on the scopes up to the starting point: two
/// environments that agree there resolve every name alike.
pub proof fn lemma_chain_lookup_frame(
    env1: Seq<ScopeM>,
    env2: Seq<ScopeM>,
    s: int,
    name: Seq<char>,
)
    requires
        0 <= s < env1.len(),
        s < env2.len(),
        forall|j: int| 0 <= j <= s ==> env1[j] == env2[j],
    ensures
        chain_lookup(env1, s, name) == chain_lookup(env2, s, name),
    decreases s,
{
    if scope_lookup(env1[s].vars, name) is None {
        match env1[s].parent {
            Some(p) => {
                if 0 <= p < s {
                    lemma_chain_lookup_frame(env1, env2, p, name);
                }
            },
            None => {},
        }
    }
}

/// Shadowing: declaring a name in a fresh child scope hides an outer binding
/// of the same name only within that scope. Inside the child the new value
/// is seen; no outer scope is touched, so after the child is left, every
/// lookup from any outer scope is exactly what it was before.
pub proof fn lemma_shadowing(env: Seq<ScopeM>, parent: int, name: Seq<char>, v: ValueM)
    requires
        env_wf(env),
        0 <= parent < env.len(),
    ensures
        ({
            let child = env.len() as int;
            let env2 = env_define(
                env.push(ScopeM { vars: Seq::empty(), parent: Some(parent) }),
                child,
                name,
                v,
            );
            &&& chain_lookup(env2, child, name) == Some(v)
            &&& forall|j: int| 0 <= j < env.len() ==> env2[j] == env[j]
            &&& forall|s: int|
                0 <= s < env.len() ==> chain_lookup(env2, s, name) == chain_lookup(env, s, name)
        }),
{
    let child = env.len() as int;
    let env1 = env.push(ScopeM { vars: Seq::empty(), parent: Some(parent) });
    let env2 = env_define(env1, child, name, v);
    assert(env2[child].vars =~= Seq::<(Seq<char>, ValueM)>::empty().push((name, v)));
    assert(scope_lookup(env2[child].vars, name) == Some(v));
    assert(forall|j: int| 0 <= j < env.len() ==> env2[j] == env[j]);
    assert forall|s: int| 0 <= s < env.len() implies chain_lookup(env2, s, name) == chain_lookup(
        env,
        s,
        name,
    ) by {
        lemma_chain_lookup_frame(env, env2, s, name);
    }
}

/// After a new binding of `name` lands in scope `d`, any chain that used to
/// resolve `name` in `d` now reads the new value.
pub proof fn lemma_lookup_after_define(
    env: Seq<ScopeM>,
    s: int,
    d: int,
    name: Seq<char>,
    v: ValueM,
)
    requires
        0 <= s < env.len(),
        chain_defining(env, s, name) == Some(d),
    ensures
        chain_lookup(env_define(env, d, name, v), s, name) == Some(v),
    decreases s,
{
    lemma_chain_defining(env, s, name);
    let env2 = env_define(env, d, name, v);
    if scope_lookup(env[s].vars, name) is Some {
        assert(d == s);
        assert(env2[s].vars == env[s].vars.push((name, v)));
        assert(scope_lookup(env2[s].vars, name) == Some(v));
    } else {
        assert(env2[s].vars == env[s].vars);
        match env[s].parent {
            Some(p) => {
                if 0 <= p < s {
                    lemma_lookup_after_define(env, p, d, name, v);
                }
            },
            None => {},
        }
    }
}

/// Closures observe later reassignment: a function value captures its scope
/// by index, not by copying values. If an assignment made through any scope
/// updates the binding of `name` that the captured scope also resolves to,
/// then a later lookup through the captured scope reads the new value.
pub proof fn lemma_closure_observes_assignment(
    env: Seq<ScopeM>,
    assigner: int,
    captured: int,
    name: Seq<char>,
    v: ValueM,
)
    requires
        env_wf(env),
        0 <= assigner < env.len(),
        0 <= captured < env.len(),
        chain_defining(env, assigner, name) is Some,
        chain_defining(env, captured, name) == chain_defining(env, assigner, name),
    ensures
        chain_lookup(env_assign(env, assigner, name, v), captured, name) == Some(v),
{
    let d = chain_defining(env, assigner, name)->Some_0;
    lemma_chain_defining(env, assigner, name);
    assert(env_assign(env, assigner, name, v) == env_define(env, d, name, v));
    lemma_lookup_after_define(env, captured, d, name, v);
}

// ---------------------------------------------------------------------------
// The executable environment.
// ---------------------------------------------------------------------------

/// The scope arena. Scope 0 is the global scope.
#[derive(Debug, Clone)]
pub struct Environment {
    pub scopes: Vec<Scope>,
}

impl View for Environment {
    type V = Seq<ScopeM>;

    open spec fn view(&self) -> Seq<ScopeM> {
        self.scopes@.map_values(|s: Scope| scope_view(&s))
    }
}

impl Environment {
    /// A fresh environment: one empty global scope.
    pub fn new() -> (r: Environment)
        ensures
            r@ =~~= seq![ScopeM { vars: Seq::empty(), parent: None }],
            env_wf(r@),
    {
        let mut scopes: Vec<Scope> = Vec::new();
        scopes.push(Scope { vars: Vec::new(), parent: None });
        let r = Environment { scopes };
        proof {
            assert(r@ =~~= seq![ScopeM { vars: Seq::empty(), parent: None }]);
        }
        r
    }

    /// Opens a new scope whose parent is `parent`; returns its index.
    pub fn push_scope(&mut self, parent: usize) -> (idx: usize)
        requires
            parent < old(self)@.len(),
        ensures
            idx == old(self)@.len(),
            final(self)@ =~~= old(self)@.push(
                ScopeM { vars: Seq::empty(), parent: Some(parent as int) },
            ),
            env_wf(old(self)@) ==> env_wf(final(self)@),
    {
        let idx = self.scopes.len();
        self.scopes.push(Scope { vars: Vec::new(), parent: Some(parent) });
        proof {
            assert(self@ =~~= old(self)@.push(
                ScopeM { vars: Seq::empty(), parent: Some(parent as int) },
            ));
        }
        idx
    }

    /// Declares `name` in scope `scope`: always succeeds, shadowing any
    /// older binding of the name there or in outer scopes.
    pub fn define(&mut self, scope: usize, name: &Vec<char>, v: Value)
        requires
            scope < old(self)@.len(),
        ensures
            final(self)@ =~~= env_define(old(self)@, scope as int, name@, value_view(&v)),
            env_wf(old(self)@) ==> env_wf(final(self)@),
    {
        let n = clone_chars(name);
        self.scopes[scope].vars.push((n, v));
        proof {
            assert(self@ =~~= env_define(old(self)@, scope as int, name@, value_view(&v)));
        }
    }

    /// Looks `name` up along the chain from `scope` outward.
    pub fn get(&self, scope: usize, name: &Vec<char>) -> (r: Option<Value>)
        requires
            env_wf(self@),
            scope < self@.len(),
        ensures
            opt_value_view(&r) == chain_lookup(self@, scope as int, name@),
    {
        let mut s = scope;
        loop
            invariant
                env_wf(self@),
                s < self@.len(),
                chain_lookup(self@, scope as int, name@) == chain_lookup(self@, s as int, name@),
            decreases s,
        {
            let nvars = self.scopes[s].vars.len();
            let mut k = nvars;
            proof {
                assert(self@[s as int].vars.take(nvars as int) =~= self@[s as int].vars);
            }
            while k > 0
                invariant
                    env_wf(self@),
                    s < self@.len(),
                    chain_lookup(self@, scope as int, name@) == chain_lookup(
                        self@,
                        s as int,
                        name@,
                    ),
                    k <= nvars == self@[s as int].vars.len(),
                    nvars == self.scopes@[s as int].vars@.len(),
                    scope_lookup(self@[s as int].vars, name@) == scope_lookup(
                        self@[s as int].vars.take(k as int),
                        name@,
                    ),
                decreases k,
            {
                if chars_eq(&self.scopes[s].vars[k - 1].0, name) {
                    let v = clone_value(&self.scopes[s].vars[k - 1].1);
                    proof {
                        assert(self@[s as int].vars.take(k as int)[k - 1] == self@[s as int].vars[k
                            - 1]);
                        assert(scope_lookup(self@[s as int].vars, name@) == Some(
                            self@[s as int].vars[k - 1].1,
                        ));
                        assert(chain_lookup(self@, s as int, name@) == Some(
                            self@[s as int].vars[k - 1].1,
                        ));
                        assert(self@[s as int].vars[k - 1].1 == value_view(
                            &self.scopes@[s as int].vars@[k - 1].1,
                        ));
                        assert(value_view(&v) == self@[s as int].vars[k - 1].1);
                    }
                    return Some(v);
                }
                proof {
                    assert(self@[s as int].vars.take(k as int).subrange(0, k - 1) =~= self@[
                        s as int].vars.take(k - 1));
                }
                k = k - 1;
            }
            proof {
                assert(self@[s as int].vars.take(0) =~= Seq::<(Seq<char>, ValueM)>::empty());
                assert(scope_lookup(self@[s as int].vars, name@) is None);
            }
            match self.scopes[s].parent {
                Some(p) => {
                    s = p;
                },
                None => {
                    return None;
                },
            }
        }
    }

    /// Assigns to `name` in the innermost scope of the chain from `scope`
    /// that binds it; returns false (and changes nothing) if none does.
    pub fn assign(&mut self, scope: usize, name: &Vec<char>, v: Value) -> (ok: bool)
        requires
            env_wf(old(self)@),
            scope < old(self)@.len(),
        ensures
            ok == (chain_defining(old(self)@, scope as int, name@) is Some),
            final(self)@ =~~= env_assign(old(self)@, scope as int, name@, value_view(&v)),
            env_wf(final(self)@),
    {
        let mut s = scope;
        loop
            invariant
                env_wf(self@),
                s < self@.len(),
                self@ == old(self)@,
                chain_defining(self@, scope as int, name@) == chain_defining(
                    self@,
                    s as int,
                    name@,
                ),
            decreases s,
        {
            let nvars = self.scopes[s].vars.len();
            let mut k = nvars;
            proof {
                assert(self@[s as int].vars.take(nvars as int) =~= self@[s as int].vars);
            }
            while k > 0
                invariant
                    env_wf(self@),
                    self@ == old(self)@,
                    s < self@.len(),
                    k <= nvars == self@[s as int].vars.len(),
                    nvars == self.scopes@[s as int].vars@.len(),
                    chain_defining(self@, scope as int, name@) == chain_defining(
                        self@,
                        s as int,
                        name@,
                    ),
                    scope_lookup(self@[s as int].vars, name@) == scope_lookup(
                        self@[s as int].vars.take(k as int),
                        name@,
                    ),
                decreases k,
            {
                if chars_eq(&self.scopes[s].vars[k - 1].0, name) {
                    proof {
                        assert(scope_lookup(self@[s as int].vars, name@) is Some);
                        assert(chain_defining(old(self)@, scope as int, name@) == Some(s as int));
                    }
                    let n = clone_chars(name);
                    self.scopes[s].vars.push((n, v));
                    proof {
                        assert(self@ =~~= env_define(old(self)@, s as int, name@, value_view(&v)));
                    }
                    return true;
                }
                proof {
                    assert(self@[s as int].vars.take(k as int).subrange(0, k - 1) =~= self@[
                        s as int].vars.take(k - 1));
                }
                k = k - 1;
            }
            proof {
                assert(self@[s as int].vars.take(0) =~= Seq::<(Seq<char>, ValueM)>::empty());
                assert(scope_lookup(self@[s as int].vars, name@) is None);
            }
            match self.scopes[s].parent {
                Some(p) => {
                    s = p;
                },
                None => {
                    return false;
                },
            }
        }
    }
}

} // verus!
