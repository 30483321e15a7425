//! Block scopes: a name bound for the first time inside a loop or a
//! conditional does not outlive it.

use vstd::prelude::*;
use crate::interpreter::{
    HaltM, Machine, apply_binary, ask, cast_to, classify_input, declare_params, declare_var,
    float_of, holder, int_of, lookup, loop_step, pop_scope, push_scope, sem_args, sem_block,
    sem_call, sem_elifs, sem_eval, sem_exec, sem_loop, sem_print, sem_stmts, set_var, yarn_of,
};
use crate::parser::{ExprM, StmtM};
use crate::value::{CastM, ReqM, Val};

verus! {

/// The two lists of scopes are as long, and the scopes below `upto` bind
/// the same names.
pub open spec fn names_kept(
    a: Seq<Map<Seq<char>, Val>>,
    b: Seq<Map<Seq<char>, Val>>,
    upto: int,
) -> bool {
    &&& a.len() == b.len()
    &&& forall|k: int| 0 <= k < upto ==> (#[trigger] b[k]).dom() == a[k].dom()
}

/// Every scope binds the same names after as before.
pub open spec fn all_kept(m: Machine, m2: Machine) -> bool {
    names_kept(m.scopes, m2.scopes, m.scopes.len() as int)
}

/// Every scope but the innermost binds the same names after as before.
pub open spec fn outer_kept(m: Machine, m2: Machine) -> bool {
    names_kept(m.scopes, m2.scopes, m.scopes.len() - 1)
}

proof fn lemma_holder_same_names(a: Seq<Map<Seq<char>, Val>>, b: Seq<Map<Seq<char>, Val>>, n: Seq<char>)
    requires
        names_kept(a, b, a.len() as int),
    ensures
        holder(a, n) == holder(b, n),
    decreases a.len(),
{
    if a.len() > 0 {
        assert(b.last().dom() == a.last().dom());
        assert(a.last().contains_key(n) == a.last().dom().contains(n));
        assert(b.last().contains_key(n) == b.last().dom().contains(n));
        assert forall|k: int| 0 <= k < a.len() - 1 implies (#[trigger] b.drop_last()[k]).dom()
            == a.drop_last()[k].dom() by {
            assert(b.drop_last()[k] == b[k]);
            assert(a.drop_last()[k] == a[k]);
        }
        lemma_holder_same_names(a.drop_last(), b.drop_last(), n);
    }
}

proof fn lemma_holder_in_range(s: Seq<Map<Seq<char>, Val>>, n: Seq<char>)
    ensures
        match holder(s, n) {
            Some(i) => 0 <= i < s.len() && s[i].contains_key(n),
            None => true,
        },
    decreases s.len(),
{
    if s.len() > 0 && !s.last().contains_key(n) {
        lemma_holder_in_range(s.drop_last(), n);
    }
}

proof fn lemma_binding_names()
    ensures
        forall|s: Seq<Map<Seq<char>, Val>>, n: Seq<char>, v: Val|
            (#[trigger] set_var(s, n, v)) is Ok ==> names_kept(
                s,
                set_var(s, n, v)->Ok_0,
                s.len() - 1,
            ),
        forall|s: Seq<Map<Seq<char>, Val>>, n: Seq<char>, v: Val|
            (#[trigger] set_var(s, n, v)) is Ok && holder(s, n) is Some ==> names_kept(
                s,
                set_var(s, n, v)->Ok_0,
                s.len() as int,
            ),
        forall|s: Seq<Map<Seq<char>, Val>>, n: Seq<char>, v: Val|
            (#[trigger] declare_var(s, n, v)) is Ok ==> names_kept(
                s,
                declare_var(s, n, v)->Ok_0,
                s.len() - 1,
            ),
{
    assert forall|s: Seq<Map<Seq<char>, Val>>, n: Seq<char>, v: Val|
        (#[trigger] set_var(s, n, v)) is Ok implies names_kept(s, set_var(s, n, v)->Ok_0, s.len() - 1)
        && (holder(s, n) is Some ==> names_kept(s, set_var(s, n, v)->Ok_0, s.len() as int)) by {
        lemma_holder_in_range(s, n);
        let after = set_var(s, n, v)->Ok_0;
        match holder(s, n) {
            Some(i) => {
                assert(s[i].insert(n, v).dom() =~= s[i].dom());
            },
            None => {},
        }
    }
}

proof fn lemma_declare_params_names(
    s: Seq<Map<Seq<char>, Val>>,
    params: Seq<Seq<char>>,
    vals: Seq<Val>,
    i: int,
)
    ensures
        declare_params(s, params, vals, i).1 is Ok ==> names_kept(
            s,
            declare_params(s, params, vals, i).0,
            s.len() - 1,
        ),
    decreases params.len() - i,
{
    lemma_binding_names();
    if 0 <= i < params.len() && i < vals.len() {
        if let Ok(s2) = declare_var(s, params[i], vals[i]) {
            lemma_declare_params_names(s2, params, vals, i + 1);
        }
    }
}

proof fn lemma_helpers_keep_scopes()
    ensures
        forall|m: Machine, req: ReqM| (#[trigger] ask(m, req)).0.scopes == m.scopes,
        forall|m: Machine, c: CastM<i64>| (#[trigger] int_of(m, c)).0.scopes == m.scopes,
        forall|m: Machine, c: CastM<u32>| (#[trigger] float_of(m, c)).0.scopes == m.scopes,
        forall|m: Machine, c: CastM<Seq<char>>| (#[trigger] yarn_of(m, c)).0.scopes == m.scopes,
        forall|m: Machine, op: crate::parser::BinaryOperator, l: Val, r: Val|
            (#[trigger] apply_binary(m, op, l, r)).0.scopes == m.scopes,
        forall|m: Machine, v: Val, t: crate::parser::ValueType|
            (#[trigger] cast_to(m, v, t)).0.scopes == m.scopes,
        forall|m: Machine, t: Seq<char>| (#[trigger] classify_input(m, t)).0.scopes == m.scopes,
{
}

proof fn lemma_loop_step_names(m: Machine, op: Option<Seq<char>>, var: Option<Seq<char>>)
    ensures
        loop_step(m, op, var).1 is Ok ==> all_kept(m, loop_step(m, op, var).0),
{
    lemma_binding_names();
    lemma_helpers_keep_scopes();
    if op is Some && var is Some {
        let x = var->0;
        if let Some(cur) = lookup(m.scopes, x) {
            let (m1, r) = int_of(m, crate::value::val_to_integer(cur));
            if r is Ok {
                let n: i64 = if op->0 == "UPPIN"@ {
                    r->Ok_0.wrapping_add(1)
                } else {
                    r->Ok_0.wrapping_sub(1)
                };
                assert(holder(m1.scopes, x) is Some);
                assert(set_var(m1.scopes, x, Val::Integer(n)) is Ok ==> names_kept(
                    m1.scopes,
                    set_var(m1.scopes, x, Val::Integer(n))->Ok_0,
                    m1.scopes.len() as int,
                ));
            }
        }
    }
}

proof fn kept_eval(m: Machine, e: ExprM, fuel: nat)
    requires
        m.scopes.len() > 0,
    ensures
        sem_eval(m, e, fuel).1 is Ok ==> all_kept(m, sem_eval(m, e, fuel).0),
    decreases fuel, 0nat, 0int,
{
    lemma_helpers_keep_scopes();
    if fuel > 0 {
        let f = (fuel - 1) as nat;
        match e {
            ExprM::Binary(op, l, r) => {
                kept_eval(m, *l, f);
                let (m1, a) = sem_eval(m, *l, f);
                if a is Ok {
                    kept_eval(m1, *r, f);
                }
            },
            ExprM::Unary(_, x) => {
                kept_eval(m, *x, f);
            },
            ExprM::Call(name, args) => {
                kept_call(m, name, args, f);
            },
            ExprM::Cast(x, t) => {
                kept_eval(m, *x, f);
            },
            _ => {},
        }
    }
}

proof fn kept_args(m: Machine, es: Seq<ExprM>, i: int, fuel: nat)
    requires
        m.scopes.len() > 0,
    ensures
        sem_args(m, es, i, fuel).1 is Ok ==> all_kept(m, sem_args(m, es, i, fuel).0),
    decreases fuel, 1nat, es.len() - i,
{
    if 0 <= i < es.len() {
        kept_eval(m, es[i], fuel);
        let (m1, r) = sem_eval(m, es[i], fuel);
        if r is Ok {
            kept_args(m1, es, i + 1, fuel);
        }
    }
}

proof fn kept_print(m: Machine, es: Seq<ExprM>, i: int, fuel: nat)
    requires
        m.scopes.len() > 0,
    ensures
        sem_print(m, es, i, fuel).1 is Ok ==> all_kept(m, sem_print(m, es, i, fuel).0),
    decreases fuel, 1nat, es.len() - i,
{
    lemma_helpers_keep_scopes();
    if 0 <= i < es.len() {
        kept_eval(m, es[i], fuel);
        let (m1, r) = sem_eval(m, es[i], fuel);
        if r is Ok {
            let (m2, t) = yarn_of(m1, crate::value::val_to_yarn(r->Ok_0));
            kept_print(m2, es, i + 1, fuel);
        }
    }
}

proof fn kept_stmts(m: Machine, ss: Seq<StmtM>, i: int, fuel: nat)
    requires
        m.scopes.len() > 0,
    ensures
        sem_stmts(m, ss, i, fuel).1 is Ok ==> outer_kept(m, sem_stmts(m, ss, i, fuel).0),
    decreases fuel, 1nat, ss.len() - i,
{
    if 0 <= i < ss.len() {
        kept_exec(m, ss[i], fuel);
        let (m1, r) = sem_exec(m, ss[i], fuel);
        if r is Ok {
            kept_stmts(m1, ss, i + 1, fuel);
        }
    }
}

proof fn kept_block(m: Machine, ss: Seq<StmtM>, fuel: nat)
    requires
        m.scopes.len() > 0,
    ensures
        sem_block(m, ss, fuel).1 is Ok ==> all_kept(m, sem_block(m, ss, fuel).0),
    decreases fuel, 2nat, 0int,
{
    let pm = push_scope(m);
    kept_stmts(pm, ss, 0, fuel);
    let (m1, r) = sem_stmts(pm, ss, 0, fuel);
    if r is Ok {
        assert(pop_scope(m1).scopes =~= m1.scopes.drop_last());
    }
}

proof fn kept_elifs(m: Machine, bs: Seq<(ExprM, Seq<StmtM>)>, i: int, fuel: nat)
    requires
        m.scopes.len() > 0,
    ensures
        sem_elifs(m, bs, i, fuel).1 is Ok ==> all_kept(m, sem_elifs(m, bs, i, fuel).0),
    decreases fuel, 3nat, bs.len() - i,
{
    if 0 <= i < bs.len() {
        kept_eval(m, bs[i].0, fuel);
        let (m1, r) = sem_eval(m, bs[i].0, fuel);
        if r is Ok {
            kept_block(m1, bs[i].1, fuel);
            kept_elifs(m1, bs, i + 1, fuel);
        }
    }
}

proof fn kept_loop(
    m: Machine,
    cond: Option<(Seq<char>, ExprM)>,
    op: Option<Seq<char>>,
    var: Option<Seq<char>>,
    body: Seq<StmtM>,
    fuel: nat,
)
    requires
        m.scopes.len() > 1,
    ensures
        sem_loop(m, cond, op, var, body, fuel).1 is Ok ==> {
            let m2 = sem_loop(m, cond, op, var, body, fuel).0;
            &&& m2.scopes.len() == m.scopes.len() - 1
            &&& forall|k: int| 0 <= k < m.scopes.len() - 1 ==> (#[trigger] m2.scopes[k]).dom()
                == m.scopes[k].dom()
        },
    decreases fuel, 3nat, 0int,
{
    lemma_helpers_keep_scopes();
    if fuel > 0 {
        let f = (fuel - 1) as nat;
        let (m1, ex) = match cond {
            None => (m, Ok(false)),
            Some((kind, ce)) => {
                let (m1, r) = sem_eval(m, ce, f);
                match r {
                    Err(h) => (m1, Err(h)),
                    Ok(v) => (m1, Ok(crate::interpreter::loop_exits(kind, crate::value::val_to_bool(v)))),
                }
            },
        };
        if let Some((kind, ce)) = cond {
            kept_eval(m, ce, f);
        }
        if ex is Ok {
            assert(all_kept(m, m1));
            assert(pop_scope(m1).scopes =~= m1.scopes.drop_last());
            if ex == Ok::<bool, HaltM>(false) {
                kept_stmts(m1, body, 0, f);
                let (m2, r) = sem_stmts(m1, body, 0, f);
                if r is Ok {
                    assert(pop_scope(m2).scopes =~= m2.scopes.drop_last());
                    lemma_loop_step_names(m2, op, var);
                    let (m3, r3) = loop_step(m2, op, var);
                    if r3 is Ok {
                        kept_loop(m3, cond, op, var, body, f);
                    }
                }
            }
        }
    }
}

proof fn kept_call(m: Machine, name: Seq<char>, args: Seq<ExprM>, fuel: nat)
    requires
        m.scopes.len() > 0,
    ensures
        sem_call(m, name, args, fuel).1 is Ok ==> all_kept(m, sem_call(m, name, args, fuel).0),
    decreases fuel, 3nat, 0int,
{
    kept_args(m, args, 0, fuel);
    let (m1, r) = sem_args(m, args, 0, fuel);
    if r is Ok && m1.funcs.contains_key(name) {
        let (params, body) = m1.funcs[name];
        let m2 = push_scope(m1);
        lemma_declare_params_names(m2.scopes, params, r->Ok_0, 0);
        let (sc, d) = declare_params(m2.scopes, params, r->Ok_0, 0);
        if d is Ok {
            let m3 = Machine { scopes: sc, ..m2 };
            kept_stmts(m3, body, 0, fuel);
            let (m4, r4) = sem_stmts(m3, body, 0, fuel);
            if r4 is Ok {
                assert(pop_scope(m4).scopes =~= m4.scopes.drop_last());
            }
        }
    }
}

proof fn kept_exec(m: Machine, s: StmtM, fuel: nat)
    requires
        m.scopes.len() > 0,
    ensures
        sem_exec(m, s, fuel).1 is Ok ==> outer_kept(m, sem_exec(m, s, fuel).0),
        sem_exec(m, s, fuel).1 is Ok && (s is IfThenElse || s is Loop) ==> all_kept(
            m,
            sem_exec(m, s, fuel).0,
        ),
    decreases fuel, 0nat, 0int,
{
    lemma_helpers_keep_scopes();
    lemma_binding_names();
    if fuel > 0 {
        let f = (fuel - 1) as nat;
        match s {
            StmtM::Declaration(name, value) => {
                if let Some(e) = value {
                    kept_eval(m, e, f);
                }
            },
            StmtM::Assignment(target, value) => {
                kept_eval(m, value, f);
            },
            StmtM::Print(es, newline, to_stderr) => {
                kept_print(m, es, 0, f);
            },
            StmtM::Input(target) => {},
            StmtM::IfThenElse(cond, tb, eis, eb) => {
                let (m1, r) = match cond {
                    Some(e) => sem_eval(m, e, f),
                    None => (m, Ok(m.it)),
                };
                if let Some(e) = cond {
                    kept_eval(m, e, f);
                }
                if r is Ok {
                    kept_block(m1, tb, f);
                    kept_elifs(m1, eis, 0, f);
                    let (m2, r2) = sem_elifs(m1, eis, 0, f);
                    if r2 is Ok {
                        if let Some(b) = eb {
                            kept_block(m2, b, f);
                        }
                    }
                }
            },
            StmtM::Loop(_, op, var, cond, body) => {
                kept_loop(push_scope(m), cond, op, var, body, f);
            },
            StmtM::FunctionDef(name, params, body) => {},
            StmtM::FunctionCall(name, args) => {
                kept_call(m, name, args, f);
            },
            StmtM::Return(value) => {
                if let Some(e) = value {
                    kept_eval(m, e, f);
                }
            },
            StmtM::Break => {},
            StmtM::Expression(e) => {
                kept_eval(m, e, f);
            },
        }
    }
}

/// A loop or a conditional that runs to its end leaves every scope binding
/// the names it bound before: a name not bound before it is not bound
/// after it, and a bound name stays bound.
pub proof fn block_names_do_not_outlive(m: Machine, s: StmtM, fuel: nat, n: Seq<char>)
    requires
        m.scopes.len() > 0,
        s is IfThenElse || s is Loop,
        sem_exec(m, s, fuel).1 is Ok,
    ensures
        lookup(m.scopes, n) is None <==> lookup(sem_exec(m, s, fuel).0.scopes, n) is None,
{
    kept_exec(m, s, fuel);
    lemma_holder_same_names(m.scopes, sem_exec(m, s, fuel).0.scopes, n);
}

} // verus!
