//! Why running again from the start is sound: what a run writes only grows;
//! a run that did not stop for want of fuel or of an answer ends the same
//! way with more fuel and more answers; and a run that stops for want of an
//! answer has used every answer it was given.

use vstd::prelude::*;
use crate::interpreter::{
    HaltM, Machine, Status, apply_binary, ask, cast_to, classify_input, declare_params, float_of,
    initial_machine, int_of, loop_step, pop_scope, push_scope, sem_args, sem_block, sem_call,
    sem_elifs, sem_eval, sem_exec, sem_loop, sem_print, sem_program, sem_stmts, yarn_of,
};
use crate::parser::{ExprM, StmtM};
use crate::value::{AnsM, ReqM, Val};

verus! {

/// What was written in `b` starts with what was written in `a`.
pub open spec fn writes_extend(b: Seq<(bool, Seq<char>)>, a: Seq<(bool, Seq<char>)>) -> bool {
    a.len() <= b.len() && forall|i: int| 0 <= i < a.len() ==> b[i] == a[i]
}

proof fn lemma_helpers_keep_out()
    ensures
        forall|m: Machine, req: ReqM| #[trigger] ask(m, req).0.out == m.out,
        forall|m: Machine, c: crate::value::CastM<i64>| #[trigger] int_of(m, c).0.out == m.out,
        forall|m: Machine, c: crate::value::CastM<u32>| #[trigger] float_of(m, c).0.out == m.out,
        forall|m: Machine, c: crate::value::CastM<Seq<char>>| #[trigger] yarn_of(m, c).0.out == m.out,
        forall|m: Machine, op: crate::parser::BinaryOperator, l: Val, r: Val|
            #[trigger] apply_binary(m, op, l, r).0.out == m.out,
        forall|m: Machine, v: Val, t: crate::parser::ValueType| #[trigger] cast_to(m, v, t).0.out
            == m.out,
        forall|m: Machine, t: Seq<char>| #[trigger] classify_input(m, t).0.out == m.out,
        forall|m: Machine, op: Option<Seq<char>>, var: Option<Seq<char>>|
            #[trigger] loop_step(m, op, var).0.out == m.out,
{
}

proof fn grows_eval(m: Machine, e: ExprM, fuel: nat)
    ensures
        writes_extend(sem_eval(m, e, fuel).0.out, m.out),
    decreases fuel, 0nat, 0int,
{
    lemma_helpers_keep_out();
    if fuel > 0 {
        let f = (fuel - 1) as nat;
        match e {
            ExprM::Binary(op, l, r) => {
                grows_eval(m, *l, f);
                let (m1, a) = sem_eval(m, *l, f);
                grows_eval(m1, *r, f);
            },
            ExprM::Unary(_, x) => {
                grows_eval(m, *x, f);
            },
            ExprM::Call(name, args) => {
                grows_call(m, name, args, f);
            },
            ExprM::Cast(x, t) => {
                grows_eval(m, *x, f);
            },
            _ => {},
        }
    }
}

proof fn grows_args(m: Machine, es: Seq<ExprM>, i: int, fuel: nat)
    ensures
        writes_extend(sem_args(m, es, i, fuel).0.out, m.out),
    decreases fuel, 1nat, es.len() - i,
{
    if 0 <= i < es.len() {
        grows_eval(m, es[i], fuel);
        let (m1, r) = sem_eval(m, es[i], fuel);
        grows_args(m1, es, i + 1, fuel);
    }
}

proof fn grows_print(m: Machine, es: Seq<ExprM>, i: int, fuel: nat)
    ensures
        writes_extend(sem_print(m, es, i, fuel).0.out, m.out),
    decreases fuel, 1nat, es.len() - i,
{
    lemma_helpers_keep_out();
    if 0 <= i < es.len() {
        grows_eval(m, es[i], fuel);
        let (m1, r) = sem_eval(m, es[i], fuel);
        if r is Ok {
            let (m2, t) = yarn_of(m1, crate::value::val_to_yarn(r->Ok_0));
            grows_print(m2, es, i + 1, fuel);
        }
    }
}

proof fn grows_stmts(m: Machine, ss: Seq<StmtM>, i: int, fuel: nat)
    ensures
        writes_extend(sem_stmts(m, ss, i, fuel).0.out, m.out),
    decreases fuel, 1nat, ss.len() - i,
{
    if 0 <= i < ss.len() {
        grows_exec(m, ss[i], fuel);
        let (m1, r) = sem_exec(m, ss[i], fuel);
        grows_stmts(m1, ss, i + 1, fuel);
    }
}

proof fn grows_block(m: Machine, ss: Seq<StmtM>, fuel: nat)
    ensures
        writes_extend(sem_block(m, ss, fuel).0.out, m.out),
    decreases fuel, 2nat, 0int,
{
    grows_stmts(push_scope(m), ss, 0, fuel);
}

proof fn grows_elifs(m: Machine, bs: Seq<(ExprM, Seq<StmtM>)>, i: int, fuel: nat)
    ensures
        writes_extend(sem_elifs(m, bs, i, fuel).0.out, m.out),
    decreases fuel, 3nat, bs.len() - i,
{
    if 0 <= i < bs.len() {
        grows_eval(m, bs[i].0, fuel);
        let (m1, r) = sem_eval(m, bs[i].0, fuel);
        grows_block(m1, bs[i].1, fuel);
        grows_elifs(m1, bs, i + 1, fuel);
    }
}

proof fn grows_loop(
    m: Machine,
    cond: Option<(Seq<char>, ExprM)>,
    op: Option<Seq<char>>,
    var: Option<Seq<char>>,
    body: Seq<StmtM>,
    fuel: nat,
)
    ensures
        writes_extend(sem_loop(m, cond, op, var, body, fuel).0.out, m.out),
    decreases fuel, 3nat, 0int,
{
    lemma_helpers_keep_out();
    if fuel > 0 {
        let f = (fuel - 1) as nat;
        let m1 = match cond {
            None => m,
            Some((kind, ce)) => {
                grows_eval(m, ce, f);
                sem_eval(m, ce, f).0
            },
        };
        grows_stmts(m1, body, 0, f);
        let (m2, r) = sem_stmts(m1, body, 0, f);
        let (m3, r3) = loop_step(m2, op, var);
        grows_loop(m3, cond, op, var, body, f);
    }
}

proof fn grows_call(m: Machine, name: Seq<char>, args: Seq<ExprM>, fuel: nat)
    ensures
        writes_extend(sem_call(m, name, args, fuel).0.out, m.out),
    decreases fuel, 3nat, 0int,
{
    grows_args(m, args, 0, fuel);
    let (m1, r) = sem_args(m, args, 0, fuel);
    if r is Ok && m1.funcs.contains_key(name) {
        let (params, body) = m1.funcs[name];
        let m2 = push_scope(m1);
        let (sc, d) = declare_params(m2.scopes, params, r->Ok_0, 0);
        grows_stmts(Machine { scopes: sc, ..m2 }, body, 0, fuel);
    }
}

proof fn grows_exec(m: Machine, s: StmtM, fuel: nat)
    ensures
        writes_extend(sem_exec(m, s, fuel).0.out, m.out),
    decreases fuel, 0nat, 0int,
{
    lemma_helpers_keep_out();
    if fuel > 0 {
        let f = (fuel - 1) as nat;
        match s {
            StmtM::Declaration(name, value) => {
                if let Some(e) = value {
                    grows_eval(m, e, f);
                }
            },
            StmtM::Assignment(target, value) => {
                grows_eval(m, value, f);
            },
            StmtM::Print(es, newline, to_stderr) => {
                grows_print(m, es, 0, f);
            },
            StmtM::Input(target) => {},
            StmtM::IfThenElse(cond, tb, eis, eb) => {
                let m1 = match cond {
                    Some(e) => {
                        grows_eval(m, e, f);
                        sem_eval(m, e, f).0
                    },
                    None => m,
                };
                grows_block(m1, tb, f);
                grows_elifs(m1, eis, 0, f);
                let m2 = sem_elifs(m1, eis, 0, f).0;
                if let Some(b) = eb {
                    grows_block(m2, b, f);
                }
            },
            StmtM::Loop(_, op, var, cond, body) => {
                grows_loop(push_scope(m), cond, op, var, body, f);
            },
            StmtM::FunctionDef(name, params, body) => {},
            StmtM::FunctionCall(name, args) => {
                grows_call(m, name, args, f);
            },
            StmtM::Return(value) => {
                if let Some(e) = value {
                    grows_eval(m, e, f);
                }
            },
            StmtM::Break => {},
            StmtM::Expression(e) => {
                grows_eval(m, e, f);
            },
        }
    }
}

proof fn lemma_grows_all()
    ensures
        forall|m: Machine, e: ExprM, f: nat|
            writes_extend((#[trigger] sem_eval(m, e, f)).0.out, m.out),
        forall|m: Machine, es: Seq<ExprM>, i: int, f: nat|
            writes_extend((#[trigger] sem_args(m, es, i, f)).0.out, m.out),
        forall|m: Machine, es: Seq<ExprM>, i: int, f: nat|
            writes_extend((#[trigger] sem_print(m, es, i, f)).0.out, m.out),
        forall|m: Machine, ss: Seq<StmtM>, i: int, f: nat|
            writes_extend((#[trigger] sem_stmts(m, ss, i, f)).0.out, m.out),
        forall|m: Machine, ss: Seq<StmtM>, f: nat|
            writes_extend((#[trigger] sem_block(m, ss, f)).0.out, m.out),
        forall|m: Machine, bs: Seq<(ExprM, Seq<StmtM>)>, i: int, f: nat|
            writes_extend((#[trigger] sem_elifs(m, bs, i, f)).0.out, m.out),
        forall|
            m: Machine,
            c: Option<(Seq<char>, ExprM)>,
            op: Option<Seq<char>>,
            var: Option<Seq<char>>,
            body: Seq<StmtM>,
            f: nat,
        | writes_extend((#[trigger] sem_loop(m, c, op, var, body, f)).0.out, m.out),
        forall|m: Machine, name: Seq<char>, args: Seq<ExprM>, f: nat|
            writes_extend((#[trigger] sem_call(m, name, args, f)).0.out, m.out),
        forall|m: Machine, st: StmtM, f: nat|
            writes_extend((#[trigger] sem_exec(m, st, f)).0.out, m.out),
{
    assert forall|m: Machine, e: ExprM, f: nat|
        writes_extend((#[trigger] sem_eval(m, e, f)).0.out, m.out) by {
        grows_eval(m, e, f);
    }
    assert forall|m: Machine, es: Seq<ExprM>, i: int, f: nat|
        writes_extend((#[trigger] sem_args(m, es, i, f)).0.out, m.out) by {
        grows_args(m, es, i, f);
    }
    assert forall|m: Machine, es: Seq<ExprM>, i: int, f: nat|
        writes_extend((#[trigger] sem_print(m, es, i, f)).0.out, m.out) by {
        grows_print(m, es, i, f);
    }
    assert forall|m: Machine, ss: Seq<StmtM>, i: int, f: nat|
        writes_extend((#[trigger] sem_stmts(m, ss, i, f)).0.out, m.out) by {
        grows_stmts(m, ss, i, f);
    }
    assert forall|m: Machine, ss: Seq<StmtM>, f: nat|
        writes_extend((#[trigger] sem_block(m, ss, f)).0.out, m.out) by {
        grows_block(m, ss, f);
    }
    assert forall|m: Machine, bs: Seq<(ExprM, Seq<StmtM>)>, i: int, f: nat|
        writes_extend((#[trigger] sem_elifs(m, bs, i, f)).0.out, m.out) by {
        grows_elifs(m, bs, i, f);
    }
    assert forall|
        m: Machine,
        c: Option<(Seq<char>, ExprM)>,
        op: Option<Seq<char>>,
        var: Option<Seq<char>>,
        body: Seq<StmtM>,
        f: nat,
    | writes_extend((#[trigger] sem_loop(m, c, op, var, body, f)).0.out, m.out) by {
        grows_loop(m, c, op, var, body, f);
    }
    assert forall|m: Machine, name: Seq<char>, args: Seq<ExprM>, f: nat|
        writes_extend((#[trigger] sem_call(m, name, args, f)).0.out, m.out) by {
        grows_call(m, name, args, f);
    }
    assert forall|m: Machine, st: StmtM, f: nat|
        writes_extend((#[trigger] sem_exec(m, st, f)).0.out, m.out) by {
        grows_exec(m, st, f);
    }
}

/// The machine with `extra` answers given after its own.
pub open spec fn with_more(m: Machine, extra: Seq<AnsM>) -> Machine {
    Machine { answers: m.answers + extra, ..m }
}

/// The run stopped for want of fuel or of an answer.
pub open spec fn stopped<T>(r: Result<T, HaltM>) -> bool {
    match r {
        Err(HaltM::OutOfFuel) => true,
        Err(HaltM::Need(_)) => true,
        _ => false,
    }
}

/// Run `b`, with more fuel and answers, agrees with run `a`: it ends the
/// same way unless `a` stopped, and it wrote at least what `a` wrote.
pub open spec fn agrees<T>(
    a: (Machine, Result<T, HaltM>),
    b: (Machine, Result<T, HaltM>),
    extra: Seq<AnsM>,
) -> bool {
    if stopped(a.1) {
        writes_extend(b.0.out, a.0.out)
    } else {
        b == (with_more(a.0, extra), a.1)
    }
}

proof fn lemma_writes_extend_trans(
    a: Seq<(bool, Seq<char>)>,
    b: Seq<(bool, Seq<char>)>,
    c: Seq<(bool, Seq<char>)>,
)
    requires
        writes_extend(b, a),
        writes_extend(c, b),
    ensures
        writes_extend(c, a),
{
    assert forall|i: int| 0 <= i < a.len() implies c[i] == a[i] by {
        assert(c[i] == b[i]);
    }
}

proof fn lemma_helpers_agree(x: Seq<AnsM>)
    ensures
        forall|m: Machine, req: ReqM|
            agrees(ask(m, req), #[trigger] ask(with_more(m, x), req), x),
        forall|m: Machine, c: crate::value::CastM<i64>|
            agrees(int_of(m, c), #[trigger] int_of(with_more(m, x), c), x),
        forall|m: Machine, c: crate::value::CastM<u32>|
            agrees(float_of(m, c), #[trigger] float_of(with_more(m, x), c), x),
        forall|m: Machine, c: crate::value::CastM<Seq<char>>|
            agrees(yarn_of(m, c), #[trigger] yarn_of(with_more(m, x), c), x),
        forall|m: Machine, op: crate::parser::BinaryOperator, l: Val, r: Val|
            agrees(apply_binary(m, op, l, r), #[trigger] apply_binary(with_more(m, x), op, l, r), x),
        forall|m: Machine, v: Val, t: crate::parser::ValueType|
            agrees(cast_to(m, v, t), #[trigger] cast_to(with_more(m, x), v, t), x),
        forall|m: Machine, t: Seq<char>|
            agrees(classify_input(m, t), #[trigger] classify_input(with_more(m, x), t), x),
        forall|m: Machine, op: Option<Seq<char>>, var: Option<Seq<char>>|
            agrees(loop_step(m, op, var), #[trigger] loop_step(with_more(m, x), op, var), x),
{
    assert forall|m: Machine, req: ReqM|
        agrees(ask(m, req), #[trigger] ask(with_more(m, x), req), x) by {
        if m.next < m.answers.len() {
            assert((m.answers + x)[m.next as int] == m.answers[m.next as int]);
        }
    }
    assert forall|m: Machine, c: crate::value::CastM<i64>|
        agrees(int_of(m, c), #[trigger] int_of(with_more(m, x), c), x) by {
        if c is Ask {
            if m.next < m.answers.len() {
                assert((m.answers + x)[m.next as int] == m.answers[m.next as int]);
            }
        }
    }
    assert forall|m: Machine, c: crate::value::CastM<u32>|
        agrees(float_of(m, c), #[trigger] float_of(with_more(m, x), c), x) by {
        if c is Ask {
            if m.next < m.answers.len() {
                assert((m.answers + x)[m.next as int] == m.answers[m.next as int]);
            }
        }
    }
    assert forall|m: Machine, c: crate::value::CastM<Seq<char>>|
        agrees(yarn_of(m, c), #[trigger] yarn_of(with_more(m, x), c), x) by {
        if c is Ask {
            if m.next < m.answers.len() {
                assert((m.answers + x)[m.next as int] == m.answers[m.next as int]);
            }
        }
    }
    assert forall|m: Machine, op: crate::parser::BinaryOperator, l: Val, r: Val|
        agrees(apply_binary(m, op, l, r), #[trigger] apply_binary(with_more(m, x), op, l, r), x) by {
        let (m1, a) = int_of(m, crate::value::val_to_integer(l));
        assert(agrees(int_of(m, crate::value::val_to_integer(l)), int_of(with_more(m, x), crate::value::val_to_integer(l)), x));
        if !stopped(a) && a is Ok {
            assert(agrees(int_of(m1, crate::value::val_to_integer(r)), int_of(with_more(m1, x), crate::value::val_to_integer(r)), x));
        }
    }
    assert forall|m: Machine, v: Val, t: crate::parser::ValueType|
        agrees(cast_to(m, v, t), #[trigger] cast_to(with_more(m, x), v, t), x) by {
        assert(agrees(int_of(m, crate::value::val_to_integer(v)), int_of(with_more(m, x), crate::value::val_to_integer(v)), x));
        assert(agrees(float_of(m, crate::value::val_to_float(v)), float_of(with_more(m, x), crate::value::val_to_float(v)), x));
        assert(agrees(yarn_of(m, crate::value::val_to_yarn(v)), yarn_of(with_more(m, x), crate::value::val_to_yarn(v)), x));
    }
    assert forall|m: Machine, t: Seq<char>|
        agrees(classify_input(m, t), #[trigger] classify_input(with_more(m, x), t), x) by {
        assert(agrees(ask(m, ReqM::ParseFloat(t)), ask(with_more(m, x), ReqM::ParseFloat(t)), x));
    }
    assert forall|m: Machine, op: Option<Seq<char>>, var: Option<Seq<char>>|
        agrees(loop_step(m, op, var), #[trigger] loop_step(with_more(m, x), op, var), x) by {
        if op is Some && var is Some {
            match crate::interpreter::lookup(m.scopes, var->0) {
                Some(cur) => {
                    assert(agrees(int_of(m, crate::value::val_to_integer(cur)), int_of(with_more(m, x), crate::value::val_to_integer(cur)), x));
                },
                None => {},
            }
        }
    }
}

proof fn agree_eval(m: Machine, e: ExprM, f1: nat, f2: nat, x: Seq<AnsM>)
    requires
        f1 <= f2,
    ensures
        agrees(sem_eval(m, e, f1), sem_eval(with_more(m, x), e, f2), x),
    decreases f1, 0nat, 0int,
{
    lemma_grows_all();
    lemma_helpers_agree(x);
    lemma_helpers_keep_out();
    let wm = with_more(m, x);
    if f1 > 0 {
        let f = (f1 - 1) as nat;
        let g = (f2 - 1) as nat;
        match e {
            ExprM::Float(t) => {
                assert(agrees(ask(m, ReqM::ParseFloat(t)), ask(wm, ReqM::ParseFloat(t)), x));
            },
            ExprM::Binary(op, l, r) => {
                agree_eval(m, *l, f, g, x);
                let (m1, a) = sem_eval(m, *l, f);
                let (n1, a2) = sem_eval(wm, *l, g);
                if stopped(a) {
                    if a2 is Ok {
                        let (n2, b2) = sem_eval(n1, *r, g);
                        lemma_writes_extend_trans(m1.out, n1.out, n2.out);
                    }
                } else {
                    assert(n1 == with_more(m1, x) && a2 == a);
                    if a is Ok {
                        agree_eval(m1, *r, f, g, x);
                        let (m2, b) = sem_eval(m1, *r, f);
                        let (n2, b2) = sem_eval(n1, *r, g);
                        if !stopped(b) {
                            assert(n2 == with_more(m2, x) && b2 == b);
                            if b is Ok {
                                assert(agrees(
                                    apply_binary(m2, op, a->Ok_0, b->Ok_0),
                                    apply_binary(n2, op, a->Ok_0, b->Ok_0),
                                    x,
                                ));
                            }
                        }
                    }
                }
            },
            ExprM::Unary(_, y) => {
                agree_eval(m, *y, f, g, x);
            },
            ExprM::Call(name, args) => {
                agree_call(m, name, args, f, g, x);
            },
            ExprM::Cast(y, t) => {
                agree_eval(m, *y, f, g, x);
                let (m1, a) = sem_eval(m, *y, f);
                let (n1, a2) = sem_eval(wm, *y, g);
                if !stopped(a) {
                    assert(n1 == with_more(m1, x) && a2 == a);
                    if a is Ok {
                        assert(agrees(cast_to(m1, a->Ok_0, t), cast_to(n1, a->Ok_0, t), x));
                    }
                }
            },
            _ => {},
        }
    }
}

proof fn agree_args(m: Machine, es: Seq<ExprM>, i: int, f1: nat, f2: nat, x: Seq<AnsM>)
    requires
        f1 <= f2,
    ensures
        agrees(sem_args(m, es, i, f1), sem_args(with_more(m, x), es, i, f2), x),
    decreases f1, 1nat, es.len() - i,
{
    lemma_grows_all();
    if 0 <= i < es.len() {
        let wm = with_more(m, x);
        agree_eval(m, es[i], f1, f2, x);
        let (m1, r) = sem_eval(m, es[i], f1);
        let (n1, q) = sem_eval(wm, es[i], f2);
        if stopped(r) {
            assert(writes_extend(n1.out, m1.out));
            if q is Ok {
                let (n2, q2) = sem_args(n1, es, i + 1, f2);
                assert(writes_extend(n2.out, n1.out));
                lemma_writes_extend_trans(m1.out, n1.out, n2.out);
            }
        } else if r is Ok {
            assert(n1 == with_more(m1, x) && q == r);
            agree_args(m1, es, i + 1, f1, f2, x);
        } else {
            assert(n1 == with_more(m1, x) && q == r);
        }
    }
}

proof fn agree_print(m: Machine, es: Seq<ExprM>, i: int, f1: nat, f2: nat, x: Seq<AnsM>)
    requires
        f1 <= f2,
    ensures
        agrees(sem_print(m, es, i, f1), sem_print(with_more(m, x), es, i, f2), x),
    decreases f1, 1nat, es.len() - i,
{
    lemma_grows_all();
    lemma_helpers_agree(x);
    lemma_helpers_keep_out();
    if 0 <= i < es.len() {
        let wm = with_more(m, x);
        agree_eval(m, es[i], f1, f2, x);
        let (m1, r) = sem_eval(m, es[i], f1);
        let (n1, q) = sem_eval(wm, es[i], f2);
        if stopped(r) {
            if q is Ok {
                let (n2, t2) = yarn_of(n1, crate::value::val_to_yarn(q->Ok_0));
                if t2 is Ok {
                    let (n3, q3) = sem_print(n2, es, i + 1, f2);
                    lemma_writes_extend_trans(m1.out, n2.out, n3.out);
                }
            }
        } else {
            assert(n1 == with_more(m1, x) && q == r);
            if r is Ok {
                let (m2, t) = yarn_of(m1, crate::value::val_to_yarn(r->Ok_0));
                let (n2, t2) = yarn_of(n1, crate::value::val_to_yarn(r->Ok_0));
                if stopped(t) {
                    if t2 is Ok {
                        let (n3, q3) = sem_print(n2, es, i + 1, f2);
                        lemma_writes_extend_trans(m2.out, n2.out, n3.out);
                    }
                } else {
                    assert(n2 == with_more(m2, x) && t2 == t);
                    if t is Ok {
                        agree_print(m2, es, i + 1, f1, f2, x);
                    }
                }
            }
        }
    }
}

proof fn agree_stmts(m: Machine, ss: Seq<StmtM>, i: int, f1: nat, f2: nat, x: Seq<AnsM>)
    requires
        f1 <= f2,
    ensures
        agrees(sem_stmts(m, ss, i, f1), sem_stmts(with_more(m, x), ss, i, f2), x),
    decreases f1, 1nat, ss.len() - i,
{
    lemma_grows_all();
    if 0 <= i < ss.len() {
        let wm = with_more(m, x);
        agree_exec(m, ss[i], f1, f2, x);
        let (m1, r) = sem_exec(m, ss[i], f1);
        let (n1, q) = sem_exec(wm, ss[i], f2);
        if stopped(r) {
            if q == Ok::<Status, HaltM>(Status::Normal) {
                let (n2, q2) = sem_stmts(n1, ss, i + 1, f2);
                lemma_writes_extend_trans(m1.out, n1.out, n2.out);
            }
        } else {
            assert(n1 == with_more(m1, x) && q == r);
            if r == Ok::<Status, HaltM>(Status::Normal) {
                agree_stmts(m1, ss, i + 1, f1, f2, x);
            }
        }
    }
}

proof fn agree_block(m: Machine, ss: Seq<StmtM>, f1: nat, f2: nat, x: Seq<AnsM>)
    requires
        f1 <= f2,
    ensures
        agrees(sem_block(m, ss, f1), sem_block(with_more(m, x), ss, f2), x),
    decreases f1, 2nat, 0int,
{
    assert(push_scope(with_more(m, x)) == with_more(push_scope(m), x));
    agree_stmts(push_scope(m), ss, 0, f1, f2, x);
}

proof fn agree_elifs(
    m: Machine,
    bs: Seq<(ExprM, Seq<StmtM>)>,
    i: int,
    f1: nat,
    f2: nat,
    x: Seq<AnsM>,
)
    requires
        f1 <= f2,
    ensures
        agrees(sem_elifs(m, bs, i, f1), sem_elifs(with_more(m, x), bs, i, f2), x),
    decreases f1, 3nat, bs.len() - i,
{
    lemma_grows_all();
    if 0 <= i < bs.len() {
        let wm = with_more(m, x);
        agree_eval(m, bs[i].0, f1, f2, x);
        let (m1, r) = sem_eval(m, bs[i].0, f1);
        let (n1, q) = sem_eval(wm, bs[i].0, f2);
        if stopped(r) {
            if q is Ok {
                if crate::value::val_to_bool(q->Ok_0) {
                    let (n2, q2) = sem_block(n1, bs[i].1, f2);
                    lemma_writes_extend_trans(m1.out, n1.out, n2.out);
                } else {
                    let (n2, q2) = sem_elifs(n1, bs, i + 1, f2);
                    lemma_writes_extend_trans(m1.out, n1.out, n2.out);
                }
            }
        } else {
            assert(n1 == with_more(m1, x) && q == r);
            if r is Ok {
                if crate::value::val_to_bool(r->Ok_0) {
                    agree_block(m1, bs[i].1, f1, f2, x);
                    let (m2, r2) = sem_block(m1, bs[i].1, f1);
                    let (n2, q2) = sem_block(n1, bs[i].1, f2);
                    if !stopped(r2) {
                        assert(n2 == with_more(m2, x) && q2 == r2);
                    }
                } else {
                    agree_elifs(m1, bs, i + 1, f1, f2, x);
                }
            }
        }
    }
}

/// The rest of a loop after its condition was tested, on a run with more
/// fuel and answers, writes at least what was written before the test.
proof fn lemma_loop_rest_grows(
    n1: Machine,
    ex: Result<bool, HaltM>,
    cond: Option<(Seq<char>, ExprM)>,
    op: Option<Seq<char>>,
    var: Option<Seq<char>>,
    body: Seq<StmtM>,
    g: nat,
    fin: Machine,
)
    requires
        fin == (match ex {
            Err(h) => n1,
            Ok(true) => pop_scope(n1),
            Ok(false) => {
                let (n2, r) = sem_stmts(n1, body, 0, g);
                match r {
                    Err(h) => n2,
                    Ok(Status::Break) => pop_scope(n2),
                    Ok(Status::Return(v)) => pop_scope(n2),
                    Ok(Status::Normal) => {
                        let (n3, r3) = loop_step(n2, op, var);
                        match r3 {
                            Err(h) => n3,
                            Ok(_) => sem_loop(n3, cond, op, var, body, g).0,
                        }
                    },
                }
            },
        }),
    ensures
        writes_extend(fin.out, n1.out),
{
    lemma_grows_all();
    lemma_helpers_keep_out();
    if ex == Ok::<bool, HaltM>(false) {
        let (n2, r) = sem_stmts(n1, body, 0, g);
        if r == Ok::<Status, HaltM>(Status::Normal) {
            let (n3, r3) = loop_step(n2, op, var);
            if r3 is Ok {
                let (n4, r4) = sem_loop(n3, cond, op, var, body, g);
                lemma_writes_extend_trans(n1.out, n3.out, n4.out);
            }
        }
    }
}

proof fn agree_loop(
    m: Machine,
    cond: Option<(Seq<char>, ExprM)>,
    op: Option<Seq<char>>,
    var: Option<Seq<char>>,
    body: Seq<StmtM>,
    f1: nat,
    f2: nat,
    x: Seq<AnsM>,
)
    requires
        f1 <= f2,
    ensures
        agrees(
            sem_loop(m, cond, op, var, body, f1),
            sem_loop(with_more(m, x), cond, op, var, body, f2),
            x,
        ),
    decreases f1, 3nat, 0int,
{
    lemma_grows_all();
    lemma_helpers_agree(x);
    lemma_helpers_keep_out();
    let wm = with_more(m, x);
    if f1 > 0 {
        let f = (f1 - 1) as nat;
        let g = (f2 - 1) as nat;
        let (m1, ex) = match cond {
            None => (m, Ok(false)),
            Some((kind, ce)) => {
                let (m1, r) = sem_eval(m, ce, f);
                match r {
                    Err(h) => (m1, Err(h)),
                    Ok(v) => (m1, Ok(crate::interpreter::loop_exits(kind, crate::value::val_to_bool(v)))),
                }
            },
        };
        let (n1, ex2) = match cond {
            None => (wm, Ok(false)),
            Some((kind, ce)) => {
                let (n1, r) = sem_eval(wm, ce, g);
                match r {
                    Err(h) => (n1, Err(h)),
                    Ok(v) => (n1, Ok(crate::interpreter::loop_exits(kind, crate::value::val_to_bool(v)))),
                }
            },
        };
        if let Some((kind, ce)) = cond {
            agree_eval(m, ce, f, g, x);
        }
        let fin = sem_loop(wm, cond, op, var, body, f2).0;
        if stopped(ex) {
            assert(writes_extend(n1.out, m1.out));
            lemma_loop_rest_grows(n1, ex2, cond, op, var, body, g, fin);
            lemma_writes_extend_trans(m1.out, n1.out, fin.out);
        } else {
            assert(n1 == with_more(m1, x) && ex2 == ex);
            if ex == Ok::<bool, HaltM>(false) {
                agree_stmts(m1, body, 0, f, g, x);
                let (m2, r) = sem_stmts(m1, body, 0, f);
                let (n2, r2) = sem_stmts(n1, body, 0, g);
                if stopped(r) {
                    if r2 == Ok::<Status, HaltM>(Status::Normal) {
                        let (n3, r3) = loop_step(n2, op, var);
                        if r3 is Ok {
                            let (n4, r4) = sem_loop(n3, cond, op, var, body, g);
                            lemma_writes_extend_trans(m2.out, n3.out, n4.out);
                        }
                    }
                } else {
                    assert(n2 == with_more(m2, x) && r2 == r);
                    if r == Ok::<Status, HaltM>(Status::Normal) {
                        let (m3, r3) = loop_step(m2, op, var);
                        let (n3, r3b) = loop_step(n2, op, var);
                        if stopped(r3) {
                            if r3b is Ok {
                                let (n4, r4) = sem_loop(n3, cond, op, var, body, g);
                                lemma_writes_extend_trans(m3.out, n3.out, n4.out);
                            }
                        } else {
                            assert(n3 == with_more(m3, x) && r3b == r3);
                            if r3 is Ok {
                                agree_loop(m3, cond, op, var, body, f, g, x);
                            }
                        }
                    }
                }
            }
        }
    }
}

proof fn agree_call(m: Machine, name: Seq<char>, args: Seq<ExprM>, f1: nat, f2: nat, x: Seq<AnsM>)
    requires
        f1 <= f2,
    ensures
        agrees(sem_call(m, name, args, f1), sem_call(with_more(m, x), name, args, f2), x),
    decreases f1, 3nat, 0int,
{
    lemma_grows_all();
    let wm = with_more(m, x);
    agree_args(m, args, 0, f1, f2, x);
    let (m1, r) = sem_args(m, args, 0, f1);
    let (n1, q) = sem_args(wm, args, 0, f2);
    if stopped(r) {
        if q is Ok && n1.funcs.contains_key(name) {
            let (params, body) = n1.funcs[name];
            let n2 = push_scope(n1);
            let (sc, d) = declare_params(n2.scopes, params, q->Ok_0, 0);
            let n3 = Machine { scopes: sc, ..n2 };
            let (n4, q4) = sem_stmts(n3, body, 0, f2);
            lemma_writes_extend_trans(m1.out, n3.out, n4.out);
        }
    } else {
        assert(n1 == with_more(m1, x) && q == r);
        if r is Ok && m1.funcs.contains_key(name) {
            let (params, body) = m1.funcs[name];
            let m2 = push_scope(m1);
            let (sc, d) = declare_params(m2.scopes, params, r->Ok_0, 0);
            let m3 = Machine { scopes: sc, ..m2 };
            let n3 = Machine { scopes: sc, ..push_scope(n1) };
            assert(n3 == with_more(m3, x));
            agree_stmts(m3, body, 0, f1, f2, x);
            let (m4, r4) = sem_stmts(m3, body, 0, f1);
            let (n4, q4) = sem_stmts(n3, body, 0, f2);
            if !stopped(r4) {
                assert(n4 == with_more(m4, x) && q4 == r4);
                assert(pop_scope(n4) == with_more(pop_scope(m4), x));
            }
        }
    }
}

#[verifier::spinoff_prover]
#[verifier::rlimit(60)]
proof fn agree_if(
    m: Machine,
    cond: Option<ExprM>,
    tb: Seq<StmtM>,
    eis: Seq<(ExprM, Seq<StmtM>)>,
    eb: Option<Seq<StmtM>>,
    f: nat,
    g: nat,
    x: Seq<AnsM>,
)
    requires
        f <= g,
    ensures
        agrees(
            sem_exec(m, StmtM::IfThenElse(cond, tb, eis, eb), f + 1),
            sem_exec(with_more(m, x), StmtM::IfThenElse(cond, tb, eis, eb), g + 1),
            x,
        ),
    decreases f, 4nat, 0int,
{
    lemma_grows_all();
    let wm = with_more(m, x);
    let (m1, r) = match cond {
        Some(e) => sem_eval(m, e, f),
        None => (m, Ok(m.it)),
    };
    let (n1, q) = match cond {
        Some(e) => sem_eval(wm, e, g),
        None => (wm, Ok(wm.it)),
    };
    if let Some(e) = cond {
        agree_eval(m, e, f, g, x);
    }
    let fin = sem_exec(wm, StmtM::IfThenElse(cond, tb, eis, eb), g + 1).0;
    if stopped(r) {
        if q is Ok {
            if crate::value::val_to_bool(q->Ok_0) {
                assert(fin == sem_block(n1, tb, g).0);
                assert(writes_extend(fin.out, n1.out));
                lemma_writes_extend_trans(m1.out, n1.out, fin.out);
            } else {
                let (n2, q2) = sem_elifs(n1, eis, 0, g);
                assert(writes_extend(n2.out, n1.out));
                if q2 == Ok::<Option<Status>, HaltM>(None) && eb is Some {
                    let (n3, q3) = sem_block(n2, eb->0, g);
                    assert(fin == n3);
                    lemma_writes_extend_trans(n1.out, n2.out, n3.out);
                } else {
                    assert(fin == n2);
                }
                lemma_writes_extend_trans(m1.out, n1.out, fin.out);
            }
        }
    } else {
        assert(n1 == with_more(m1, x) && q == r);
        if r is Ok {
            if crate::value::val_to_bool(r->Ok_0) {
                agree_block(m1, tb, f, g, x);
            } else {
                agree_elifs(m1, eis, 0, f, g, x);
                let (m2, r2) = sem_elifs(m1, eis, 0, f);
                let (n2, q2) = sem_elifs(n1, eis, 0, g);
                if stopped(r2) {
                    if q2 == Ok::<Option<Status>, HaltM>(None) && eb is Some {
                        let (n3, q3) = sem_block(n2, eb->0, g);
                        lemma_writes_extend_trans(m2.out, n2.out, n3.out);
                    }
                } else {
                    assert(n2 == with_more(m2, x) && q2 == r2);
                    if r2 == Ok::<Option<Status>, HaltM>(None) && eb is Some {
                        agree_block(m2, eb->0, f, g, x);
                    }
                }
            }
        }
    }
}

proof fn agree_input(m: Machine, target: Seq<char>, f: nat, g: nat, x: Seq<AnsM>)
    ensures
        agrees(
            sem_exec(m, StmtM::Input(target), f + 1),
            sem_exec(with_more(m, x), StmtM::Input(target), g + 1),
            x,
        ),
{
    lemma_helpers_agree(x);
    lemma_helpers_keep_out();
    let wm = with_more(m, x);
    let (m1, a) = ask(m, ReqM::ReadLine);
    let (n1, a2) = ask(wm, ReqM::ReadLine);
    assert(agrees(ask(m, ReqM::ReadLine), ask(wm, ReqM::ReadLine), x));
    if !stopped(a) {
        assert(n1 == with_more(m1, x) && a2 == a);
        if a is Ok && a->Ok_0 is Line {
            let t = crate::text::spec_trim(a->Ok_0->Line_0);
            assert(agrees(classify_input(m1, t), classify_input(n1, t), x));
            let (m2, r) = classify_input(m1, t);
            let (n2, q) = classify_input(n1, t);
            if !stopped(r) {
                assert(n2 == with_more(m2, x) && q == r);
            }
        }
    }
}

proof fn agree_exec(m: Machine, s: StmtM, f1: nat, f2: nat, x: Seq<AnsM>)
    requires
        f1 <= f2,
    ensures
        agrees(sem_exec(m, s, f1), sem_exec(with_more(m, x), s, f2), x),
    decreases f1, 0nat, 0int,
{
    lemma_grows_all();
    let wm = with_more(m, x);
    if f1 > 0 {
        let f = (f1 - 1) as nat;
        let g = (f2 - 1) as nat;
        match s {
            StmtM::Declaration(name, value) => {
                if let Some(e) = value {
                    agree_eval(m, e, f, g, x);
                    let (m1, r) = sem_eval(m, e, f);
                    let (n1, q) = sem_eval(wm, e, g);
                    if !stopped(r) {
                        assert(n1 == with_more(m1, x) && q == r);
                    }
                }
            },
            StmtM::Assignment(target, value) => {
                agree_eval(m, value, f, g, x);
                let (m1, r) = sem_eval(m, value, f);
                let (n1, q) = sem_eval(wm, value, g);
                if !stopped(r) {
                    assert(n1 == with_more(m1, x) && q == r);
                }
            },
            StmtM::Print(es, newline, to_stderr) => {
                agree_print(m, es, 0, f, g, x);
                let (m1, r) = sem_print(m, es, 0, f);
                let (n1, q) = sem_print(wm, es, 0, g);
                if stopped(r) {
                    if q is Ok {
                        let line = crate::interpreter::join_spaced(q->Ok_0) + if newline {
                            seq!['\n']
                        } else {
                            Seq::empty()
                        };
                        assert(writes_extend(n1.out.push((to_stderr, line)), n1.out));
                        lemma_writes_extend_trans(m1.out, n1.out, n1.out.push((to_stderr, line)));
                    }
                } else {
                    assert(n1 == with_more(m1, x) && q == r);
                }
            },
            StmtM::Input(target) => {
                agree_input(m, target, f, g, x);
            },
            StmtM::IfThenElse(cond, tb, eis, eb) => {
                agree_if(m, cond, tb, eis, eb, f, g, x);
            },
            StmtM::Loop(_, op, var, cond, body) => {
                assert(push_scope(wm) == with_more(push_scope(m), x));
                agree_loop(push_scope(m), cond, op, var, body, f, g, x);
            },
            StmtM::FunctionDef(name, params, body) => {},
            StmtM::FunctionCall(name, args) => {
                agree_call(m, name, args, f, g, x);
                let (m1, r) = sem_call(m, name, args, f);
                let (n1, q) = sem_call(wm, name, args, g);
                if !stopped(r) {
                    assert(n1 == with_more(m1, x) && q == r);
                }
            },
            StmtM::Return(value) => {
                if let Some(e) = value {
                    agree_eval(m, e, f, g, x);
                    let (m1, r) = sem_eval(m, e, f);
                    let (n1, q) = sem_eval(wm, e, g);
                    if !stopped(r) {
                        assert(n1 == with_more(m1, x) && q == r);
                    }
                }
            },
            StmtM::Break => {},
            StmtM::Expression(e) => {
                agree_eval(m, e, f, g, x);
                let (m1, r) = sem_eval(m, e, f);
                let (n1, q) = sem_eval(wm, e, g);
                if !stopped(r) {
                    assert(n1 == with_more(m1, x) && q == r);
                }
            },
        }
    }
}

/// Running a program again from the start, with at least as much fuel and
/// with more answers after those given before, writes at least what the
/// earlier run wrote, in the same order; and when the earlier run did not
/// stop for want of fuel or of an answer, the later one ends the same way
/// having written the same.
pub proof fn rerun_agrees(
    answers: Seq<AnsM>,
    extra: Seq<AnsM>,
    ss: Seq<StmtM>,
    f1: nat,
    f2: nat,
)
    requires
        f1 <= f2,
    ensures
        ({
            let (m1, r1) = sem_program(initial_machine(answers), ss, f1);
            let (m2, r2) = sem_program(initial_machine(answers + extra), ss, f2);
            &&& writes_extend(m2.out, m1.out)
            &&& !stopped(r1) ==> r2 == r1 && m2.out == m1.out
        }),
{
    let m = initial_machine(answers);
    assert(with_more(m, extra) == initial_machine(answers + extra));
    agree_stmts(m, ss, 0, f1, f2, extra);
}

/// From `m` to `m2` the answers stay, the count of those used does not go
/// down or past them, and a stop for want of an answer comes only once
/// every answer is used.
pub open spec fn uses_in_order<T>(m: Machine, m2: Machine, r: Result<T, HaltM>) -> bool {
    &&& m2.answers == m.answers
    &&& m.next <= m2.next
    &&& m.next <= m.answers.len() ==> m2.next <= m2.answers.len()
    &&& (m.next <= m.answers.len() && r matches Err(HaltM::Need(_))) ==> m2.next == m.answers.len()
}

proof fn lemma_helpers_use_in_order()
    ensures
        forall|m: Machine, req: ReqM| uses_in_order(m, (#[trigger] ask(m, req)).0, ask(m, req).1),
        forall|m: Machine, c: crate::value::CastM<i64>|
            uses_in_order(m, (#[trigger] int_of(m, c)).0, int_of(m, c).1),
        forall|m: Machine, c: crate::value::CastM<u32>|
            uses_in_order(m, (#[trigger] float_of(m, c)).0, float_of(m, c).1),
        forall|m: Machine, c: crate::value::CastM<Seq<char>>|
            uses_in_order(m, (#[trigger] yarn_of(m, c)).0, yarn_of(m, c).1),
        forall|m: Machine, op: crate::parser::BinaryOperator, l: Val, r: Val|
            uses_in_order(m, (#[trigger] apply_binary(m, op, l, r)).0, apply_binary(m, op, l, r).1),
        forall|m: Machine, v: Val, t: crate::parser::ValueType|
            uses_in_order(m, (#[trigger] cast_to(m, v, t)).0, cast_to(m, v, t).1),
        forall|m: Machine, t: Seq<char>|
            uses_in_order(m, (#[trigger] classify_input(m, t)).0, classify_input(m, t).1),
        forall|m: Machine, op: Option<Seq<char>>, var: Option<Seq<char>>|
            uses_in_order(m, (#[trigger] loop_step(m, op, var)).0, loop_step(m, op, var).1),
{
    assert forall|m: Machine, op: crate::parser::BinaryOperator, l: Val, r: Val|
        uses_in_order(m, (#[trigger] apply_binary(m, op, l, r)).0, apply_binary(m, op, l, r).1) by {
        let (m1, a) = int_of(m, crate::value::val_to_integer(l));
        assert(uses_in_order(m, m1, a));
        if a is Ok {
            let (m2, b) = int_of(m1, crate::value::val_to_integer(r));
            assert(uses_in_order(m1, m2, b));
        }
    }
    assert forall|m: Machine, v: Val, t: crate::parser::ValueType|
        uses_in_order(m, (#[trigger] cast_to(m, v, t)).0, cast_to(m, v, t).1) by {
        assert(uses_in_order(m, int_of(m, crate::value::val_to_integer(v)).0, int_of(m, crate::value::val_to_integer(v)).1));
        assert(uses_in_order(m, float_of(m, crate::value::val_to_float(v)).0, float_of(m, crate::value::val_to_float(v)).1));
        assert(uses_in_order(m, yarn_of(m, crate::value::val_to_yarn(v)).0, yarn_of(m, crate::value::val_to_yarn(v)).1));
    }
    assert forall|m: Machine, t: Seq<char>|
        uses_in_order(m, (#[trigger] classify_input(m, t)).0, classify_input(m, t).1) by {
        assert(uses_in_order(m, ask(m, ReqM::ParseFloat(t)).0, ask(m, ReqM::ParseFloat(t)).1));
    }
    assert forall|m: Machine, op: Option<Seq<char>>, var: Option<Seq<char>>|
        uses_in_order(m, (#[trigger] loop_step(m, op, var)).0, loop_step(m, op, var).1) by {
        if op is Some && var is Some {
            match crate::interpreter::lookup(m.scopes, var->0) {
                Some(cur) => {
                    let (m1, r) = int_of(m, crate::value::val_to_integer(cur));
                    assert(uses_in_order(m, m1, r));
                },
                None => {},
            }
        }
    }
}

proof fn order_eval(m: Machine, e: ExprM, fuel: nat)
    ensures
        uses_in_order(m, sem_eval(m, e, fuel).0, sem_eval(m, e, fuel).1),
    decreases fuel, 0nat, 0int,
{
    lemma_helpers_use_in_order();
    if fuel > 0 {
        let f = (fuel - 1) as nat;
        match e {
            ExprM::Float(t) => {
                assert(uses_in_order(m, ask(m, ReqM::ParseFloat(t)).0, ask(m, ReqM::ParseFloat(t)).1));
            },
            ExprM::Binary(op, l, r) => {
                order_eval(m, *l, f);
                let (m1, a) = sem_eval(m, *l, f);
                order_eval(m1, *r, f);
                let (m2, b) = sem_eval(m1, *r, f);
                if a is Ok && b is Ok {
                    assert(uses_in_order(
                        m2,
                        apply_binary(m2, op, a->Ok_0, b->Ok_0).0,
                        apply_binary(m2, op, a->Ok_0, b->Ok_0).1,
                    ));
                }
            },
            ExprM::Unary(_, x) => {
                order_eval(m, *x, f);
            },
            ExprM::Call(name, args) => {
                order_call(m, name, args, f);
            },
            ExprM::Cast(x, t) => {
                order_eval(m, *x, f);
                let (m1, a) = sem_eval(m, *x, f);
                if a is Ok {
                    assert(uses_in_order(m1, cast_to(m1, a->Ok_0, t).0, cast_to(m1, a->Ok_0, t).1));
                }
            },
            _ => {},
        }
    }
}

proof fn order_args(m: Machine, es: Seq<ExprM>, i: int, fuel: nat)
    ensures
        uses_in_order(m, sem_args(m, es, i, fuel).0, sem_args(m, es, i, fuel).1),
    decreases fuel, 1nat, es.len() - i,
{
    if 0 <= i < es.len() {
        order_eval(m, es[i], fuel);
        let (m1, r) = sem_eval(m, es[i], fuel);
        order_args(m1, es, i + 1, fuel);
    }
}

proof fn order_print(m: Machine, es: Seq<ExprM>, i: int, fuel: nat)
    ensures
        uses_in_order(m, sem_print(m, es, i, fuel).0, sem_print(m, es, i, fuel).1),
    decreases fuel, 1nat, es.len() - i,
{
    lemma_helpers_use_in_order();
    if 0 <= i < es.len() {
        order_eval(m, es[i], fuel);
        let (m1, r) = sem_eval(m, es[i], fuel);
        if r is Ok {
            let (m2, t) = yarn_of(m1, crate::value::val_to_yarn(r->Ok_0));
            assert(uses_in_order(m1, m2, t));
            order_print(m2, es, i + 1, fuel);
        }
    }
}

proof fn order_stmts(m: Machine, ss: Seq<StmtM>, i: int, fuel: nat)
    ensures
        uses_in_order(m, sem_stmts(m, ss, i, fuel).0, sem_stmts(m, ss, i, fuel).1),
    decreases fuel, 1nat, ss.len() - i,
{
    if 0 <= i < ss.len() {
        order_exec(m, ss[i], fuel);
        let (m1, r) = sem_exec(m, ss[i], fuel);
        order_stmts(m1, ss, i + 1, fuel);
    }
}

proof fn order_block(m: Machine, ss: Seq<StmtM>, fuel: nat)
    ensures
        uses_in_order(m, sem_block(m, ss, fuel).0, sem_block(m, ss, fuel).1),
    decreases fuel, 2nat, 0int,
{
    order_stmts(push_scope(m), ss, 0, fuel);
}

proof fn order_elifs(m: Machine, bs: Seq<(ExprM, Seq<StmtM>)>, i: int, fuel: nat)
    ensures
        uses_in_order(m, sem_elifs(m, bs, i, fuel).0, sem_elifs(m, bs, i, fuel).1),
    decreases fuel, 3nat, bs.len() - i,
{
    if 0 <= i < bs.len() {
        order_eval(m, bs[i].0, fuel);
        let (m1, r) = sem_eval(m, bs[i].0, fuel);
        order_block(m1, bs[i].1, fuel);
        order_elifs(m1, bs, i + 1, fuel);
    }
}

proof fn order_loop(
    m: Machine,
    cond: Option<(Seq<char>, ExprM)>,
    op: Option<Seq<char>>,
    var: Option<Seq<char>>,
    body: Seq<StmtM>,
    fuel: nat,
)
    ensures
        uses_in_order(
            m,
            sem_loop(m, cond, op, var, body, fuel).0,
            sem_loop(m, cond, op, var, body, fuel).1,
        ),
    decreases fuel, 3nat, 0int,
{
    lemma_helpers_use_in_order();
    if fuel > 0 {
        let f = (fuel - 1) as nat;
        let m1 = match cond {
            None => m,
            Some((kind, ce)) => {
                order_eval(m, ce, f);
                sem_eval(m, ce, f).0
            },
        };
        order_stmts(m1, body, 0, f);
        let (m2, r) = sem_stmts(m1, body, 0, f);
        let (m3, r3) = loop_step(m2, op, var);
        assert(uses_in_order(m2, m3, r3));
        order_loop(m3, cond, op, var, body, f);
    }
}

proof fn order_call(m: Machine, name: Seq<char>, args: Seq<ExprM>, fuel: nat)
    ensures
        uses_in_order(m, sem_call(m, name, args, fuel).0, sem_call(m, name, args, fuel).1),
    decreases fuel, 3nat, 0int,
{
    order_args(m, args, 0, fuel);
    let (m1, r) = sem_args(m, args, 0, fuel);
    if r is Ok && m1.funcs.contains_key(name) {
        let (params, body) = m1.funcs[name];
        let m2 = push_scope(m1);
        let (sc, d) = declare_params(m2.scopes, params, r->Ok_0, 0);
        order_stmts(Machine { scopes: sc, ..m2 }, body, 0, fuel);
    }
}

proof fn order_exec(m: Machine, s: StmtM, fuel: nat)
    ensures
        uses_in_order(m, sem_exec(m, s, fuel).0, sem_exec(m, s, fuel).1),
    decreases fuel, 0nat, 0int,
{
    lemma_helpers_use_in_order();
    if fuel > 0 {
        let f = (fuel - 1) as nat;
        match s {
            StmtM::Declaration(name, value) => {
                if let Some(e) = value {
                    order_eval(m, e, f);
                }
            },
            StmtM::Assignment(target, value) => {
                order_eval(m, value, f);
            },
            StmtM::Print(es, newline, to_stderr) => {
                order_print(m, es, 0, f);
            },
            StmtM::Input(target) => {
                let (m1, a) = ask(m, ReqM::ReadLine);
                assert(uses_in_order(m, m1, a));
                if a is Ok && a->Ok_0 is Line {
                    let t = crate::text::spec_trim(a->Ok_0->Line_0);
                    assert(uses_in_order(m1, classify_input(m1, t).0, classify_input(m1, t).1));
                }
            },
            StmtM::IfThenElse(cond, tb, eis, eb) => {
                let m1 = match cond {
                    Some(e) => {
                        order_eval(m, e, f);
                        sem_eval(m, e, f).0
                    },
                    None => m,
                };
                order_block(m1, tb, f);
                order_elifs(m1, eis, 0, f);
                let m2 = sem_elifs(m1, eis, 0, f).0;
                if let Some(b) = eb {
                    order_block(m2, b, f);
                }
            },
            StmtM::Loop(_, op, var, cond, body) => {
                order_loop(push_scope(m), cond, op, var, body, f);
            },
            StmtM::FunctionDef(name, params, body) => {},
            StmtM::FunctionCall(name, args) => {
                order_call(m, name, args, f);
            },
            StmtM::Return(value) => {
                if let Some(e) = value {
                    order_eval(m, e, f);
                }
            },
            StmtM::Break => {},
            StmtM::Expression(e) => {
                order_eval(m, e, f);
            },
        }
    }
}

/// A run uses the answers it is given in order and never more of them than
/// there are; when it stops for want of an answer it has used them all, so
/// an answer given after them is the next one it uses.
pub proof fn answers_used_in_order(answers: Seq<AnsM>, ss: Seq<StmtM>, fuel: nat)
    ensures
        ({
            let (m, r) = sem_program(initial_machine(answers), ss, fuel);
            &&& m.answers == answers
            &&& m.next <= answers.len()
            &&& r matches Err(HaltM::Need(_)) ==> m.next == answers.len()
        }),
{
    order_stmts(initial_machine(answers), ss, 0, fuel);
}

} // verus!
