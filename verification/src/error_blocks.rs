//! Which stage an error comes from: the parser fails only with errors of
//! the 400 block, and a run fails only with errors of the 500 block or
//! with a failed read (exit code 1).

use vstd::prelude::*;
use crate::error::{ErrorModel, code_block};
use crate::interpreter::{
    HaltM, Machine, apply_binary, ask, cast_to, classify_input, declare_params, declare_var,
    float_of, int_of, loop_step, push_scope, sem_args, sem_block, sem_call, sem_elifs, sem_eval,
    sem_exec, sem_loop, sem_print, sem_program, sem_stmts, set_var, yarn_of,
};
use crate::parser::{
    BlockEnd, ExprM, StmtM, p_block, p_decl, p_elifs, p_expr, p_func, p_if, p_loop,
    p_loop_op, p_main, p_main_stmts, p_print_items, p_return, p_stmt,
};
use crate::tokenizer::TokenModel;
use crate::value::{CastM, ReqM, Val};

verus! {

/// An error of the interpreter's block, or a failed read.
pub open spec fn runtime_error(e: ErrorModel) -> bool {
    code_block(e.code) == 500 || e.code == 1
}

/// A run that failed, failed with a runtime error.
pub open spec fn fails_at_runtime<T>(r: Result<T, HaltM>) -> bool {
    match r {
        Err(HaltM::Error(e)) => runtime_error(e),
        _ => true,
    }
}

proof fn lemma_helpers_fail_at_runtime()
    ensures
        forall|m: Machine, req: ReqM| fails_at_runtime(#[trigger] ask(m, req).1),
        forall|m: Machine, c: CastM<i64>|
            (c matches CastM::Ready(Err(e)) ==> runtime_error(e)) ==> fails_at_runtime(
                #[trigger] int_of(m, c).1,
            ),
        forall|m: Machine, c: CastM<u32>|
            (c matches CastM::Ready(Err(e)) ==> runtime_error(e)) ==> fails_at_runtime(
                #[trigger] float_of(m, c).1,
            ),
        forall|m: Machine, c: CastM<Seq<char>>|
            (c matches CastM::Ready(Err(e)) ==> runtime_error(e)) ==> fails_at_runtime(
                #[trigger] yarn_of(m, c).1,
            ),
        forall|m: Machine, op: crate::parser::BinaryOperator, l: Val, r: Val|
            fails_at_runtime(#[trigger] apply_binary(m, op, l, r).1),
        forall|m: Machine, v: Val, t: crate::parser::ValueType|
            fails_at_runtime(#[trigger] cast_to(m, v, t).1),
        forall|m: Machine, t: Seq<char>| fails_at_runtime(#[trigger] classify_input(m, t).1),
        forall|m: Machine, op: Option<Seq<char>>, var: Option<Seq<char>>|
            fails_at_runtime(#[trigger] loop_step(m, op, var).1),
        forall|s: Seq<Map<Seq<char>, Val>>, n: Seq<char>, v: Val|
            (#[trigger] set_var(s, n, v)) matches Err(e) ==> runtime_error(e),
        forall|s: Seq<Map<Seq<char>, Val>>, n: Seq<char>, v: Val|
            (#[trigger] declare_var(s, n, v)) matches Err(e) ==> runtime_error(e),
{
    assert forall|m: Machine, op: crate::parser::BinaryOperator, l: Val, r: Val|
        fails_at_runtime(#[trigger] apply_binary(m, op, l, r).1) by {
        let (m1, a) = int_of(m, crate::value::val_to_integer(l));
        if a is Ok {
            let (m2, b) = int_of(m1, crate::value::val_to_integer(r));
        }
    }
    assert forall|m: Machine, op: Option<Seq<char>>, var: Option<Seq<char>>|
        fails_at_runtime(#[trigger] loop_step(m, op, var).1) by {
        if op is Some && var is Some {
            match crate::interpreter::lookup(m.scopes, var->0) {
                Some(cur) => {
                    let (m1, r) = int_of(m, crate::value::val_to_integer(cur));
                },
                None => {},
            }
        }
    }
}

proof fn lemma_declare_params_fail(
    s: Seq<Map<Seq<char>, Val>>,
    params: Seq<Seq<char>>,
    vals: Seq<Val>,
    i: int,
)
    ensures
        declare_params(s, params, vals, i).1 matches Err(e) ==> runtime_error(e),
    decreases params.len() - i,
{
    lemma_helpers_fail_at_runtime();
    if 0 <= i < params.len() && i < vals.len() {
        if let Ok(s2) = declare_var(s, params[i], vals[i]) {
            lemma_declare_params_fail(s2, params, vals, i + 1);
        }
    }
}

proof fn runtime_eval(m: Machine, e: ExprM, fuel: nat)
    ensures
        fails_at_runtime(sem_eval(m, e, fuel).1),
    decreases fuel, 0nat, 0int,
{
    lemma_helpers_fail_at_runtime();
    if fuel > 0 {
        let f = (fuel - 1) as nat;
        match e {
            ExprM::Binary(op, l, r) => {
                runtime_eval(m, *l, f);
                let (m1, a) = sem_eval(m, *l, f);
                runtime_eval(m1, *r, f);
            },
            ExprM::Unary(_, x) => {
                runtime_eval(m, *x, f);
            },
            ExprM::Call(name, args) => {
                runtime_call(m, name, args, f);
            },
            ExprM::Cast(x, t) => {
                runtime_eval(m, *x, f);
            },
            _ => {},
        }
    }
}

proof fn runtime_args(m: Machine, es: Seq<ExprM>, i: int, fuel: nat)
    ensures
        fails_at_runtime(sem_args(m, es, i, fuel).1),
    decreases fuel, 1nat, es.len() - i,
{
    if 0 <= i < es.len() {
        runtime_eval(m, es[i], fuel);
        let (m1, r) = sem_eval(m, es[i], fuel);
        runtime_args(m1, es, i + 1, fuel);
    }
}

proof fn runtime_print(m: Machine, es: Seq<ExprM>, i: int, fuel: nat)
    ensures
        fails_at_runtime(sem_print(m, es, i, fuel).1),
    decreases fuel, 1nat, es.len() - i,
{
    lemma_helpers_fail_at_runtime();
    if 0 <= i < es.len() {
        runtime_eval(m, es[i], fuel);
        let (m1, r) = sem_eval(m, es[i], fuel);
        if r is Ok {
            let (m2, t) = yarn_of(m1, crate::value::val_to_yarn(r->Ok_0));
            runtime_print(m2, es, i + 1, fuel);
        }
    }
}

proof fn runtime_stmts(m: Machine, ss: Seq<StmtM>, i: int, fuel: nat)
    ensures
        fails_at_runtime(sem_stmts(m, ss, i, fuel).1),
    decreases fuel, 1nat, ss.len() - i,
{
    if 0 <= i < ss.len() {
        runtime_exec(m, ss[i], fuel);
        let (m1, r) = sem_exec(m, ss[i], fuel);
        runtime_stmts(m1, ss, i + 1, fuel);
    }
}

proof fn runtime_block(m: Machine, ss: Seq<StmtM>, fuel: nat)
    ensures
        fails_at_runtime(sem_block(m, ss, fuel).1),
    decreases fuel, 2nat, 0int,
{
    runtime_stmts(push_scope(m), ss, 0, fuel);
}

proof fn runtime_elifs(m: Machine, bs: Seq<(ExprM, Seq<StmtM>)>, i: int, fuel: nat)
    ensures
        fails_at_runtime(sem_elifs(m, bs, i, fuel).1),
    decreases fuel, 3nat, bs.len() - i,
{
    if 0 <= i < bs.len() {
        runtime_eval(m, bs[i].0, fuel);
        let (m1, r) = sem_eval(m, bs[i].0, fuel);
        runtime_block(m1, bs[i].1, fuel);
        runtime_elifs(m1, bs, i + 1, fuel);
    }
}

proof fn runtime_loop(
    m: Machine,
    cond: Option<(Seq<char>, ExprM)>,
    op: Option<Seq<char>>,
    var: Option<Seq<char>>,
    body: Seq<StmtM>,
    fuel: nat,
)
    ensures
        fails_at_runtime(sem_loop(m, cond, op, var, body, fuel).1),
    decreases fuel, 3nat, 0int,
{
    lemma_helpers_fail_at_runtime();
    if fuel > 0 {
        let f = (fuel - 1) as nat;
        let m1 = match cond {
            None => m,
            Some((kind, ce)) => {
                runtime_eval(m, ce, f);
                sem_eval(m, ce, f).0
            },
        };
        runtime_stmts(m1, body, 0, f);
        let (m2, r) = sem_stmts(m1, body, 0, f);
        let (m3, r3) = loop_step(m2, op, var);
        runtime_loop(m3, cond, op, var, body, f);
    }
}

proof fn runtime_call(m: Machine, name: Seq<char>, args: Seq<ExprM>, fuel: nat)
    ensures
        fails_at_runtime(sem_call(m, name, args, fuel).1),
    decreases fuel, 3nat, 0int,
{
    runtime_args(m, args, 0, fuel);
    let (m1, r) = sem_args(m, args, 0, fuel);
    if r is Ok && m1.funcs.contains_key(name) {
        let (params, body) = m1.funcs[name];
        let m2 = push_scope(m1);
        lemma_declare_params_fail(m2.scopes, params, r->Ok_0, 0);
        let (sc, d) = declare_params(m2.scopes, params, r->Ok_0, 0);
        runtime_stmts(Machine { scopes: sc, ..m2 }, body, 0, fuel);
    }
}

proof fn runtime_exec(m: Machine, s: StmtM, fuel: nat)
    ensures
        fails_at_runtime(sem_exec(m, s, fuel).1),
    decreases fuel, 0nat, 0int,
{
    lemma_helpers_fail_at_runtime();
    if fuel > 0 {
        let f = (fuel - 1) as nat;
        match s {
            StmtM::Declaration(name, value) => {
                if let Some(e) = value {
                    runtime_eval(m, e, f);
                }
            },
            StmtM::Assignment(target, value) => {
                runtime_eval(m, value, f);
            },
            StmtM::Print(es, newline, to_stderr) => {
                runtime_print(m, es, 0, f);
            },
            StmtM::Input(target) => {
                let (m1, a) = ask(m, ReqM::ReadLine);
                if a is Ok && a->Ok_0 is Line {
                    let t = crate::text::spec_trim(a->Ok_0->Line_0);
                    assert(fails_at_runtime(classify_input(m1, t).1));
                }
            },
            StmtM::IfThenElse(cond, tb, eis, eb) => {
                let m1 = match cond {
                    Some(e) => {
                        runtime_eval(m, e, f);
                        sem_eval(m, e, f).0
                    },
                    None => m,
                };
                runtime_block(m1, tb, f);
                runtime_elifs(m1, eis, 0, f);
                let m2 = sem_elifs(m1, eis, 0, f).0;
                if let Some(b) = eb {
                    runtime_block(m2, b, f);
                }
            },
            StmtM::Loop(_, op, var, cond, body) => {
                runtime_loop(push_scope(m), cond, op, var, body, f);
            },
            StmtM::FunctionDef(name, params, body) => {},
            StmtM::FunctionCall(name, args) => {
                runtime_call(m, name, args, f);
            },
            StmtM::Return(value) => {
                if let Some(e) = value {
                    runtime_eval(m, e, f);
                }
            },
            StmtM::Break => {},
            StmtM::Expression(e) => {
                runtime_eval(m, e, f);
            },
        }
    }
}

/// A program that fails while it runs fails with an error of the
/// interpreter's block (exit codes 500 to 599), or with a failed read
/// (exit code 1).
pub proof fn run_errors_are_runtime_errors(m: Machine, ss: Seq<StmtM>, fuel: nat)
    ensures
        fails_at_runtime(sem_program(m, ss, fuel).1),
{
    runtime_stmts(m, ss, 0, fuel);
}

/// A parse that failed, failed with an error of the parser's block.
pub open spec fn fails_in_parser<T>(r: Result<T, ErrorModel>) -> bool {
    match r {
        Err(e) => code_block(e.code) == 400,
        Ok(_) => true,
    }
}

proof fn parser_expr(ts: Seq<TokenModel>, p: int)
    ensures
        fails_in_parser(p_expr(ts, p)),
    decreases ts.len() - p, 0nat,
{
    if 0 <= p < ts.len() {
        if let TokenModel::Keyword(k) = ts[p] {
            parser_expr(ts, p + 1);
            if let Ok((l, q)) = p_expr(ts, p + 1) {
                if p + 1 <= q <= ts.len() {
                    let q2 = if crate::parser::kw_at(ts, q, crate::tokenizer::Keyword::An) {
                        q + 1
                    } else {
                        q
                    };
                    parser_expr(ts, q2);
                }
            }
        }
    }
}

proof fn parser_print_items(ts: Seq<TokenModel>, p: int)
    ensures
        fails_in_parser(p_print_items(ts, p)),
    decreases ts.len() - p,
{
    if 0 <= p < ts.len() {
        parser_expr(ts, p);
        if let Ok((x, q)) = p_expr(ts, p) {
            if p + 1 <= q <= ts.len() {
                parser_print_items(ts, q);
            }
        }
    }
}

proof fn parser_stmt(ts: Seq<TokenModel>, p: int)
    ensures
        fails_in_parser(p_stmt(ts, p)),
    decreases ts.len() - p, 2nat,
{
    if 0 <= p <= ts.len() {
        let q = crate::parser::skip_nl(ts, p);
        crate::parser::lemma_skip_nl(ts, p);
        if q < ts.len() {
            parser_expr(ts, q);
            parser_expr(ts, q + 2);
            assert(fails_in_parser(p_decl(ts, q + 1))) by {
                parser_expr(ts, q + 1 + 2);
            }
            assert(fails_in_parser(p_decl(ts, q + 2))) by {
                parser_expr(ts, q + 2 + 2);
            }
            parser_print_items(ts, q + 1);
            parser_if(ts, q + 1);
            parser_loop(ts, q + 1);
            parser_func(ts, q + 1);
            assert(fails_in_parser(p_return(ts, q + 1))) by {
                parser_expr(ts, q + 1);
            }
        }
    }
}

proof fn parser_block(ts: Seq<TokenModel>, p: int, end: BlockEnd)
    ensures
        fails_in_parser(p_block(ts, p, end)),
    decreases ts.len() - p, 3nat,
{
    if 0 <= p < ts.len() {
        parser_stmt(ts, p);
        if let Ok((s, q)) = p_stmt(ts, p) {
            if p + 1 <= q <= ts.len() {
                parser_block(ts, q, end);
            }
        }
    }
}

proof fn parser_elifs(ts: Seq<TokenModel>, p: int)
    ensures
        fails_in_parser(p_elifs(ts, p)),
    decreases ts.len() - p, 0nat,
{
    if crate::parser::kw_at(ts, p, crate::tokenizer::Keyword::Mebbe) {
        parser_expr(ts, p + 1);
        if let Ok((c, q)) = p_expr(ts, p + 1) {
            if p + 1 <= q <= ts.len() {
                let q2 = crate::parser::skip_nl(ts, q);
                crate::parser::lemma_skip_nl(ts, q);
                parser_block(ts, q2, BlockEnd::Branch);
                if let Ok((b, q3)) = p_block(ts, q2, BlockEnd::Branch) {
                    if q2 <= q3 <= ts.len() {
                        parser_elifs(ts, q3);
                    }
                }
            }
        }
    }
}

proof fn parser_if(ts: Seq<TokenModel>, p: int)
    ensures
        fails_in_parser(p_if(ts, p)),
    decreases ts.len() - p, 0nat,
{
    if 0 <= p <= ts.len() {
        let p1 = crate::parser::skip_nl(ts, p);
        crate::parser::lemma_skip_nl(ts, p);
        if crate::parser::kw_at(ts, p1, crate::tokenizer::Keyword::YaRly) {
            let p2 = crate::parser::skip_nl(ts, p1 + 1);
            crate::parser::lemma_skip_nl(ts, p1 + 1);
            parser_block(ts, p2, BlockEnd::Branch);
            if let Ok((tb, q)) = p_block(ts, p2, BlockEnd::Branch) {
                if p2 <= q <= ts.len() {
                    parser_elifs(ts, q);
                    if let Ok((eis, q2)) = p_elifs(ts, q) {
                        if q <= q2 <= ts.len() && crate::parser::kw_at(
                            ts,
                            q2,
                            crate::tokenizer::Keyword::NoWai,
                        ) {
                            let q4 = crate::parser::skip_nl(ts, q2 + 1);
                            crate::parser::lemma_skip_nl(ts, q2 + 1);
                            parser_block(ts, q4, BlockEnd::Else);
                        }
                    }
                }
            }
        }
    }
}

proof fn parser_loop(ts: Seq<TokenModel>, p: int)
    ensures
        fails_in_parser(p_loop(ts, p)),
    decreases ts.len() - p, 0nat,
{
    if crate::parser::ident_at(ts, p) is Some {
        assert(fails_in_parser(p_loop_op(ts, p + 1)));
        if let Ok((op, var, p2)) = p_loop_op(ts, p + 1) {
            parser_expr(ts, p2 + 1);
            let cond: Result<(Option<(Seq<char>, ExprM)>, int), ErrorModel> = if crate::parser::kw_at(
                ts,
                p2,
                crate::tokenizer::Keyword::Til,
            ) || crate::parser::kw_at(ts, p2, crate::tokenizer::Keyword::Wile) {
                let ct = if crate::parser::kw_at(ts, p2, crate::tokenizer::Keyword::Til) {
                    "TIL"@
                } else {
                    "WILE"@
                };
                match p_expr(ts, p2 + 1) {
                    Err(e) => Err(e),
                    Ok((x, q)) => Ok((Some((ct, x)), q)),
                }
            } else {
                Ok((None, p2))
            };
            if let Ok((c, q)) = cond {
                if p + 1 <= q <= ts.len() {
                    let q1 = crate::parser::skip_nl(ts, q);
                    crate::parser::lemma_skip_nl(ts, q);
                    parser_block(ts, q1, BlockEnd::LoopBody);
                }
            }
        }
    }
}

proof fn parser_func(ts: Seq<TokenModel>, p: int)
    ensures
        fails_in_parser(p_func(ts, p)),
    decreases ts.len() - p, 0nat,
{
    let p1 = if crate::parser::ident_at(ts, p) == Some(seq!['I']) {
        p + 1
    } else {
        p
    };
    if crate::parser::ident_at(ts, p1) is Some {
        let (params, p2) = if crate::parser::kw_at(ts, p1 + 1, crate::tokenizer::Keyword::Yr) {
            crate::parser::p_params(ts, p1 + 2)
        } else {
            (Seq::empty(), p1 + 1)
        };
        if p1 + 1 <= p2 <= ts.len() {
            let p3 = crate::parser::skip_nl(ts, p2);
            crate::parser::lemma_skip_nl(ts, p2);
            parser_block(ts, p3, BlockEnd::FunctionBody);
        }
    }
}

proof fn parser_main_stmts(ts: Seq<TokenModel>, p: int)
    ensures
        fails_in_parser(p_main_stmts(ts, p)),
    decreases ts.len() - p,
{
    if 0 <= p < ts.len() && !crate::parser::kw_at(ts, p, crate::tokenizer::Keyword::KThxBye) {
        if crate::parser::kw_at(ts, p, crate::tokenizer::Keyword::Newline) {
            parser_main_stmts(ts, p + 1);
        } else {
            parser_stmt(ts, p);
            if let Ok((s, q)) = p_stmt(ts, p) {
                if p + 1 <= q <= ts.len() {
                    parser_main_stmts(ts, q);
                }
            }
        }
    }
}

/// Parsing fails only with an error of the parser's block (exit codes 400
/// to 499).
pub proof fn parse_errors_are_parser_errors(ts: Seq<TokenModel>)
    ensures
        fails_in_parser(p_main(ts)),
{
    let (version, p2) = crate::parser::p_version(ts, crate::parser::skip_nl(ts, 1));
    parser_main_stmts(ts, crate::parser::skip_nl(ts, p2));
}

} // verus!
