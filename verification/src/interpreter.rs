//! The interpreter: it runs a syntax tree.
//!
//! Running is deterministic given the answers to its requests (lines of
//! input, float conversions) and a budget of steps (fuel). A run stops when
//! the program ends, fails, needs an answer it has not been given, or uses
//! up its fuel; the caller answers the request, or grants more fuel, and
//! runs again from the start with the answers so far.

use vstd::prelude::*;
use crate::error::{ErrorModel, LciError};
use crate::parser::{
    BinaryOperator, ExprM, Expression, MainNode, Statement, StmtM, UnaryOperator, ValueType,
    exprs_model, stmts_model, strings_view, branches_model,
};
use crate::text::{int_decimal, spec_parse_i64, spec_trim};
use crate::value::{
    AnsM, Answer, Cast, CastM, ReqM, Request, Val, Value, bare_error, float_eq, val_to_bool,
    val_to_float, val_to_integer, val_to_yarn,
};

verus! {

/// What the interpreter holds: its variable scopes (innermost last), the
/// implicit variable IT, its functions, what it has written, and the
/// answers it has been given and how many it has used.
#[verifier::ext_equal]
pub struct Machine {
    pub scopes: Seq<Map<Seq<char>, Val>>,
    pub it: Val,
    pub funcs: Map<Seq<char>, (Seq<Seq<char>>, Seq<StmtM>)>,
    pub out: Seq<(bool, Seq<char>)>,
    pub answers: Seq<AnsM>,
    pub next: nat,
}

/// How a statement finished.
pub enum Status {
    Normal,
    Break,
    Return(Val),
}

/// Why a run stopped early.
pub enum HaltM {
    /// The program failed.
    Error(ErrorModel),
    /// An answer is needed that has not been given.
    Need(ReqM),
    /// The fuel ran out.
    OutOfFuel,
    /// A given answer does not fit its request.
    BadAnswer,
    /// An integer division overflowed, which panics.
    Overflow,
    /// An integer remainder overflowed, which panics.
    RemainderOverflow,
}

/// An error that names something, such as a variable.
pub open spec fn named_error(code: i32, name: Seq<char>) -> ErrorModel {
    ErrorModel { code, texts: seq![Seq::empty(), name], lines: seq![0usize] }
}

/// The error for a failed read.
pub open spec fn io_error(msg: Seq<char>) -> ErrorModel {
    ErrorModel { code: 1, texts: seq![msg], lines: seq![] }
}

/// The innermost scope that holds `name`.
pub open spec fn holder(scopes: Seq<Map<Seq<char>, Val>>, name: Seq<char>) -> Option<int>
    decreases scopes.len(),
{
    if scopes.len() == 0 {
        None
    } else if scopes.last().contains_key(name) {
        Some(scopes.len() - 1)
    } else {
        holder(scopes.drop_last(), name)
    }
}

/// The value of a variable, from the innermost scope that holds it.
pub open spec fn lookup(scopes: Seq<Map<Seq<char>, Val>>, name: Seq<char>) -> Option<Val> {
    match holder(scopes, name) {
        Some(i) => Some(scopes[i][name]),
        None => None,
    }
}

/// Assign a variable: in the innermost scope that holds it, or else in the
/// current scope.
pub open spec fn set_var(scopes: Seq<Map<Seq<char>, Val>>, name: Seq<char>, v: Val) -> Result<
    Seq<Map<Seq<char>, Val>>,
    ErrorModel,
> {
    match holder(scopes, name) {
        Some(i) => Ok(scopes.update(i, scopes[i].insert(name, v))),
        None => if scopes.len() == 0 {
            Err(named_error(501, name))
        } else {
            Ok(scopes.update(scopes.len() - 1, scopes.last().insert(name, v)))
        },
    }
}

/// Declare a variable in the current scope, which must not hold it yet.
pub open spec fn declare_var(scopes: Seq<Map<Seq<char>, Val>>, name: Seq<char>, v: Val) -> Result<
    Seq<Map<Seq<char>, Val>>,
    ErrorModel,
> {
    if scopes.len() == 0 {
        Err(named_error(501, name))
    } else if scopes.last().contains_key(name) {
        Err(named_error(535, name))
    } else {
        Ok(scopes.update(scopes.len() - 1, scopes.last().insert(name, v)))
    }
}

/// Declare each parameter from `i` on with its value; the scopes as they
/// stand when the first failure comes, or after the last parameter.
pub open spec fn declare_params(
    scopes: Seq<Map<Seq<char>, Val>>,
    params: Seq<Seq<char>>,
    vals: Seq<Val>,
    i: int,
) -> (Seq<Map<Seq<char>, Val>>, Result<(), ErrorModel>)
    decreases params.len() - i,
{
    if i < 0 || i >= params.len() || i >= vals.len() {
        (scopes, Ok(()))
    } else {
        match declare_var(scopes, params[i], vals[i]) {
            Err(e) => (scopes, Err(e)),
            Ok(s2) => declare_params(s2, params, vals, i + 1),
        }
    }
}

/// A new innermost scope.
pub open spec fn push_scope(m: Machine) -> Machine {
    Machine { scopes: m.scopes.push(Map::empty()), ..m }
}

/// The innermost scope removed, unless it is the last one.
pub open spec fn pop_scope(m: Machine) -> Machine {
    Machine { scopes: if m.scopes.len() > 1 { m.scopes.drop_last() } else { m.scopes }, ..m }
}

/// The next answer, if one is left.
pub open spec fn ask(m: Machine, req: ReqM) -> (Machine, Result<AnsM, HaltM>) {
    if m.next < m.answers.len() {
        (Machine { next: m.next + 1, ..m }, Ok(m.answers[m.next as int]))
    } else {
        (m, Err(HaltM::Need(req)))
    }
}

/// An integer conversion finished, an answer used where it was asked.
pub open spec fn int_of(m: Machine, c: CastM<i64>) -> (Machine, Result<i64, HaltM>) {
    match c {
        CastM::Ready(Ok(i)) => (m, Ok(i)),
        CastM::Ready(Err(e)) => (m, Err(HaltM::Error(e))),
        CastM::Ask(req) => {
            let (m2, a) = ask(m, req);
            match a {
                Err(h) => (m2, Err(h)),
                Ok(AnsM::Int(i)) => (m2, Ok(i)),
                Ok(_) => (m2, Err(HaltM::BadAnswer)),
            }
        },
    }
}

/// A float conversion finished, an answer used where it was asked; text
/// that is no float is an error.
pub open spec fn float_of(m: Machine, c: CastM<u32>) -> (Machine, Result<u32, HaltM>) {
    match c {
        CastM::Ready(Ok(b)) => (m, Ok(b)),
        CastM::Ready(Err(e)) => (m, Err(HaltM::Error(e))),
        CastM::Ask(req) => {
            let (m2, a) = ask(m, req);
            match a {
                Err(h) => (m2, Err(h)),
                Ok(AnsM::Float(b)) => (m2, Ok(b)),
                Ok(AnsM::NotFloat) => if req is ParseFloat {
                    (m2, Err(HaltM::Error(bare_error(512))))
                } else {
                    (m2, Err(HaltM::BadAnswer))
                },
                Ok(_) => (m2, Err(HaltM::BadAnswer)),
            }
        },
    }
}

/// A string conversion finished, an answer used where it was asked.
pub open spec fn yarn_of(m: Machine, c: CastM<Seq<char>>) -> (Machine, Result<Seq<char>, HaltM>) {
    match c {
        CastM::Ready(Ok(s)) => (m, Ok(s)),
        CastM::Ready(Err(e)) => (m, Err(HaltM::Error(e))),
        CastM::Ask(req) => {
            let (m2, a) = ask(m, req);
            match a {
                Err(h) => (m2, Err(h)),
                Ok(AnsM::Text(s)) => (m2, Ok(s)),
                Ok(_) => (m2, Err(HaltM::BadAnswer)),
            }
        },
    }
}

/// Whether `BOTH SAEM` holds: values of the same type that are equal
/// (floats by IEEE-754 equality); values of different types never are.
pub open spec fn vals_equal(l: Val, r: Val) -> bool {
    match (l, r) {
        (Val::Integer(a), Val::Integer(b)) => a == b,
        (Val::Float(a), Val::Float(b)) => float_eq(a, b),
        (Val::Boolean(a), Val::Boolean(b)) => a == b,
        (Val::Str(a), Val::Str(b)) => a == b,
        (Val::Nil, Val::Nil) => true,
        _ => false,
    }
}

/// An arithmetic operator on two integers: sums, differences and products
/// wrap around; dividing by zero is an error; dividing the least integer by
/// -1 overflows.
pub open spec fn arith(op: BinaryOperator, x: i64, y: i64) -> Result<Val, HaltM> {
    match op {
        BinaryOperator::Add => Ok(Val::Integer(x.wrapping_add(y))),
        BinaryOperator::Sub => Ok(Val::Integer(x.wrapping_sub(y))),
        BinaryOperator::Mul => Ok(Val::Integer(x.wrapping_mul(y))),
        BinaryOperator::Div => if y == 0 {
            Err(HaltM::Error(bare_error(531)))
        } else {
            match x.checked_div(y) {
                Some(q) => Ok(Val::Integer(q)),
                None => Err(HaltM::Overflow),
            }
        },
        BinaryOperator::Mod => if y == 0 {
            Err(HaltM::Error(bare_error(531)))
        } else {
            match x.checked_rem(y) {
                Some(q) => Ok(Val::Integer(q)),
                None => Err(HaltM::RemainderOverflow),
            }
        },
        BinaryOperator::Max => Ok(Val::Integer(if x > y { x } else { y })),
        _ => Ok(Val::Integer(if x < y { x } else { y })),
    }
}

/// A binary operator on two values: logic on their truth, equality on the
/// values, arithmetic on their integer conversions (left first).
pub open spec fn apply_binary(m: Machine, op: BinaryOperator, l: Val, r: Val) -> (
    Machine,
    Result<Val, HaltM>,
) {
    match op {
        BinaryOperator::And => (m, Ok(Val::Boolean(val_to_bool(l) && val_to_bool(r)))),
        BinaryOperator::Or => (m, Ok(Val::Boolean(val_to_bool(l) || val_to_bool(r)))),
        BinaryOperator::Xor => (m, Ok(Val::Boolean(val_to_bool(l) != val_to_bool(r)))),
        BinaryOperator::Equal => (m, Ok(Val::Boolean(vals_equal(l, r)))),
        BinaryOperator::NotEqual => (m, Ok(Val::Boolean(!vals_equal(l, r)))),
        _ => {
            let (m1, a) = int_of(m, val_to_integer(l));
            match a {
                Err(h) => (m1, Err(h)),
                Ok(x) => {
                    let (m2, b) = int_of(m1, val_to_integer(r));
                    match b {
                        Err(h) => (m2, Err(h)),
                        Ok(y) => (m2, arith(op, x, y)),
                    }
                },
            }
        },
    }
}

/// A cast of a value to a type.
pub open spec fn cast_to(m: Machine, v: Val, t: ValueType) -> (Machine, Result<Val, HaltM>) {
    match t {
        ValueType::Noob => (m, Ok(Val::Nil)),
        ValueType::Troof => (m, Ok(Val::Boolean(val_to_bool(v)))),
        ValueType::Numbr => {
            let (m1, r) = int_of(m, val_to_integer(v));
            (m1, match r { Ok(i) => Ok(Val::Integer(i)), Err(h) => Err(h) })
        },
        ValueType::Numbar => {
            let (m1, r) = float_of(m, val_to_float(v));
            (m1, match r { Ok(b) => Ok(Val::Float(b)), Err(h) => Err(h) })
        },
        ValueType::Yarn => {
            let (m1, r) = yarn_of(m, val_to_yarn(v));
            (m1, match r { Ok(s) => Ok(Val::Str(s)), Err(h) => Err(h) })
        },
        ValueType::Bukkit => (m, Err(HaltM::Error(named_error(539, Seq::empty())))),
    }
}

/// A line of input, trimmed, read as an integer, a float, WIN, FAIL, or
/// else kept as a string.
pub open spec fn classify_input(m: Machine, t: Seq<char>) -> (Machine, Result<Val, HaltM>) {
    match spec_parse_i64(t) {
        Some(i) => (m, Ok(Val::Integer(i))),
        None => {
            let (m2, a) = ask(m, ReqM::ParseFloat(t));
            match a {
                Err(h) => (m2, Err(h)),
                Ok(AnsM::Float(b)) => (m2, Ok(Val::Float(b))),
                Ok(AnsM::NotFloat) => (
                    m2,
                    Ok(
                        if t == "WIN"@ {
                            Val::Boolean(true)
                        } else if t == "FAIL"@ {
                            Val::Boolean(false)
                        } else {
                            Val::Str(t)
                        },
                    ),
                ),
                Ok(_) => (m2, Err(HaltM::BadAnswer)),
            }
        },
    }
}

/// Texts joined by single spaces.
pub open spec fn join_spaced(xs: Seq<Seq<char>>) -> Seq<char>
    decreases xs.len(),
{
    if xs.len() == 0 {
        Seq::empty()
    } else if xs.len() == 1 {
        xs[0]
    } else {
        join_spaced(xs.drop_last()) + seq![' '] + xs.last()
    }
}

/// A loop's counter step: `UPPIN` adds one to the variable, any other
/// operation takes one away; nothing happens without both an operation and
/// a variable.
pub open spec fn loop_step(m: Machine, op: Option<Seq<char>>, var: Option<Seq<char>>) -> (
    Machine,
    Result<(), HaltM>,
) {
    match (op, var) {
        (Some(o), Some(x)) => match lookup(m.scopes, x) {
            None => (m, Err(HaltM::Error(named_error(502, x)))),
            Some(cur) => {
                let (m1, r) = int_of(m, val_to_integer(cur));
                match r {
                    Err(h) => (m1, Err(h)),
                    Ok(i) => {
                        let n = if o == "UPPIN"@ { i.wrapping_add(1) } else { i.wrapping_sub(1) };
                        match set_var(m1.scopes, x, Val::Integer(n)) {
                            Err(e) => (m1, Err(HaltM::Error(e))),
                            Ok(sc) => (Machine { scopes: sc, ..m1 }, Ok(())),
                        }
                    },
                }
            },
        },
        _ => (m, Ok(())),
    }
}

/// Whether a loop's condition says to stop: `TIL` when it is true,
/// `WILE` when it is false.
pub open spec fn loop_exits(kind: Seq<char>, b: bool) -> bool {
    (kind == "TIL"@ && b) || (kind != "TIL"@ && kind == "WILE"@ && !b)
}

} // verus!

verus! {

/// Evaluating an expression with the given fuel: the machine after it and
/// the value, or why it stopped. Each evaluation uses one unit of fuel.
pub open spec fn sem_eval(m: Machine, e: ExprM, fuel: nat) -> (Machine, Result<Val, HaltM>)
    decreases fuel, 0nat, 0int,
{
    if fuel == 0 {
        (m, Err(HaltM::OutOfFuel))
    } else {
        let f = (fuel - 1) as nat;
        match e {
            ExprM::Integer(i) => (m, Ok(Val::Integer(i))),
            ExprM::Float(s) => {
                let (m1, a) = ask(m, ReqM::ParseFloat(s));
                match a {
                    Err(h) => (m1, Err(h)),
                    Ok(AnsM::Float(b)) => (m1, Ok(Val::Float(b))),
                    Ok(_) => (m1, Err(HaltM::BadAnswer)),
                }
            },
            ExprM::Str(s) => (m, Ok(Val::Str(s))),
            ExprM::Boolean(b) => (m, Ok(Val::Boolean(b))),
            ExprM::Nil => (m, Ok(Val::Nil)),
            ExprM::Variable(n) => match lookup(m.scopes, n) {
                Some(v) => (m, Ok(v)),
                None => (m, Err(HaltM::Error(named_error(502, n)))),
            },
            ExprM::Implicit => (m, Ok(m.it)),
            ExprM::Binary(op, l, r) => {
                let (m1, a) = sem_eval(m, *l, f);
                match a {
                    Err(h) => (m1, Err(h)),
                    Ok(lv) => {
                        let (m2, b) = sem_eval(m1, *r, f);
                        match b {
                            Err(h) => (m2, Err(h)),
                            Ok(rv) => apply_binary(m2, op, lv, rv),
                        }
                    },
                }
            },
            ExprM::Unary(_, x) => {
                let (m1, a) = sem_eval(m, *x, f);
                match a {
                    Err(h) => (m1, Err(h)),
                    Ok(v) => (m1, Ok(Val::Boolean(!val_to_bool(v)))),
                }
            },
            ExprM::Call(name, args) => sem_call(m, name, args, f),
            ExprM::Cast(x, t) => {
                let (m1, a) = sem_eval(m, *x, f);
                match a {
                    Err(h) => (m1, Err(h)),
                    Ok(v) => cast_to(m1, v, t),
                }
            },
        }
    }
}

/// Evaluating expressions from `i` on, in order.
pub open spec fn sem_args(m: Machine, es: Seq<ExprM>, i: int, fuel: nat) -> (
    Machine,
    Result<Seq<Val>, HaltM>,
)
    decreases fuel, 1nat, es.len() - i,
{
    if i < 0 || i >= es.len() {
        (m, Ok(Seq::empty()))
    } else {
        let (m1, r) = sem_eval(m, es[i], fuel);
        match r {
            Err(h) => (m1, Err(h)),
            Ok(v) => {
                let (m2, r2) = sem_args(m1, es, i + 1, fuel);
                match r2 {
                    Err(h) => (m2, Err(h)),
                    Ok(vs) => (m2, Ok(seq![v] + vs)),
                }
            },
        }
    }
}

/// The texts that a print statement writes from `i` on: each expression
/// evaluated, then converted to a string, before the next.
pub open spec fn sem_print(m: Machine, es: Seq<ExprM>, i: int, fuel: nat) -> (
    Machine,
    Result<Seq<Seq<char>>, HaltM>,
)
    decreases fuel, 1nat, es.len() - i,
{
    if i < 0 || i >= es.len() {
        (m, Ok(Seq::empty()))
    } else {
        let (m1, r) = sem_eval(m, es[i], fuel);
        match r {
            Err(h) => (m1, Err(h)),
            Ok(v) => {
                let (m2, t) = yarn_of(m1, val_to_yarn(v));
                match t {
                    Err(h) => (m2, Err(h)),
                    Ok(s) => {
                        let (m3, r3) = sem_print(m2, es, i + 1, fuel);
                        match r3 {
                            Err(h) => (m3, Err(h)),
                            Ok(ss) => (m3, Ok(seq![s] + ss)),
                        }
                    },
                }
            },
        }
    }
}

/// Running statements from `i` on until one finishes other than normally.
pub open spec fn sem_stmts(m: Machine, ss: Seq<StmtM>, i: int, fuel: nat) -> (
    Machine,
    Result<Status, HaltM>,
)
    decreases fuel, 1nat, ss.len() - i,
{
    if i < 0 || i >= ss.len() {
        (m, Ok(Status::Normal))
    } else {
        let (m1, r) = sem_exec(m, ss[i], fuel);
        match r {
            Err(h) => (m1, Err(h)),
            Ok(Status::Normal) => sem_stmts(m1, ss, i + 1, fuel),
            Ok(st) => (m1, Ok(st)),
        }
    }
}

/// Running a block in a scope of its own.
pub open spec fn sem_block(m: Machine, ss: Seq<StmtM>, fuel: nat) -> (
    Machine,
    Result<Status, HaltM>,
)
    decreases fuel, 2nat, 0int,
{
    let (m1, r) = sem_stmts(push_scope(m), ss, 0, fuel);
    match r {
        Err(h) => (m1, Err(h)),
        Ok(st) => (pop_scope(m1), Ok(st)),
    }
}

/// The `MEBBE` branches from `i` on: the first whose condition holds runs;
/// `None` when none does.
pub open spec fn sem_elifs(m: Machine, bs: Seq<(ExprM, Seq<StmtM>)>, i: int, fuel: nat) -> (
    Machine,
    Result<Option<Status>, HaltM>,
)
    decreases fuel, 3nat, bs.len() - i,
{
    if i < 0 || i >= bs.len() {
        (m, Ok(None))
    } else {
        let (m1, r) = sem_eval(m, bs[i].0, fuel);
        match r {
            Err(h) => (m1, Err(h)),
            Ok(v) => if val_to_bool(v) {
                let (m2, r2) = sem_block(m1, bs[i].1, fuel);
                match r2 {
                    Err(h) => (m2, Err(h)),
                    Ok(st) => (m2, Ok(Some(st))),
                }
            } else {
                sem_elifs(m1, bs, i + 1, fuel)
            },
        }
    }
}

/// The rounds of a loop, in the loop's scope: test the condition, run the
/// body, step the counter, again. Each round uses one unit of fuel.
pub open spec fn sem_loop(
    m: Machine,
    cond: Option<(Seq<char>, ExprM)>,
    op: Option<Seq<char>>,
    var: Option<Seq<char>>,
    body: Seq<StmtM>,
    fuel: nat,
) -> (Machine, Result<Status, HaltM>)
    decreases fuel, 3nat, 0int,
{
    if fuel == 0 {
        (m, Err(HaltM::OutOfFuel))
    } else {
        let f = (fuel - 1) as nat;
        let (m1, ex) = match cond {
            None => (m, Ok(false)),
            Some((kind, ce)) => {
                let (m1, r) = sem_eval(m, ce, f);
                match r {
                    Err(h) => (m1, Err(h)),
                    Ok(v) => (m1, Ok(loop_exits(kind, val_to_bool(v)))),
                }
            },
        };
        match ex {
            Err(h) => (m1, Err(h)),
            Ok(true) => (pop_scope(m1), Ok(Status::Normal)),
            Ok(false) => {
                let (m2, r) = sem_stmts(m1, body, 0, f);
                match r {
                    Err(h) => (m2, Err(h)),
                    Ok(Status::Break) => (pop_scope(m2), Ok(Status::Normal)),
                    Ok(Status::Return(v)) => (pop_scope(m2), Ok(Status::Return(v))),
                    Ok(Status::Normal) => {
                        let (m3, r3) = loop_step(m2, op, var);
                        match r3 {
                            Err(h) => (m3, Err(h)),
                            Ok(_) => sem_loop(m3, cond, op, var, body, f),
                        }
                    },
                }
            },
        }
    }
}

/// A function call: the arguments evaluated in order, the function looked
/// up, its parameters declared in a new scope, its body run; the value of
/// `FOUND YR`, or nil.
pub open spec fn sem_call(m: Machine, name: Seq<char>, args: Seq<ExprM>, fuel: nat) -> (
    Machine,
    Result<Val, HaltM>,
)
    decreases fuel, 3nat, 0int,
{
    let (m1, r) = sem_args(m, args, 0, fuel);
    match r {
        Err(h) => (m1, Err(h)),
        Ok(vals) => if !m1.funcs.contains_key(name) {
            (m1, Err(HaltM::Error(named_error(527, name))))
        } else {
            let (params, body) = m1.funcs[name];
            if params.len() != vals.len() {
                (m1, Err(HaltM::Error(named_error(528, name))))
            } else {
                let m2 = push_scope(m1);
                let (sc, d) = declare_params(m2.scopes, params, vals, 0);
                match d {
                    Err(e) => (Machine { scopes: sc, ..m2 }, Err(HaltM::Error(e))),
                    Ok(_) => {
                        let (m4, r4) = sem_stmts(Machine { scopes: sc, ..m2 }, body, 0, fuel);
                        match r4 {
                            Err(h) => (m4, Err(h)),
                            Ok(st) => (
                                pop_scope(m4),
                                Ok(
                                    match st {
                                        Status::Return(v) => v,
                                        _ => Val::Nil,
                                    },
                                ),
                            ),
                        }
                    },
                }
            }
        },
    }
}

/// Running one statement with the given fuel. Each statement uses one unit
/// of fuel.
pub open spec fn sem_exec(m: Machine, s: StmtM, fuel: nat) -> (Machine, Result<Status, HaltM>)
    decreases fuel, 0nat, 0int,
{
    if fuel == 0 {
        (m, Err(HaltM::OutOfFuel))
    } else {
        let f = (fuel - 1) as nat;
        match s {
            StmtM::Declaration(name, value) => {
                let (m1, r) = match value {
                    Some(e) => sem_eval(m, e, f),
                    None => (m, Ok(Val::Nil)),
                };
                match r {
                    Err(h) => (m1, Err(h)),
                    Ok(v) => match declare_var(m1.scopes, name, v) {
                        Err(e) => (m1, Err(HaltM::Error(e))),
                        Ok(sc) => (Machine { scopes: sc, ..m1 }, Ok(Status::Normal)),
                    },
                }
            },
            StmtM::Assignment(target, value) => {
                let (m1, r) = sem_eval(m, value, f);
                match r {
                    Err(h) => (m1, Err(h)),
                    Ok(v) => match set_var(m1.scopes, target, v) {
                        Err(e) => (m1, Err(HaltM::Error(e))),
                        Ok(sc) => (Machine { scopes: sc, ..m1 }, Ok(Status::Normal)),
                    },
                }
            },
            StmtM::Print(es, newline, to_stderr) => {
                let (m1, r) = sem_print(m, es, 0, f);
                match r {
                    Err(h) => (m1, Err(h)),
                    Ok(texts) => {
                        let line = join_spaced(texts) + if newline { seq!['\n'] } else { Seq::empty() };
                        (Machine { out: m1.out.push((to_stderr, line)), ..m1 }, Ok(Status::Normal))
                    },
                }
            },
            StmtM::Input(target) => {
                let (m1, a) = ask(m, ReqM::ReadLine);
                match a {
                    Err(h) => (m1, Err(h)),
                    Ok(AnsM::Line(raw)) => {
                        let (m2, r) = classify_input(m1, spec_trim(raw));
                        match r {
                            Err(h) => (m2, Err(h)),
                            Ok(v) => match set_var(m2.scopes, target, v) {
                                Err(e) => (m2, Err(HaltM::Error(e))),
                                Ok(sc) => (Machine { scopes: sc, ..m2 }, Ok(Status::Normal)),
                            },
                        }
                    },
                    Ok(AnsM::ReadFailed(msg)) => (m1, Err(HaltM::Error(io_error(msg)))),
                    Ok(_) => (m1, Err(HaltM::BadAnswer)),
                }
            },
            StmtM::IfThenElse(cond, tb, eis, eb) => {
                let (m1, r) = match cond {
                    Some(e) => sem_eval(m, e, f),
                    None => (m, Ok(m.it)),
                };
                match r {
                    Err(h) => (m1, Err(h)),
                    Ok(c) => if val_to_bool(c) {
                        sem_block(m1, tb, f)
                    } else {
                        let (m2, r2) = sem_elifs(m1, eis, 0, f);
                        match r2 {
                            Err(h) => (m2, Err(h)),
                            Ok(Some(st)) => (m2, Ok(st)),
                            Ok(None) => match eb {
                                Some(b) => sem_block(m2, b, f),
                                None => (m2, Ok(Status::Normal)),
                            },
                        }
                    },
                }
            },
            StmtM::Loop(_, op, var, cond, body) => sem_loop(push_scope(m), cond, op, var, body, f),
            StmtM::FunctionDef(name, params, body) => (
                Machine { funcs: m.funcs.insert(name, (params, body)), ..m },
                Ok(Status::Normal),
            ),
            StmtM::FunctionCall(name, args) => {
                let (m1, r) = sem_call(m, name, args, f);
                match r {
                    Err(h) => (m1, Err(h)),
                    Ok(_) => (m1, Ok(Status::Normal)),
                }
            },
            StmtM::Return(value) => {
                let (m1, r) = match value {
                    Some(e) => sem_eval(m, e, f),
                    None => (m, Ok(Val::Nil)),
                };
                match r {
                    Err(h) => (m1, Err(h)),
                    Ok(v) => (m1, Ok(Status::Return(v))),
                }
            },
            StmtM::Break => (m, Ok(Status::Break)),
            StmtM::Expression(e) => {
                let (m1, r) = sem_eval(m, e, f);
                match r {
                    Err(h) => (m1, Err(h)),
                    Ok(v) => (Machine { it: v, ..m1 }, Ok(Status::Normal)),
                }
            },
        }
    }
}

/// Running a program: its statements until one finishes other than
/// normally.
pub open spec fn sem_program(m: Machine, ss: Seq<StmtM>, fuel: nat) -> (Machine, Result<(), HaltM>) {
    let (m1, r) = sem_stmts(m, ss, 0, fuel);
    match r {
        Err(h) => (m1, Err(h)),
        Ok(_) => (m1, Ok(())),
    }
}

} // verus!

verus! {

/// A value with a meaning that the specification speaks of.
pub trait Modeled {
    type M;

    spec fn modeled(&self) -> Self::M;
}

impl Modeled for Value {
    type M = Val;

    open spec fn modeled(&self) -> Val {
        self.model()
    }
}

/// A function: its parameters and its body.
#[derive(Debug)]
pub struct FunctionEntry {
    pub params: Vec<String>,
    pub body: Vec<Statement>,
}

impl Modeled for FunctionEntry {
    type M = (Seq<Seq<char>>, Seq<StmtM>);

    open spec fn modeled(&self) -> (Seq<Seq<char>>, Seq<StmtM>) {
        (strings_view(self.params@), stmts_model(self.body@))
    }
}

/// No two names are the same.
pub open spec fn distinct(ns: Seq<String>) -> bool {
    forall|i: int, j: int| 0 <= i < ns.len() && 0 <= j < ns.len() && i != j ==> ns[i]@ != ns[j]@
}

/// The map from each name to the meaning of its value.
pub open spec fn bmap<V: Modeled>(ns: Seq<String>, vs: Seq<V>) -> Map<Seq<char>, V::M> {
    Map::new(
        |k: Seq<char>| exists|i: int| 0 <= i < ns.len() && ns[i]@ == k,
        |k: Seq<char>| vs[choose|i: int| 0 <= i < ns.len() && ns[i]@ == k].modeled(),
    )
}

pub proof fn lemma_bmap_at<V: Modeled>(ns: Seq<String>, vs: Seq<V>, i: int)
    requires
        distinct(ns),
        ns.len() == vs.len(),
        0 <= i < ns.len(),
    ensures
        bmap(ns, vs).contains_key(ns[i]@),
        bmap(ns, vs)[ns[i]@] == vs[i].modeled(),
{
    let k = ns[i]@;
    assert(exists|j: int| 0 <= j < ns.len() && ns[j]@ == k);
    let j = choose|j: int| 0 <= j < ns.len() && ns[j]@ == k;
    assert(j == i);
}

pub proof fn lemma_bmap_absent<V: Modeled>(ns: Seq<String>, vs: Seq<V>, k: Seq<char>)
    requires
        forall|i: int| 0 <= i < ns.len() ==> ns[i]@ != k,
    ensures
        !bmap(ns, vs).contains_key(k),
{
}

pub proof fn lemma_bmap_update<V: Modeled>(ns: Seq<String>, vs: Seq<V>, i: int, v: V)
    requires
        distinct(ns),
        ns.len() == vs.len(),
        0 <= i < ns.len(),
    ensures
        bmap(ns, vs.update(i, v)) == bmap(ns, vs).insert(ns[i]@, v.modeled()),
{
    let a = bmap(ns, vs.update(i, v));
    let b = bmap(ns, vs).insert(ns[i]@, v.modeled());
    assert forall|k: Seq<char>| a.contains_key(k) <==> b.contains_key(k) by {
        if b.contains_key(k) && k != ns[i]@ {
            let j = choose|j: int| 0 <= j < ns.len() && ns[j]@ == k;
        }
    }
    assert forall|k: Seq<char>| a.contains_key(k) implies a[k] == b[k] by {
        let j = choose|j: int| 0 <= j < ns.len() && ns[j]@ == k;
        lemma_bmap_at(ns, vs.update(i, v), j);
        if j != i {
            lemma_bmap_at(ns, vs, j);
        }
    }
    assert(a =~= b);
}

pub proof fn lemma_bmap_push<V: Modeled>(ns: Seq<String>, vs: Seq<V>, n: String, v: V)
    requires
        distinct(ns),
        ns.len() == vs.len(),
        !bmap(ns, vs).contains_key(n@),
    ensures
        distinct(ns.push(n)),
        bmap(ns.push(n), vs.push(v)) == bmap(ns, vs).insert(n@, v.modeled()),
{
    let ns2 = ns.push(n);
    let vs2 = vs.push(v);
    assert forall|i: int| 0 <= i < ns.len() implies ns[i]@ != n@ by {
        if ns[i]@ == n@ {
            assert(bmap(ns, vs).contains_key(n@));
        }
    }
    assert(distinct(ns2)) by {
        assert forall|i: int, j: int|
            0 <= i < ns2.len() && 0 <= j < ns2.len() && i != j implies ns2[i]@ != ns2[j]@ by {
            if i < ns.len() && j < ns.len() {
                assert(ns2[i] == ns[i] && ns2[j] == ns[j]);
            }
        }
    }
    let a = bmap(ns2, vs2);
    let b = bmap(ns, vs).insert(n@, v.modeled());
    assert forall|k: Seq<char>| a.contains_key(k) <==> b.contains_key(k) by {
        if a.contains_key(k) {
            let j = choose|j: int| 0 <= j < ns2.len() && ns2[j]@ == k;
            if j < ns.len() {
                assert(ns2[j] == ns[j]);
            }
        }
        if b.contains_key(k) && k != n@ {
            let j = choose|j: int| 0 <= j < ns.len() && ns[j]@ == k;
            assert(ns2[j] == ns[j]);
        }
        if k == n@ {
            assert(ns2[ns.len() as int] == n);
        }
    }
    assert forall|k: Seq<char>| a.contains_key(k) implies a[k] == b[k] by {
        let j = choose|j: int| 0 <= j < ns2.len() && ns2[j]@ == k;
        lemma_bmap_at(ns2, vs2, j);
        if j < ns.len() {
            assert(ns2[j] == ns[j] && vs2[j] == vs[j]);
            lemma_bmap_at(ns, vs, j);
        }
    }
    assert(a =~= b);
}

/// Names bound to values, none twice.
#[derive(Debug)]
pub struct Bindings<V> {
    names: Vec<String>,
    values: Vec<V>,
}

impl<V: Modeled> Bindings<V> {
    /// The names and values have one another's length, and no name is
    /// bound twice.
    pub closed spec fn wf(&self) -> bool {
        self.names@.len() == self.values@.len() && distinct(self.names@)
    }

    /// The map from each name to its value's meaning.
    pub closed spec fn map(&self) -> Map<Seq<char>, V::M> {
        bmap(self.names@, self.values@)
    }

    fn new() -> (r: Self)
        ensures
            r.wf(),
            r.map() == Map::<Seq<char>, V::M>::empty(),
    {
        let r = Bindings { names: Vec::new(), values: Vec::new() };
        assert(r.map() =~= Map::<Seq<char>, V::M>::empty());
        r
    }

    fn find(&self, name: &str) -> (r: Option<usize>)
        requires
            self.wf(),
        ensures
            match r {
                Some(i) => i < self.names@.len() && self.names@[i as int]@ == name@
                    && self.map().contains_key(name@) && self.map()[name@]
                    == self.values@[i as int].modeled(),
                None => !self.map().contains_key(name@),
            },
    {
        let mut i: usize = 0;
        while i < self.names.len()
            invariant
                self.wf(),
                i <= self.names@.len(),
                forall|j: int| 0 <= j < i ==> self.names@[j]@ != name@,
            decreases self.names@.len() - i,
        {
            if crate::text::str_eq(self.names[i].as_str(), name) {
                proof {
                    lemma_bmap_at(self.names@, self.values@, i as int);
                }
                return Some(i);
            }
            i = i + 1;
        }
        proof {
            lemma_bmap_absent(self.names@, self.values@, name@);
        }
        None
    }

    fn get(&self, i: usize) -> (r: &V)
        requires
            self.wf(),
            i < self.names@.len(),
        ensures
            *r == self.values@[i as int],
    {
        &self.values[i]
    }

    fn set(&mut self, i: usize, v: V)
        requires
            old(self).wf(),
            i < old(self).names@.len(),
        ensures
            final(self).wf(),
            final(self).names@ == old(self).names@,
            final(self).map() == old(self).map().insert(old(self).names@[i as int]@, v.modeled()),
    {
        proof {
            lemma_bmap_update(self.names@, self.values@, i as int, v);
        }
        self.values.set(i, v);
    }

    fn add(&mut self, name: String, v: V)
        requires
            old(self).wf(),
            !old(self).map().contains_key(name@),
        ensures
            final(self).wf(),
            final(self).map() == old(self).map().insert(name@, v.modeled()),
    {
        proof {
            lemma_bmap_push(self.names@, self.values@, name, v);
        }
        self.names.push(name);
        self.values.push(v);
    }
}

} // verus!

verus! {

/// Something the program wrote, to standard output or standard error.
#[derive(Debug)]
pub enum Output {
    Stdout(String),
    Stderr(String),
}

impl Output {
    /// Whether it goes to standard error, and its text.
    pub open spec fn model(&self) -> (bool, Seq<char>) {
        match self {
            Output::Stdout(s) => (false, s@),
            Output::Stderr(s) => (true, s@),
        }
    }
}

/// Why a run stopped early.
#[derive(Debug)]
pub enum Halt {
    /// The program failed.
    Error(LciError),
    /// An answer is needed that has not been given.
    Need(Request),
    /// The fuel ran out.
    OutOfFuel,
    /// A given answer does not fit its request.
    BadAnswer,
    /// An integer division overflowed, which panics.
    Overflow,
    /// An integer remainder overflowed, which panics.
    RemainderOverflow,
}

impl Halt {
    /// Why the run stopped.
    pub open spec fn model(&self) -> HaltM {
        match self {
            Halt::Error(e) => HaltM::Error(e@),
            Halt::Need(r) => HaltM::Need(r.model()),
            Halt::OutOfFuel => HaltM::OutOfFuel,
            Halt::BadAnswer => HaltM::BadAnswer,
            Halt::Overflow => HaltM::Overflow,
            Halt::RemainderOverflow => HaltM::RemainderOverflow,
        }
    }
}

/// Return status from statement execution.
#[derive(Debug)]
pub enum ReturnStatus {
    Normal,
    Break,
    Return(Value),
}

impl ReturnStatus {
    /// How the statement finished.
    pub open spec fn model(&self) -> Status {
        match self {
            ReturnStatus::Normal => Status::Normal,
            ReturnStatus::Break => Status::Break,
            ReturnStatus::Return(v) => Status::Return(v.model()),
        }
    }
}

/// A result, with its value and its reason to stop as the specification
/// states them.
pub open spec fn res_model<T, U>(r: Result<T, Halt>, f: spec_fn(T) -> U) -> Result<U, HaltM> {
    match r {
        Ok(x) => Ok(f(x)),
        Err(h) => Err(h.model()),
    }
}

/// An evaluation's result as the specification states it.
pub open spec fn value_result(r: Result<Value, Halt>) -> Result<Val, HaltM> {
    match r {
        Ok(v) => Ok(v.model()),
        Err(h) => Err(h.model()),
    }
}

/// A statement's result as the specification states it.
pub open spec fn status_result(r: Result<ReturnStatus, Halt>) -> Result<Status, HaltM> {
    match r {
        Ok(s) => Ok(s.model()),
        Err(h) => Err(h.model()),
    }
}

/// The machine at the start: one empty scope, IT nil, no functions, nothing
/// written, the given answers, none used.
pub open spec fn initial_machine(answers: Seq<AnsM>) -> Machine {
    Machine {
        scopes: seq![Map::empty()],
        it: Val::Nil,
        funcs: Map::empty(),
        out: Seq::empty(),
        answers,
        next: 0,
    }
}

/// The meanings of the answers.
pub open spec fn answers_model(a: Seq<Answer>) -> Seq<AnsM> {
    a.map_values(|x: Answer| x.model())
}

/// The meanings of what was written.
pub open spec fn outputs_model(o: Seq<Output>) -> Seq<(bool, Seq<char>)> {
    o.map_values(|x: Output| x.model())
}

/// Interpreter execution context.
pub struct Interpreter {
    /// Variable scopes, innermost last.
    scopes: Vec<Bindings<Value>>,
    /// Implicit variable (IT).
    implicit_var: Value,
    /// Functions defined in global scope.
    functions: Bindings<FunctionEntry>,
    /// What the program has written.
    output: Vec<Output>,
    /// The answers given to requests, in order.
    answers: Vec<Answer>,
    /// How many answers have been used.
    next_answer: usize,
}

/// The maps of the scopes.
pub closed spec fn scopes_model(s: Seq<Bindings<Value>>) -> Seq<Map<Seq<char>, Val>> {
    s.map_values(|b: Bindings<Value>| b.map())
}

impl Interpreter {
    /// What the interpreter holds.
    pub closed spec fn model(&self) -> Machine {
        Machine {
            scopes: scopes_model(self.scopes@),
            it: self.implicit_var.model(),
            funcs: self.functions.map(),
            out: outputs_model(self.output@),
            answers: answers_model(self.answers@),
            next: self.next_answer as nat,
        }
    }

    /// There is a scope, every scope and the function table are well
    /// formed, and no more answers are used than were given.
    pub closed spec fn wf(&self) -> bool {
        &&& self.scopes@.len() > 0
        &&& forall|i: int| 0 <= i < self.scopes@.len() ==> (#[trigger] self.scopes@[i]).wf()
        &&& self.functions.wf()
        &&& self.next_answer <= self.answers@.len()
    }

    /// A well formed interpreter has a scope, so an assignment in it always
    /// succeeds (`assignment_binding_form`).
    pub proof fn has_scope(&self)
        requires
            self.wf(),
        ensures
            self.model().scopes.len() > 0,
    {
    }

    /// Create a new interpreter, with no answers to requests.
    pub fn new() -> (r: Self)
        ensures
            r.wf(),
            r.model() == initial_machine(Seq::empty()),
    {
        Self::with_answers(Vec::new())
    }

    /// Create a new interpreter with the answers to its requests, in the
    /// order it will ask them.
    pub fn with_answers(answers: Vec<Answer>) -> (r: Self)
        ensures
            r.wf(),
            r.model() == initial_machine(answers_model(answers@)),
    {
        let mut scopes: Vec<Bindings<Value>> = Vec::new();
        scopes.push(Bindings::new());
        let r = Interpreter {
            scopes,
            implicit_var: Value::Nil,
            functions: Bindings::new(),
            output: Vec::new(),
            answers,
            next_answer: 0,
        };
        assert(r.model() =~= initial_machine(answers_model(answers@)));
        r
    }

    /// What the program has written so far.
    pub fn output(&self) -> (r: &Vec<Output>)
        ensures
            outputs_model(r@) == self.model().out,
    {
        &self.output
    }
}

impl Default for Interpreter {
    fn default() -> (r: Self)
        ensures
            r.wf(),
            r.model() == initial_machine(Seq::empty()),
    {
        Self::new()
    }
}

} // verus!

verus! {

proof fn lemma_holder_step(s: Seq<Map<Seq<char>, Val>>, i: int, name: Seq<char>)
    requires
        0 < i <= s.len(),
    ensures
        s.subrange(0, i).last() == s[i - 1],
        s.subrange(0, i).drop_last() == s.subrange(0, i - 1),
{
    assert(s.subrange(0, i).drop_last() =~= s.subrange(0, i - 1));
}

impl Interpreter {
    /// The innermost scope that holds `name`, and the slot there.
    fn find_var(&self, name: &str) -> (r: Option<(usize, usize)>)
        requires
            self.wf(),
        ensures
            match holder(self.model().scopes, name@) {
                Some(i) => r is Some && r.unwrap().0 == i && r.unwrap().0 < self.scopes@.len()
                    && r.unwrap().1 < self.scopes@[i].names@.len()
                    && self.scopes@[i].names@[r.unwrap().1 as int]@ == name@
                    && self.model().scopes[i][name@] == self.scopes@[i].values@[r.unwrap().1 as int].model(),
                None => r is None,
            },
    {
        let ghost sm = self.model().scopes;
        let mut i = self.scopes.len();
        assert(sm.subrange(0, i as int) =~= sm);
        while i > 0
            invariant
                self.wf(),
                sm == self.model().scopes,
                i <= self.scopes@.len(),
                holder(sm, name@) == holder(sm.subrange(0, i as int), name@),
            decreases i,
        {
            proof {
                lemma_holder_step(sm, i as int, name@);
            }
            assert(self.scopes@[i - 1].wf());
            match self.scopes[i - 1].find(name) {
                Some(j) => {
                    return Some((i - 1, j));
                },
                None => {},
            }
            i = i - 1;
        }
        None
    }

    /// A copy of a variable's value, from the innermost scope that holds it.
    pub fn get_variable(&self, name: &str) -> (r: Option<Value>)
        requires
            self.wf(),
        ensures
            match lookup(self.model().scopes, name@) {
                Some(v) => r is Some && r.unwrap().model() == v,
                None => r is None,
            },
    {
        match self.find_var(name) {
            Some((i, j)) => {
                assert(self.scopes@[i as int].wf());
                Some(self.scopes[i].get(j).duplicate())
            },
            None => None,
        }
    }

    /// Set a variable: where it is held, or in the current scope.
    pub fn set_variable(&mut self, name: String, value: Value) -> (r: Result<(), LciError>)
        requires
            old(self).wf(),
        ensures
            final(self).wf(),
            match set_var(old(self).model().scopes, name@, value.model()) {
                Ok(sc) => r is Ok && final(self).model() == (Machine { scopes: sc, ..old(self).model() }),
                Err(e) => r is Err && r.unwrap_err()@ == e && final(self).model() == old(self).model(),
            },
            r is Ok,
            lookup(final(self).model().scopes, name@) == Some(value.model()),
            forall|n: Seq<char>|
                n != name@ ==> #[trigger] lookup(final(self).model().scopes, n) == lookup(
                    old(self).model().scopes,
                    n,
                ),
            ({
                let i = match holder(old(self).model().scopes, name@) {
                    Some(h) => h,
                    None => old(self).model().scopes.len() - 1,
                };
                &&& final(self).model().scopes.len() == old(self).model().scopes.len()
                &&& final(self).model().scopes[i] == old(self).model().scopes[i].insert(
                    name@,
                    value.model(),
                )
                &&& forall|k: int|
                    0 <= k < old(self).model().scopes.len() && k != i
                        ==> #[trigger] final(self).model().scopes[k] == old(self).model().scopes[k]
            }),
    {
        let ghost old_scopes = self.scopes@;
        let ghost vm = value.model();
        proof {
            let sc0 = self.model().scopes;
            assignment_binding_form(sc0, name@, vm);
            let after = set_var(sc0, name@, vm)->Ok_0;
            assert forall|n: Seq<char>| n != name@ implies #[trigger] lookup(after, n) == lookup(
                sc0,
                n,
            ) by {
                read_after_assign(sc0, name@, vm, after, n);
            }
        }
        match self.find_var(name.as_str()) {
            Some((i, j)) => {
                assert(self.scopes@[i as int].wf());
                self.scopes[i].set(j, value);
                proof {
                    assert forall|k: int| 0 <= k < self.scopes@.len() implies (
                    #[trigger] self.scopes@[k]).wf() by {
                        if k != i {
                            assert(self.scopes@[k] == old_scopes[k]);
                        }
                    }
                    assert(scopes_model(self.scopes@) =~= scopes_model(old_scopes).update(
                        i as int,
                        scopes_model(old_scopes)[i as int].insert(name@, vm),
                    ));
                }
                Ok(())
            },
            None => {
                let n = self.scopes.len();
                if n == 0 {
                    return Err(LciError::UnableToStoreVariable(String::new(), 0, name));
                }
                assert(self.scopes@[n - 1].wf());
                self.scopes[n - 1].add(name, value);
                proof {
                    assert forall|k: int| 0 <= k < self.scopes@.len() implies (
                    #[trigger] self.scopes@[k]).wf() by {
                        if k != n - 1 {
                            assert(self.scopes@[k] == old_scopes[k]);
                        }
                    }
                    assert(scopes_model(self.scopes@) =~= scopes_model(old_scopes).update(
                        n - 1,
                        scopes_model(old_scopes).last().insert(name@, vm),
                    ));
                }
                Ok(())
            },
        }
    }
}

} // verus!

verus! {

impl Interpreter {
    /// Declare a variable in the current scope.
    fn declare_variable(&mut self, name: String, value: Value) -> (r: Result<(), LciError>)
        requires
            old(self).wf(),
        ensures
            final(self).wf(),
            match declare_var(old(self).model().scopes, name@, value.model()) {
                Ok(sc) => r is Ok && final(self).model() == (Machine { scopes: sc, ..old(self).model() }),
                Err(e) => r is Err && r.unwrap_err()@ == e && final(self).model() == old(self).model(),
            },
    {
        let ghost old_scopes = self.scopes@;
        let ghost vm = value.model();
        let n = self.scopes.len();
        if n == 0 {
            return Err(LciError::UnableToStoreVariable(String::new(), 0, name));
        }
        assert(self.scopes@[n - 1].wf());
        match self.scopes[n - 1].find(name.as_str()) {
            Some(_) => Err(LciError::RedefinitionOfVariable(String::new(), 0, name)),
            None => {
                self.scopes[n - 1].add(name, value);
                proof {
                    assert forall|k: int| 0 <= k < self.scopes@.len() implies (
                    #[trigger] self.scopes@[k]).wf() by {
                        if k != n - 1 {
                            assert(self.scopes@[k] == old_scopes[k]);
                        }
                    }
                    assert(scopes_model(self.scopes@) =~= scopes_model(old_scopes).update(
                        n - 1,
                        scopes_model(old_scopes).last().insert(name@, vm),
                    ));
                }
                Ok(())
            },
        }
    }

    /// Push a new variable scope.
    fn push_scope(&mut self)
        requires
            old(self).wf(),
        ensures
            final(self).wf(),
            final(self).model() == push_scope(old(self).model()),
    {
        let ghost old_scopes = self.scopes@;
        self.scopes.push(Bindings::new());
        proof {
            assert forall|k: int| 0 <= k < self.scopes@.len() implies (
            #[trigger] self.scopes@[k]).wf() by {
                if k < old_scopes.len() {
                    assert(self.scopes@[k] == old_scopes[k]);
                }
            }
            assert(scopes_model(self.scopes@) =~= scopes_model(old_scopes).push(Map::empty()));
        }
    }

    /// Pop the current variable scope, unless it is the last one.
    fn pop_scope(&mut self)
        requires
            old(self).wf(),
        ensures
            final(self).wf(),
            final(self).model() == pop_scope(old(self).model()),
    {
        let ghost old_scopes = self.scopes@;
        if self.scopes.len() > 1 {
            self.scopes.pop();
            proof {
                assert forall|k: int| 0 <= k < self.scopes@.len() implies (
                #[trigger] self.scopes@[k]).wf() by {
                    assert(self.scopes@[k] == old_scopes[k]);
                }
                assert(scopes_model(self.scopes@) =~= scopes_model(old_scopes).drop_last());
            }
        }
        assert(self.model() =~= pop_scope(old(self).model()));
    }

    /// The next answer, or the request it stands for when none is left.
    fn ask(&mut self, req: Request) -> (r: Result<Answer, Halt>)
        requires
            old(self).wf(),
        ensures
            final(self).wf(),
            (final(self).model(), match r {
                Ok(a) => Ok(a.model()),
                Err(h) => Err(h.model()),
            }) == ask(old(self).model(), req.model()),
    {
        if self.next_answer < self.answers.len() {
            let a = self.answers[self.next_answer].duplicate();
            self.next_answer = self.next_answer + 1;
            Ok(a)
        } else {
            Err(Halt::Need(req))
        }
    }
}

} // verus!

verus! {

/// A result of plain data, its reason to stop as the specification states it.
pub open spec fn plain_result<T>(r: Result<T, Halt>) -> Result<T, HaltM> {
    match r {
        Ok(x) => Ok(x),
        Err(h) => Err(h.model()),
    }
}

/// A string result as the specification states it.
pub open spec fn text_result(r: Result<String, Halt>) -> Result<Seq<char>, HaltM> {
    match r {
        Ok(x) => Ok(x@),
        Err(h) => Err(h.model()),
    }
}

impl Interpreter {
    /// A value converted to an integer, asking where the caller must convert.
    fn integer_of(&mut self, v: &Value) -> (r: Result<i64, Halt>)
        requires
            old(self).wf(),
        ensures
            final(self).wf(),
            (final(self).model(), plain_result(r)) == int_of(old(self).model(), val_to_integer(v.model())),
    {
        match v.to_integer() {
            Cast::Ready(Ok(i)) => Ok(i),
            Cast::Ready(Err(e)) => Err(Halt::Error(e)),
            Cast::Ask(req) => match self.ask(req) {
                Err(h) => Err(h),
                Ok(Answer::Int(i)) => Ok(i),
                Ok(_) => Err(Halt::BadAnswer),
            },
        }
    }

    /// A value converted to float bits, asking where the caller must convert.
    fn float_of(&mut self, v: &Value) -> (r: Result<u32, Halt>)
        requires
            old(self).wf(),
        ensures
            final(self).wf(),
            (final(self).model(), plain_result(r)) == float_of(old(self).model(), val_to_float(v.model())),
    {
        match v.to_float() {
            Cast::Ready(Ok(b)) => Ok(b),
            Cast::Ready(Err(e)) => Err(Halt::Error(e)),
            Cast::Ask(req) => {
                let parse = match &req {
                    Request::ParseFloat(_) => true,
                    _ => false,
                };
                match self.ask(req) {
                    Err(h) => Err(h),
                    Ok(Answer::Float(b)) => Ok(b),
                    Ok(Answer::NotFloat) => if parse {
                        Err(Halt::Error(LciError::ExpectedDecimal))
                    } else {
                        Err(Halt::BadAnswer)
                    },
                    Ok(_) => Err(Halt::BadAnswer),
                }
            },
        }
    }

    /// A value converted to a string, asking where the caller must convert.
    fn yarn_of(&mut self, v: &Value) -> (r: Result<String, Halt>)
        requires
            old(self).wf(),
        ensures
            final(self).wf(),
            (final(self).model(), text_result(r)) == yarn_of(old(self).model(), val_to_yarn(v.model())),
    {
        match v.to_string() {
            Cast::Ready(Ok(s)) => Ok(s),
            Cast::Ready(Err(e)) => Err(Halt::Error(e)),
            Cast::Ask(req) => match self.ask(req) {
                Err(h) => Err(h),
                Ok(Answer::Text(s)) => Ok(s),
                Ok(_) => Err(Halt::BadAnswer),
            },
        }
    }
}

fn vals_equal_exec(l: &Value, r: &Value) -> (b: bool)
    ensures
        b == vals_equal(l.model(), r.model()),
{
    match (l, r) {
        (Value::Integer(a), Value::Integer(b)) => *a == *b,
        (Value::Float(a), Value::Float(b)) => crate::value::float_eq_exec(*a, *b),
        (Value::Boolean(a), Value::Boolean(b)) => *a == *b,
        (Value::String(a), Value::String(b)) => crate::text::str_eq(a.as_str(), b.as_str()),
        (Value::Nil, Value::Nil) => true,
        _ => false,
    }
}

fn arith_exec(op: BinaryOperator, x: i64, y: i64) -> (r: Result<Value, Halt>)
    ensures
        value_result(r) == arith(op, x, y),
{
    match op {
        BinaryOperator::Add => Ok(Value::Integer(x.wrapping_add(y))),
        BinaryOperator::Sub => Ok(Value::Integer(x.wrapping_sub(y))),
        BinaryOperator::Mul => Ok(Value::Integer(x.wrapping_mul(y))),
        BinaryOperator::Div => if y == 0 {
            Err(Halt::Error(LciError::DivisionByZero))
        } else {
            match x.checked_div(y) {
                Some(q) => Ok(Value::Integer(q)),
                None => Err(Halt::Overflow),
            }
        },
        BinaryOperator::Mod => if y == 0 {
            Err(Halt::Error(LciError::DivisionByZero))
        } else {
            match x.checked_rem(y) {
                Some(q) => Ok(Value::Integer(q)),
                None => Err(Halt::RemainderOverflow),
            }
        },
        BinaryOperator::Max => Ok(Value::Integer(if x > y { x } else { y })),
        _ => Ok(Value::Integer(if x < y { x } else { y })),
    }
}

impl Interpreter {
    /// Apply a binary operator.
    pub fn apply_binary_op(&mut self, op: BinaryOperator, left: Value, right: Value) -> (r: Result<Value, Halt>)
        requires
            old(self).wf(),
        ensures
            final(self).wf(),
            (final(self).model(), value_result(r)) == apply_binary(
                old(self).model(),
                op,
                left.model(),
                right.model(),
            ),
            op == BinaryOperator::Equal ==> (r matches Ok(Value::Boolean(b)) && b == vals_equal(
                left.model(),
                right.model(),
            )),
            op == BinaryOperator::NotEqual ==> (r matches Ok(Value::Boolean(b)) && b
                == !vals_equal(left.model(), right.model())),
    {
        match op {
            BinaryOperator::And => Ok(Value::Boolean(left.to_bool() && right.to_bool())),
            BinaryOperator::Or => Ok(Value::Boolean(left.to_bool() || right.to_bool())),
            BinaryOperator::Xor => Ok(Value::Boolean(left.to_bool() != right.to_bool())),
            BinaryOperator::Equal => Ok(Value::Boolean(vals_equal_exec(&left, &right))),
            BinaryOperator::NotEqual => Ok(Value::Boolean(!vals_equal_exec(&left, &right))),
            _ => {
                let x = match self.integer_of(&left) {
                    Ok(x) => x,
                    Err(h) => {
                        return Err(h);
                    },
                };
                let y = match self.integer_of(&right) {
                    Ok(y) => y,
                    Err(h) => {
                        return Err(h);
                    },
                };
                arith_exec(op, x, y)
            },
        }
    }

    /// Cast a value to a target type.
    fn cast_value(&mut self, val: Value, target: ValueType) -> (r: Result<Value, Halt>)
        requires
            old(self).wf(),
        ensures
            final(self).wf(),
            (final(self).model(), value_result(r)) == cast_to(old(self).model(), val.model(), target),
    {
        match target {
            ValueType::Noob => Ok(Value::Nil),
            ValueType::Troof => Ok(Value::Boolean(val.to_bool())),
            ValueType::Numbr => match self.integer_of(&val) {
                Ok(i) => Ok(Value::Integer(i)),
                Err(h) => Err(h),
            },
            ValueType::Numbar => match self.float_of(&val) {
                Ok(b) => Ok(Value::Float(b)),
                Err(h) => Err(h),
            },
            ValueType::Yarn => match self.yarn_of(&val) {
                Ok(s) => Ok(Value::String(s)),
                Err(h) => Err(h),
            },
            ValueType::Bukkit => Err(
                Halt::Error(LciError::CannotCastValueToArray(String::new(), 0, String::new())),
            ),
        }
    }
}

} // verus!

verus! {

/// The meanings of the values.
pub open spec fn values_model(vs: Seq<Value>) -> Seq<Val> {
    vs.map_values(|v: Value| v.model())
}

impl<V: Modeled> Bindings<V> {
    fn insert(&mut self, name: String, v: V)
        requires
            old(self).wf(),
        ensures
            final(self).wf(),
            final(self).map() == old(self).map().insert(name@, v.modeled()),
    {
        match self.find(name.as_str()) {
            Some(i) => self.set(i, v),
            None => self.add(name, v),
        }
    }
}

impl Interpreter {
    /// A trimmed line of input, read as an integer, a float, WIN, FAIL or a
    /// string.
    fn classify_input(&mut self, t: Vec<char>) -> (r: Result<Value, Halt>)
        requires
            old(self).wf(),
        ensures
            final(self).wf(),
            (final(self).model(), value_result(r)) == classify_input(old(self).model(), t@),
    {
        match crate::text::parse_i64(&t) {
            Some(i) => Ok(Value::Integer(i)),
            None => {
                let s = crate::text::string_of(t.as_slice());
                match self.ask(Request::ParseFloat(s.clone())) {
                    Err(h) => Err(h),
                    Ok(Answer::Float(b)) => Ok(Value::Float(b)),
                    Ok(Answer::NotFloat) => {
                        if crate::text::str_eq(s.as_str(), "WIN") {
                            Ok(Value::Boolean(true))
                        } else if crate::text::str_eq(s.as_str(), "FAIL") {
                            Ok(Value::Boolean(false))
                        } else {
                            Ok(Value::String(s))
                        }
                    },
                    Ok(_) => Err(Halt::BadAnswer),
                }
            },
        }
    }

    /// A loop's counter step.
    fn loop_step(&mut self, op: &Option<String>, var: &Option<String>) -> (r: Result<(), Halt>)
        requires
            old(self).wf(),
        ensures
            final(self).wf(),
            (final(self).model(), plain_result(r)) == loop_step(
                old(self).model(),
                match op {
                    Some(s) => Some(s@),
                    None => None,
                },
                match var {
                    Some(s) => Some(s@),
                    None => None,
                },
            ),
    {
        match (op, var) {
            (Some(o), Some(x)) => {
                let cur = match self.get_variable(x.as_str()) {
                    Some(v) => v,
                    None => {
                        return Err(
                            Halt::Error(LciError::VariableDoesNotExist(String::new(), 0, x.clone())),
                        );
                    },
                };
                let i = match self.integer_of(&cur) {
                    Ok(i) => i,
                    Err(h) => {
                        return Err(h);
                    },
                };
                let n = if crate::text::str_eq(o.as_str(), "UPPIN") {
                    i.wrapping_add(1)
                } else {
                    i.wrapping_sub(1)
                };
                match self.set_variable(x.clone(), Value::Integer(n)) {
                    Ok(()) => Ok(()),
                    Err(e) => Err(Halt::Error(e)),
                }
            },
            _ => Ok(()),
        }
    }

    /// Declare the parameters with their values in the current scope.
    fn declare_params(&mut self, params: &Vec<String>, vals: &Vec<Value>) -> (r: Result<(), LciError>)
        requires
            old(self).wf(),
            params@.len() == vals@.len(),
        ensures
            final(self).wf(),
            ({
                let (sc, d) = declare_params(
                    old(self).model().scopes,
                    strings_view(params@),
                    values_model(vals@),
                    0,
                );
                &&& final(self).model() == (Machine { scopes: sc, ..old(self).model() })
                &&& match d {
                    Ok(_) => r is Ok,
                    Err(e) => r is Err && r.unwrap_err()@ == e,
                }
            }),
    {
        let ghost m0 = self.model();
        let ghost pv = strings_view(params@);
        let ghost vv = values_model(vals@);
        let mut i: usize = 0;
        let n = params.len();
        while i < n
            invariant
                self.wf(),
                n == params@.len() == vals@.len(),
                i <= n,
                pv == strings_view(params@),
                vv == values_model(vals@),
                declare_params(m0.scopes, pv, vv, 0) == declare_params(self.model().scopes, pv, vv, i as int),
                self.model() == (Machine { scopes: self.model().scopes, ..m0 }),
                m0 == old(self).model(),
            decreases n - i,
        {
            let v = vals[i].duplicate();
            let p = params[i].clone();
            assert(pv[i as int] == p@);
            assert(vv[i as int] == v.model());
            assert(pv.len() == n && vv.len() == n);
            let ghost before = self.model();
            match self.declare_variable(p, v) {
                Ok(()) => {},
                Err(e) => {
                    assert(declare_params(before.scopes, pv, vv, i as int) == (before.scopes, Err::<(), ErrorModel>(e@)));
                    return Err(e);
                },
            }
            i = i + 1;
        }
        Ok(())
    }
}

} // verus!

verus! {

/// A list result as the specification states it.
pub open spec fn values_result(r: Result<Vec<Value>, Halt>) -> Result<Seq<Val>, HaltM> {
    match r {
        Ok(vs) => Ok(values_model(vs@)),
        Err(h) => Err(h.model()),
    }
}

/// A list of texts as the specification states it.
pub open spec fn texts_result(r: Result<Vec<String>, Halt>) -> Result<Seq<Seq<char>>, HaltM> {
    match r {
        Ok(vs) => Ok(vs@.map_values(|s: String| s@)),
        Err(h) => Err(h.model()),
    }
}

/// The results of a list's tail, after those of its head.
pub open spec fn after<T>(pre: Seq<T>, r: (Machine, Result<Seq<T>, HaltM>)) -> (
    Machine,
    Result<Seq<T>, HaltM>,
) {
    (r.0, match r.1 {
        Ok(xs) => Ok(pre + xs),
        Err(h) => Err(h),
    })
}

impl Interpreter {
    /// Evaluate an expression.
    fn evaluate_expression(&mut self, e: &Expression, fuel: u64) -> (r: Result<Value, Halt>)
        requires
            old(self).wf(),
        ensures
            final(self).wf(),
            (final(self).model(), value_result(r)) == sem_eval(old(self).model(), e.model(), fuel as nat),
        decreases fuel, 0nat, 0int,
    {
        if fuel == 0 {
            return Err(Halt::OutOfFuel);
        }
        let f = fuel - 1;
        match e {
            Expression::Integer(i) => Ok(Value::Integer(*i)),
            Expression::Float(s) => match self.ask(Request::ParseFloat(s.clone())) {
                Err(h) => Err(h),
                Ok(Answer::Float(b)) => Ok(Value::Float(b)),
                Ok(_) => Err(Halt::BadAnswer),
            },
            Expression::String(s) => Ok(Value::String(s.clone())),
            Expression::Boolean(b) => Ok(Value::Boolean(*b)),
            Expression::Nil => Ok(Value::Nil),
            Expression::Variable(n) => match self.get_variable(n.as_str()) {
                Some(v) => Ok(v),
                None => Err(Halt::Error(LciError::VariableDoesNotExist(String::new(), 0, n.clone()))),
            },
            Expression::ImplicitVariable => Ok(self.implicit_var.duplicate()),
            Expression::BinaryOp { op, left, right } => {
                let lv = match self.evaluate_expression(left, f) {
                    Ok(v) => v,
                    Err(h) => {
                        return Err(h);
                    },
                };
                let rv = match self.evaluate_expression(right, f) {
                    Ok(v) => v,
                    Err(h) => {
                        return Err(h);
                    },
                };
                self.apply_binary_op(*op, lv, rv)
            },
            Expression::UnaryOp { op, operand } => match self.evaluate_expression(operand, f) {
                Ok(v) => Ok(Value::Boolean(!v.to_bool())),
                Err(h) => Err(h),
            },
            Expression::FunctionCall { name, args } => self.call_function(name, args, f),
            Expression::Cast { expr, target_type } => match self.evaluate_expression(expr, f) {
                Ok(v) => self.cast_value(v, *target_type),
                Err(h) => Err(h),
            },
        }
    }

    /// Evaluate expressions in order.
    fn evaluate_arguments(&mut self, es: &Vec<Expression>, fuel: u64) -> (r: Result<Vec<Value>, Halt>)
        requires
            old(self).wf(),
        ensures
            final(self).wf(),
            (final(self).model(), values_result(r)) == sem_args(
                old(self).model(),
                exprs_model(es@),
                0,
                fuel as nat,
            ),
        decreases fuel, 1nat, 0int,
    {
        let ghost em = exprs_model(es@);
        proof {
            crate::parser::lemma_exprs_model_index(es@);
        }
        let mut out: Vec<Value> = Vec::new();
        let mut i: usize = 0;
        while i < es.len()
            invariant
                self.wf(),
                i <= es@.len(),
                em == exprs_model(es@),
                em.len() == es@.len(),
                forall|j: int| 0 <= j < es@.len() ==> #[trigger] em[j] == es@[j].model(),
                sem_args(old(self).model(), em, 0, fuel as nat) == after(
                    values_model(out@),
                    sem_args(self.model(), em, i as int, fuel as nat),
                ),
            decreases es@.len() - i,
        {
            let ghost before = self.model();
            let ghost prev = out@;
            match self.evaluate_expression(&es[i], fuel) {
                Err(h) => {
                    return Err(h);
                },
                Ok(v) => {
                    proof {
                        let vm = v.model();
                        let rest = sem_args(self.model(), em, i + 1, fuel as nat);
                        match rest.1 {
                            Ok(xs) => {
                                assert(values_model(prev) + (seq![vm] + xs) =~= values_model(
                                    prev.push(v),
                                ) + xs);
                            },
                            Err(_) => {},
                        }
                    }
                    out.push(v);
                },
            }
            i = i + 1;
        }
        assert(values_model(out@) + Seq::<Val>::empty() =~= values_model(out@));
        Ok(out)
    }

    /// The texts that a print statement writes, each expression evaluated
    /// and converted in turn.
    fn print_texts(&mut self, es: &Vec<Expression>, fuel: u64) -> (r: Result<Vec<String>, Halt>)
        requires
            old(self).wf(),
        ensures
            final(self).wf(),
            (final(self).model(), texts_result(r)) == sem_print(
                old(self).model(),
                exprs_model(es@),
                0,
                fuel as nat,
            ),
        decreases fuel, 1nat, 0int,
    {
        let ghost em = exprs_model(es@);
        proof {
            crate::parser::lemma_exprs_model_index(es@);
        }
        let mut out: Vec<String> = Vec::new();
        let mut i: usize = 0;
        while i < es.len()
            invariant
                self.wf(),
                i <= es@.len(),
                em == exprs_model(es@),
                em.len() == es@.len(),
                forall|j: int| 0 <= j < es@.len() ==> #[trigger] em[j] == es@[j].model(),
                sem_print(old(self).model(), em, 0, fuel as nat) == after(
                    out@.map_values(|s: String| s@),
                    sem_print(self.model(), em, i as int, fuel as nat),
                ),
            decreases es@.len() - i,
        {
            let ghost prev = out@;
            let v = match self.evaluate_expression(&es[i], fuel) {
                Err(h) => {
                    return Err(h);
                },
                Ok(v) => v,
            };
            let t = match self.yarn_of(&v) {
                Err(h) => {
                    return Err(h);
                },
                Ok(t) => t,
            };
            proof {
                let tm = t@;
                let rest = sem_print(self.model(), em, i + 1, fuel as nat);
                match rest.1 {
                    Ok(xs) => {
                        assert(prev.map_values(|s: String| s@) + (seq![tm] + xs) =~= prev.push(
                            t,
                        ).map_values(|s: String| s@) + xs);
                    },
                    Err(_) => {},
                }
            }
            out.push(t);
            i = i + 1;
        }
        assert(out@.map_values(|s: String| s@) + Seq::<Seq<char>>::empty() =~= out@.map_values(
            |s: String| s@,
        ));
        Ok(out)
    }

    /// Run statements until one finishes other than normally.
    fn run_statements(&mut self, ss: &Vec<Statement>, fuel: u64) -> (r: Result<ReturnStatus, Halt>)
        requires
            old(self).wf(),
        ensures
            final(self).wf(),
            (final(self).model(), status_result(r)) == sem_stmts(
                old(self).model(),
                stmts_model(ss@),
                0,
                fuel as nat,
            ),
        decreases fuel, 1nat, 0int,
    {
        let ghost sm = stmts_model(ss@);
        proof {
            crate::parser::lemma_stmts_model_index(ss@);
        }
        let mut i: usize = 0;
        while i < ss.len()
            invariant
                self.wf(),
                i <= ss@.len(),
                sm == stmts_model(ss@),
                sm.len() == ss@.len(),
                forall|j: int| 0 <= j < ss@.len() ==> #[trigger] sm[j] == ss@[j].model(),
                sem_stmts(old(self).model(), sm, 0, fuel as nat) == sem_stmts(
                    self.model(),
                    sm,
                    i as int,
                    fuel as nat,
                ),
            decreases ss@.len() - i,
        {
            match self.execute_statement(&ss[i], fuel) {
                Err(h) => {
                    return Err(h);
                },
                Ok(ReturnStatus::Normal) => {},
                Ok(st) => {
                    return Ok(st);
                },
            }
            i = i + 1;
        }
        Ok(ReturnStatus::Normal)
    }

    /// Run a block in a scope of its own.
    fn run_block(&mut self, ss: &Vec<Statement>, fuel: u64) -> (r: Result<ReturnStatus, Halt>)
        requires
            old(self).wf(),
        ensures
            final(self).wf(),
            (final(self).model(), status_result(r)) == sem_block(
                old(self).model(),
                stmts_model(ss@),
                fuel as nat,
            ),
        decreases fuel, 2nat, 0int,
    {
        self.push_scope();
        match self.run_statements(ss, fuel) {
            Err(h) => Err(h),
            Ok(st) => {
                self.pop_scope();
                Ok(st)
            },
        }
    }

    /// Try the `MEBBE` branches in turn; run the first whose condition holds.
    fn run_else_ifs(&mut self, bs: &Vec<(Expression, Vec<Statement>)>, fuel: u64) -> (r: Result<
        Option<ReturnStatus>,
        Halt,
    >)
        requires
            old(self).wf(),
        ensures
            final(self).wf(),
            (final(self).model(), match r {
                Ok(Some(st)) => Ok(Some(st.model())),
                Ok(None) => Ok(None),
                Err(h) => Err(h.model()),
            }) == sem_elifs(old(self).model(), branches_model(bs@), 0, fuel as nat),
        decreases fuel, 3nat, 0int,
    {
        let ghost bm = branches_model(bs@);
        proof {
            crate::parser::lemma_branches_model_index(bs@);
        }
        let mut i: usize = 0;
        while i < bs.len()
            invariant
                self.wf(),
                i <= bs@.len(),
                bm == branches_model(bs@),
                bm.len() == bs@.len(),
                forall|j: int|
                    0 <= j < bs@.len() ==> #[trigger] bm[j] == (
                        bs@[j].0.model(),
                        stmts_model(bs@[j].1@),
                    ),
                sem_elifs(old(self).model(), bm, 0, fuel as nat) == sem_elifs(
                    self.model(),
                    bm,
                    i as int,
                    fuel as nat,
                ),
            decreases bs@.len() - i,
        {
            let c = match self.evaluate_expression(&bs[i].0, fuel) {
                Err(h) => {
                    return Err(h);
                },
                Ok(c) => c,
            };
            if c.to_bool() {
                return match self.run_block(&bs[i].1, fuel) {
                    Err(h) => Err(h),
                    Ok(st) => Ok(Some(st)),
                };
            }
            i = i + 1;
        }
        Ok(None)
    }
}

} // verus!

verus! {

/// What a loop's condition is.
pub open spec fn cond_model(c: Option<(String, Expression)>) -> Option<(Seq<char>, ExprM)> {
    match c {
        Some((k, e)) => Some((k@, e.model())),
        None => None,
    }
}

/// The characters of an optional string.
pub open spec fn opt_view(o: Option<String>) -> Option<Seq<char>> {
    match o {
        Some(s) => Some(s@),
        None => None,
    }
}

fn loop_exits_exec(kind: &String, b: bool) -> (r: bool)
    ensures
        r == loop_exits(kind@, b),
{
    let til = crate::text::str_eq(kind.as_str(), "TIL");
    (til && b) || (!til && crate::text::str_eq(kind.as_str(), "WILE") && !b)
}

impl Interpreter {
    /// Run a loop's rounds, in the scope pushed for it.
    fn run_loop(
        &mut self,
        cond: &Option<(String, Expression)>,
        op: &Option<String>,
        var: &Option<String>,
        body: &Vec<Statement>,
        fuel: u64,
    ) -> (r: Result<ReturnStatus, Halt>)
        requires
            old(self).wf(),
        ensures
            final(self).wf(),
            (final(self).model(), status_result(r)) == sem_loop(
                old(self).model(),
                cond_model(*cond),
                opt_view(*op),
                opt_view(*var),
                stmts_model(body@),
                fuel as nat,
            ),
        decreases fuel, 3nat, 0int,
    {
        let ghost cm = cond_model(*cond);
        let ghost om = opt_view(*op);
        let ghost vm = opt_view(*var);
        let ghost bm = stmts_model(body@);
        let mut left = fuel;
        loop
            invariant
                self.wf(),
                left <= fuel,
                cm == cond_model(*cond),
                om == opt_view(*op),
                vm == opt_view(*var),
                bm == stmts_model(body@),
                sem_loop(old(self).model(), cm, om, vm, bm, fuel as nat) == sem_loop(
                    self.model(),
                    cm,
                    om,
                    vm,
                    bm,
                    left as nat,
                ),
            decreases left,
        {
            if left == 0 {
                return Err(Halt::OutOfFuel);
            }
            let f = left - 1;
            let exit = match cond {
                None => false,
                Some((kind, ce)) => match self.evaluate_expression(ce, f) {
                    Err(h) => {
                        return Err(h);
                    },
                    Ok(v) => loop_exits_exec(kind, v.to_bool()),
                },
            };
            if exit {
                self.pop_scope();
                return Ok(ReturnStatus::Normal);
            }
            match self.run_statements(body, f) {
                Err(h) => {
                    return Err(h);
                },
                Ok(ReturnStatus::Break) => {
                    self.pop_scope();
                    return Ok(ReturnStatus::Normal);
                },
                Ok(ReturnStatus::Return(v)) => {
                    self.pop_scope();
                    return Ok(ReturnStatus::Return(v));
                },
                Ok(ReturnStatus::Normal) => {},
            }
            match self.loop_step(op, var) {
                Err(h) => {
                    return Err(h);
                },
                Ok(()) => {},
            }
            left = f;
        }
    }

    /// Call a function.
    fn call_function(&mut self, name: &String, args: &Vec<Expression>, fuel: u64) -> (r: Result<
        Value,
        Halt,
    >)
        requires
            old(self).wf(),
        ensures
            final(self).wf(),
            (final(self).model(), value_result(r)) == sem_call(
                old(self).model(),
                name@,
                exprs_model(args@),
                fuel as nat,
            ),
        decreases fuel, 3nat, 0int,
    {
        let vals = match self.evaluate_arguments(args, fuel) {
            Err(h) => {
                return Err(h);
            },
            Ok(v) => v,
        };
        let idx = match self.functions.find(name.as_str()) {
            None => {
                return Err(
                    Halt::Error(LciError::UndefinedFunction(String::new(), 0, name.clone())),
                );
            },
            Some(i) => i,
        };
        let entry = self.functions.get(idx);
        let params = crate::parser::duplicate_strings(&entry.params);
        let body = crate::parser::duplicate_statements(&entry.body);
        if params.len() != vals.len() {
            return Err(
                Halt::Error(LciError::IncorrectNumberOfArguments(String::new(), 0, name.clone())),
            );
        }
        self.push_scope();
        match self.declare_params(&params, &vals) {
            Err(e) => {
                return Err(Halt::Error(e));
            },
            Ok(()) => {},
        }
        match self.run_statements(&body, fuel) {
            Err(h) => Err(h),
            Ok(st) => {
                self.pop_scope();
                match st {
                    ReturnStatus::Return(v) => Ok(v),
                    _ => Ok(Value::Nil),
                }
            },
        }
    }
}

} // verus!

verus! {

/// The line that a print statement writes: its texts joined by spaces,
/// then a newline unless suppressed.
fn join_line(texts: &Vec<String>, newline: bool) -> (line: String)
    ensures
        line@ == join_spaced(texts@.map_values(|s: String| s@)) + if newline {
            seq!['\n']
        } else {
            Seq::<char>::empty()
        },
{
    let ghost tm = texts@.map_values(|s: String| s@);
    let mut line = String::new();
    proof {
        reveal_strlit(" ");
        reveal_strlit("\n");
    }
    let mut i: usize = 0;
    while i < texts.len()
        invariant
            i <= texts@.len(),
            tm == texts@.map_values(|s: String| s@),
            line@ == join_spaced(tm.take(i as int)),
            " "@ == seq![' '],
        decreases texts@.len() - i,
    {
        let ghost before = line@;
        if i > 0 {
            line.append(" ");
        }
        line.append(texts[i].as_str());
        proof {
            let t2 = tm.take(i + 1);
            assert(t2.drop_last() =~= tm.take(i as int));
            assert(t2.last() == texts@[i as int]@);
            if i == 0 {
                assert(line@ =~= t2[0]);
            } else {
                assert(line@ =~= before + seq![' '] + texts@[i as int]@);
            }
        }
        i = i + 1;
    }
    assert(tm.take(texts@.len() as int) =~= tm);
    let ghost joined = line@;
    if newline {
        line.append("\n");
    }
    assert(line@ =~= joined + if newline { seq!['\n'] } else { Seq::<char>::empty() });
    line
}

impl Interpreter {
    /// Add a written line to the output.
    fn write(&mut self, to_stderr: bool, line: String)
        requires
            old(self).wf(),
        ensures
            final(self).wf(),
            final(self).model() == (Machine {
                out: old(self).model().out.push((to_stderr, line@)),
                ..old(self).model()
            }),
    {
        let ghost before = self.output@;
        if to_stderr {
            self.output.push(Output::Stderr(line));
        } else {
            self.output.push(Output::Stdout(line));
        }
        assert(outputs_model(self.output@) =~= outputs_model(before).push((to_stderr, line@)));
    }

    /// Execute a statement.
    #[verifier::rlimit(50)]
    pub fn execute_statement(&mut self, stmt: &Statement, fuel: u64) -> (r: Result<ReturnStatus, Halt>)
        requires
            old(self).wf(),
        ensures
            final(self).wf(),
            (final(self).model(), status_result(r)) == sem_exec(
                old(self).model(),
                stmt.model(),
                fuel as nat,
            ),
            (stmt is IfThenElse || stmt is Loop) && r is Ok ==> forall|n: Seq<char>|
                #[trigger] lookup(old(self).model().scopes, n) is None <==> lookup(
                    final(self).model().scopes,
                    n,
                ) is None,
        decreases fuel, 0nat, 0int,
    {
        proof {
            block_scope_law(self.model(), stmt.model(), fuel as nat);
        }
        if fuel == 0 {
            return Err(Halt::OutOfFuel);
        }
        let f = fuel - 1;
        match stmt {
            Statement::Declaration { name, value } => {
                let v = match value {
                    Some(e) => match self.evaluate_expression(e, f) {
                        Err(h) => {
                            return Err(h);
                        },
                        Ok(v) => v,
                    },
                    None => Value::Nil,
                };
                match self.declare_variable(name.clone(), v) {
                    Err(e) => Err(Halt::Error(e)),
                    Ok(()) => Ok(ReturnStatus::Normal),
                }
            },
            Statement::Assignment { target, value } => {
                let v = match self.evaluate_expression(value, f) {
                    Err(h) => {
                        return Err(h);
                    },
                    Ok(v) => v,
                };
                match self.set_variable(target.clone(), v) {
                    Err(e) => Err(Halt::Error(e)),
                    Ok(()) => Ok(ReturnStatus::Normal),
                }
            },
            Statement::Print { expressions, newline, to_stderr } => {
                let texts = match self.print_texts(expressions, f) {
                    Err(h) => {
                        return Err(h);
                    },
                    Ok(t) => t,
                };
                let line = join_line(&texts, *newline);
                self.write(*to_stderr, line);
                Ok(ReturnStatus::Normal)
            },
            Statement::Input { target } => match self.ask(Request::ReadLine) {
                Err(h) => Err(h),
                Ok(Answer::Line(raw)) => {
                    let cs = crate::text::chars_of(raw.as_str());
                    let t = crate::text::trim_chars(&cs);
                    let v = match self.classify_input(t) {
                        Err(h) => {
                            return Err(h);
                        },
                        Ok(v) => v,
                    };
                    match self.set_variable(target.clone(), v) {
                        Err(e) => Err(Halt::Error(e)),
                        Ok(()) => Ok(ReturnStatus::Normal),
                    }
                },
                Ok(Answer::ReadFailed(msg)) => Err(Halt::Error(LciError::Io(msg))),
                Ok(_) => Err(Halt::BadAnswer),
            },
            Statement::IfThenElse { condition, then_block, else_ifs, else_block } => {
                let c = match condition {
                    Some(e) => match self.evaluate_expression(e, f) {
                        Err(h) => {
                            return Err(h);
                        },
                        Ok(v) => v,
                    },
                    None => self.implicit_var.duplicate(),
                };
                if c.to_bool() {
                    self.run_block(then_block, f)
                } else {
                    match self.run_else_ifs(else_ifs, f) {
                        Err(h) => Err(h),
                        Ok(Some(st)) => Ok(st),
                        Ok(None) => match else_block {
                            Some(b) => self.run_block(b, f),
                            None => Ok(ReturnStatus::Normal),
                        },
                    }
                }
            },
            Statement::Loop { label: _, operation, variable, condition, body } => {
                self.push_scope();
                self.run_loop(condition, operation, variable, body, f)
            },
            Statement::FunctionDef { name, params, body } => {
                let entry = FunctionEntry {
                    params: crate::parser::duplicate_strings(params),
                    body: crate::parser::duplicate_statements(body),
                };
                self.functions.insert(name.clone(), entry);
                assert(self.model() =~= (Machine {
                    funcs: old(self).model().funcs.insert(
                        name@,
                        (strings_view(params@), stmts_model(body@)),
                    ),
                    ..old(self).model()
                }));
                Ok(ReturnStatus::Normal)
            },
            Statement::FunctionCall { name, args } => match self.call_function(name, args, f) {
                Err(h) => Err(h),
                Ok(_) => Ok(ReturnStatus::Normal),
            },
            Statement::Return { value } => {
                let v = match value {
                    Some(e) => match self.evaluate_expression(e, f) {
                        Err(h) => {
                            return Err(h);
                        },
                        Ok(v) => v,
                    },
                    None => Value::Nil,
                };
                Ok(ReturnStatus::Return(v))
            },
            Statement::Break => Ok(ReturnStatus::Break),
            Statement::Expression(e) => match self.evaluate_expression(e, f) {
                Err(h) => Err(h),
                Ok(v) => {
                    self.implicit_var = v;
                    Ok(ReturnStatus::Normal)
                },
            },
        }
    }

    /// Interpret the program with the given fuel: run its statements until
    /// one finishes other than normally, or the run stops.
    pub fn interpret(&mut self, program: &MainNode, fuel: u64) -> (r: Result<(), Halt>)
        requires
            old(self).wf(),
        ensures
            final(self).wf(),
            (final(self).model(), plain_result(r)) == sem_program(
                old(self).model(),
                stmts_model(program.statements@),
                fuel as nat,
            ),
    {
        match self.run_statements(&program.statements, fuel) {
            Err(h) => Err(h),
            Ok(_) => Ok(()),
        }
    }
}

} // verus!

verus! {

proof fn lemma_holder_after_insert(
    scopes: Seq<Map<Seq<char>, Val>>,
    i: int,
    name: Seq<char>,
    v: Val,
    other: Seq<char>,
)
    requires
        0 <= i < scopes.len(),
        holder(scopes, name) == Some(i) || i == scopes.len() - 1,
    ensures
        holder(scopes.update(i, scopes[i].insert(name, v)), name) == Some(i),
        other != name ==> holder(scopes.update(i, scopes[i].insert(name, v)), other) == holder(
            scopes,
            other,
        ),
    decreases scopes.len(),
{
    let s2 = scopes.update(i, scopes[i].insert(name, v));
    if i == scopes.len() - 1 {
        assert(s2.drop_last() =~= scopes.drop_last());
    } else {
        assert(s2.last() == scopes.last());
        assert(s2.drop_last() =~= scopes.drop_last().update(
            i,
            scopes.drop_last()[i].insert(name, v),
        ));
        lemma_holder_after_insert(scopes.drop_last(), i, name, v, other);
    }
}

proof fn lemma_holder_bounds(scopes: Seq<Map<Seq<char>, Val>>, name: Seq<char>)
    ensures
        match holder(scopes, name) {
            Some(i) => 0 <= i < scopes.len() && scopes[i].contains_key(name),
            None => true,
        },
    decreases scopes.len(),
{
    if scopes.len() > 0 && !scopes.last().contains_key(name) {
        lemma_holder_bounds(scopes.drop_last(), name);
    }
}

/// A variable read after it is assigned gives the value assigned, and every
/// other variable reads as before.
pub proof fn read_after_assign(
    scopes: Seq<Map<Seq<char>, Val>>,
    name: Seq<char>,
    v: Val,
    after: Seq<Map<Seq<char>, Val>>,
    other: Seq<char>,
)
    requires
        set_var(scopes, name, v) == Ok::<Seq<Map<Seq<char>, Val>>, ErrorModel>(after),
    ensures
        lookup(after, name) == Some(v),
        other != name ==> lookup(after, other) == lookup(scopes, other),
{
    lemma_holder_bounds(scopes, name);
    lemma_holder_bounds(scopes, other);
    let i = match holder(scopes, name) {
        Some(i) => i,
        None => scopes.len() - 1,
    };
    lemma_holder_after_insert(scopes, i, name, v, other);
}

/// A variable read after it is declared gives the value it was declared
/// with, and every other variable reads as before.
pub proof fn read_after_declare(
    scopes: Seq<Map<Seq<char>, Val>>,
    name: Seq<char>,
    v: Val,
    after: Seq<Map<Seq<char>, Val>>,
    other: Seq<char>,
)
    requires
        declare_var(scopes, name, v) == Ok::<Seq<Map<Seq<char>, Val>>, ErrorModel>(after),
    ensures
        lookup(after, name) == Some(v),
        other != name ==> lookup(after, other) == lookup(scopes, other),
{
    lemma_holder_bounds(scopes, name);
    lemma_holder_bounds(scopes, other);
    lemma_holder_after_insert(scopes, scopes.len() - 1, name, v, other);
}

/// After an assignment statement runs, its variable reads as the value of
/// its expression.
pub proof fn assignment_then_read(m: Machine, target: Seq<char>, e: ExprM, fuel: nat)
    requires
        sem_exec(m, StmtM::Assignment(target, e), fuel).1 is Ok,
    ensures
        fuel > 0,
        sem_eval(m, e, (fuel - 1) as nat).1 is Ok,
        lookup(sem_exec(m, StmtM::Assignment(target, e), fuel).0.scopes, target) == Some(
            sem_eval(m, e, (fuel - 1) as nat).1->Ok_0,
        ),
{
    let (m1, r) = sem_eval(m, e, (fuel - 1) as nat);
    let v = r->Ok_0;
    let after = set_var(m1.scopes, target, v)->Ok_0;
    read_after_assign(m1.scopes, target, v, after, target);
}

/// After a declaration runs, its variable reads as the value of its
/// initializer, or as NOOB without one.
pub proof fn declaration_then_read(m: Machine, name: Seq<char>, init: Option<ExprM>, fuel: nat)
    requires
        sem_exec(m, StmtM::Declaration(name, init), fuel).1 is Ok,
    ensures
        fuel > 0,
        lookup(sem_exec(m, StmtM::Declaration(name, init), fuel).0.scopes, name) == Some(
            match init {
                Some(e) => sem_eval(m, e, (fuel - 1) as nat).1->Ok_0,
                None => Val::Nil,
            },
        ),
{
    let (m1, r) = match init {
        Some(e) => sem_eval(m, e, (fuel - 1) as nat),
        None => (m, Ok(Val::Nil)),
    };
    let v = r->Ok_0;
    let after = declare_var(m1.scopes, name, v)->Ok_0;
    read_after_declare(m1.scopes, name, v, after, name);
}

/// `BOTH SAEM` and `DIFFRINT` always give a TROOF, each the negation of
/// the other, never fail and touch nothing; neither depends on the order of
/// its operands.
pub proof fn equality_symmetric(m: Machine, l: Val, r: Val)
    ensures
        apply_binary(m, BinaryOperator::Equal, l, r) == (m, Ok::<Val, HaltM>(
            Val::Boolean(vals_equal(l, r)),
        )),
        apply_binary(m, BinaryOperator::NotEqual, l, r) == (m, Ok::<Val, HaltM>(
            Val::Boolean(!vals_equal(l, r)),
        )),
        vals_equal(l, r) == vals_equal(r, l),
{
}

/// An assignment in a machine with a scope always succeeds. It changes
/// only the binding of the assigned name: in the innermost scope that holds
/// the name, or, when none does, in the innermost scope. Reading the name
/// afterwards gives the value, and every other binding stays as it was.
pub proof fn assignment_binding_form(scopes: Seq<Map<Seq<char>, Val>>, name: Seq<char>, v: Val)
    requires
        scopes.len() > 0,
    ensures
        set_var(scopes, name, v) is Ok,
        ({
            let after = set_var(scopes, name, v)->Ok_0;
            let i = match holder(scopes, name) {
                Some(h) => h,
                None => scopes.len() - 1,
            };
            &&& after.len() == scopes.len()
            &&& after[i] == scopes[i].insert(name, v)
            &&& forall|k: int| 0 <= k < scopes.len() && k != i ==> after[k] == scopes[k]
            &&& forall|k: int, n: Seq<char>|
                0 <= k < scopes.len() && n != name ==> (#[trigger] after[k].contains_key(n)
                    == scopes[k].contains_key(n) && after[k][n] == scopes[k][n])
            &&& lookup(after, name) == Some(v)
        }),
{
    lemma_holder_bounds(scopes, name);
    let after = set_var(scopes, name, v)->Ok_0;
    read_after_assign(scopes, name, v, after, name);
}

/// The block scope law for every name at once.
proof fn block_scope_law(m: Machine, s: StmtM, fuel: nat)
    requires
        m.scopes.len() > 0,
    ensures
        (s is IfThenElse || s is Loop) && sem_exec(m, s, fuel).1 is Ok ==> forall|n: Seq<char>|
            #[trigger] lookup(m.scopes, n) is None <==> lookup(sem_exec(m, s, fuel).0.scopes, n)
                is None,
{
    if (s is IfThenElse || s is Loop) && sem_exec(m, s, fuel).1 is Ok {
        assert forall|n: Seq<char>| #[trigger] lookup(m.scopes, n) is None <==> lookup(
            sem_exec(m, s, fuel).0.scopes,
            n,
        ) is None by {
            crate::scoping::block_names_do_not_outlive(m, s, fuel, n);
        }
    }
}

/// The logical operators give a TROOF without failing or touching the
/// machine, and look only at the truth of their operands: BOTH OF is true
/// exactly when both are true, EITHER OF when at least one is (so it is WIN
/// whenever its left operand is true), WON OF when exactly one is.
pub proof fn logic_operators_law(m: Machine, l: Val, r: Val)
    ensures
        apply_binary(m, BinaryOperator::And, l, r) == apply_binary(
            m,
            BinaryOperator::And,
            Val::Boolean(val_to_bool(l)),
            Val::Boolean(val_to_bool(r)),
        ),
        apply_binary(m, BinaryOperator::Or, l, r) == apply_binary(
            m,
            BinaryOperator::Or,
            Val::Boolean(val_to_bool(l)),
            Val::Boolean(val_to_bool(r)),
        ),
        apply_binary(m, BinaryOperator::Xor, l, r) == apply_binary(
            m,
            BinaryOperator::Xor,
            Val::Boolean(val_to_bool(l)),
            Val::Boolean(val_to_bool(r)),
        ),
        forall|a: bool, b: bool|
            #[trigger] apply_binary(m, BinaryOperator::And, Val::Boolean(a), Val::Boolean(b)) == (
                m,
                Ok::<Val, HaltM>(Val::Boolean(a && b)),
            ),
        forall|a: bool, b: bool|
            #[trigger] apply_binary(m, BinaryOperator::Or, Val::Boolean(a), Val::Boolean(b)) == (
                m,
                Ok::<Val, HaltM>(Val::Boolean(a || b)),
            ),
        forall|a: bool, b: bool|
            #[trigger] apply_binary(m, BinaryOperator::Xor, Val::Boolean(a), Val::Boolean(b)) == (
                m,
                Ok::<Val, HaltM>(Val::Boolean(a != b)),
            ),
        val_to_bool(l) ==> apply_binary(m, BinaryOperator::Or, l, r).1 == Ok::<Val, HaltM>(
            Val::Boolean(true),
        ),
        !val_to_bool(l) ==> apply_binary(m, BinaryOperator::And, l, r).1 == Ok::<Val, HaltM>(
            Val::Boolean(false),
        ),
        apply_binary(m, BinaryOperator::Or, l, r) == apply_binary(m, BinaryOperator::Or, r, l),
        apply_binary(m, BinaryOperator::And, l, r) == apply_binary(m, BinaryOperator::And, r, l),
        apply_binary(m, BinaryOperator::Xor, l, r) == apply_binary(m, BinaryOperator::Xor, r, l),
{
    crate::value::truth_law();
}

/// `NOT` gives the negation of its operand's truth.
pub proof fn not_law(m: Machine, x: ExprM, fuel: nat)
    requires
        fuel > 0,
        sem_eval(m, x, (fuel - 1) as nat).1 is Ok,
    ensures
        sem_eval(m, ExprM::Unary(UnaryOperator::Not, Box::new(x)), fuel) == (
            sem_eval(m, x, (fuel - 1) as nat).0,
            Ok::<Val, HaltM>(Val::Boolean(!val_to_bool(sem_eval(m, x, (fuel - 1) as nat).1->Ok_0))),
        ),
{
}

proof fn lemma_truncated_division(x: i64, y: i64)
    requires
        y != 0,
        !(x == i64::MIN && y == -1),
    ensures
        x.checked_div(y) is Some,
        x.checked_rem(y) is Some,
        ({
            let q = x.checked_div(y)->0 as int;
            let r = x.checked_rem(y)->0 as int;
            &&& q * y + r == x
            &&& (if r < 0 { -r } else { r }) < (if y < 0 { -y } else { y as int })
            &&& r == 0 || ((r < 0) == (x < 0))
        }),
{
    let a = x as int;
    let d = y as int;
    if a == 0 {
    } else if a > 0 && d > 0 {
        vstd::arithmetic::div_mod::lemma_fundamental_div_mod(a, d);
        assert((a / d) * d == d * (a / d)) by (nonlinear_arith);
        assert(0 <= a % d < d);
        assert(a / d <= a) by (nonlinear_arith)
            requires
                a > 0,
                d > 0,
        {
            vstd::arithmetic::div_mod::lemma_div_is_ordered_by_denominator(a, 1, d);
        }
        assert(a / d >= 0) by (nonlinear_arith)
            requires
                a > 0,
                d > 0,
        ;
    } else if a < 0 && d < 0 {
        vstd::arithmetic::div_mod::lemma_fundamental_div_mod(-a, -d);
        let q0 = (-a) / (-d);
        let r0 = (-a) % (-d);
        assert(q0 * d + (-r0) == a) by (nonlinear_arith)
            requires
                -a == (-d) * q0 + r0,
        ;
        assert(0 <= r0 < -d);
        assert(0 <= q0 <= -a) by (nonlinear_arith)
            requires
                -a > 0,
                -d > 0,
                q0 == (-a) / (-d),
        {
            vstd::arithmetic::div_mod::lemma_div_is_ordered_by_denominator(-a, 1, -d);
        }
        assert(x != i64::MIN || y != -1);
        assert(q0 <= i64::MAX) by {
            if a == i64::MIN {
                assert(-d >= 2);
                assert(q0 <= (-a) / 2) by (nonlinear_arith)
                    requires
                        -d >= 2,
                        q0 == (-a) / (-d),
                        -a > 0,
                {
                    vstd::arithmetic::div_mod::lemma_div_is_ordered_by_denominator(-a, 2, -d);
                }
            }
        }
    } else if a < 0 {
        vstd::arithmetic::div_mod::lemma_fundamental_div_mod(-a, d);
        let q0 = (-a) / d;
        let r0 = (-a) % d;
        assert((-q0) * d + (-r0) == a) by (nonlinear_arith)
            requires
                -a == d * q0 + r0,
        ;
        assert(0 <= r0 < d);
        assert(0 <= q0 <= -a) by (nonlinear_arith)
            requires
                -a > 0,
                d > 0,
                q0 == (-a) / d,
        {
            vstd::arithmetic::div_mod::lemma_div_is_ordered_by_denominator(-a, 1, d);
        }
    } else {
        vstd::arithmetic::div_mod::lemma_fundamental_div_mod(a, -d);
        let q0 = a / (-d);
        let r0 = a % (-d);
        assert((-q0) * d + r0 == a) by (nonlinear_arith)
            requires
                a == (-d) * q0 + r0,
        ;
        assert(0 <= r0 < -d);
        assert(0 <= q0 <= a) by (nonlinear_arith)
            requires
                a > 0,
                -d > 0,
                q0 == a / (-d),
        {
            vstd::arithmetic::div_mod::lemma_div_is_ordered_by_denominator(a, 1, -d);
        }
    }
}

/// On two NUMBRs: SUM OF, DIFF OF and PRODUKT OF give the exact result
/// when it fits in a NUMBR; SUM OF and DIFF OF otherwise give it wrapped by
/// 2^64. BIGGR OF and SMALLR OF give the larger and the smaller operand.
/// QUOSHUNT OF and MOD OF divide with truncation toward zero: the quotient
/// q and remainder r satisfy q * y + r == x, |r| < |y|, and r is zero or
/// has the sign of x; dividing by zero fails with error 531. None of them
/// touches the machine.
pub proof fn integer_operators_law(m: Machine, x: i64, y: i64)
    ensures
        ({
            let s = apply_binary(m, BinaryOperator::Add, Val::Integer(x), Val::Integer(y));
            &&& s.0 == m
            &&& s.1 is Ok && s.1->Ok_0 is Integer
            &&& (i64::MIN <= x + y <= i64::MAX ==> s.1->Ok_0->Integer_0 == x + y)
            &&& (x + y > i64::MAX ==> s.1->Ok_0->Integer_0 == x + y - 0x1_0000_0000_0000_0000)
            &&& (x + y < i64::MIN ==> s.1->Ok_0->Integer_0 == x + y + 0x1_0000_0000_0000_0000)
        }),
        ({
            let s = apply_binary(m, BinaryOperator::Sub, Val::Integer(x), Val::Integer(y));
            &&& s.0 == m
            &&& s.1 is Ok && s.1->Ok_0 is Integer
            &&& (i64::MIN <= x - y <= i64::MAX ==> s.1->Ok_0->Integer_0 == x - y)
            &&& (x - y > i64::MAX ==> s.1->Ok_0->Integer_0 == x - y - 0x1_0000_0000_0000_0000)
            &&& (x - y < i64::MIN ==> s.1->Ok_0->Integer_0 == x - y + 0x1_0000_0000_0000_0000)
        }),
        ({
            let s = apply_binary(m, BinaryOperator::Mul, Val::Integer(x), Val::Integer(y));
            &&& s.0 == m
            &&& s.1 is Ok && s.1->Ok_0 is Integer
            &&& (i64::MIN <= x * y <= i64::MAX ==> s.1->Ok_0->Integer_0 == x * y)
        }),
        apply_binary(m, BinaryOperator::Max, Val::Integer(x), Val::Integer(y)) == (
            m,
            Ok::<Val, HaltM>(Val::Integer(if x >= y { x } else { y })),
        ),
        apply_binary(m, BinaryOperator::Min, Val::Integer(x), Val::Integer(y)) == (
            m,
            Ok::<Val, HaltM>(Val::Integer(if x <= y { x } else { y })),
        ),
        y == 0 ==> (apply_binary(m, BinaryOperator::Div, Val::Integer(x), Val::Integer(y)).1
            matches Err(HaltM::Error(e)) && e.code == 531),
        y == 0 ==> (apply_binary(m, BinaryOperator::Mod, Val::Integer(x), Val::Integer(y)).1
            matches Err(HaltM::Error(e)) && e.code == 531),
        y != 0 && !(x == i64::MIN && y == -1) ==> ({
            let d = apply_binary(m, BinaryOperator::Div, Val::Integer(x), Val::Integer(y));
            let r = apply_binary(m, BinaryOperator::Mod, Val::Integer(x), Val::Integer(y));
            &&& d.0 == m && r.0 == m
            &&& d.1 is Ok && d.1->Ok_0 is Integer
            &&& r.1 is Ok && r.1->Ok_0 is Integer
            &&& d.1->Ok_0->Integer_0 * y + r.1->Ok_0->Integer_0 == x
            &&& (if r.1->Ok_0->Integer_0 < 0 {
                -r.1->Ok_0->Integer_0
            } else {
                r.1->Ok_0->Integer_0 as int
            }) < (if y < 0 { -y } else { y as int })
            &&& r.1->Ok_0->Integer_0 == 0 || ((r.1->Ok_0->Integer_0 < 0) == (x < 0))
        }),
{
    if y != 0 && !(x == i64::MIN && y == -1) {
        lemma_truncated_division(x, y);
    }
}

/// What `BOTH SAEM` compares: two NUMBRs, two YARNs or two TROOFs are the
/// same when they are equal, two NOOBs always are, two NUMBARs are the same
/// by IEEE-754 equality (the two zeros are the same, a NaN is the same as
/// nothing, other floats by their bits), and values of different types
/// never are.
pub proof fn equality_law()
    ensures
        forall|x: i64, y: i64|
            #[trigger] vals_equal(Val::Integer(x), Val::Integer(y)) == (x == y),
        forall|x: Seq<char>, y: Seq<char>| #[trigger] vals_equal(Val::Str(x), Val::Str(y)) == (x == y),
        forall|x: bool, y: bool| #[trigger] vals_equal(Val::Boolean(x), Val::Boolean(y)) == (x == y),
        vals_equal(Val::Nil, Val::Nil),
        vals_equal(Val::Float(0u32), Val::Float(0x8000_0000u32)),
        forall|b: u32|
            (b & 0x7fff_ffffu32) > 0x7f80_0000u32 ==> !#[trigger] vals_equal(Val::Float(b), Val::Float(b)),
        forall|x: u32, y: u32|
            (x & 0x7fff_ffffu32) <= 0x7f80_0000u32 && (x & 0x7fff_ffffu32) != 0 ==> (
            #[trigger] vals_equal(Val::Float(x), Val::Float(y)) == (x == y)),
        forall|x: i64, s: Seq<char>| !#[trigger] vals_equal(Val::Integer(x), Val::Str(s)),
        forall|x: i64, b: bool| !#[trigger] vals_equal(Val::Integer(x), Val::Boolean(b)),
        forall|x: i64, f: u32| !#[trigger] vals_equal(Val::Integer(x), Val::Float(f)),
        forall|x: i64| !#[trigger] vals_equal(Val::Integer(x), Val::Nil),
        forall|s: Seq<char>, b: bool| !#[trigger] vals_equal(Val::Str(s), Val::Boolean(b)),
        forall|s: Seq<char>| !#[trigger] vals_equal(Val::Str(s), Val::Nil),
        forall|b: bool| !#[trigger] vals_equal(Val::Boolean(b), Val::Nil),
{
    assert(0u32 & 0x7fff_ffffu32 == 0u32) by (bit_vector);
    assert(0x8000_0000u32 & 0x7fff_ffffu32 == 0u32) by (bit_vector);
}

} // verus!
