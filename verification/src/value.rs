//! Runtime values and their conversions.
//!
//! A floating point value is held as the bit pattern of an IEEE-754 single
//! precision number. Comparing such values and testing them for zero is done
//! here on the bits; converting to and from text and integers is asked of
//! the caller, as a `Request` answered by an `Answer`.

use vstd::prelude::*;
use crate::error::{ErrorModel, LciError};
use crate::parser::{Statement, StmtM, stmts_model, strings_view, duplicate_strings, duplicate_statements};
use crate::text::{int_decimal, i64_decimal, parse_i64, chars_of, spec_parse_i64, decimal_round_trip};

verus! {

/// Runtime value types.
#[derive(Debug)]
pub enum Value {
    Integer(i64),
    /// A single precision float, by its bits.
    Float(u32),
    String(String),
    Boolean(bool),
    Nil,
    Function { params: Vec<String>, body: Vec<Statement> },
}

/// What a value is, with its text as characters.
pub enum Val {
    Integer(i64),
    Float(u32),
    Str(Seq<char>),
    Boolean(bool),
    Nil,
    Function(Seq<Seq<char>>, Seq<StmtM>),
}

impl Value {
    /// What the value is.
    pub open spec fn model(&self) -> Val {
        match self {
            Value::Integer(i) => Val::Integer(*i),
            Value::Float(b) => Val::Float(*b),
            Value::String(s) => Val::Str(s@),
            Value::Boolean(b) => Val::Boolean(*b),
            Value::Nil => Val::Nil,
            Value::Function { params, body } => Val::Function(strings_view(params@), stmts_model(body@)),
        }
    }
}

/// Something only the caller can supply: a line of input, or a conversion
/// of a single precision float.
#[derive(Debug)]
pub enum Request {
    /// The next line of standard input.
    ReadLine,
    /// The bits of the float that `f32::from_str` reads from the text, or
    /// that it reads none.
    ParseFloat(String),
    /// The text that `f32`'s `Display` writes for the float.
    FormatFloat(u32),
    /// The bits of the integer converted with `as f32`.
    IntToFloat(i64),
    /// The float converted with `as i64`.
    FloatToInt(u32),
}

/// The caller's reply to a request.
#[derive(Debug, Clone)]
pub enum Answer {
    /// A line read, with its line break if it had one; empty at the end of
    /// input.
    Line(String),
    /// Reading failed, with the reason.
    ReadFailed(String),
    /// The bits of a float.
    Float(u32),
    /// The text is not a float.
    NotFloat,
    /// An integer.
    Int(i64),
    /// A text.
    Text(String),
}

/// What a request asks, with its text as characters.
pub enum ReqM {
    ReadLine,
    ParseFloat(Seq<char>),
    FormatFloat(u32),
    IntToFloat(i64),
    FloatToInt(u32),
}

/// What an answer says, with its text as characters.
pub enum AnsM {
    Line(Seq<char>),
    ReadFailed(Seq<char>),
    Float(u32),
    NotFloat,
    Int(i64),
    Text(Seq<char>),
}

impl Request {
    /// What the request asks.
    pub open spec fn model(&self) -> ReqM {
        match self {
            Request::ReadLine => ReqM::ReadLine,
            Request::ParseFloat(s) => ReqM::ParseFloat(s@),
            Request::FormatFloat(b) => ReqM::FormatFloat(*b),
            Request::IntToFloat(i) => ReqM::IntToFloat(*i),
            Request::FloatToInt(b) => ReqM::FloatToInt(*b),
        }
    }
}

impl Answer {
    /// A copy of the answer.
    pub fn duplicate(&self) -> (r: Self)
        ensures
            r.model() == self.model(),
    {
        match self {
            Answer::Line(s) => Answer::Line(s.clone()),
            Answer::ReadFailed(s) => Answer::ReadFailed(s.clone()),
            Answer::Float(b) => Answer::Float(*b),
            Answer::NotFloat => Answer::NotFloat,
            Answer::Int(i) => Answer::Int(*i),
            Answer::Text(s) => Answer::Text(s.clone()),
        }
    }

    /// What the answer says.
    pub open spec fn model(&self) -> AnsM {
        match self {
            Answer::Line(s) => AnsM::Line(s@),
            Answer::ReadFailed(s) => AnsM::ReadFailed(s@),
            Answer::Float(b) => AnsM::Float(*b),
            Answer::NotFloat => AnsM::NotFloat,
            Answer::Int(i) => AnsM::Int(*i),
            Answer::Text(s) => AnsM::Text(s@),
        }
    }
}

/// A conversion: done, or waiting for the answer to a request.
#[derive(Debug)]
pub enum Cast<T> {
    Ready(Result<T, LciError>),
    Ask(Request),
}

/// A conversion as the specification states it.
pub enum CastM<T> {
    Ready(Result<T, ErrorModel>),
    Ask(ReqM),
}

/// The bits of a float are those of a zero, of either sign.
pub open spec fn float_is_zero(b: u32) -> bool {
    b & 0x7fff_ffffu32 == 0
}

/// The bits of a float are those of a NaN.
pub open spec fn float_is_nan(b: u32) -> bool {
    b & 0x7fff_ffffu32 > 0x7f80_0000u32
}

/// IEEE-754 equality on float bits: a NaN equals nothing, the two zeros
/// are equal, and other values are equal when their bits are.
pub open spec fn float_eq(a: u32, b: u32) -> bool {
    !float_is_nan(a) && !float_is_nan(b) && (a == b || (float_is_zero(a) && float_is_zero(b)))
}

/// The bits of 1.0.
pub open spec fn float_one() -> u32 {
    0x3f80_0000u32
}

/// The truth of a value: an integer or a float is true when it is not
/// zero, a string when it is not empty, nil is false and a function true.
pub open spec fn val_to_bool(v: Val) -> bool {
    match v {
        Val::Boolean(b) => b,
        Val::Integer(i) => i != 0,
        Val::Float(b) => !float_is_zero(b),
        Val::Str(s) => s.len() > 0,
        Val::Nil => false,
        Val::Function(..) => true,
    }
}

/// An error that carries no fields.
pub open spec fn bare_error(code: i32) -> ErrorModel {
    ErrorModel { code, texts: seq![], lines: seq![] }
}

/// Converting a value to an integer: a float is truncated by the caller,
/// a boolean is 1 or 0, a string is read as a decimal integer.
pub open spec fn val_to_integer(v: Val) -> CastM<i64> {
    match v {
        Val::Integer(i) => CastM::Ready(Ok(i)),
        Val::Float(b) => CastM::Ask(ReqM::FloatToInt(b)),
        Val::Boolean(b) => CastM::Ready(Ok(if b { 1 } else { 0 })),
        Val::Str(s) => match spec_parse_i64(s) {
            Some(i) => CastM::Ready(Ok(i)),
            None => CastM::Ready(Err(bare_error(508))),
        },
        Val::Nil => CastM::Ready(Err(bare_error(503))),
        Val::Function(..) => CastM::Ready(Err(bare_error(509))),
    }
}

/// Converting a value to a float: an integer or a string is converted by
/// the caller, a boolean is 1.0 or 0.0.
pub open spec fn val_to_float(v: Val) -> CastM<u32> {
    match v {
        Val::Integer(i) => CastM::Ask(ReqM::IntToFloat(i)),
        Val::Float(b) => CastM::Ready(Ok(b)),
        Val::Boolean(b) => CastM::Ready(Ok(if b { float_one() } else { 0u32 })),
        Val::Str(s) => CastM::Ask(ReqM::ParseFloat(s)),
        Val::Nil => CastM::Ready(Err(bare_error(503))),
        Val::Function(..) => CastM::Ready(Err(bare_error(513))),
    }
}

/// Converting a value to a string: an integer in decimal, a float as the
/// caller writes it, a boolean as WIN or FAIL, nil as the empty string.
pub open spec fn val_to_yarn(v: Val) -> CastM<Seq<char>> {
    match v {
        Val::Integer(i) => CastM::Ready(Ok(int_decimal(i as int))),
        Val::Float(b) => CastM::Ask(ReqM::FormatFloat(b)),
        Val::Boolean(b) => CastM::Ready(Ok(if b { "WIN"@ } else { "FAIL"@ })),
        Val::Str(s) => CastM::Ready(Ok(s)),
        Val::Nil => CastM::Ready(Ok(Seq::empty())),
        Val::Function(..) => CastM::Ready(Err(bare_error(523))),
    }
}

/// The conversion is what the specification states.
pub open spec fn cast_is<T>(c: Cast<T>, m: CastM<T>) -> bool {
    match c {
        Cast::Ready(Ok(x)) => m == CastM::<T>::Ready(Ok(x)),
        Cast::Ready(Err(e)) => m == CastM::<T>::Ready(Err(e@)),
        Cast::Ask(r) => m == CastM::<T>::Ask(r.model()),
    }
}

/// The conversion to a string is what the specification states.
pub open spec fn yarn_cast_is(c: Cast<String>, m: CastM<Seq<char>>) -> bool {
    match c {
        Cast::Ready(Ok(x)) => m == CastM::<Seq<char>>::Ready(Ok(x@)),
        Cast::Ready(Err(e)) => m == CastM::<Seq<char>>::Ready(Err(e@)),
        Cast::Ask(r) => m == CastM::<Seq<char>>::Ask(r.model()),
    }
}

fn float_is_zero_exec(b: u32) -> (r: bool)
    ensures
        r == float_is_zero(b),
{
    b & 0x7fff_ffffu32 == 0
}

fn float_is_nan_exec(b: u32) -> (r: bool)
    ensures
        r == float_is_nan(b),
{
    b & 0x7fff_ffffu32 > 0x7f80_0000u32
}

/// IEEE-754 equality of two floats given by their bits.
pub fn float_eq_exec(a: u32, b: u32) -> (r: bool)
    ensures
        r == float_eq(a, b),
{
    !float_is_nan_exec(a) && !float_is_nan_exec(b) && (a == b || (float_is_zero_exec(a)
        && float_is_zero_exec(b)))
}

impl Value {
    /// A copy of the value, with the same meaning.
    pub fn duplicate(&self) -> (r: Self)
        ensures
            r.model() == self.model(),
    {
        match self {
            Value::Integer(i) => Value::Integer(*i),
            Value::Float(b) => Value::Float(*b),
            Value::String(s) => Value::String(s.clone()),
            Value::Boolean(b) => Value::Boolean(*b),
            Value::Nil => Value::Nil,
            Value::Function { params, body } => Value::Function {
                params: duplicate_strings(params),
                body: duplicate_statements(body),
            },
        }
    }

    /// Convert value to boolean.
    pub fn to_bool(&self) -> (b: bool)
        ensures
            b == val_to_bool(self.model()),
    {
        match self {
            Value::Boolean(b) => *b,
            Value::Integer(i) => *i != 0,
            Value::Float(f) => !float_is_zero_exec(*f),
            Value::String(s) => !s.as_str().is_empty(),
            Value::Nil => false,
            Value::Function { .. } => true,
        }
    }

    /// Convert value to integer, or say what the caller must convert.
    pub fn to_integer(&self) -> (r: Cast<i64>)
        ensures
            cast_is(r, val_to_integer(self.model())),
    {
        match self {
            Value::Integer(i) => Cast::Ready(Ok(*i)),
            Value::Float(f) => Cast::Ask(Request::FloatToInt(*f)),
            Value::Boolean(b) => Cast::Ready(Ok(if *b { 1 } else { 0 })),
            Value::String(s) => {
                let cs = chars_of(s.as_str());
                match parse_i64(&cs) {
                    Some(i) => Cast::Ready(Ok(i)),
                    None => Cast::Ready(Err(LciError::ExpectedIntegerValue)),
                }
            },
            Value::Nil => Cast::Ready(Err(LciError::CannotImplicitlyCastNil)),
            Value::Function { .. } => Cast::Ready(Err(LciError::CannotCastFunctionToInteger)),
        }
    }

    /// Convert value to float bits, or say what the caller must convert.
    pub fn to_float(&self) -> (r: Cast<u32>)
        ensures
            cast_is(r, val_to_float(self.model())),
    {
        match self {
            Value::Integer(i) => Cast::Ask(Request::IntToFloat(*i)),
            Value::Float(f) => Cast::Ready(Ok(*f)),
            Value::Boolean(b) => Cast::Ready(Ok(if *b { 0x3f80_0000u32 } else { 0u32 })),
            Value::String(s) => Cast::Ask(Request::ParseFloat(s.clone())),
            Value::Nil => Cast::Ready(Err(LciError::CannotImplicitlyCastNil)),
            Value::Function { .. } => Cast::Ready(Err(LciError::CannotCastFunctionToDecimal)),
        }
    }

    /// Convert value to string, or say what the caller must convert.
    pub fn to_string(&self) -> (r: Cast<String>)
        ensures
            yarn_cast_is(r, val_to_yarn(self.model())),
    {
        match self {
            Value::Integer(i) => Cast::Ready(Ok(i64_decimal(*i))),
            Value::Float(f) => Cast::Ask(Request::FormatFloat(*f)),
            Value::Boolean(b) => Cast::Ready(
                Ok(
                    if *b {
                        String::from_str("WIN")
                    } else {
                        String::from_str("FAIL")
                    },
                ),
            ),
            Value::String(s) => Cast::Ready(Ok(s.clone())),
            Value::Nil => Cast::Ready(Ok(String::new())),
            Value::Function { .. } => Cast::Ready(Err(LciError::CannotCastFunctionToString)),
        }
    }
}

/// A NUMBR cast to a YARN and back is the same NUMBR.
pub proof fn numbr_yarn_round_trip(i: i64)
    ensures
        val_to_yarn(Val::Integer(i)) == CastM::<Seq<char>>::Ready(Ok(int_decimal(i as int))),
        val_to_integer(Val::Str(int_decimal(i as int))) == CastM::<i64>::Ready(Ok(i)),
{
    decimal_round_trip(i);
}

/// The truth of a value: a NUMBR is true when it is not zero, negative
/// ones included; a NUMBAR is false only at a zero of either sign (NaN is
/// true); a YARN is true when it is not empty; NOOB is false; a TROOF is
/// itself; a function is true.
pub proof fn truth_law()
    ensures
        forall|i: i64| #[trigger] val_to_bool(Val::Integer(i)) == (i != 0),
        forall|i: i64| i < 0 ==> #[trigger] val_to_bool(Val::Integer(i)),
        forall|b: u32|
            #[trigger] val_to_bool(Val::Float(b)) == !(b == 0u32 || b == 0x8000_0000u32),
        forall|s: Seq<char>| #[trigger] val_to_bool(Val::Str(s)) == (s.len() > 0),
        forall|b: bool| #[trigger] val_to_bool(Val::Boolean(b)) == b,
        !val_to_bool(Val::Nil),
        forall|ps: Seq<Seq<char>>, body: Seq<StmtM>| #[trigger] val_to_bool(Val::Function(ps, body)),
{
    assert forall|b: u32| #[trigger] val_to_bool(Val::Float(b)) == !(b == 0u32 || b == 0x8000_0000u32) by {
        assert((b & 0x7fff_ffffu32 == 0) == (b == 0u32 || b == 0x8000_0000u32)) by (bit_vector);
    }
}

/// Converting to a NUMBR: a NUMBR is kept, WIN is 1 and FAIL is 0, a
/// YARN is read as a decimal integer (error 508 when it is not one), NOOB
/// fails with error 503, and a NUMBAR is asked of the caller to truncate.
/// Converting to a YARN: WIN and FAIL are written so, NOOB is empty, a YARN
/// is kept, a NUMBR is written in decimal. Converting to a NUMBAR: WIN is
/// 1.0, FAIL is 0.0, a NUMBAR is kept.
pub proof fn conversions_law()
    ensures
        forall|i: i64| #[trigger] val_to_integer(Val::Integer(i)) == CastM::<i64>::Ready(Ok(i)),
        val_to_integer(Val::Boolean(true)) == CastM::<i64>::Ready(Ok(1)),
        val_to_integer(Val::Boolean(false)) == CastM::<i64>::Ready(Ok(0)),
        val_to_integer(Val::Nil) matches CastM::Ready(Err(e)) && e.code == 503,
        forall|s: Seq<char>|
            spec_parse_i64(s) is None ==> (#[trigger] val_to_integer(Val::Str(s)) matches CastM::Ready(
                Err(e),
            ) && e.code == 508),
        forall|s: Seq<char>|
            spec_parse_i64(s) is Some ==> #[trigger] val_to_integer(Val::Str(s)) == CastM::<i64>::Ready(
                Ok(spec_parse_i64(s)->0),
            ),
        forall|b: u32| #[trigger] val_to_integer(Val::Float(b)) == CastM::<i64>::Ask(ReqM::FloatToInt(b)),
        val_to_yarn(Val::Boolean(true)) == CastM::<Seq<char>>::Ready(Ok(seq!['W', 'I', 'N'])),
        val_to_yarn(Val::Boolean(false)) == CastM::<Seq<char>>::Ready(Ok(seq!['F', 'A', 'I', 'L'])),
        val_to_yarn(Val::Nil) == CastM::<Seq<char>>::Ready(Ok(Seq::empty())),
        forall|s: Seq<char>| #[trigger] val_to_yarn(Val::Str(s)) == CastM::<Seq<char>>::Ready(Ok(s)),
        forall|b: u32| #[trigger] val_to_yarn(Val::Float(b)) == CastM::<Seq<char>>::Ask(ReqM::FormatFloat(b)),
        val_to_float(Val::Boolean(true)) == CastM::<u32>::Ready(Ok(0x3f80_0000u32)),
        val_to_float(Val::Boolean(false)) == CastM::<u32>::Ready(Ok(0u32)),
        forall|b: u32| #[trigger] val_to_float(Val::Float(b)) == CastM::<u32>::Ready(Ok(b)),
        forall|i: i64| #[trigger] val_to_float(Val::Integer(i)) == CastM::<u32>::Ask(ReqM::IntToFloat(i)),
        forall|s: Seq<char>| #[trigger] val_to_float(Val::Str(s)) == CastM::<u32>::Ask(ReqM::ParseFloat(s)),
{
    reveal_strlit("WIN");
    reveal_strlit("FAIL");
    assert("WIN"@ =~= seq!['W', 'I', 'N']);
    assert("FAIL"@ =~= seq!['F', 'A', 'I', 'L']);
}

} // verus!
