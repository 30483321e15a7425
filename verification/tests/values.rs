use lci::text::{chars_of, float_literal_exec, i64_decimal, parse_i64, trim_chars};
use lci::value::{Cast, Request, Value};
use lci::LciError;

fn cs(s: &str) -> Vec<char> {
    s.chars().collect()
}

#[test]
fn parse_integers() {
    assert_eq!(parse_i64(&cs("42")), Some(42));
    assert_eq!(parse_i64(&cs("-17")), Some(-17));
    assert_eq!(parse_i64(&cs("+8")), Some(8));
    assert_eq!(parse_i64(&cs("9223372036854775807")), Some(i64::MAX));
    assert_eq!(parse_i64(&cs("-9223372036854775808")), Some(i64::MIN));
    assert_eq!(parse_i64(&cs("9223372036854775808")), None);
    assert_eq!(parse_i64(&cs("")), None);
    assert_eq!(parse_i64(&cs("-")), None);
    assert_eq!(parse_i64(&cs("1a")), None);
    assert_eq!(parse_i64(&cs(" 1")), None);
}

#[test]
fn write_integers() {
    assert_eq!(i64_decimal(0), "0");
    assert_eq!(i64_decimal(305), "305");
    assert_eq!(i64_decimal(-42), "-42");
    assert_eq!(i64_decimal(i64::MIN), "-9223372036854775808");
    assert_eq!(i64_decimal(i64::MAX), "9223372036854775807");
}

#[test]
fn decimal_round_trip_values() {
    for i in [0i64, 1, -1, 10, -10, 12345, i64::MIN, i64::MAX] {
        assert_eq!(parse_i64(&cs(&i64_decimal(i))), Some(i));
    }
}

#[test]
fn float_grammar() {
    for s in ["1.5", ".5", "5.", "1e3", "1E-3", "-2.5e+10", "+0.0", "inf", "-Infinity", "NaN", "12"] {
        assert!(float_literal_exec(&cs(s)), "{}", s);
    }
    for s in ["", ".", "e3", "1e", "1.2.3", "abc", "--1", "0x10", "1_000", "in"] {
        assert!(!float_literal_exec(&cs(s)), "{}", s);
    }
}

#[test]
fn trimming() {
    assert_eq!(trim_chars(&cs("  a b \t\n")), cs("a b"));
    assert_eq!(trim_chars(&cs("\r\n")), cs(""));
    assert_eq!(trim_chars(&cs("x")), cs("x"));
}

#[test]
fn chars_of_string() {
    assert_eq!(chars_of("héllo"), cs("héllo"));
}

#[test]
fn value_truth() {
    assert!(Value::Integer(3).to_bool());
    assert!(!Value::Integer(0).to_bool());
    assert!(!Value::Float(0x8000_0000).to_bool());
    assert!(Value::Float(0x3f80_0000).to_bool());
    assert!(Value::String("a".to_string()).to_bool());
    assert!(!Value::String(String::new()).to_bool());
    assert!(!Value::Nil.to_bool());
    assert!(Value::Boolean(true).to_bool());
    assert!(Value::Function { params: vec![], body: vec![] }.to_bool());
}

#[test]
fn value_to_integer() {
    assert!(matches!(Value::Integer(7).to_integer(), Cast::Ready(Ok(7))));
    assert!(matches!(Value::Boolean(true).to_integer(), Cast::Ready(Ok(1))));
    assert!(matches!(Value::String("-12".to_string()).to_integer(), Cast::Ready(Ok(-12))));
    assert!(matches!(Value::String("x".to_string()).to_integer(), Cast::Ready(Err(LciError::ExpectedIntegerValue))));
    assert!(matches!(Value::Nil.to_integer(), Cast::Ready(Err(LciError::CannotImplicitlyCastNil))));
    assert!(matches!(
        Value::Function { params: vec![], body: vec![] }.to_integer(),
        Cast::Ready(Err(LciError::CannotCastFunctionToInteger))
    ));
    assert!(matches!(Value::Float(0x3fc0_0000).to_integer(), Cast::Ask(Request::FloatToInt(0x3fc0_0000))));
}

#[test]
fn value_to_float() {
    assert!(matches!(Value::Boolean(true).to_float(), Cast::Ready(Ok(0x3f80_0000))));
    assert!(matches!(Value::Boolean(false).to_float(), Cast::Ready(Ok(0))));
    assert!(matches!(Value::Float(5).to_float(), Cast::Ready(Ok(5))));
    assert!(matches!(Value::Integer(2).to_float(), Cast::Ask(Request::IntToFloat(2))));
    assert!(matches!(Value::String("2.5".to_string()).to_float(), Cast::Ask(Request::ParseFloat(ref s)) if s == "2.5"));
    assert!(matches!(Value::Nil.to_float(), Cast::Ready(Err(LciError::CannotImplicitlyCastNil))));
    assert!(matches!(
        Value::Function { params: vec![], body: vec![] }.to_float(),
        Cast::Ready(Err(LciError::CannotCastFunctionToDecimal))
    ));
}

#[test]
fn value_to_string() {
    assert!(matches!(Value::Integer(-5).to_string(), Cast::Ready(Ok(ref s)) if s == "-5"));
    assert!(matches!(Value::Boolean(false).to_string(), Cast::Ready(Ok(ref s)) if s == "FAIL"));
    assert!(matches!(Value::Nil.to_string(), Cast::Ready(Ok(ref s)) if s.is_empty()));
    assert!(matches!(Value::String("q".to_string()).to_string(), Cast::Ready(Ok(ref s)) if s == "q"));
    assert!(matches!(Value::Float(0x4020_0000).to_string(), Cast::Ask(Request::FormatFloat(0x4020_0000))));
    assert!(matches!(
        Value::Function { params: vec![], body: vec![] }.to_string(),
        Cast::Ready(Err(LciError::CannotCastFunctionToString))
    ));
}
