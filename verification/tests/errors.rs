use lci::LciError;

#[test]
fn exit_codes_by_kind() {
    assert_eq!(LciError::ErrorOpeningFile("f".to_string()).exit_code(), 100);
    assert_eq!(LciError::ErrorClosingFile("f".to_string()).exit_code(), 101);
    assert_eq!(LciError::LineContinuation("f".to_string(), 1).exit_code(), 200);
    assert_eq!(LciError::ExpectedFloatingPoint("f".to_string(), 1).exit_code(), 300);
    assert_eq!(LciError::UnknownToken("f".to_string(), 1, "x".to_string()).exit_code(), 302);
    assert_eq!(
        LciError::ExpectedToken(String::new(), 0, "Hai".to_string(), String::new()).exit_code(),
        410
    );
    assert_eq!(LciError::ExpectedExpression(String::new(), 0, String::new()).exit_code(), 412);
    assert_eq!(LciError::ExpectedStatement(String::new(), 0, String::new()).exit_code(), 421);
    assert_eq!(LciError::UnhandledString.exit_code(), 422);
    assert_eq!(LciError::VariableDoesNotExist(String::new(), 0, "v".to_string()).exit_code(), 502);
    assert_eq!(LciError::ExpectedIntegerValue.exit_code(), 508);
    assert_eq!(LciError::DivisionByZero.exit_code(), 531);
    assert_eq!(LciError::RedefinitionOfVariable(String::new(), 0, "v".to_string()).exit_code(), 535);
    assert_eq!(LciError::CannotCastValueToArray(String::new(), 0, String::new()).exit_code(), 539);
    assert_eq!(LciError::Io("broken".to_string()).exit_code(), 1);
}

#[test]
fn exit_codes_never_signal_success() {
    let errors = vec![
        LciError::Io(String::new()),
        LciError::UnknownStatementType,
        LciError::InvalidType,
        LciError::UnknownCastType,
        LciError::ExpectedClosingParen,
    ];
    for e in errors {
        assert!(e.exit_code() >= 1 && e.exit_code() <= 539);
    }
}
