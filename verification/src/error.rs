//! The errors that lexing, tokenizing, parsing and interpreting can raise,
//! each with the process exit code that reports it.

use vstd::prelude::*;

verus! {

/// Every error of the interpreter. Codes are grouped in blocks: 100 for the
/// main program, 200 for the lexer, 300 for the tokenizer, 400 for the
/// parser and 500 for the interpreter; an I/O failure exits with 1.
#[derive(Debug, Clone, PartialEq, Eq)]
pub enum LciError {
    ErrorOpeningFile(String),
    ErrorClosingFile(String),
    LineContinuation(String, usize),
    MultipleLineComment(String, usize),
    ExpectedTokenDelimiter(String, usize),
    ExpectedFloatingPoint(String, usize),
    ExpectedInteger(String, usize),
    UnknownToken(String, usize, String),
    UnknownIdentifierType(String, usize),
    UnknownStatementType,
    UnknownExpressionType,
    ExpectedBoolean(String, usize, String),
    ExpectedIntegerToken(String, usize, String),
    ExpectedFloat(String, usize, String),
    ExpectedString(String, usize, String),
    ExpectedConstant(String, usize, String),
    ExpectedType(String, usize, String),
    ExpectedIdentifier(String, usize, String),
    ExpectedToken(String, usize, String, String),
    InvalidOperator(String, usize, String),
    ExpectedExpression(String, usize, String),
    ExpectedEndOfExpression(String, usize, String),
    ExpectedEndOfStatement(String, usize, String),
    CannotUseStrAsLiteral(String, usize, String),
    LiteralMustBeUnique(String, usize, String),
    ExpectedLoopName(String, usize, String),
    ExpectedEitherToken(String, usize, String, String, String),
    ExpectedUnaryFunction(String, usize, String),
    ExpectedMatchingLoopName(String, usize, String),
    ExpectedStatement(String, usize, String),
    UnhandledString,
    InvalidIdentifierType(String, usize, String),
    UnableToStoreVariable(String, usize, String),
    VariableDoesNotExist(String, usize, String),
    CannotImplicitlyCastNil,
    CannotCastFunctionToBoolean,
    CannotCastArrayToBoolean,
    UnknownValueDuringBooleanCast,
    UnableToCastValue,
    ExpectedIntegerValue,
    CannotCastFunctionToInteger,
    CannotCastArrayToInteger,
    UnknownValueDuringIntegerCast,
    ExpectedDecimal,
    CannotCastFunctionToDecimal,
    CannotCastArrayToDecimal,
    UnknownValueDuringDecimalCast,
    CannotCastBooleanToString,
    ExpectedClosingParen,
    InvalidHexNumber,
    CodePointMustBePositive,
    ExpectedClosingSquareBracket,
    ExpectedClosingCurlyBrace,
    VariableNotAnArray(String, usize, String),
    CannotCastFunctionToString,
    CannotCastArrayToString,
    UnknownValueDuringStringCast,
    UnknownCastType,
    UndefinedFunction(String, usize, String),
    IncorrectNumberOfArguments(String, usize, String),
    InvalidReturnType,
    UnknownConstantType,
    DivisionByZero,
    InvalidOperandType,
    InvalidBooleanOperationType,
    InvalidEqualityOperationType,
    RedefinitionOfVariable(String, usize, String),
    InvalidDeclarationType,
    InvalidType,
    FunctionNameUsedByVariable(String, usize, String),
    CannotCastValueToArray(String, usize, String),
    Io(String),
}

impl LciError {
    /// The exit code that reports this error.
    pub open spec fn spec_exit_code(self) -> i32 {
        match self {
            LciError::ErrorOpeningFile(_) => 100,
            LciError::ErrorClosingFile(_) => 101,
            LciError::LineContinuation(_, _) => 200,
            LciError::MultipleLineComment(_, _) => 201,
            LciError::ExpectedTokenDelimiter(_, _) => 202,
            LciError::ExpectedFloatingPoint(_, _) => 300,
            LciError::ExpectedInteger(_, _) => 301,
            LciError::UnknownToken(_, _, _) => 302,
            LciError::UnknownIdentifierType(_, _) => 400,
            LciError::UnknownStatementType => 401,
            LciError::UnknownExpressionType => 402,
            LciError::ExpectedBoolean(_, _, _) => 403,
            LciError::ExpectedIntegerToken(_, _, _) => 404,
            LciError::ExpectedFloat(_, _, _) => 405,
            LciError::ExpectedString(_, _, _) => 406,
            LciError::ExpectedConstant(_, _, _) => 407,
            LciError::ExpectedType(_, _, _) => 408,
            LciError::ExpectedIdentifier(_, _, _) => 409,
            LciError::ExpectedToken(_, _, _, _) => 410,
            LciError::InvalidOperator(_, _, _) => 411,
            LciError::ExpectedExpression(_, _, _) => 412,
            LciError::ExpectedEndOfExpression(_, _, _) => 413,
            LciError::ExpectedEndOfStatement(_, _, _) => 414,
            LciError::CannotUseStrAsLiteral(_, _, _) => 415,
            LciError::LiteralMustBeUnique(_, _, _) => 416,
            LciError::ExpectedLoopName(_, _, _) => 417,
            LciError::ExpectedEitherToken(_, _, _, _, _) => 418,
            LciError::ExpectedUnaryFunction(_, _, _) => 419,
            LciError::ExpectedMatchingLoopName(_, _, _) => 420,
            LciError::ExpectedStatement(_, _, _) => 421,
            LciError::UnhandledString => 422,
            LciError::InvalidIdentifierType(_, _, _) => 500,
            LciError::UnableToStoreVariable(_, _, _) => 501,
            LciError::VariableDoesNotExist(_, _, _) => 502,
            LciError::CannotImplicitlyCastNil => 503,
            LciError::CannotCastFunctionToBoolean => 504,
            LciError::CannotCastArrayToBoolean => 505,
            LciError::UnknownValueDuringBooleanCast => 506,
            LciError::UnableToCastValue => 507,
            LciError::ExpectedIntegerValue => 508,
            LciError::CannotCastFunctionToInteger => 509,
            LciError::CannotCastArrayToInteger => 510,
            LciError::UnknownValueDuringIntegerCast => 511,
            LciError::ExpectedDecimal => 512,
            LciError::CannotCastFunctionToDecimal => 513,
            LciError::CannotCastArrayToDecimal => 514,
            LciError::UnknownValueDuringDecimalCast => 515,
            LciError::CannotCastBooleanToString => 516,
            LciError::ExpectedClosingParen => 517,
            LciError::InvalidHexNumber => 518,
            LciError::CodePointMustBePositive => 519,
            LciError::ExpectedClosingSquareBracket => 520,
            LciError::ExpectedClosingCurlyBrace => 521,
            LciError::VariableNotAnArray(_, _, _) => 522,
            LciError::CannotCastFunctionToString => 523,
            LciError::CannotCastArrayToString => 524,
            LciError::UnknownValueDuringStringCast => 525,
            LciError::UnknownCastType => 526,
            LciError::UndefinedFunction(_, _, _) => 527,
            LciError::IncorrectNumberOfArguments(_, _, _) => 528,
            LciError::InvalidReturnType => 529,
            LciError::UnknownConstantType => 530,
            LciError::DivisionByZero => 531,
            LciError::InvalidOperandType => 532,
            LciError::InvalidBooleanOperationType => 533,
            LciError::InvalidEqualityOperationType => 534,
            LciError::RedefinitionOfVariable(_, _, _) => 535,
            LciError::InvalidDeclarationType => 536,
            LciError::InvalidType => 537,
            LciError::FunctionNameUsedByVariable(_, _, _) => 538,
            LciError::CannotCastValueToArray(_, _, _) => 539,
            LciError::Io(_) => 1,
        }
    }

    /// Get the exit code for this error.
    pub fn exit_code(&self) -> (code: i32)
        ensures
            code == self.spec_exit_code(),
    {
        match self {
            LciError::ErrorOpeningFile(_) => 100,
            LciError::ErrorClosingFile(_) => 101,
            LciError::LineContinuation(_, _) => 200,
            LciError::MultipleLineComment(_, _) => 201,
            LciError::ExpectedTokenDelimiter(_, _) => 202,
            LciError::ExpectedFloatingPoint(_, _) => 300,
            LciError::ExpectedInteger(_, _) => 301,
            LciError::UnknownToken(_, _, _) => 302,
            LciError::UnknownIdentifierType(_, _) => 400,
            LciError::UnknownStatementType => 401,
            LciError::UnknownExpressionType => 402,
            LciError::ExpectedBoolean(_, _, _) => 403,
            LciError::ExpectedIntegerToken(_, _, _) => 404,
            LciError::ExpectedFloat(_, _, _) => 405,
            LciError::ExpectedString(_, _, _) => 406,
            LciError::ExpectedConstant(_, _, _) => 407,
            LciError::ExpectedType(_, _, _) => 408,
            LciError::ExpectedIdentifier(_, _, _) => 409,
            LciError::ExpectedToken(_, _, _, _) => 410,
            LciError::InvalidOperator(_, _, _) => 411,
            LciError::ExpectedExpression(_, _, _) => 412,
            LciError::ExpectedEndOfExpression(_, _, _) => 413,
            LciError::ExpectedEndOfStatement(_, _, _) => 414,
            LciError::CannotUseStrAsLiteral(_, _, _) => 415,
            LciError::LiteralMustBeUnique(_, _, _) => 416,
            LciError::ExpectedLoopName(_, _, _) => 417,
            LciError::ExpectedEitherToken(_, _, _, _, _) => 418,
            LciError::ExpectedUnaryFunction(_, _, _) => 419,
            LciError::ExpectedMatchingLoopName(_, _, _) => 420,
            LciError::ExpectedStatement(_, _, _) => 421,
            LciError::UnhandledString => 422,
            LciError::InvalidIdentifierType(_, _, _) => 500,
            LciError::UnableToStoreVariable(_, _, _) => 501,
            LciError::VariableDoesNotExist(_, _, _) => 502,
            LciError::CannotImplicitlyCastNil => 503,
            LciError::CannotCastFunctionToBoolean => 504,
            LciError::CannotCastArrayToBoolean => 505,
            LciError::UnknownValueDuringBooleanCast => 506,
            LciError::UnableToCastValue => 507,
            LciError::ExpectedIntegerValue => 508,
            LciError::CannotCastFunctionToInteger => 509,
            LciError::CannotCastArrayToInteger => 510,
            LciError::UnknownValueDuringIntegerCast => 511,
            LciError::ExpectedDecimal => 512,
            LciError::CannotCastFunctionToDecimal => 513,
            LciError::CannotCastArrayToDecimal => 514,
            LciError::UnknownValueDuringDecimalCast => 515,
            LciError::CannotCastBooleanToString => 516,
            LciError::ExpectedClosingParen => 517,
            LciError::InvalidHexNumber => 518,
            LciError::CodePointMustBePositive => 519,
            LciError::ExpectedClosingSquareBracket => 520,
            LciError::ExpectedClosingCurlyBrace => 521,
            LciError::VariableNotAnArray(_, _, _) => 522,
            LciError::CannotCastFunctionToString => 523,
            LciError::CannotCastArrayToString => 524,
            LciError::UnknownValueDuringStringCast => 525,
            LciError::UnknownCastType => 526,
            LciError::UndefinedFunction(_, _, _) => 527,
            LciError::IncorrectNumberOfArguments(_, _, _) => 528,
            LciError::InvalidReturnType => 529,
            LciError::UnknownConstantType => 530,
            LciError::DivisionByZero => 531,
            LciError::InvalidOperandType => 532,
            LciError::InvalidBooleanOperationType => 533,
            LciError::InvalidEqualityOperationType => 534,
            LciError::RedefinitionOfVariable(_, _, _) => 535,
            LciError::InvalidDeclarationType => 536,
            LciError::InvalidType => 537,
            LciError::FunctionNameUsedByVariable(_, _, _) => 538,
            LciError::CannotCastValueToArray(_, _, _) => 539,
            LciError::Io(_) => 1,
        }
    }
}

/// What an error says: its exit code, which tells its kind, and its text
/// and line fields in order.
pub struct ErrorModel {
    pub code: i32,
    pub texts: Seq<Seq<char>>,
    pub lines: Seq<usize>,
}

impl View for LciError {
    type V = ErrorModel;

    open spec fn view(&self) -> ErrorModel {
        match self {
            LciError::ErrorOpeningFile(a0) => ErrorModel { code: self.spec_exit_code(), texts: seq![a0@], lines: seq![] },
            LciError::ErrorClosingFile(a0) => ErrorModel { code: self.spec_exit_code(), texts: seq![a0@], lines: seq![] },
            LciError::LineContinuation(a0, a1) => ErrorModel { code: self.spec_exit_code(), texts: seq![a0@], lines: seq![*a1] },
            LciError::MultipleLineComment(a0, a1) => ErrorModel { code: self.spec_exit_code(), texts: seq![a0@], lines: seq![*a1] },
            LciError::ExpectedTokenDelimiter(a0, a1) => ErrorModel { code: self.spec_exit_code(), texts: seq![a0@], lines: seq![*a1] },
            LciError::ExpectedFloatingPoint(a0, a1) => ErrorModel { code: self.spec_exit_code(), texts: seq![a0@], lines: seq![*a1] },
            LciError::ExpectedInteger(a0, a1) => ErrorModel { code: self.spec_exit_code(), texts: seq![a0@], lines: seq![*a1] },
            LciError::UnknownToken(a0, a1, a2) => ErrorModel { code: self.spec_exit_code(), texts: seq![a0@, a2@], lines: seq![*a1] },
            LciError::UnknownIdentifierType(a0, a1) => ErrorModel { code: self.spec_exit_code(), texts: seq![a0@], lines: seq![*a1] },
            LciError::UnknownStatementType => ErrorModel { code: self.spec_exit_code(), texts: seq![], lines: seq![] },
            LciError::UnknownExpressionType => ErrorModel { code: self.spec_exit_code(), texts: seq![], lines: seq![] },
            LciError::ExpectedBoolean(a0, a1, a2) => ErrorModel { code: self.spec_exit_code(), texts: seq![a0@, a2@], lines: seq![*a1] },
            LciError::ExpectedIntegerToken(a0, a1, a2) => ErrorModel { code: self.spec_exit_code(), texts: seq![a0@, a2@], lines: seq![*a1] },
            LciError::ExpectedFloat(a0, a1, a2) => ErrorModel { code: self.spec_exit_code(), texts: seq![a0@, a2@], lines: seq![*a1] },
            LciError::ExpectedString(a0, a1, a2) => ErrorModel { code: self.spec_exit_code(), texts: seq![a0@, a2@], lines: seq![*a1] },
            LciError::ExpectedConstant(a0, a1, a2) => ErrorModel { code: self.spec_exit_code(), texts: seq![a0@, a2@], lines: seq![*a1] },
            LciError::ExpectedType(a0, a1, a2) => ErrorModel { code: self.spec_exit_code(), texts: seq![a0@, a2@], lines: seq![*a1] },
            LciError::ExpectedIdentifier(a0, a1, a2) => ErrorModel { code: self.spec_exit_code(), texts: seq![a0@, a2@], lines: seq![*a1] },
            LciError::ExpectedToken(a0, a1, a2, a3) => ErrorModel { code: self.spec_exit_code(), texts: seq![a0@, a2@, a3@], lines: seq![*a1] },
            LciError::InvalidOperator(a0, a1, a2) => ErrorModel { code: self.spec_exit_code(), texts: seq![a0@, a2@], lines: seq![*a1] },
            LciError::ExpectedExpression(a0, a1, a2) => ErrorModel { code: self.spec_exit_code(), texts: seq![a0@, a2@], lines: seq![*a1] },
            LciError::ExpectedEndOfExpression(a0, a1, a2) => ErrorModel { code: self.spec_exit_code(), texts: seq![a0@, a2@], lines: seq![*a1] },
            LciError::ExpectedEndOfStatement(a0, a1, a2) => ErrorModel { code: self.spec_exit_code(), texts: seq![a0@, a2@], lines: seq![*a1] },
            LciError::CannotUseStrAsLiteral(a0, a1, a2) => ErrorModel { code: self.spec_exit_code(), texts: seq![a0@, a2@], lines: seq![*a1] },
            LciError::LiteralMustBeUnique(a0, a1, a2) => ErrorModel { code: self.spec_exit_code(), texts: seq![a0@, a2@], lines: seq![*a1] },
            LciError::ExpectedLoopName(a0, a1, a2) => ErrorModel { code: self.spec_exit_code(), texts: seq![a0@, a2@], lines: seq![*a1] },
            LciError::ExpectedEitherToken(a0, a1, a2, a3, a4) => ErrorModel { code: self.spec_exit_code(), texts: seq![a0@, a2@, a3@, a4@], lines: seq![*a1] },
            LciError::ExpectedUnaryFunction(a0, a1, a2) => ErrorModel { code: self.spec_exit_code(), texts: seq![a0@, a2@], lines: seq![*a1] },
            LciError::ExpectedMatchingLoopName(a0, a1, a2) => ErrorModel { code: self.spec_exit_code(), texts: seq![a0@, a2@], lines: seq![*a1] },
            LciError::ExpectedStatement(a0, a1, a2) => ErrorModel { code: self.spec_exit_code(), texts: seq![a0@, a2@], lines: seq![*a1] },
            LciError::UnhandledString => ErrorModel { code: self.spec_exit_code(), texts: seq![], lines: seq![] },
            LciError::InvalidIdentifierType(a0, a1, a2) => ErrorModel { code: self.spec_exit_code(), texts: seq![a0@, a2@], lines: seq![*a1] },
            LciError::UnableToStoreVariable(a0, a1, a2) => ErrorModel { code: self.spec_exit_code(), texts: seq![a0@, a2@], lines: seq![*a1] },
            LciError::VariableDoesNotExist(a0, a1, a2) => ErrorModel { code: self.spec_exit_code(), texts: seq![a0@, a2@], lines: seq![*a1] },
            LciError::CannotImplicitlyCastNil => ErrorModel { code: self.spec_exit_code(), texts: seq![], lines: seq![] },
            LciError::CannotCastFunctionToBoolean => ErrorModel { code: self.spec_exit_code(), texts: seq![], lines: seq![] },
            LciError::CannotCastArrayToBoolean => ErrorModel { code: self.spec_exit_code(), texts: seq![], lines: seq![] },
            LciError::UnknownValueDuringBooleanCast => ErrorModel { code: self.spec_exit_code(), texts: seq![], lines: seq![] },
            LciError::UnableToCastValue => ErrorModel { code: self.spec_exit_code(), texts: seq![], lines: seq![] },
            LciError::ExpectedIntegerValue => ErrorModel { code: self.spec_exit_code(), texts: seq![], lines: seq![] },
            LciError::CannotCastFunctionToInteger => ErrorModel { code: self.spec_exit_code(), texts: seq![], lines: seq![] },
            LciError::CannotCastArrayToInteger => ErrorModel { code: self.spec_exit_code(), texts: seq![], lines: seq![] },
            LciError::UnknownValueDuringIntegerCast => ErrorModel { code: self.spec_exit_code(), texts: seq![], lines: seq![] },
            LciError::ExpectedDecimal => ErrorModel { code: self.spec_exit_code(), texts: seq![], lines: seq![] },
            LciError::CannotCastFunctionToDecimal => ErrorModel { code: self.spec_exit_code(), texts: seq![], lines: seq![] },
            LciError::CannotCastArrayToDecimal => ErrorModel { code: self.spec_exit_code(), texts: seq![], lines: seq![] },
            LciError::UnknownValueDuringDecimalCast => ErrorModel { code: self.spec_exit_code(), texts: seq![], lines: seq![] },
            LciError::CannotCastBooleanToString => ErrorModel { code: self.spec_exit_code(), texts: seq![], lines: seq![] },
            LciError::ExpectedClosingParen => ErrorModel { code: self.spec_exit_code(), texts: seq![], lines: seq![] },
            LciError::InvalidHexNumber => ErrorModel { code: self.spec_exit_code(), texts: seq![], lines: seq![] },
            LciError::CodePointMustBePositive => ErrorModel { code: self.spec_exit_code(), texts: seq![], lines: seq![] },
            LciError::ExpectedClosingSquareBracket => ErrorModel { code: self.spec_exit_code(), texts: seq![], lines: seq![] },
            LciError::ExpectedClosingCurlyBrace => ErrorModel { code: self.spec_exit_code(), texts: seq![], lines: seq![] },
            LciError::VariableNotAnArray(a0, a1, a2) => ErrorModel { code: self.spec_exit_code(), texts: seq![a0@, a2@], lines: seq![*a1] },
            LciError::CannotCastFunctionToString => ErrorModel { code: self.spec_exit_code(), texts: seq![], lines: seq![] },
            LciError::CannotCastArrayToString => ErrorModel { code: self.spec_exit_code(), texts: seq![], lines: seq![] },
            LciError::UnknownValueDuringStringCast => ErrorModel { code: self.spec_exit_code(), texts: seq![], lines: seq![] },
            LciError::UnknownCastType => ErrorModel { code: self.spec_exit_code(), texts: seq![], lines: seq![] },
            LciError::UndefinedFunction(a0, a1, a2) => ErrorModel { code: self.spec_exit_code(), texts: seq![a0@, a2@], lines: seq![*a1] },
            LciError::IncorrectNumberOfArguments(a0, a1, a2) => ErrorModel { code: self.spec_exit_code(), texts: seq![a0@, a2@], lines: seq![*a1] },
            LciError::InvalidReturnType => ErrorModel { code: self.spec_exit_code(), texts: seq![], lines: seq![] },
            LciError::UnknownConstantType => ErrorModel { code: self.spec_exit_code(), texts: seq![], lines: seq![] },
            LciError::DivisionByZero => ErrorModel { code: self.spec_exit_code(), texts: seq![], lines: seq![] },
            LciError::InvalidOperandType => ErrorModel { code: self.spec_exit_code(), texts: seq![], lines: seq![] },
            LciError::InvalidBooleanOperationType => ErrorModel { code: self.spec_exit_code(), texts: seq![], lines: seq![] },
            LciError::InvalidEqualityOperationType => ErrorModel { code: self.spec_exit_code(), texts: seq![], lines: seq![] },
            LciError::RedefinitionOfVariable(a0, a1, a2) => ErrorModel { code: self.spec_exit_code(), texts: seq![a0@, a2@], lines: seq![*a1] },
            LciError::InvalidDeclarationType => ErrorModel { code: self.spec_exit_code(), texts: seq![], lines: seq![] },
            LciError::InvalidType => ErrorModel { code: self.spec_exit_code(), texts: seq![], lines: seq![] },
            LciError::FunctionNameUsedByVariable(a0, a1, a2) => ErrorModel { code: self.spec_exit_code(), texts: seq![a0@, a2@], lines: seq![*a1] },
            LciError::CannotCastValueToArray(a0, a1, a2) => ErrorModel { code: self.spec_exit_code(), texts: seq![a0@, a2@], lines: seq![*a1] },
            LciError::Io(a0) => ErrorModel { code: self.spec_exit_code(), texts: seq![a0@], lines: seq![] },
        }
    }
}

/// The block of exit codes that an error belongs to: its code rounded down
/// to a multiple of one hundred.
pub open spec fn code_block(code: i32) -> int {
    (code as int / 100) * 100
}

/// No error exits with the code of success: every exit code lies between
/// 1 and 539.
pub proof fn exit_code_signals_failure(e: LciError)
    ensures
        1 <= e.spec_exit_code() <= 539,
        e@.code == e.spec_exit_code(),
{
}

} // verus!
