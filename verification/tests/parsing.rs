use lci::lexer::scan_buffer;
use lci::parser::{parse_main_node, BinaryOperator, Expression, MainNode, Statement};
use lci::tokenizer::tokenize_lexemes;
use lci::tokenizer::TokenType as T;
use lci::LciError;

fn parse(src: &str) -> Result<MainNode, LciError> {
    let list = scan_buffer(src, "p.lol").unwrap();
    let tokens = tokenize_lexemes(&list).unwrap();
    parse_main_node(&tokens)
}

#[test]
fn parse_hello() {
    let m = parse("HAI 1.2\nVISIBLE \"X\"\nKTHXBYE").unwrap();
    assert_eq!(m.version, "1.2");
    assert_eq!(m.statements.len(), 1);
    match &m.statements[0] {
        Statement::Print { expressions, newline, to_stderr } => {
            assert_eq!(expressions.len(), 1);
            assert!(matches!(&expressions[0], Expression::String(s) if s == "X"));
            assert!(*newline);
            assert!(!*to_stderr);
        },
        other => panic!("unexpected {:?}", other),
    }
}

#[test]
fn parse_versions() {
    assert_eq!(parse("HAI 2\nKTHXBYE").unwrap().version, "2");
    assert_eq!(parse("HAI\nKTHXBYE").unwrap().version, "1.3");
    assert_eq!(parse("HAI\n\n1.3\n\nKTHXBYE").unwrap().version, "1.3");
}

#[test]
fn parse_requires_hai() {
    assert_eq!(
        parse("VISIBLE 1\nKTHXBYE").unwrap_err(),
        LciError::ExpectedToken(String::new(), 0, "Hai".to_string(), String::new())
    );
}

#[test]
fn parse_missing_kthxbye_meets_end_of_input() {
    assert_eq!(
        parse("HAI 1.2\nVISIBLE 1\n").unwrap_err(),
        LciError::ExpectedExpression(String::new(), 0, String::new())
    );
}

#[test]
fn parse_declaration_and_assignment() {
    let m = parse("HAI\nHAS A x\nx R SUM OF 2 AN 3\nKTHXBYE").unwrap();
    assert_eq!(m.statements.len(), 2);
    assert!(matches!(&m.statements[0], Statement::Declaration { name, value: None } if name == "x"));
    match &m.statements[1] {
        Statement::Assignment { target, value } => {
            assert_eq!(target, "x");
            match value {
                Expression::BinaryOp { op, left, right } => {
                    assert_eq!(*op, BinaryOperator::Add);
                    assert!(matches!(**left, Expression::Integer(2)));
                    assert!(matches!(**right, Expression::Integer(3)));
                },
                other => panic!("unexpected {:?}", other),
            }
        },
        other => panic!("unexpected {:?}", other),
    }
}

#[test]
fn parse_declaration_needs_identifier() {
    assert_eq!(
        parse("HAI\nHAS A 5\nKTHXBYE").unwrap_err(),
        LciError::ExpectedIdentifier(String::new(), 0, String::new())
    );
}

#[test]
fn parse_invisible_with_bang() {
    let m = parse("HAI\nINVISIBLE \"a\" \"b\"!\nKTHXBYE").unwrap();
    match &m.statements[0] {
        Statement::Print { expressions, newline, to_stderr } => {
            assert_eq!(expressions.len(), 2);
            assert!(!*newline);
            assert!(*to_stderr);
        },
        other => panic!("unexpected {:?}", other),
    }
}

#[test]
fn parse_input_break_and_return() {
    let m = parse("HAI\nGIMMEH x\nGTFO\nFOUND YR 5\nKTHXBYE").unwrap();
    assert_eq!(m.statements.len(), 3);
    assert!(matches!(&m.statements[0], Statement::Input { target } if target == "x"));
    assert!(matches!(&m.statements[1], Statement::Break));
    assert!(matches!(&m.statements[2], Statement::Return { value: Some(Expression::Integer(5)) }));
}

#[test]
fn parse_input_needs_identifier() {
    assert_eq!(
        parse("HAI\nGIMMEH 3\nKTHXBYE").unwrap_err(),
        LciError::ExpectedIdentifier(String::new(), 0, String::new())
    );
}

#[test]
fn parse_function_definition() {
    let m = parse("HAI\nHOW IZ I add YR a AN YR b\nFOUND YR SUM OF a AN b\nIF U SAY SO\nKTHXBYE")
        .unwrap();
    assert_eq!(m.statements.len(), 1);
    match &m.statements[0] {
        Statement::FunctionDef { name, params, body } => {
            assert_eq!(name, "add");
            assert_eq!(params, &vec!["a".to_string(), "b".to_string()]);
            assert_eq!(body.len(), 1);
            assert!(matches!(&body[0], Statement::Return { value: Some(Expression::BinaryOp { .. }) }));
        },
        other => panic!("unexpected {:?}", other),
    }
}

#[test]
fn parse_expression_statements() {
    let m = parse("HAI\nNOT WIN\nBOTH SAEM IT AN NOOB\nKTHXBYE").unwrap();
    assert_eq!(m.statements.len(), 2);
    assert!(matches!(&m.statements[0], Statement::Expression(Expression::UnaryOp { .. })));
    match &m.statements[1] {
        Statement::Expression(Expression::BinaryOp { op, left, right }) => {
            assert_eq!(*op, BinaryOperator::Equal);
            assert!(matches!(**left, Expression::ImplicitVariable));
            assert!(matches!(**right, Expression::Nil));
        },
        other => panic!("unexpected {:?}", other),
    }
}

#[test]
fn parse_float_literal_kept_as_text() {
    let m = parse("HAI\nVISIBLE 2.50\nKTHXBYE").unwrap();
    match &m.statements[0] {
        Statement::Print { expressions, .. } => {
            assert!(matches!(&expressions[0], Expression::Float(s) if s == "2.50"));
        },
        other => panic!("unexpected {:?}", other),
    }
}

#[test]
fn parse_expression_expected() {
    assert_eq!(
        parse("HAI\nVISIBLE AN\nKTHXBYE").unwrap_err(),
        LciError::ExpectedExpression(String::new(), 0, String::new())
    );
}

#[test]
fn parse_errors_come_from_the_parser_block() {
    for src in ["VISIBLE 1", "HAI\nHAS A 1\nKTHXBYE", "HAI\nVISIBLE\nSUM OF\nKTHXBYE", "HAI\nGIMMEH\nKTHXBYE"] {
        let code = parse(src).unwrap_err().exit_code();
        assert!((400..500).contains(&code), "{}", code);
    }
}

fn toks(types: Vec<lci::tokenizer::TokenType>) -> Vec<lci::tokenizer::Token> {
    types
        .into_iter()
        .map(|t| lci::tokenizer::Token::new(t, String::new(), "f".to_string(), 1))
        .collect()
}

#[test]
fn parse_conditional_from_tokens() {
    let ts = toks(vec![
        T::Hai, T::Newline, T::ORly, T::Newline, T::YaRly, T::Newline, T::Visible, T::Integer(1),
        T::Newline, T::Mebbe, T::Boolean(true), T::Newline, T::Visible, T::Integer(3), T::Newline,
        T::NoWai, T::Newline, T::Visible, T::Integer(2), T::Newline, T::Oic, T::Newline,
        T::KThxBye, T::Eof,
    ]);
    let m = parse_main_node(&ts).unwrap();
    assert_eq!(m.statements.len(), 1);
    match &m.statements[0] {
        Statement::IfThenElse { condition, then_block, else_ifs, else_block } => {
            assert!(condition.is_none());
            assert_eq!(then_block.len(), 1);
            assert_eq!(else_ifs.len(), 1);
            assert!(matches!(else_ifs[0].0, Expression::Boolean(true)));
            assert_eq!(else_ifs[0].1.len(), 1);
            assert_eq!(else_block.as_ref().map(|b| b.len()), Some(1));
        },
        other => panic!("unexpected {:?}", other),
    }
}

#[test]
fn parse_conditional_errors_from_tokens() {
    let ts = toks(vec![T::Hai, T::ORly, T::Newline, T::Visible, T::Integer(1), T::Newline, T::KThxBye, T::Eof]);
    assert_eq!(
        parse_main_node(&ts).unwrap_err(),
        LciError::ExpectedToken(String::new(), 0, "YaRly".to_string(), String::new())
    );
    let ts = toks(vec![T::Hai, T::ORly, T::YaRly, T::Newline, T::NoWai, T::Newline, T::KThxBye, T::Eof]);
    assert_eq!(
        parse_main_node(&ts).unwrap_err(),
        LciError::ExpectedExpression(String::new(), 0, String::new())
    );
}

#[test]
fn parse_loop_from_tokens() {
    let ts = toks(vec![
        T::Hai, T::Newline, T::ImInYr, T::Identifier("l".to_string()), T::Uppin, T::Yr,
        T::Identifier("i".to_string()), T::Til, T::BothSaem, T::Identifier("i".to_string()), T::An,
        T::Integer(3), T::Newline, T::Visible, T::Identifier("i".to_string()), T::Newline,
        T::ImOuttaYr, T::Identifier("l".to_string()), T::Newline, T::KThxBye, T::Eof,
    ]);
    let m = parse_main_node(&ts).unwrap();
    match &m.statements[0] {
        Statement::Loop { label, operation, variable, condition, body } => {
            assert_eq!(label, "l");
            assert_eq!(operation.as_deref(), Some("UPPIN"));
            assert_eq!(variable.as_deref(), Some("i"));
            match condition {
                Some((kind, Expression::BinaryOp { op, .. })) => {
                    assert_eq!(kind, "TIL");
                    assert_eq!(*op, BinaryOperator::Equal);
                },
                other => panic!("unexpected {:?}", other),
            }
            assert_eq!(body.len(), 1);
        },
        other => panic!("unexpected {:?}", other),
    }
}

#[test]
fn parse_loop_errors_from_tokens() {
    let ts = toks(vec![T::Hai, T::ImInYr, T::Identifier("l".to_string()), T::Uppin, T::Newline, T::KThxBye, T::Eof]);
    assert_eq!(
        parse_main_node(&ts).unwrap_err(),
        LciError::ExpectedToken(String::new(), 0, "Yr".to_string(), String::new())
    );
    let ts = toks(vec![T::Hai, T::ImInYr, T::Integer(1), T::KThxBye, T::Eof]);
    assert_eq!(
        parse_main_node(&ts).unwrap_err(),
        LciError::ExpectedIdentifier(String::new(), 0, String::new())
    );
}

#[test]
fn parse_without_kthxbye_token() {
    let ts = toks(vec![T::Hai]);
    assert_eq!(
        parse_main_node(&ts).unwrap_err(),
        LciError::ExpectedToken(String::new(), 0, "KThxBye".to_string(), String::new())
    );
    assert_eq!(
        parse_main_node(&[]).unwrap_err(),
        LciError::ExpectedToken(String::new(), 0, "Hai".to_string(), String::new())
    );
}

#[test]
fn parse_i_has_a() {
    let m = parse("HAI\nI HAS A x\nI HAS A y ITZ 5\nKTHXBYE").unwrap();
    assert_eq!(m.statements.len(), 2);
    assert!(matches!(&m.statements[0], Statement::Declaration { name, value: None } if name == "x"));
    assert!(matches!(&m.statements[1], Statement::Declaration { name, value: Some(Expression::Integer(5)) } if name == "y"));
    let ts = toks(vec![
        T::Hai, T::Newline, T::Identifier("I".to_string()), T::HasA, T::Identifier("x".to_string()),
        T::Newline, T::KThxBye, T::Eof,
    ]);
    let m = parse_main_node(&ts).unwrap();
    assert_eq!(m.statements.len(), 1);
    assert!(matches!(&m.statements[0], Statement::Declaration { name, value: None } if name == "x"));
}

#[test]
fn parse_i_alone_is_a_variable() {
    let m = parse("HAI\nI R 3\nI\nKTHXBYE").unwrap();
    assert_eq!(m.statements.len(), 2);
    assert!(matches!(&m.statements[0], Statement::Assignment { target, .. } if target == "I"));
    assert!(matches!(&m.statements[1], Statement::Expression(Expression::Variable(n)) if n == "I"));
}

#[test]
fn parse_conditional_from_source() {
    let m = parse("HAI\nBOTH SAEM 1 AN 1\nO RLY?\n  YA RLY\n    VISIBLE \"yes\"\n  NO WAI\n    VISIBLE \"no\"\nOIC\nKTHXBYE").unwrap();
    assert_eq!(m.statements.len(), 2);
    assert!(matches!(&m.statements[1], Statement::IfThenElse { condition: None, else_block: Some(_), .. }));
}

#[test]
fn parse_loop_from_source() {
    let m = parse("HAI\nI HAS A i ITZ 0\nIM IN YR l UPPIN YR i TIL BOTH SAEM i AN 3\n  VISIBLE i\nIM OUTTA YR l\nKTHXBYE").unwrap();
    assert_eq!(m.statements.len(), 2);
    assert!(matches!(&m.statements[1], Statement::Loop { label, .. } if label == "l"));
}

#[test]
fn parse_diffrint() {
    let m = parse("HAI\nDIFFRINT 1 AN 2\nKTHXBYE").unwrap();
    assert!(matches!(&m.statements[0], Statement::Expression(Expression::BinaryOp { op: BinaryOperator::NotEqual, .. })));
}
