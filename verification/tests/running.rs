use lci::interpreter::{Halt, Interpreter, Output};
use lci::lexer::{scan_buffer, scan_halts};
use lci::parser::{BinaryOperator, Expression, MainNode, Statement, ValueType};
use lci::tokenizer::tokenize_lexemes;
use lci::value::{Answer, Request, Value};
use lci::LciError;

/// What a run wrote and how it ended.
struct Outcome {
    stdout: String,
    stderr: String,
    result: Result<(), Halt>,
    runs: usize,
}

fn answer(req: &Request, input: &mut Vec<String>) -> Answer {
    match req {
        Request::ReadLine => {
            if input.is_empty() {
                Answer::Line(String::new())
            } else {
                Answer::Line(input.remove(0))
            }
        },
        Request::ParseFloat(s) => match s.parse::<f32>() {
            Ok(f) => Answer::Float(f.to_bits()),
            Err(_) => Answer::NotFloat,
        },
        Request::FormatFloat(b) => Answer::Text(f32::from_bits(*b).to_string()),
        Request::IntToFloat(i) => Answer::Float((*i as f32).to_bits()),
        Request::FloatToInt(b) => Answer::Int(f32::from_bits(*b) as i64),
    }
}

fn run_program(ast: &MainNode, lines: &[&str]) -> Outcome {
    let mut input: Vec<String> = lines.iter().map(|s| s.to_string()).collect();
    let mut answers: Vec<Answer> = Vec::new();
    let mut fuel: u64 = 8;
    let mut runs = 0;
    let mut printed = 0;
    let mut stdout = String::new();
    let mut stderr = String::new();
    loop {
        runs += 1;
        let mut it = Interpreter::with_answers(answers.clone());
        let r = it.interpret(ast, fuel);
        let out = it.output();
        for o in out.iter().skip(printed) {
            match o {
                Output::Stdout(s) => stdout.push_str(s),
                Output::Stderr(s) => stderr.push_str(s),
            }
        }
        printed = out.len();
        match r {
            Err(Halt::Need(req)) => answers.push(answer(&req, &mut input)),
            Err(Halt::OutOfFuel) => fuel *= 2,
            result => return Outcome { stdout, stderr, result, runs },
        }
    }
}

fn run(src: &str, lines: &[&str]) -> Outcome {
    assert!(scan_halts(src));
    let list = scan_buffer(src, "r.lol").unwrap();
    let tokens = tokenize_lexemes(&list).unwrap();
    let ast = parse_main_node_ok(&tokens);
    run_program(&ast, lines)
}

fn parse_main_node_ok(tokens: &[lci::tokenizer::Token]) -> MainNode {
    lci::parser::parse_main_node(tokens).unwrap()
}

fn error_of(o: &Outcome) -> LciError {
    match &o.result {
        Err(Halt::Error(e)) => e.clone(),
        other => panic!("no error: {:?}", other),
    }
}

fn num(i: i64) -> Expression {
    Expression::Integer(i)
}

fn var(n: &str) -> Expression {
    Expression::Variable(n.to_string())
}

fn bin(op: BinaryOperator, l: Expression, r: Expression) -> Expression {
    Expression::BinaryOp { op, left: Box::new(l), right: Box::new(r) }
}

fn print(es: Vec<Expression>) -> Statement {
    Statement::Print { expressions: es, newline: true, to_stderr: false }
}

fn program(statements: Vec<Statement>) -> MainNode {
    MainNode { version: "1.2".to_string(), statements }
}

#[test]
fn run_hello_world() {
    let o = run("HAI 1.2\nVISIBLE \"HAI WORLD\"\nKTHXBYE", &[]);
    assert!(o.result.is_ok());
    assert_eq!(o.stdout, "HAI WORLD\n");
    assert_eq!(o.stderr, "");
}

#[test]
fn run_declare_assign_print() {
    let o = run("HAI\nHAS A x\nx R SUM OF 2 AN 3\nVISIBLE x\nKTHXBYE", &[]);
    assert!(o.result.is_ok());
    assert_eq!(o.stdout, "5\n");
}

#[test]
fn run_print_joins_with_spaces() {
    let o = run("HAI\nVISIBLE 1 \"a\" WIN FAIL NOOB\nKTHXBYE", &[]);
    assert_eq!(o.stdout, "1 a WIN FAIL \n");
}

#[test]
fn run_bang_suppresses_newline() {
    let o = run("HAI\nVISIBLE \"a\"!\nVISIBLE \"b\"\nKTHXBYE", &[]);
    assert_eq!(o.stdout, "ab\n");
}

#[test]
fn run_invisible_writes_to_stderr() {
    let o = run("HAI\nINVISIBLE \"oops\"\nVISIBLE \"fine\"\nKTHXBYE", &[]);
    assert_eq!(o.stderr, "oops\n");
    assert_eq!(o.stdout, "fine\n");
}

#[test]
fn run_arithmetic_operators() {
    let o = run(
        "HAI\nVISIBLE DIFF OF 2 AN 5\nVISIBLE PRODUKT OF 6 AN 7\nVISIBLE QUOSHUNT OF -7 AN 2\nVISIBLE MOD OF -7 AN 2\nVISIBLE BIGGR OF 3 AN 9\nVISIBLE SMALLR OF 3 AN 9\nKTHXBYE",
        &[],
    );
    assert!(o.result.is_ok());
    assert_eq!(o.stdout, "-3\n42\n-3\n-1\n9\n3\n");
}

#[test]
fn run_logic_operators() {
    let o = run(
        "HAI\nVISIBLE BOTH OF WIN AN 0\nVISIBLE EITHER OF 0 AN \"x\"\nVISIBLE WON OF WIN AN 1\nVISIBLE NOT \"\"\nVISIBLE BOTH SAEM 3 AN 3\nVISIBLE BOTH SAEM 3 AN \"3\"\nKTHXBYE",
        &[],
    );
    assert_eq!(o.stdout, "FAIL\nWIN\nFAIL\nWIN\nWIN\nFAIL\n");
}

#[test]
fn run_string_to_number() {
    let o = run("HAI\nVISIBLE SUM OF \"40\" AN 2\nKTHXBYE", &[]);
    assert_eq!(o.stdout, "42\n");
    let o = run("HAI\nVISIBLE SUM OF \"forty\" AN 2\nKTHXBYE", &[]);
    assert_eq!(error_of(&o), LciError::ExpectedIntegerValue);
}

#[test]
fn run_nil_in_arithmetic_fails() {
    let o = run("HAI\nVISIBLE SUM OF NOOB AN 2\nKTHXBYE", &[]);
    assert_eq!(error_of(&o), LciError::CannotImplicitlyCastNil);
}

#[test]
fn run_division_by_zero() {
    let o = run("HAI\nVISIBLE \"before\"\nVISIBLE QUOSHUNT OF 1 AN 0\nVISIBLE \"after\"\nKTHXBYE", &[]);
    assert_eq!(o.stdout, "before\n");
    let e = error_of(&o);
    assert_eq!(e, LciError::DivisionByZero);
    assert_eq!(e.exit_code(), 531);
    let o = run("HAI\nVISIBLE MOD OF 1 AN 0\nKTHXBYE", &[]);
    assert_eq!(error_of(&o), LciError::DivisionByZero);
}

#[test]
fn run_division_overflow_halts() {
    let o = run("HAI\nVISIBLE QUOSHUNT OF -9223372036854775808 AN -1\nKTHXBYE", &[]);
    assert!(matches!(o.result, Err(Halt::Overflow)));
    let o = run("HAI\nVISIBLE MOD OF -9223372036854775808 AN -1\nKTHXBYE", &[]);
    assert!(matches!(o.result, Err(Halt::RemainderOverflow)));
}

#[test]
fn run_sum_wraps_around() {
    let o = run("HAI\nVISIBLE SUM OF 9223372036854775807 AN 1\nKTHXBYE", &[]);
    assert_eq!(o.stdout, "-9223372036854775808\n");
}

#[test]
fn run_unknown_variable() {
    let o = run("HAI\nVISIBLE y\nKTHXBYE", &[]);
    assert_eq!(error_of(&o), LciError::VariableDoesNotExist(String::new(), 0, "y".to_string()));
    assert_eq!(error_of(&o).exit_code(), 502);
}

#[test]
fn run_redeclaration() {
    let o = run("HAI\nHAS A x\nHAS A x\nKTHXBYE", &[]);
    assert_eq!(error_of(&o), LciError::RedefinitionOfVariable(String::new(), 0, "x".to_string()));
}

#[test]
fn run_declared_variable_is_noob() {
    let o = run("HAI\nHAS A x\nVISIBLE x \"|\"\nKTHXBYE", &[]);
    assert_eq!(o.stdout, " |\n");
}

#[test]
fn run_assignment_creates_variable() {
    let o = run("HAI\nx R 7\nVISIBLE x\nKTHXBYE", &[]);
    assert_eq!(o.stdout, "7\n");
}

#[test]
fn run_input_kinds() {
    let src = "HAI\nGIMMEH a\nGIMMEH b\nGIMMEH c\nGIMMEH d\nVISIBLE a\nVISIBLE b\nVISIBLE c\nVISIBLE d\nVISIBLE SUM OF a AN 1\nKTHXBYE";
    let o = run(src, &["  42 \n", "3.5\n", "WIN\n", "hello world\n"]);
    assert!(o.result.is_ok());
    assert_eq!(o.stdout, "42\n3.5\nWIN\nhello world\n43\n");
}

#[test]
fn run_input_at_end_of_input_is_empty() {
    let o = run("HAI\nGIMMEH a\nVISIBLE \"[\" a \"]\"\nKTHXBYE", &[]);
    assert_eq!(o.stdout, "[  ]\n");
}

#[test]
fn run_input_read_failure() {
    let ast = program(vec![Statement::Input { target: "a".to_string() }]);
    let mut it = Interpreter::with_answers(vec![Answer::ReadFailed("broken pipe".to_string())]);
    match it.interpret(&ast, 100) {
        Err(Halt::Error(e)) => {
            assert_eq!(e, LciError::Io("broken pipe".to_string()));
            assert_eq!(e.exit_code(), 1);
        },
        other => panic!("unexpected {:?}", other),
    }
}

#[test]
fn run_float_literals_and_conversions() {
    let o = run("HAI\nVISIBLE 1.5\nVISIBLE SUM OF 1.5 AN 2\nVISIBLE BOTH SAEM 0.5 AN .5\nKTHXBYE", &[]);
    assert!(o.result.is_ok());
    assert_eq!(o.stdout, "1.5\n3\nWIN\n");
}

#[test]
fn run_float_truth() {
    let o = run("HAI\nVISIBLE NOT 0.0\nVISIBLE NOT -0.0\nVISIBLE NOT 0.25\nKTHXBYE", &[]);
    assert_eq!(o.stdout, "WIN\nWIN\nFAIL\n");
}

#[test]
fn run_stops_at_top_level_break() {
    let o = run("HAI\nVISIBLE 1\nGTFO\nVISIBLE 2\nKTHXBYE", &[]);
    assert!(o.result.is_ok());
    assert_eq!(o.stdout, "1\n");
}

#[test]
fn run_implicit_variable() {
    let o = run("HAI\nSUM OF 1 AN 2\nVISIBLE IT\nKTHXBYE", &[]);
    assert_eq!(o.stdout, "3\n");
}

#[test]
fn run_needs_an_answer_first() {
    let ast = program(vec![print(vec![num(1)]), Statement::Input { target: "a".to_string() }]);
    let mut it = Interpreter::new();
    match it.interpret(&ast, 100) {
        Err(Halt::Need(Request::ReadLine)) => {},
        other => panic!("unexpected {:?}", other),
    }
    assert_eq!(it.output().len(), 1);
}

#[test]
fn run_out_of_fuel_then_more() {
    let ast = program(vec![print(vec![num(1)]), print(vec![num(2)]), print(vec![num(3)])]);
    let mut it = Interpreter::new();
    assert!(matches!(it.interpret(&ast, 1), Err(Halt::OutOfFuel)));
    assert_eq!(it.output().len(), 0);
    let mut it2 = Interpreter::new();
    assert!(it2.interpret(&ast, 2).is_ok());
    assert_eq!(it2.output().len(), 3);
}

#[test]
fn run_wrong_answer_is_refused() {
    let ast = program(vec![Statement::Input { target: "a".to_string() }]);
    let mut it = Interpreter::with_answers(vec![Answer::Int(3)]);
    assert!(matches!(it.interpret(&ast, 100), Err(Halt::BadAnswer)));
}

#[test]
fn run_if_then_else_on_it() {
    let ast = program(vec![
        Statement::Expression(Expression::Boolean(false)),
        Statement::IfThenElse {
            condition: None,
            then_block: vec![print(vec![num(1)])],
            else_ifs: vec![
                (Expression::Boolean(false), vec![print(vec![num(2)])]),
                (Expression::Boolean(true), vec![print(vec![num(3)])]),
            ],
            else_block: Some(vec![print(vec![num(4)])]),
        },
        Statement::IfThenElse {
            condition: Some(num(0)),
            then_block: vec![print(vec![num(5)])],
            else_ifs: vec![],
            else_block: Some(vec![print(vec![num(6)])]),
        },
    ]);
    let o = run_program(&ast, &[]);
    assert!(o.result.is_ok());
    assert_eq!(o.stdout, "3\n6\n");
}

#[test]
fn run_block_scope_ends() {
    let ast = program(vec![
        Statement::IfThenElse {
            condition: Some(Expression::Boolean(true)),
            then_block: vec![Statement::Declaration { name: "t".to_string(), value: Some(num(1)) }],
            else_ifs: vec![],
            else_block: None,
        },
        print(vec![var("t")]),
    ]);
    let o = run_program(&ast, &[]);
    assert_eq!(error_of(&o), LciError::VariableDoesNotExist(String::new(), 0, "t".to_string()));
}

#[test]
fn run_counting_loop() {
    let ast = program(vec![
        Statement::Declaration { name: "i".to_string(), value: Some(num(0)) },
        Statement::Loop {
            label: "count".to_string(),
            operation: Some("UPPIN".to_string()),
            variable: Some("i".to_string()),
            condition: Some(("TIL".to_string(), bin(BinaryOperator::Equal, var("i"), num(20)))),
            body: vec![print(vec![var("i")])],
        },
        print(vec![var("i")]),
    ]);
    let o = run_program(&ast, &[]);
    assert!(o.result.is_ok());
    let expected: String = (0..=20).map(|i| format!("{}\n", i)).collect();
    assert_eq!(o.stdout, expected);
    assert!(o.runs > 1);
}

#[test]
fn run_loop_wile_and_break() {
    let ast = program(vec![
        Statement::Declaration { name: "n".to_string(), value: Some(num(10)) },
        Statement::Loop {
            label: "down".to_string(),
            operation: Some("NERFIN".to_string()),
            variable: Some("n".to_string()),
            condition: Some(("WILE".to_string(), bin(BinaryOperator::Max, var("n"), num(0)))),
            body: vec![
                Statement::IfThenElse {
                    condition: Some(bin(BinaryOperator::Equal, var("n"), num(7))),
                    then_block: vec![Statement::Break],
                    else_ifs: vec![],
                    else_block: None,
                },
                print(vec![var("n")]),
            ],
        },
        print(vec![Expression::String("done".to_string())]),
    ]);
    let o = run_program(&ast, &[]);
    assert!(o.result.is_ok());
    assert_eq!(o.stdout, "10\n9\n8\ndone\n");
}

#[test]
fn run_function_call() {
    let ast = program(vec![
        Statement::FunctionDef {
            name: "add".to_string(),
            params: vec!["a".to_string(), "b".to_string()],
            body: vec![Statement::Return { value: Some(bin(BinaryOperator::Add, var("a"), var("b"))) }],
        },
        print(vec![Expression::FunctionCall { name: "add".to_string(), args: vec![num(2), num(40)] }]),
        Statement::FunctionCall { name: "add".to_string(), args: vec![num(1), num(1)] },
    ]);
    let o = run_program(&ast, &[]);
    assert!(o.result.is_ok());
    assert_eq!(o.stdout, "42\n");
}

#[test]
fn run_function_without_return_gives_noob() {
    let ast = program(vec![
        Statement::FunctionDef { name: "f".to_string(), params: vec![], body: vec![Statement::Break] },
        print(vec![Expression::String("<".to_string()), Expression::FunctionCall { name: "f".to_string(), args: vec![] }]),
    ]);
    let o = run_program(&ast, &[]);
    assert_eq!(o.stdout, "< \n");
}

#[test]
fn run_function_errors() {
    let ast = program(vec![print(vec![Expression::FunctionCall { name: "g".to_string(), args: vec![] }])]);
    let o = run_program(&ast, &[]);
    assert_eq!(error_of(&o), LciError::UndefinedFunction(String::new(), 0, "g".to_string()));
    let ast = program(vec![
        Statement::FunctionDef { name: "g".to_string(), params: vec!["x".to_string()], body: vec![] },
        print(vec![Expression::FunctionCall { name: "g".to_string(), args: vec![] }]),
    ]);
    let o = run_program(&ast, &[]);
    assert_eq!(error_of(&o), LciError::IncorrectNumberOfArguments(String::new(), 0, "g".to_string()));
    let ast = program(vec![
        Statement::FunctionDef { name: "h".to_string(), params: vec!["x".to_string(), "x".to_string()], body: vec![] },
        print(vec![Expression::FunctionCall { name: "h".to_string(), args: vec![num(1), num(2)] }]),
    ]);
    let o = run_program(&ast, &[]);
    assert_eq!(error_of(&o), LciError::RedefinitionOfVariable(String::new(), 0, "x".to_string()));
}

#[test]
fn run_casts() {
    let cast = |e: Expression, t: ValueType| Expression::Cast { expr: Box::new(e), target_type: t };
    let ast = program(vec![
        print(vec![cast(num(0), ValueType::Troof)]),
        print(vec![cast(Expression::String("12".to_string()), ValueType::Numbr)]),
        print(vec![cast(num(3), ValueType::Numbar)]),
        print(vec![cast(Expression::Boolean(true), ValueType::Yarn)]),
        print(vec![Expression::String("[".to_string()), cast(num(9), ValueType::Noob), Expression::String("]".to_string())]),
        print(vec![cast(Expression::String("2.5".to_string()), ValueType::Numbar)]),
    ]);
    let o = run_program(&ast, &[]);
    assert!(o.result.is_ok());
    assert_eq!(o.stdout, "FAIL\n12\n3\nWIN\n[  ]\n2.5\n");
}

#[test]
fn run_cast_errors() {
    let cast = |e: Expression, t: ValueType| Expression::Cast { expr: Box::new(e), target_type: t };
    let o = run_program(&program(vec![print(vec![cast(num(1), ValueType::Bukkit)])]), &[]);
    assert_eq!(error_of(&o), LciError::CannotCastValueToArray(String::new(), 0, String::new()));
    let o = run_program(&program(vec![print(vec![cast(Expression::String("x".to_string()), ValueType::Numbar)])]), &[]);
    assert_eq!(error_of(&o), LciError::ExpectedDecimal);
    let o = run_program(&program(vec![print(vec![cast(Expression::Nil, ValueType::Numbar)])]), &[]);
    assert_eq!(error_of(&o), LciError::CannotImplicitlyCastNil);
}

#[test]
fn run_reads_back_writes() {
    let ast = program(vec![
        Statement::Declaration { name: "a".to_string(), value: Some(num(1)) },
        Statement::Declaration { name: "b".to_string(), value: Some(num(2)) },
        Statement::Assignment { target: "a".to_string(), value: num(5) },
        print(vec![var("a"), var("b")]),
    ]);
    let o = run_program(&ast, &[]);
    assert_eq!(o.stdout, "5 2\n");
}

#[test]
fn run_rerun_writes_prefix() {
    let ast = program(vec![
        print(vec![num(1)]),
        Statement::Input { target: "a".to_string() },
        print(vec![var("a")]),
    ]);
    let mut first = Interpreter::new();
    assert!(matches!(first.interpret(&ast, 100), Err(Halt::Need(Request::ReadLine))));
    let mut second =
        Interpreter::with_answers(vec![Answer::Line("x".to_string()), Answer::NotFloat]);
    assert!(second.interpret(&ast, 100).is_ok());
    assert_eq!(first.output().len(), 1);
    assert_eq!(second.output().len(), 2);
    assert!(matches!(&second.output()[0], Output::Stdout(s) if s == "1\n"));
    assert!(matches!(&second.output()[1], Output::Stdout(s) if s == "x\n"));
}

#[test]
fn run_default_interpreter() {
    let mut it = Interpreter::default();
    assert!(it.interpret(&program(vec![print(vec![num(8)])]), 10).is_ok());
    assert!(matches!(&it.output()[0], Output::Stdout(s) if s == "8\n"));
}

#[test]
fn run_numbr_yarn_round_trip() {
    let cast = |e: Expression, t: ValueType| Expression::Cast { expr: Box::new(e), target_type: t };
    let ast = program(vec![
        print(vec![cast(cast(num(-9223372036854775808), ValueType::Yarn), ValueType::Numbr)]),
        print(vec![cast(cast(num(120), ValueType::Yarn), ValueType::Numbr)]),
    ]);
    let o = run_program(&ast, &[]);
    assert!(o.result.is_ok());
    assert_eq!(o.stdout, "-9223372036854775808\n120\n");
}

#[test]
fn run_equality_either_order() {
    let o = run(
        "HAI\nVISIBLE BOTH SAEM 1 AN WIN\nVISIBLE BOTH SAEM WIN AN 1\nVISIBLE BOTH SAEM \"a\" AN \"a\"\nVISIBLE BOTH SAEM NOOB AN NOOB\nKTHXBYE",
        &[],
    );
    assert_eq!(o.stdout, "FAIL\nFAIL\nWIN\nWIN\n");
}

#[test]
fn run_errors_come_from_the_interpreter_block() {
    for src in [
        "HAI\nVISIBLE QUOSHUNT OF 1 AN 0\nKTHXBYE",
        "HAI\nVISIBLE nope\nKTHXBYE",
        "HAI\nHAS A x\nHAS A x\nKTHXBYE",
        "HAI\nVISIBLE SUM OF \"q\" AN 1\nKTHXBYE",
    ] {
        let code = error_of(&run(src, &[])).exit_code();
        assert!((500..600).contains(&code), "{}", code);
    }
}

#[test]
fn run_uses_answers_in_order() {
    let ast = program(vec![
        Statement::Input { target: "a".to_string() },
        print(vec![var("a")]),
        Statement::Input { target: "b".to_string() },
        print(vec![var("b")]),
    ]);
    let mut it = Interpreter::with_answers(vec![Answer::Line("7".to_string())]);
    assert!(matches!(it.interpret(&ast, 100), Err(Halt::Need(Request::ReadLine))));
    assert_eq!(it.output().len(), 1);
    let mut it = Interpreter::with_answers(vec![
        Answer::Line("7".to_string()),
        Answer::Line("8".to_string()),
        Answer::Line("unused".to_string()),
    ]);
    assert!(it.interpret(&ast, 100).is_ok());
    assert!(matches!(&it.output()[1], Output::Stdout(s) if s == "8\n"));
}

#[test]
fn run_conditional_and_loop_from_source() {
    let src = "HAI 1.2\nI HAS A n ITZ 3\nIM IN YR count NERFIN YR n WILE n\n  VISIBLE n\nIM OUTTA YR count\nDIFFRINT n AN 0\nO RLY?\n  YA RLY\n    VISIBLE \"not zero\"\n  NO WAI\n    VISIBLE \"zero\"\nOIC\nKTHXBYE";
    let o = run(src, &[]);
    assert!(o.result.is_ok());
    assert_eq!(o.stdout, "3\n2\n1\nzero\n");
}

#[test]
fn run_loop_scope_ends() {
    let src = "HAI\nI HAS A n ITZ 2\nIM IN YR l NERFIN YR n WILE n\n  outer R n\nIM OUTTA YR l\nVISIBLE outer\nKTHXBYE";
    let o = run(src, &[]);
    // `outer` is first bound inside the loop, so it is gone after it.
    assert_eq!(error_of(&o), LciError::VariableDoesNotExist(String::new(), 0, "outer".to_string()));
    let src = "HAI\nI HAS A n ITZ 2\nI HAS A last\nIM IN YR l NERFIN YR n WILE n\n  last R n\nIM OUTTA YR l\nVISIBLE last\nKTHXBYE";
    let o = run(src, &[]);
    assert!(o.result.is_ok());
    assert_eq!(o.stdout, "1\n");
}

#[test]
fn run_diffrint_is_not_both_saem() {
    let o = run("HAI\nVISIBLE DIFFRINT 1 AN 1\nVISIBLE DIFFRINT 1 AN \"1\"\nVISIBLE DIFFRINT NOOB AN NOOB\nKTHXBYE", &[]);
    assert_eq!(o.stdout, "FAIL\nWIN\nFAIL\n");
}

#[test]
fn set_then_get_variable() {
    let mut it = Interpreter::new();
    assert!(it.set_variable("x".to_string(), Value::Integer(4)).is_ok());
    assert!(matches!(it.get_variable("x"), Some(Value::Integer(4))));
    assert!(it.get_variable("y").is_none());
    assert!(it.set_variable("x".to_string(), Value::String("s".to_string())).is_ok());
    assert!(matches!(it.get_variable("x"), Some(Value::String(ref s)) if s == "s"));
}

#[test]
fn equality_operators_are_opposite() {
    let mut it = Interpreter::new();
    let pairs = vec![
        (Value::Integer(1), Value::Integer(1)),
        (Value::Integer(1), Value::Boolean(true)),
        (Value::Nil, Value::Nil),
        (Value::Float(0x8000_0000), Value::Float(0)),
        (Value::Float(0x7fc0_0000), Value::Float(0x7fc0_0000)),
    ];
    let expected = [true, false, true, true, false];
    for ((l, r), want) in pairs.into_iter().zip(expected) {
        let dup_l = match &l { Value::Integer(i) => Value::Integer(*i), Value::Boolean(b) => Value::Boolean(*b), Value::Float(f) => Value::Float(*f), _ => Value::Nil };
        let dup_r = match &r { Value::Integer(i) => Value::Integer(*i), Value::Boolean(b) => Value::Boolean(*b), Value::Float(f) => Value::Float(*f), _ => Value::Nil };
        assert!(matches!(it.apply_binary_op(BinaryOperator::Equal, l, r), Ok(Value::Boolean(b)) if b == want));
        assert!(matches!(it.apply_binary_op(BinaryOperator::NotEqual, dup_l, dup_r), Ok(Value::Boolean(b)) if b != want));
    }
}

#[test]
fn block_statement_names_do_not_outlive_it() {
    let mut it = Interpreter::new();
    let stmt = Statement::IfThenElse {
        condition: Some(Expression::Boolean(true)),
        then_block: vec![Statement::Assignment { target: "fresh".to_string(), value: num(1) }],
        else_ifs: vec![],
        else_block: None,
    };
    assert!(it.execute_statement(&stmt, 10).is_ok());
    assert!(it.get_variable("fresh").is_none());
}
