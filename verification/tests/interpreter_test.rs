use lm::environment::Environment;
use lm::interpreter::Interpreter;
use lm::parser::Parser;
use lm::pipeline::{run as run_text, Failure};
use lm::scanner::LexError;
use lm::scanner::Scanner;
use lm::stmt::Stmt;
use lm::value::{ArithOp, Numerics, Value};

fn read_numeral(numeral: &str) -> Option<u64> {
    numeral.parse::<f64>().ok().map(f64::to_bits)
}

fn negate_bits(x: u64) -> u64 {
    (-f64::from_bits(x)).to_bits()
}

fn arith_bits(op: ArithOp, x: u64, y: u64) -> u64 {
    let (x, y) = (f64::from_bits(x), f64::from_bits(y));
    let z = match op {
        ArithOp::Add => x + y,
        ArithOp::Sub => x - y,
        ArithOp::Mul => x * y,
        ArithOp::Div => x / y,
    };
    z.to_bits()
}

fn render_bits(x: u64) -> String {
    f64::from_bits(x).to_string()
}

type Host = Numerics<fn(&str) -> Option<u64>, fn(u64) -> u64, fn(ArithOp, u64, u64) -> u64, fn(u64) -> String>;

fn host() -> Host {
    Numerics::new(read_numeral, negate_bits, arith_bits, render_bits)
}

fn program(source: &str) -> Vec<Stmt> {
    let mut scan = Scanner::new(source);
    let tokens = scan.scan_tokens().expect("the text should scan");
    let mut parser = Parser::new(tokens);
    parser.parse().expect("the text should parse")
}

/// Runs the program; returns what it printed and what it reported.
fn run(source: &str) -> (Vec<String>, Result<(), String>) {
    let stmts = program(source);
    let mut interpreter = Interpreter::new();
    let result = interpreter.interpret(stmts.iter().collect(), &host());
    (interpreter.output().clone(), result)
}

fn printed(source: &str) -> Vec<String> {
    let (lines, result) = run(source);
    assert_eq!(result, Ok(()));
    lines
}

fn failure(source: &str) -> String {
    let (_, result) = run(source);
    result.expect_err("the program should fail")
}

fn number(x: f64) -> Value {
    Value::Number(x.to_bits())
}

fn as_number(value: &Value) -> f64 {
    match value {
        Value::Number(bits) => f64::from_bits(*bits),
        other => panic!("not a number: {:?}", other),
    }
}

#[test]
fn sum_with_product_prints_102() {
    assert_eq!(printed("println 1 + 10 * 10 + 1;"), vec!["102"]);
}

#[test]
fn declared_variable_resolves_to_its_value() {
    assert_eq!(printed("let a = 10; println a;"), vec!["10"]);
    assert_eq!(printed("let a = 10; println a + 1;"), vec!["11"]);

    let stmts = program("let a = 10; a;");
    let mut interpreter = Interpreter::new();
    assert_eq!(interpreter.execute(&stmts[0], &host()), Ok(()));
    let value = match &stmts[1] {
        Stmt::Expression { expression, .. } => {
            expression.evaluate(interpreter.environment(), &host()).unwrap()
        }
        other => panic!("not an expression statement: {:?}", other),
    };
    assert_eq!(as_number(&value), 10.0);
}

#[test]
fn undeclared_variable_fails() {
    assert_eq!(failure("println a;"), "undefined variable: a");
    assert_eq!(failure("let a = 1; println b;"), "undefined variable: b");
    assert_eq!(failure("let a = a;"), "undefined variable: a");
}

#[test]
fn number_plus_string_fails() {
    assert_eq!(
        failure("println 1 + \"a\";"),
        "Plus is not implemented for operands 1 and \"a\""
    );
    assert_eq!(
        failure("println \"a\" * 2.5;"),
        "Star is not implemented for operands \"a\" and 2.5"
    );
    assert_eq!(
        failure("println \"a\" - \"b\";"),
        "Minus is not implemented for operands \"a\" and \"b\""
    );
    assert_eq!(
        failure("println \"a\" / 1;"),
        "Slash is not implemented for operands \"a\" and 1"
    );
}

#[test]
fn the_four_operations() {
    assert_eq!(printed("println 7 + 2;"), vec!["9"]);
    assert_eq!(printed("println 7 - 2;"), vec!["5"]);
    assert_eq!(printed("println 7 * 2;"), vec!["14"]);
    assert_eq!(printed("println 7 / 2;"), vec!["3.5"]);
    assert_eq!(printed("println 0.1 + 0.2;"), vec!["0.30000000000000004"]);
    assert_eq!(printed("println 2 - 3;"), vec!["-1"]);
}

#[test]
fn chains_evaluate_from_the_left() {
    assert_eq!(printed("println 10 - 4 - 3;"), vec!["3"]);
    assert_eq!(printed("println 8 / 4 / 2;"), vec!["1"]);
    assert_eq!(printed("println 2 * 3 + 4 * 5;"), vec!["26"]);
}

#[test]
fn division_by_zero_does_not_fail() {
    assert_eq!(printed("println 1 / 0;"), vec!["inf"]);
    assert_eq!(printed("println -1 / 0;"), vec!["-inf"]);
    assert_eq!(printed("println 0 / 0;"), vec!["NaN"]);
}

#[test]
fn grouping_changes_only_the_order() {
    assert_eq!(printed("println (1 + 2) * 3;"), vec!["9"]);
    assert_eq!(printed("println ((7));"), vec!["7"]);
    assert_eq!(printed("println (\"a\");"), vec!["\"a\""]);
}

#[test]
fn minus_negates_a_number() {
    assert_eq!(printed("println -5;"), vec!["-5"]);
    assert_eq!(printed("println --5;"), vec!["5"]);
    assert_eq!(printed("println 3 - -2;"), vec!["5"]);
    assert_eq!(printed("println -0;"), vec!["-0"]);
}

#[test]
fn minus_on_a_string_fails() {
    assert_eq!(failure("println -\"a\";"), "Minus is not a valid unary operator");
}

#[test]
fn bang_is_not_defined() {
    assert_eq!(failure("println !1;"), "Bang is not a valid unary operator");
    assert_eq!(failure("println !\"a\";"), "Bang is not a valid unary operator");
}

#[test]
fn comparisons_are_not_defined_on_the_values() {
    assert_eq!(failure("println 1 == 1;"), "EqEq is not implemented for operands 1 and 1");
    assert_eq!(failure("println 1 != 2;"), "BangEq is not implemented for operands 1 and 2");
    assert_eq!(failure("println 1 < 2;"), "Less is not implemented for operands 1 and 2");
    assert_eq!(failure("println 1 <= 2;"), "LessEq is not implemented for operands 1 and 2");
    assert_eq!(failure("println 1 > 2;"), "Greater is not implemented for operands 1 and 2");
    assert_eq!(failure("println 1 >= 2;"), "GreaterEq is not implemented for operands 1 and 2");
    assert_eq!(
        failure("println \"a\" == 1;"),
        "EqEq is not implemented for operands \"a\" and 1"
    );
}

#[test]
fn strings_print_between_quotation_marks() {
    assert_eq!(printed("println \"hello\";"), vec!["\"hello\""]);
    assert_eq!(printed("println \"\";"), vec!["\"\""]);
    assert_eq!(printed("let s = \"a b\"; println s;"), vec!["\"a b\""]);
}

#[test]
fn numbers_print_in_decimal() {
    assert_eq!(printed("println 10.10;"), vec!["10.1"]);
    assert_eq!(printed("println 3.0;"), vec!["3"]);
    assert_eq!(printed("println 007;"), vec!["7"]);
    assert_eq!(printed("println 0.5;"), vec!["0.5"]);
}

#[test]
fn a_second_declaration_overwrites_the_first() {
    assert_eq!(printed("let a = 1; let a = 2; println a;"), vec!["2"]);
    assert_eq!(printed("let a = 1; let a = a + 1; println a;"), vec!["2"]);
    assert_eq!(printed("let a = 1; let a = \"s\"; println a;"), vec!["\"s\""]);
}

#[test]
fn expression_statement_prints_nothing() {
    assert_eq!(printed("1 + 2; \"a\";"), Vec::<String>::new());
}

#[test]
fn expression_statement_still_fails() {
    assert_eq!(failure("1 + \"a\";"), "Plus is not implemented for operands 1 and \"a\"");
}

#[test]
fn first_error_ends_the_run_and_keeps_what_was_printed() {
    let (lines, result) = run("println 1; println 2 + \"x\"; println 3;");
    assert_eq!(lines, vec!["1"]);
    assert_eq!(result, Err("Plus is not implemented for operands 2 and \"x\"".to_string()));
}

#[test]
fn failing_declaration_binds_nothing() {
    let stmts = program("let a = 1; let a = -\"s\";");
    let mut interpreter = Interpreter::new();
    let result = interpreter.interpret(stmts.iter().collect(), &host());
    assert_eq!(result, Err("Minus is not a valid unary operator".to_string()));
    let a = interpreter.environment().get(&"a".to_string()).unwrap();
    assert_eq!(as_number(&a), 1.0);
}

#[test]
fn left_operand_fails_before_the_right_one() {
    assert_eq!(failure("println a + b;"), "undefined variable: a");
    assert_eq!(failure("println 1 + b + c;"), "undefined variable: b");
    assert_eq!(failure("println (-\"x\") + b;"), "Minus is not a valid unary operator");
}

#[test]
fn bindings_outlive_one_call() {
    let mut interpreter = Interpreter::new();
    let first = program("let a = 2;");
    assert_eq!(interpreter.interpret(first.iter().collect(), &host()), Ok(()));
    let second = program("println a * a;");
    assert_eq!(interpreter.interpret(second.iter().collect(), &host()), Ok(()));
    assert_eq!(interpreter.output().clone(), vec!["4"]);
}

#[test]
fn two_interpreters_share_nothing() {
    let mut one = Interpreter::new();
    let declaration = program("let a = 2;");
    assert_eq!(one.interpret(declaration.iter().collect(), &host()), Ok(()));
    let mut other = Interpreter::new();
    let reference = program("println a;");
    assert_eq!(
        other.interpret(reference.iter().collect(), &host()),
        Err("undefined variable: a".to_string())
    );
    assert!(other.output().is_empty());
}

#[test]
fn empty_program_does_nothing() {
    let (lines, result) = run("");
    assert!(lines.is_empty());
    assert_eq!(result, Ok(()));
}

#[test]
fn numeral_that_the_host_cannot_read_is_an_error() {
    let refusing: Host = Numerics::new(|_: &str| None, negate_bits, arith_bits, render_bits);
    let stmts = program("println 12.5;");
    let mut interpreter = Interpreter::new();
    let result = interpreter.interpret(stmts.iter().collect(), &refusing);
    assert_eq!(result, Err("could not parse number: 12.5".to_string()));
}

#[test]
fn environment_binds_and_finds() {
    let mut env = Environment::new();
    assert!(env.get(&"a".to_string()).is_none());
    env.define("a".to_string(), number(1.0));
    env.define("b".to_string(), Value::StringValue("s".to_string()));
    env.define("a".to_string(), number(2.0));
    assert_eq!(as_number(&env.get(&"a".to_string()).unwrap()), 2.0);
    match env.get(&"b".to_string()).unwrap() {
        Value::StringValue(text) => assert_eq!(text, "s"),
        other => panic!("not a string: {:?}", other),
    }
    assert!(env.get(&"c".to_string()).is_none());
    assert!(env.get(&"".to_string()).is_none());
}

#[test]
fn host_operations_on_values() {
    let host = host();
    assert_eq!(host.to_string(&number(102.0)), "102");
    assert_eq!(host.to_string(&Value::StringValue("a".to_string())), "\"a\"");
    assert_eq!(as_number(&host.convert(&"10.10".to_string()).unwrap()), 10.10);
    let sum = host
        .apply_binary(&number(1.5), lm::token_type::TokenType::Plus, &number(2.0))
        .unwrap();
    assert_eq!(as_number(&sum), 3.5);
    let negated = host.apply_unary(lm::token_type::TokenType::Minus, &number(1.5)).unwrap();
    assert_eq!(as_number(&negated), -1.5);
}

#[test]
fn whole_text_runs() {
    let mut interpreter = Interpreter::new();
    let result = run_text("let a = 2;\nprintln a * 21;", &mut interpreter, &host());
    assert!(result.is_ok());
    assert_eq!(interpreter.output().clone(), vec!["42"]);
}

#[test]
fn whole_text_with_lexical_errors_changes_nothing() {
    let mut interpreter = Interpreter::new();
    let result = run_text("println 1; @ \"x", &mut interpreter, &host());
    match result {
        Err(Failure::Lexical(errors)) => assert_eq!(
            errors,
            vec![LexError::UnrecognizedChar(1, '@'), LexError::UnterminatedString(1)]
        ),
        other => panic!("not a lexical failure: {:?}", other),
    }
    assert!(interpreter.output().is_empty());
}

#[test]
fn whole_text_with_syntax_errors_changes_nothing() {
    let mut interpreter = Interpreter::new();
    let result = run_text("println 1; println ;", &mut interpreter, &host());
    match result {
        Err(Failure::Syntax(message)) => assert_eq!(message, "Line 1: Expected expression"),
        other => panic!("not a syntax failure: {:?}", other),
    }
    assert!(interpreter.output().is_empty());
}

#[test]
fn whole_text_with_run_time_error_keeps_what_was_printed() {
    let mut interpreter = Interpreter::new();
    let result = run_text("println 1; println x; println 2;", &mut interpreter, &host());
    match result {
        Err(Failure::Runtime(message)) => assert_eq!(message, "undefined variable: x"),
        other => panic!("not a run-time failure: {:?}", other),
    }
    assert_eq!(interpreter.output().clone(), vec!["1"]);
}
