use lox::ast::Stmt;
use lox::error::LoxError;
use lox::function::{Function, Native};
use lox::interpreter::{Flow, Interpreter};
use lox::number::Number;
use lox::object::{LoxObject, Printed};
use lox::source_location::SourceLocation;
use lox::{is_incomplete, parse_statements, run_source};

fn number_of(value: &LoxObject) -> f64 {
    match value {
        LoxObject::Number { value, .. } => f64::from_bits(value.bits),
        other => panic!("not a number: {:?}", other),
    }
}

fn boolean_of(value: &LoxObject) -> bool {
    match value {
        LoxObject::Boolean { value, .. } => *value,
        other => panic!("not a boolean: {:?}", other),
    }
}

/// Runs all statements of `source` but the last, and evaluates the last,
/// which is an expression statement.
fn value_of(source: &str) -> Result<LoxObject, LoxError> {
    let mut statements = parse_statements(source).unwrap();
    let last = statements.pop().unwrap();
    let mut interpreter = Interpreter::new();
    interpreter.interpret(&statements)?;
    match last {
        Stmt::Expression { expression, .. } => interpreter.evaluate(&expression),
        other => panic!("not an expression statement: {:?}", other),
    }
}

fn shown(printed: &Printed) -> String {
    match printed {
        Printed::Text(text) => text.clone(),
        Printed::Number(number) => format!("{}", f64::from_bits(number.bits)),
    }
}

fn output_of(source: &str) -> (Vec<String>, Result<(), LoxError>) {
    let mut interpreter = Interpreter::new();
    let result = run_source(source, &mut interpreter);
    let lines = interpreter.take_printed().iter().map(shown).collect();
    (lines, result)
}

#[test]
fn interpret_addition() {
    let result = parse_statements(r"5.5 + 6.5;");
    let result = result.unwrap();

    let mut interpreter = Interpreter::new();
    let _result = interpreter.execute(&result[0]);
    assert_eq!(_result, Ok(Flow::Next));
}

#[test]
fn addition_of_numbers() {
    let value = value_of("5.5 + 6.5;").unwrap();
    assert_eq!(number_of(&value), 12.0);
    assert_eq!(
        value,
        LoxObject::Number {
            location: SourceLocation::new_single_line(1, 0, 9),
            value: Number::from_bits(12.0f64.to_bits()),
        }
    );
}

#[test]
fn arithmetic_follows_binary64() {
    assert_eq!(number_of(&value_of("0.1 + 0.2;").unwrap()), 0.1 + 0.2);
    assert_eq!(number_of(&value_of("7 - 10;").unwrap()), -3.0);
    assert_eq!(number_of(&value_of("1.5 * 4;").unwrap()), 6.0);
    assert_eq!(number_of(&value_of("1 / 3;").unwrap()), 1.0 / 3.0);
    assert_eq!(number_of(&value_of("2 + 3 * 4;").unwrap()), 14.0);
    assert_eq!(number_of(&value_of("(2 + 3) * 4;").unwrap()), 20.0);
    assert_eq!(number_of(&value_of("-(2 + 3);").unwrap()), -5.0);
    assert_eq!(number_of(&value_of("10 - 4 - 3;").unwrap()), 3.0);
}

#[test]
fn division_by_zero_is_no_error() {
    assert_eq!(number_of(&value_of("1 / 0;").unwrap()), f64::INFINITY);
    assert_eq!(number_of(&value_of("-1 / 0;").unwrap()), f64::NEG_INFINITY);
    assert!(number_of(&value_of("0 / 0;").unwrap()).is_nan());
    assert!(!boolean_of(&value_of("0 / 0 == 0 / 0;").unwrap()));
}

#[test]
fn strings_are_joined_by_plus() {
    assert_eq!(
        value_of("\"ab\" + \"cd\";").unwrap(),
        LoxObject::String {
            location: SourceLocation::new_single_line(1, 0, 9),
            value: "abcd".to_string(),
        }
    );
}

#[test]
fn equality_across_kinds_is_false() {
    assert!(!boolean_of(&value_of("1 == \"1\";").unwrap()));
    assert!(boolean_of(&value_of("1 != \"1\";").unwrap()));
    assert!(!boolean_of(&value_of("nil == false;").unwrap()));
    assert!(!boolean_of(&value_of("0 == false;").unwrap()));
    assert!(boolean_of(&value_of("nil == nil;").unwrap()));
    assert!(boolean_of(&value_of("\"a\" == \"a\";").unwrap()));
    assert!(boolean_of(&value_of("1 == 1.0;").unwrap()));
    assert!(boolean_of(&value_of("true != false;").unwrap()));
}

#[test]
fn numbers_are_ordered() {
    assert!(boolean_of(&value_of("1 < 2;").unwrap()));
    assert!(!boolean_of(&value_of("2 < 2;").unwrap()));
    assert!(boolean_of(&value_of("2 <= 2;").unwrap()));
    assert!(boolean_of(&value_of("3 > 2;").unwrap()));
    assert!(boolean_of(&value_of("-3 < -2;").unwrap()));
    assert!(boolean_of(&value_of("2 >= 2;").unwrap()));
    assert!(!boolean_of(&value_of("-1 >= 2;").unwrap()));
    assert!(boolean_of(&value_of("0 >= -0;").unwrap()));
    assert!(!boolean_of(&value_of("0 / 0 < 1;").unwrap()));
    assert!(!boolean_of(&value_of("0 / 0 >= 1;").unwrap()));
}

#[test]
fn an_operator_on_the_wrong_kinds_is_an_error() {
    assert_eq!(
        value_of("1 + \"a\";").unwrap_err(),
        LoxError::InvalidBinaryOperation {
            location: SourceLocation::new_single_line(1, 0, 5),
            left: "number".to_string(),
            operator: "+".to_string(),
            right: "string".to_string(),
        }
    );
    assert!(matches!(
        value_of("\"a\" - \"b\";").unwrap_err(),
        LoxError::InvalidBinaryOperation { .. }
    ));
    assert!(matches!(
        value_of("nil < 1;").unwrap_err(),
        LoxError::InvalidBinaryOperation { .. }
    ));
    assert!(matches!(
        value_of("true * 2;").unwrap_err(),
        LoxError::InvalidBinaryOperation { .. }
    ));
    assert!(matches!(
        value_of("clock / 2;").unwrap_err(),
        LoxError::InvalidBinaryOperation { .. }
    ));
}

#[test]
fn negation_needs_a_number() {
    assert_eq!(
        value_of("-\"a\";").unwrap_err(),
        LoxError::InvalidUnaryOperation {
            location: SourceLocation::new_single_line(1, 0, 2),
            operator: "-".to_string(),
            right: "string".to_string(),
        }
    );
}

#[test]
fn not_is_defined_for_every_value() {
    assert!(boolean_of(&value_of("!nil;").unwrap()));
    assert!(boolean_of(&value_of("!false;").unwrap()));
    assert!(boolean_of(&value_of("!0;").unwrap()));
    assert!(!boolean_of(&value_of("!1;").unwrap()));
    assert!(!boolean_of(&value_of("!\"\";").unwrap()));
    assert!(!boolean_of(&value_of("!clock;").unwrap()));
    assert!(!boolean_of(&value_of("!!nil;").unwrap()));
}

#[test]
fn shadowing_in_a_block_does_not_leak() {
    let value = value_of("var x = 1; { var x = 2; } x;").unwrap();
    assert_eq!(number_of(&value), 1.0);
    let mut interpreter = Interpreter::new();
    run_source("var x = 1; { var x = 2; var y = 3; }", &mut interpreter).unwrap();
    assert_eq!(number_of(&interpreter.environment().retrieve("x").unwrap()), 1.0);
    assert_eq!(interpreter.environment().retrieve("y"), None);
}

#[test]
fn a_block_can_assign_to_an_outer_variable() {
    let value = value_of("var x = 1; { x = 2; } x;").unwrap();
    assert_eq!(number_of(&value), 2.0);
}

#[test]
fn a_function_returns_its_value() {
    let value = value_of("fun add(a, b) { return a + b; } add(2, 3);").unwrap();
    assert_eq!(number_of(&value), 5.0);
}

#[test]
fn a_function_without_return_gives_nil() {
    let value = value_of("fun noop() { 1 + 1; } noop();").unwrap();
    assert!(matches!(value, LoxObject::Nil { .. }));
    let value = value_of("fun bare() { return; } bare();").unwrap();
    assert!(matches!(value, LoxObject::Nil { .. }));
}

#[test]
fn return_unwinds_through_blocks_and_loops() {
    let source = "fun first(n) { var i = 0; while (true) { if (i >= n) { { return i; } } i = i + 1; } } first(3);";
    assert_eq!(number_of(&value_of(source).unwrap()), 3.0);
    let (lines, result) = output_of("var x = 1; fun f() { var x = 2; { var x = 3; return x; } } print f(); print x;");
    assert_eq!(result, Ok(()));
    assert_eq!(lines, vec!["3", "1"]);
}

#[test]
fn functions_can_call_themselves() {
    let source = "fun fib(n) { if (n < 2) return n; return fib(n - 1) + fib(n - 2); } fib(10);";
    assert_eq!(number_of(&value_of(source).unwrap()), 55.0);
}

#[test]
fn a_function_sees_globals_but_not_the_scope_it_was_declared_in() {
    let (lines, result) = output_of("var g = 1; fun f() { return g; } { var g = 2; print f(); }");
    assert_eq!(result, Ok(()));
    assert_eq!(lines, vec!["1"]);
    let (_, result) = output_of("{ var local = 1; fun f() { return local; } f(); }");
    assert!(matches!(result, Err(LoxError::UndefinedVariable { .. })));
}

#[test]
fn a_call_with_too_few_arguments_leaves_parameters_unbound() {
    assert_eq!(
        number_of(&value_of("fun f(a, b) { return a; } f(7);").unwrap()),
        7.0
    );
    assert!(matches!(
        value_of("fun f(a, b) { return b; } f(7);").unwrap_err(),
        LoxError::UndefinedVariable { .. }
    ));
    assert_eq!(
        number_of(&value_of("fun f(a) { return a; } f(1, 2, 3);").unwrap()),
        1.0
    );
}

#[test]
fn functions_are_values() {
    let source = "fun twice(f, x) { return f(f(x)); } fun inc(n) { return n + 1; } var g = twice; g(inc, 5);";
    assert_eq!(number_of(&value_of(source).unwrap()), 7.0);
}

#[test]
fn assigning_to_an_undeclared_name_is_an_error() {
    let mut interpreter = Interpreter::new();
    let result = run_source("y = 5;", &mut interpreter);
    assert_eq!(
        result,
        Err(LoxError::InvalidAssignment {
            location: SourceLocation::new_single_line(1, 0, 0),
            identifier: "y".to_string(),
        })
    );
    assert_eq!(interpreter.environment().retrieve("y"), None);
}

#[test]
fn reading_an_undeclared_name_is_an_error() {
    assert_eq!(
        value_of("nothing;").unwrap_err(),
        LoxError::UndefinedVariable {
            location: SourceLocation::new_single_line(1, 0, 6),
            variable: "nothing".to_string(),
        }
    );
}

#[test]
fn logical_operators_short_circuit() {
    let value = value_of("false and (1 / 0);").unwrap();
    assert!(!boolean_of(&value));
    assert!(boolean_of(&value_of("true or nothing;").unwrap()));
    assert!(matches!(value_of("nil and nothing;").unwrap(), LoxObject::Nil { .. }));
    assert!(matches!(
        value_of("true and nothing;").unwrap_err(),
        LoxError::UndefinedVariable { .. }
    ));
    assert!(matches!(
        value_of("false or nothing;").unwrap_err(),
        LoxError::UndefinedVariable { .. }
    ));
}

#[test]
fn logical_operators_give_an_operand_not_a_boolean() {
    assert_eq!(number_of(&value_of("nil or 3;").unwrap()), 3.0);
    assert_eq!(number_of(&value_of("1 and 2;").unwrap()), 2.0);
    assert_eq!(number_of(&value_of("0 and 2;").unwrap()), 0.0);
    assert!(matches!(value_of("\"a\" or 2;").unwrap(), LoxObject::String { .. }));
}

#[test]
fn zero_is_falsy_and_the_empty_string_is_truthy() {
    let (lines, _) = output_of("if (0) print \"yes\"; else print \"no\"; if (\"\") print \"yes\"; else print \"no\"; if (nil) print 1; else print 2; if (clock) print 3;");
    assert_eq!(lines, vec!["no", "yes", "2", "3"]);
}

#[test]
fn print_shows_each_kind_of_value() {
    let (lines, result) = output_of("print 12; print 5.5 + 6.5; print \"text\"; print true; print false; print nil; print clock; fun f() {} print f;");
    assert_eq!(result, Ok(()));
    assert_eq!(
        lines,
        vec!["12", "12", "text", "true", "false", "nil", "<builtin fn>", "<user fn f>"]
    );
}

#[test]
fn what_was_printed_before_an_error_stays() {
    let (lines, result) = output_of("print 1; print 2; print nothing; print 3;");
    assert!(matches!(result, Err(LoxError::UndefinedVariable { .. })));
    assert_eq!(lines, vec!["1", "2"]);
}

#[test]
fn printed_values_are_handed_out_once() {
    let mut interpreter = Interpreter::new();
    run_source("print 1;", &mut interpreter).unwrap();
    assert_eq!(interpreter.take_printed().len(), 1);
    assert_eq!(interpreter.take_printed().len(), 0);
}

#[test]
fn a_while_loop_runs_while_its_condition_holds() {
    let (lines, result) = output_of("var i = 0; while (i < 3) { print i; i = i + 1; } print \"done\";");
    assert_eq!(result, Ok(()));
    assert_eq!(lines, vec!["0", "1", "2", "done"]);
}

#[test]
fn a_for_loop_counts() {
    let (lines, result) = output_of("for (var i = 0; i < 3; i = i + 1) print i;");
    assert_eq!(result, Ok(()));
    assert_eq!(lines, vec!["0", "1", "2"]);
    let (lines, _) = output_of("var n = 0; for (;;) { n = n + 1; if (n > 2) { print n; n = nothing; } }");
    assert_eq!(lines, vec!["3"]);
}

#[test]
fn a_variable_without_initializer_is_nil() {
    assert!(matches!(value_of("var a; a;").unwrap(), LoxObject::Nil { .. }));
}

#[test]
fn an_assignment_gives_the_assigned_value() {
    assert_eq!(number_of(&value_of("var a = 1; var b = 2; a = b = 7;").unwrap()), 7.0);
    let (lines, _) = output_of("var a = 1; var b = 2; a = b = 7; print a; print b;");
    assert_eq!(lines, vec!["7", "7"]);
}

#[test]
fn only_callables_can_be_called() {
    assert!(matches!(
        value_of("var a = 1; a();").unwrap_err(),
        LoxError::InvalidCall { .. }
    ));
    assert!(matches!(value_of("\"text\"(1);").unwrap_err(), LoxError::InvalidCall { .. }));
}

#[test]
fn the_clock_gives_a_number_of_milliseconds() {
    let before = std::time::SystemTime::now()
        .duration_since(std::time::UNIX_EPOCH)
        .unwrap()
        .as_millis() as f64;
    let value = number_of(&value_of("clock();").unwrap());
    assert!(value >= before);
    assert!(value < before + 60000.0);
    assert!(boolean_of(&value_of("var a = clock(); var b = clock(); a <= b;").unwrap()));
}

#[test]
fn the_arity_of_a_function_is_the_number_of_its_parameters() {
    let mut interpreter = Interpreter::new();
    run_source("fun add(a, b) { return a + b; }", &mut interpreter).unwrap();
    match interpreter.environment().retrieve("add").unwrap() {
        LoxObject::Callable { function } => {
            assert_eq!(function.arity(), 2);
            let arguments = vec![
                LoxObject::Number {
                    location: SourceLocation::dummy(),
                    value: Number::from_bits(2.0f64.to_bits()),
                },
                LoxObject::Number {
                    location: SourceLocation::dummy(),
                    value: Number::from_bits(40.0f64.to_bits()),
                },
            ];
            assert_eq!(number_of(&function.call(&mut interpreter, &arguments).unwrap()), 42.0);
        }
        other => panic!("not a callable: {:?}", other),
    }
    assert_eq!(Function::Native { arity: 0, body: Native::Clock }.arity(), 0);
}

#[test]
fn a_return_outside_of_a_function_ends_the_program() {
    let (lines, result) = output_of("print 1; return 5; print 2;");
    assert_eq!(result, Ok(()));
    assert_eq!(lines, vec!["1"]);
}

#[test]
fn evaluation_beyond_the_limit_is_an_error() {
    let mut interpreter = Interpreter::with_limit(50);
    let result = run_source("var i = 0; while (true) { i = i + 1; }", &mut interpreter);
    assert!(matches!(result, Err(LoxError::LimitExceeded { .. })));
    let mut interpreter = Interpreter::with_limit(50);
    let result = run_source("fun f() { return f(); } f();", &mut interpreter);
    assert!(matches!(result, Err(LoxError::LimitExceeded { .. })));
    let mut interpreter = Interpreter::with_limit(50);
    assert_eq!(run_source("var i = 0; while (i < 10) { i = i + 1; }", &mut interpreter), Ok(()));
    assert_eq!(number_of(&interpreter.environment().retrieve("i").unwrap()), 10.0);
}

#[test]
fn a_failed_call_leaves_the_callers_scopes_current() {
    let mut interpreter = Interpreter::new();
    let result = run_source(
        "var x = 1; fun bad() { var x = 2; { var x = 3; nothing; } } { var y = 4; bad(); }",
        &mut interpreter,
    );
    assert!(matches!(result, Err(LoxError::UndefinedVariable { .. })));
    assert_eq!(number_of(&interpreter.environment().retrieve("x").unwrap()), 1.0);
    assert_eq!(interpreter.environment().retrieve("y"), None);
    assert_eq!(interpreter.environment().length(), 3);
}

#[test]
fn state_is_kept_from_one_run_to_the_next() {
    let mut interpreter = Interpreter::new();
    run_source("var total = 1;", &mut interpreter).unwrap();
    run_source("total = total + 41;", &mut interpreter).unwrap();
    assert_eq!(number_of(&interpreter.environment().retrieve("total").unwrap()), 42.0);
}

#[test]
fn a_text_that_does_not_parse_runs_nothing() {
    let mut interpreter = Interpreter::new();
    let result = run_source("print 1; print ;", &mut interpreter);
    assert!(matches!(result, Err(LoxError::ExpectedExpression { .. })));
    assert_eq!(interpreter.take_printed().len(), 0);
    let result = run_source("print \"open", &mut interpreter);
    assert!(matches!(result, Err(LoxError::UnterminatedString { .. })));
}

#[test]
fn a_text_that_breaks_off_is_incomplete() {
    assert!(is_incomplete("fun f() {"));
    assert!(is_incomplete("if (a"));
    assert!(!is_incomplete("print 1;"));
    assert!(!is_incomplete("print 1"));
    assert!(!is_incomplete("1 + ;"));
}
