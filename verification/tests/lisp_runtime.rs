use alfred::lisp::{LispError, LispRuntime, LispValue};

/// Parses with the runtime, evaluates in its environment, and reads the outcome.
fn eval(runtime: &LispRuntime, source: &str) -> Result<LispValue, LispError> {
    let values = runtime.parse_program(source)?;
    let outcome = rust_lisp::interpreter::eval_block(runtime.env(), values.into_iter()).map_err(|e| e.msg);
    LispRuntime::evaluation_result(outcome)
}

#[test]
fn eval_arithmetic_addition_returns_correct_integer() {
    let runtime = LispRuntime::new();
    let result = eval(&runtime, "(+ 1 2)");

    assert!(result.is_ok(), "eval should succeed for valid arithmetic");
    assert_eq!(result.unwrap().as_integer(), Some(3));
}

#[test]
fn eval_arithmetic_multiplication_returns_correct_integer() {
    let runtime = LispRuntime::new();
    let result = eval(&runtime, "(* 3 4)").unwrap();

    assert_eq!(result.as_integer(), Some(12));
}

#[test]
fn eval_string_concatenation_returns_combined_string() {
    let runtime = LispRuntime::new();
    let result = eval(&runtime, "(+ \"hello\" \" world\")").unwrap();

    assert_eq!(result.as_string(), Some("hello world".to_string()));
}

#[test]
fn eval_define_then_reference_returns_bound_value() {
    let runtime = LispRuntime::new();
    eval(&runtime, "(define x 42)").unwrap();
    let result = eval(&runtime, "x").unwrap();

    assert_eq!(result.as_integer(), Some(42));
}

#[test]
fn eval_syntax_error_returns_err_not_panic() {
    let runtime = LispRuntime::new();
    let result = eval(&runtime, "(+ 1");

    assert!(result.is_err(), "eval should return Err for syntax errors");
    let error = result.unwrap_err().message();
    assert!(
        error.contains("parse") || error.contains("Parse") || error.contains("Unclosed"),
        "error message should indicate a parse problem, got: {}",
        error
    );
}

#[test]
fn eval_undefined_symbol_returns_err() {
    let runtime = LispRuntime::new();
    let result = eval(&runtime, "undefined_var");

    assert!(result.is_err(), "eval should return Err for undefined symbols");
}

#[test]
fn lisp_value_as_integer_returns_none_for_non_integer() {
    let runtime = LispRuntime::new();
    let result = eval(&runtime, "\"hello\"").unwrap();

    assert_eq!(result.as_integer(), None);
}

#[test]
fn lisp_value_as_string_returns_none_for_non_string() {
    let runtime = LispRuntime::new();
    let result = eval(&runtime, "42").unwrap();

    assert_eq!(result.as_string(), None);
}

#[test]
fn eval_multiple_expressions_returns_last_result() {
    let runtime = LispRuntime::new();
    let result = eval(&runtime, "(define a 10) (+ a 5)").unwrap();

    assert_eq!(result.as_integer(), Some(15));
}

#[test]
fn eval_of_blank_source_is_an_empty_expression_error() {
    let runtime = LispRuntime::new();
    let error = eval(&runtime, "   ").unwrap_err();
    assert_eq!(error.message(), "Parse error: Empty expression");
}

#[test]
fn eval_runtime_error_is_a_runtime_error() {
    let runtime = LispRuntime::new();
    let error = eval(&runtime, "(undefined-fn 1)").unwrap_err();
    assert!(error.message().starts_with("Runtime error: "), "got {}", error.message());
}

#[test]
fn a_program_parses_to_its_expressions_and_an_outcome_is_read_back() {
    let runtime = LispRuntime::new();
    assert_eq!(runtime.parse_program("(+ 1 2) (define y 3) y").unwrap().len(), 3);
    let e = LispRuntime::evaluation_result(Err("boom".to_string())).unwrap_err();
    assert_eq!(e, LispError::RuntimeError { message: "boom".to_string() });
    let n = LispRuntime::evaluation_result(Ok(rust_lisp::model::Value::Int(5))).unwrap();
    assert_eq!((n.as_integer(), n.as_string()), (Some(5), None));
    let t = LispRuntime::evaluation_result(Ok(rust_lisp::model::Value::String("hi".to_string()))).unwrap();
    assert_eq!((t.as_integer(), t.as_string()), (None, Some("hi".to_string())));
    let o = LispRuntime::evaluation_result(Ok(rust_lisp::model::Value::True)).unwrap();
    assert_eq!((o.as_integer(), o.as_string()), (None, None));
}
