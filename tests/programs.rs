use asalang::interpreter::{start_interpreter, RuntimeError, Value};
use asalang::parser::program;

fn execute(source: &str) -> Result<Value, &'static str> {
    match program(source) {
        Ok((rest, tree)) => {
            assert_eq!(rest, "");
            start_interpreter(&tree).map_err(|e| e.message())
        }
        Err(e) => panic!("parse failed: {:?}", e),
    }
}

fn execute_err(source: &str) -> RuntimeError {
    match program(source) {
        Ok((rest, tree)) => {
            assert_eq!(rest, "");
            start_interpreter(&tree).unwrap_err()
        }
        Err(e) => panic!("parse failed: {:?}", e),
    }
}

#[test]
fn numeric() {
    assert_eq!(execute(r#"123"#), Ok(Value::Number(123)));
}

#[test]
fn identifier() {
    assert_eq!(execute(r#"x"#), Err("Undefined variable"));
}

#[test]
fn string() {
    assert_eq!(execute(r#""hello world""#), Ok(Value::String("hello world".to_string())));
}

#[test]
fn bool_true() {
    assert_eq!(execute(r#"true"#), Ok(Value::Bool(true)));
}

#[test]
fn bool_false() {
    assert_eq!(execute(r#"false"#), Ok(Value::Bool(false)));
}

#[test]
fn function_call() {
    assert_eq!(execute(r#"foo()"#), Err("Undefined function"));
}

#[test]
fn function_call_one_arg() {
    assert_eq!(execute(r#"foo(a)"#), Err("Undefined function"));
}

#[test]
fn function_call_more_args() {
    assert_eq!(execute(r#"foo(a,b,c)"#), Err("Undefined function"));
}

#[test]
fn variable_define() {
    assert_eq!(execute(r#"let x = 123;"#), Ok(Value::Number(123)));
}

#[test]
fn variable_init() {
    assert_eq!(execute(r#"let x = 1;"#), Ok(Value::Number(1)));
}

#[test]
fn variable_bool() {
    assert_eq!(execute(r#"let bool = true;"#), Ok(Value::Bool(true)));
}

#[test]
fn variable_string() {
    assert_eq!(
        execute(r#"let string = "Hello World";"#),
        Ok(Value::String("Hello World".to_string()))
    );
}

#[test]
fn variable_init_no_space() {
    assert_eq!(execute(r#"let x=1;"#), Ok(Value::Number(1)));
}

#[test]
fn math() {
    assert_eq!(execute(r#"1 + 1"#), Ok(Value::Number(2)));
}

#[test]
fn math_no_space() {
    assert_eq!(execute(r#"1+1"#), Ok(Value::Number(2)));
}

#[test]
fn math_subtraction() {
    assert_eq!(execute(r#"1 - 1"#), Ok(Value::Number(0)));
}

#[test]
fn math_multiply() {
    assert_eq!(execute(r#"2 * 4"#), Ok(Value::Number(8)));
}

#[test]
fn math_divide() {
    assert_eq!(execute(r#"6 / 2"#), Ok(Value::Number(3)));
}

#[test]
fn math_exponent() {
    assert_eq!(execute(r#"2 ^ 4"#), Ok(Value::Number(16)));
}

#[test]
fn math_more_terms() {
    assert_eq!(execute(r#"10 + 2*6"#), Ok(Value::Number(22)));
}

#[test]
fn math_more_terms_paren() {
    assert_eq!(execute(r#"((10+2)*6)/4"#), Ok(Value::Number(18)));
}

#[test]
fn assign_math() {
    assert_eq!(execute(r#"let x = 1 + 1;"#), Ok(Value::Number(2)));
}

#[test]
fn assign_function() {
    assert_eq!(execute(r#"let x = foo();"#), Err("Undefined function"));
}

#[test]
fn assign_function_arguments() {
    assert_eq!(execute(r#"let x = foo(a,b,c);"#), Err("Undefined function"));
}

#[test]
fn define_function() {
    assert_eq!(
        execute(r#"fn main(){return foo();} fn foo(){return 5;}"#),
        Ok(Value::Number(5))
    );
}

#[test]
fn define_function_args() {
    assert_eq!(
        execute(r#"fn main(){return foo(1,2,3);} fn foo(a,b,c){return a+b+c;}"#),
        Ok(Value::Number(6))
    );
}

#[test]
fn define_function_more_statement() {
    assert_eq!(
        execute(
            r#"fn main() {
  return foo();
}
fn foo(){
  let x = 5;
  return x;
}"#
        ),
        Ok(Value::Number(5))
    );
}

#[test]
fn define_full_program() {
    assert_eq!(
        execute(
            r#"fn foo(a,b,c) {
  let x = a + 1;
  let y = bar(c - b);
  return x * y;
}

fn bar(a) {
  return a * 3;
}

fn main() {
  return foo(1,2,3);  
}"#
        ),
        Ok(Value::Number(6))
    );
}

#[test]
fn comparison_main() {
    assert_eq!(execute(r#"fn main() { return 2 < 3; }"#), Ok(Value::Bool(true)));
}

#[test]
fn comparison_less_than_equal() {
    assert_eq!(execute(r#"2 <= 3"#), Ok(Value::Bool(true)));
}

#[test]
fn comparison_greater_than() {
    assert_eq!(execute(r#"2 > 3"#), Ok(Value::Bool(false)));
}

#[test]
fn comparison_greater_than_equal() {
    assert_eq!(execute(r#"2 >= 3"#), Ok(Value::Bool(false)));
}

#[test]
fn comparison_main_set_variable() {
    assert_eq!(
        execute(r#"fn main() { let x = 10; let y = 5; let z = 3; return x + y + z;}"#),
        Ok(Value::Number(18))
    );
}

#[allow(non_snake_case)]
#[test]
fn invalidComparison() {
    assert_eq!(execute(r#"1 > true"#), Err("Invalid comparison operands"));
}

#[test]
fn comparison_less_than() {
    assert_eq!(execute("2 < 3"), Ok(Value::Bool(true)));
}

#[test]
fn exponent_zero() {
    assert_eq!(execute("2^0"), Ok(Value::Number(1)));
}

#[test]
fn exponent_folds_left() {
    assert_eq!(execute("2^3^2"), Ok(Value::Number(64)));
}

#[test]
fn division_folds_left() {
    assert_eq!(execute("8/2/2"), Ok(Value::Number(2)));
}

#[test]
fn subtraction_folds_left() {
    assert_eq!(execute("10-4-3"), Ok(Value::Number(3)));
}

#[test]
fn division_truncates_toward_zero() {
    assert_eq!(execute("fn main(){return (0 - 7) / 2;}"), Ok(Value::Number(-3)));
}

#[test]
fn division_by_zero_fails() {
    assert_eq!(execute_err("6 / 0"), RuntimeError::DivisionByZero);
}

#[test]
fn addition_overflow_fails() {
    assert_eq!(execute_err("2147483647 + 1"), RuntimeError::Overflow);
}

#[test]
fn exponent_overflow_fails() {
    assert_eq!(execute_err("2 ^ 31"), RuntimeError::Overflow);
}

#[test]
fn negative_exponent_fails() {
    assert_eq!(execute_err("2 ^ (0 - 1)"), RuntimeError::NegativeExponent);
}

#[test]
fn math_on_string_fails() {
    assert_eq!(
        execute_err(r#"fn main(){ let s = "a"; return s + 1; }"#),
        RuntimeError::NonNumericOperands
    );
}

#[test]
fn boolean_equality() {
    assert_eq!(
        execute("fn main(){ let x = true; return x == true; }"),
        Ok(Value::Bool(true))
    );
}

#[test]
fn boolean_ordering_fails() {
    assert_eq!(
        execute_err("fn main(){ let x = true; return x < true; }"),
        RuntimeError::InvalidBooleanComparison
    );
}

#[test]
fn frames_are_isolated() {
    assert_eq!(
        execute_err("fn main(){return foo();} fn foo(){let x = 1; return bar();} fn bar(){return x;}"),
        RuntimeError::UndefinedVariable
    );
}

#[test]
fn functions_compose() {
    assert_eq!(
        execute("fn main(){return foo(2);} fn foo(a){let y = bar(a); return y + 1;} fn bar(a){return a * 10;}"),
        Ok(Value::Number(21))
    );
}

#[test]
fn missing_argument_fails() {
    assert_eq!(
        execute_err("fn main(){return foo(1);} fn foo(a,b){return a;}"),
        RuntimeError::MissingArgument
    );
}

#[test]
fn later_definition_wins() {
    assert_eq!(
        execute("fn main(){return foo();} fn foo(){return 1;} fn foo(){return 2;}"),
        Ok(Value::Number(2))
    );
}

#[test]
fn deep_recursion_is_cut_off() {
    assert_eq!(execute_err("fn main(){return main();}"), RuntimeError::DepthExceeded);
}

#[test]
fn empty_string_literal() {
    assert_eq!(execute(r#""""#), Ok(Value::String(String::new())));
}
