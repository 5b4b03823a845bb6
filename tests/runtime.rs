use mylang::expression::Expression;
use mylang::lexer::Lexer;
use mylang::number::Number;
use mylang::operations::is_builtin;
use mylang::parser::Parser;
use mylang::runtime::Runtime;
use mylang::value::{Operation, RuntimeError, Value, ValueKind};

fn run_source(source: &str) -> (Result<Value, RuntimeError>, Vec<String>) {
    let tokens = Lexer::tokenize(source.to_owned()).unwrap();
    let ast = Parser::new(tokens).parse().unwrap();
    let mut runtime = Runtime::new();
    let result = runtime.run(&ast);
    (result, runtime.output().clone())
}

fn number(n: i32) -> Value {
    Value::Number(Number::from_integer(n))
}

fn num_expr(n: i32) -> Expression {
    Expression::Number(Number::from_integer(n))
}

#[test]
fn declaration_and_print() {
    let (result, output) = run_source("let age = 2\nprint(age)");
    assert_eq!(output, vec!["2"]);
    assert_eq!(result.unwrap(), Value::Void);
    let (result, _) = run_source("let age = 2");
    assert_eq!(result.unwrap(), number(2));
}

#[test]
fn function_call_prints_result() {
    let (result, output) = run_source("fun add_one(x) return x + 1 end\nprint(add_one(4))");
    assert!(result.is_ok());
    assert_eq!(output, vec!["5"]);
}

#[test]
fn length_of_array() {
    let (_, output) = run_source("let arr = [1,2,3]\nprint(len(arr))");
    assert_eq!(output, vec!["3"]);
}

#[test]
fn while_loop_counts() {
    let (result, output) = run_source("let i = 0\nwhile i < 3\n  print(i)\n  i = i + 1\nend");
    assert_eq!(output, vec!["0", "1", "2"]);
    assert_eq!(result.unwrap(), Value::Void);
}

#[test]
fn undefined_variable_is_an_error() {
    let (result, output) = run_source("print(undefined_name)");
    assert_eq!(
        result,
        Err(RuntimeError::UndefinedVariable { name: "undefined_name".to_owned() })
    );
    assert!(output.is_empty());
}

#[test]
fn subtraction_nests_to_the_right() {
    assert_eq!(run_source("10 - 2 - 3").0.unwrap(), number(11));
    assert_eq!(run_source("1 + 2 * 3").0.unwrap(), number(7));
    assert_eq!(run_source("2 * 3 + 1").0.unwrap(), number(8));
}

#[test]
fn locals_do_not_outlive_the_call() {
    let (result, _) = run_source("fun f() let inner = 1 end\nf()\ninner");
    assert_eq!(result, Err(RuntimeError::UndefinedVariable { name: "inner".to_owned() }));
}

#[test]
fn callee_does_not_see_caller_locals() {
    let (result, _) =
        run_source("fun g() return inner end\nfun f() let inner = 1 return g() end\nf()");
    assert_eq!(result, Err(RuntimeError::UndefinedVariable { name: "inner".to_owned() }));
    let (result, _) = run_source("let outer = 5\nfun g() return outer end\ng()");
    assert_eq!(result.unwrap(), number(5));
}

#[test]
fn assignment_inside_a_function_stays_local() {
    let (result, output) = run_source("let x = 1\nfun f() x = 2 print(x) end\nf()\nx");
    assert_eq!(output, vec!["2"]);
    assert_eq!(result.unwrap(), number(1));
}

#[test]
fn array_assignment_copies() {
    let program = vec![
        Expression::VariableDecleration {
            name: "a".to_owned(),
            value: Box::new(Expression::Array(vec![num_expr(1), num_expr(2), num_expr(3)])),
        },
        Expression::VariableDecleration {
            name: "b".to_owned(),
            value: Box::new(Expression::Variable("a".to_owned())),
        },
        Expression::ArrayAssignment {
            identifier: "b".to_owned(),
            index: Box::new(num_expr(0)),
            value: Box::new(num_expr(9)),
        },
    ];
    let mut runtime = Runtime::new();
    assert_eq!(runtime.run(&program).unwrap(), number(9));
    let a0 = Expression::ArrayIndexing {
        array: Box::new(Expression::Variable("a".to_owned())),
        index: Box::new(num_expr(0)),
    };
    let b0 = Expression::ArrayIndexing {
        array: Box::new(Expression::Variable("b".to_owned())),
        index: Box::new(num_expr(0)),
    };
    assert_eq!(runtime.execute(&a0, 100).unwrap(), number(1));
    assert_eq!(runtime.execute(&b0, 100).unwrap(), number(9));
}

#[test]
fn array_assignment_errors() {
    let mut runtime = Runtime::new();
    let set = |name: &str, i: i32| Expression::ArrayAssignment {
        identifier: name.to_owned(),
        index: Box::new(num_expr(i)),
        value: Box::new(num_expr(0)),
    };
    assert_eq!(
        runtime.execute(&set("missing", 0), 10),
        Err(RuntimeError::UndefinedVariable { name: "missing".to_owned() })
    );
    let decl = Expression::VariableDecleration {
        name: "a".to_owned(),
        value: Box::new(Expression::Array(vec![num_expr(1)])),
    };
    runtime.execute(&decl, 10).unwrap();
    assert_eq!(
        runtime.execute(&set("a", 3), 10),
        Err(RuntimeError::IndexOutOfBounds { index: 3, length: 1 })
    );
}

#[test]
fn empty_string_is_true() {
    let (_, output) = run_source("if \"\"\n print(\"yes\")\nend\nif \"x\"\n print(\"no\")\nend");
    assert_eq!(output, vec!["yes"]);
    assert_eq!(run_source("!\"\"").0.unwrap(), Value::Bool(false));
    assert_eq!(run_source("!0").0.unwrap(), Value::Bool(true));
}

#[test]
fn invalid_condition() {
    assert_eq!(
        run_source("if [1] end").0,
        Err(RuntimeError::InvalidCondition { value_kind: ValueKind::Array })
    );
}

#[test]
fn numbers_are_written_in_decimal() {
    let (_, output) = run_source(
        "print(7 / 2)\nprint(1 / 3)\nprint(0 - 2)\nprint(2.50)\nprint(0.5 * 0.5)\nprint(\"n=\" + 1.25)",
    );
    assert_eq!(output, vec!["3.5", "0.333333", "-2", "2.5", "0.25", "n=1.25"]);
}

#[test]
fn string_concatenation() {
    assert_eq!(
        run_source("\"a\" + \"b\"").0.unwrap(),
        Value::String("ab".to_owned())
    );
    assert_eq!(
        run_source("true + \"!\"").0.unwrap(),
        Value::String("true!".to_owned())
    );
    assert_eq!(
        run_source("\"x\" + [1]").0,
        Err(RuntimeError::TypeMismatch {
            operation: Operation::Add,
            operand_kinds: vec![ValueKind::String, ValueKind::Array]
        })
    );
}

#[test]
fn comparisons_and_logic() {
    assert_eq!(run_source("1 <= 1").0.unwrap(), Value::Bool(true));
    assert_eq!(run_source("2 > 3").0.unwrap(), Value::Bool(false));
    assert_eq!(run_source("3 >= 2").0.unwrap(), Value::Bool(true));
    assert_eq!(run_source("0 || 5").0.unwrap(), Value::Bool(true));
    assert_eq!(run_source("1 && 0").0.unwrap(), Value::Bool(false));
    assert_eq!(run_source("true || [1]").0.unwrap(), Value::Bool(true));
    assert_eq!(
        run_source("1 < \"a\"").0,
        Err(RuntimeError::TypeMismatch {
            operation: Operation::Compare,
            operand_kinds: vec![ValueKind::Number, ValueKind::String]
        })
    );
}

#[test]
fn arithmetic_errors() {
    assert_eq!(
        run_source("1 / 0").0.unwrap(),
        Value::Number(Number::Infinite { negative: false })
    );
    assert_eq!(
        run_source("9999999999 * 9999999999").0.unwrap(),
        Value::Number(Number::Infinite { negative: false })
    );
    assert_eq!(
        run_source("true - 1").0,
        Err(RuntimeError::TypeMismatch {
            operation: Operation::Subtract,
            operand_kinds: vec![ValueKind::Bool, ValueKind::Number]
        })
    );
}

#[test]
fn indexing() {
    assert_eq!(run_source("let a = [4, 5]\na[1.9]").0.unwrap(), number(5));
    assert_eq!(
        run_source("let a = [4, 5]\na[2]").0,
        Err(RuntimeError::IndexOutOfBounds { index: 2, length: 2 })
    );
    assert_eq!(
        run_source("let a = [4, 5]\na[0 - 1]").0,
        Err(RuntimeError::IndexOutOfBounds { index: -1, length: 2 })
    );
}

#[test]
fn builtins() {
    assert!(is_builtin("print"));
    assert!(is_builtin("len"));
    assert!(!is_builtin("lenx"));
    assert_eq!(run_source("len(\"héllo\")").0.unwrap(), number(5));
    assert_eq!(run_source("add(\"a\", 1)").0.unwrap(), Value::String("a1".to_owned()));
    assert_eq!(run_source("add(1, \"a\")").0.unwrap(), Value::String("1a".to_owned()));
    assert_eq!(run_source("add(\"a\", true)").0.unwrap(), Value::String("atrue".to_owned()));
    assert_eq!(run_source("add(false, \"b\")").0.unwrap(), Value::String("falseb".to_owned()));
    assert_eq!(
        run_source("add(true, 1)").0,
        Err(RuntimeError::TypeMismatch {
            operation: Operation::Add,
            operand_kinds: vec![ValueKind::Bool, ValueKind::Number]
        })
    );
    assert_eq!(run_source("add(2, 3)").0.unwrap(), number(5));
    assert_eq!(run_source("subtract(5, 2)").0.unwrap(), number(3));
    assert_eq!(run_source("subtract(\"a\", 2)").0.unwrap(), Value::Void);
    let (_, output) = run_source("print_version()");
    assert_eq!(output, vec!["mylang version 0.0.1"]);
    assert_eq!(
        run_source("len(1)").0,
        Err(RuntimeError::TypeMismatch {
            operation: Operation::Length,
            operand_kinds: vec![ValueKind::Number]
        })
    );
}

#[test]
fn undefined_function() {
    assert_eq!(
        run_source("nothing(1)").0,
        Err(RuntimeError::UndefinedFunction { name: "nothing".to_owned() })
    );
    assert_eq!(
        run_source("let x = 1\nx()").0,
        Err(RuntimeError::UndefinedFunction { name: "x".to_owned() })
    );
}

#[test]
fn return_ends_the_enclosing_block_only() {
    assert_eq!(run_source("1\nreturn 2\n3").0.unwrap(), number(2));
    assert_eq!(
        run_source("fun f(x) if x return 1 end return 2 end\nf(true)").0.unwrap(),
        number(2)
    );
    assert_eq!(run_source("").0.unwrap(), Value::Void);
}

#[test]
fn anonymous_function_value() {
    let (result, _) = run_source("let f = fun (a) return a * 2 end\nf(21)");
    assert_eq!(result.unwrap(), number(42));
}

#[test]
fn fuel_runs_out() {
    let tokens = Lexer::tokenize("while true end".to_owned()).unwrap();
    let ast = Parser::new(tokens).parse().unwrap();
    let mut runtime = Runtime::new();
    assert_eq!(runtime.run_with_fuel(&ast, 50), Err(RuntimeError::OutOfFuel));
}

const SPECIAL: &str = "let inf = 1 / 0\nlet ninf = 0 - 1 / 0\nlet nan = 0 / 0\n";

fn run_special(rest: &str) -> (Result<Value, RuntimeError>, Vec<String>) {
    run_source(&format!("{}{}", SPECIAL, rest))
}

#[test]
fn division_by_zero_gives_infinity_or_nan() {
    let (result, output) = run_special(
        "print(inf)\nprint(ninf)\nprint(nan)\nlet d = inf - inf\nprint(d)\nprint(5 / inf)\nprint(0 - 2 / 0)",
    );
    assert!(result.is_ok());
    assert_eq!(output, vec!["inf", "-inf", "NaN", "NaN", "0", "-inf"]);
}

#[test]
fn infinities_and_nan_compare_as_floats() {
    assert_eq!(run_special("1 < inf").0.unwrap(), Value::Bool(true));
    assert_eq!(run_special("ninf < 0 - 1000").0.unwrap(), Value::Bool(true));
    assert_eq!(run_special("nan < 1").0.unwrap(), Value::Bool(false));
    assert_eq!(run_special("nan >= nan").0.unwrap(), Value::Bool(false));
    assert_eq!(run_special("inf <= inf").0.unwrap(), Value::Bool(true));
    assert_eq!(run_special("!nan").0.unwrap(), Value::Bool(false));
    assert_eq!(run_special("inf * 0").0.unwrap(), Value::Number(Number::NaN));
    assert_eq!(run_special("let a = [7, 8]\na[nan]").0.unwrap(), number(7));
}

#[test]
fn large_literal_is_infinite() {
    let (_, output) = run_source("print(10000000000000)\nprint(\"x\" + 10000000000000)");
    assert_eq!(output, vec!["inf", "xinf"]);
}
