use monkey::eval::Evaluator;
use monkey::lexer::Lexer;
use monkey::object::{Builtin, Object};
use monkey::ops::{call_builtin, index_object, infix_object, prefix_object};
use monkey::ast::{InfixOp, PrefixOp, Program};
use monkey::parser::Parser;

fn parse(input: &str) -> Program {
    let mut l = Lexer::new(input.to_string());
    let tokens = l.gen_tokens();
    let mut parser = Parser::new(tokens);
    parser.parse_program().expect("parse_program always gives a program")
}

fn text(s: &str) -> Vec<char> {
    s.chars().collect()
}

fn string(s: &str) -> Object<'static> {
    Object::String(text(s))
}

fn error(s: &str) -> Object<'static> {
    Object::Error(text(s))
}

fn check(input: &str, expected: Object) {
    let program = parse(input);
    let mut evaluator = Evaluator::new();
    let result = evaluator.eval(&program);
    assert_eq!(result, Some(expected), "input: {}", input);
}

fn reported(input: &str) -> Vec<String> {
    let program = parse(input);
    let mut evaluator = Evaluator::new();
    let _ = evaluator.eval(&program);
    evaluator.errors.iter().map(|m| m.iter().collect()).collect()
}

#[test]
fn test_dot_notation() {
    let tests = vec![
        (
            r#"
                let person = {"name": "Joe"};
                person.name
                "#,
            string("Joe"),
        ),
        (
            r#"
            let person = {"name": "Joe", "age": 90};
            person.age
            "#,
            Object::Integer(90),
        ),
    ];
    for (input, expected) in tests {
        let program = parse(input);
        let mut evaluator = Evaluator::new();
        if let Some(result) = evaluator.eval(&program) {
            assert_eq!(result, expected);
        } else {
            panic!("No result");
        }
    }
}

#[test]
fn test_hash_index() {
    let tests = vec![
        (
            r#"
                let myHash = {"one": 1, "two": 2};
                myHash["one"]
                "#,
            Object::Integer(1),
        ),
        (
            r#"
                let myHash = {"one": 1, "two": 2};
                myHash["two"]
                "#,
            Object::Integer(2),
        ),
        (
            r#"
                let myHash = {"one": 1, "two": 2};
                myHash["three"]
                "#,
            Object::Null,
        ),
        (
            r#"
                let myHash = {"one": 1, "two": 2};
                myHash["one"] + myHash["two"]
                "#,
            Object::Integer(3),
        ),
    ];
    for (input, expected) in tests {
        let program = parse(input);
        let mut evaluator = Evaluator::new();
        if let Some(result) = evaluator.eval(&program) {
            assert_eq!(result, expected);
        } else {
            panic!("No result");
        }
    }
}

#[test]
fn eval_test_hash_literal() {
    let input = r#"
                {
                    "one": 10 - 9,
                    "three": 6 / 2,
                }
                "#;
    let object = vec![(string("one"), Object::Integer(1)), (string("three"), Object::Integer(3))];
    let program = parse(input);
    let mut evaluator = Evaluator::new();
    match evaluator.eval(&program) {
        Some(Object::Hash(hash)) => {
            assert_eq!(hash.len(), 2);
            for (key, value) in hash.iter() {
                for (expected_key, expected_value) in object.iter() {
                    if key == expected_key {
                        assert_eq!(value, expected_value);
                    }
                }
            }
        },
        other => panic!("Expected hash, got {:?}", other),
    }
}

#[test]
fn eval_test_array_index() {
    let tests = vec![
        ("[1, 2, 3][0]", Object::Integer(1)),
        ("[1, 2, 3][1]", Object::Integer(2)),
        ("[1, 2, 3][2]", Object::Integer(3)),
        ("let i = 0; [1][i];", Object::Integer(1)),
        ("[1, 2, 3][1 + 1];", Object::Integer(3)),
        ("let myArray = [1, 2, 3]; myArray[2];", Object::Integer(3)),
        ("let myArray = [1, 2, 3]; myArray[0] + myArray[1] + myArray[2];", Object::Integer(6)),
        ("let myArray = [1, 2, 3]; let i = myArray[0]; myArray[i]", Object::Integer(2)),
        ("[1, 2, 3][3]", Object::Null),
        ("[1, 2, 3][-1]", Object::Integer(3)),
    ];
    for (input, expected) in tests {
        check(input, expected);
    }
}

#[test]
fn eval_test_array_literal() {
    let tests = vec![
        ("[1, 2 * 2, 3 + 3]", vec![Object::Integer(1), Object::Integer(4), Object::Integer(6)]),
        ("[1, 2, 3]", vec![Object::Integer(1), Object::Integer(2), Object::Integer(3)]),
        ("[]", vec![]),
    ];
    for (input, expected) in tests {
        check(input, Object::Array(expected));
    }
}

#[test]
fn test_builtin_len() {
    check("len(\"\")", Object::Integer(0));
    check("len(\"four\")", Object::Integer(4));
    check("len(\"hello world\")", Object::Integer(11));
    // An error value is reported rather than returned at the top level.
    assert_eq!(reported("len(1)"), vec!["Argument to `len` not supported, got Integer"]);
    assert_eq!(reported("len(\"one\", \"two\")"), vec!["Wrong number of arguments. Got 2, expected 1"]);
    assert_eq!(
        call_builtin(Builtin::Len, vec![Object::Integer(1)]),
        error("Argument to `len` not supported, got Integer")
    );
    assert_eq!(
        call_builtin(Builtin::Len, vec![string("one"), string("two")]),
        error("Wrong number of arguments. Got 2, expected 1")
    );
    check("len([1, 2, 3])", Object::Integer(3));
}

#[test]
fn test_string_concatenation() {
    check("\"Hello\" + \" \" + \"World!\"", string("Hello World!"));
    check(
        "\"Hello\" + \" \" + \"World!\" + \" \" + \"From\" + \" \" + \"Rust!\"",
        string("Hello World! From Rust!"),
    );
}

#[test]
fn eval_test_string_literal() {
    check("\"Hello World!\"", string("Hello World!"));
}

#[test]
fn function_call_test() {
    let tests = vec![
        ("let identity = fn(x) { x; }; identity(5);", Object::Integer(5)),
        ("let identity = fn(x) { return x; }; identity(5);", Object::Integer(5)),
        ("let double = fn(x) { x * 2; }; double(5);", Object::Integer(10)),
        ("let add = fn(x, y) { x + y; }; add(5, 5);", Object::Integer(10)),
        ("let add = fn(x, y) { x + y; }; add(5 + 5, add(5, 5));", Object::Integer(20)),
        ("fn(x) { x; }(5)", Object::Integer(5)),
    ];
    for (input, expected) in tests {
        check(input, expected);
    }
}

#[test]
fn let_env() {
    check("let x = 10; x;", Object::Integer(10));
    check("let x = 10 * 10; x;", Object::Integer(100));
    check("let x = 10; let y = 10; x + y;", Object::Integer(20));
    check("let x = 10; let y = 10; let z = x + y; z;", Object::Integer(20));
}

#[test]
fn test_return_statements() {
    let tests = vec![
        ("return 10;", Object::Integer(10)),
        ("return 10; 9;", Object::Integer(10)),
        ("return 2 * 5; 9;", Object::Integer(10)),
        ("9; return 2 * 5; 9;", Object::Integer(10)),
        (
            "if (10 > 1) {
                    if (10 > 1) {
                        return 10;
                    }
                    return 1;
                }",
            Object::Integer(10),
        ),
    ];
    for (input, expected) in tests {
        check(input, expected);
    }
}

#[test]
fn test_conditionals() {
    check("if (true) { 10 }", Object::Integer(10));
    check("if (false) { 10 }", Object::Null);
    check("if (1 < 2) { 10 }", Object::Integer(10));
    check("if (1 > 2) { 10 }", Object::Null);
    check("if (1 > 2) { 10 } else { 20 }", Object::Integer(20));
    check("if (1 < 2) { 10 } else { 20 }", Object::Integer(10));
}

#[test]
fn test_infix_conditionals() {
    let tests = vec![
        ("1 < 2", true),
        ("1 > 2", false),
        ("1 == 2", false),
        ("1 != 2", true),
        ("true == true", true),
        ("true != true", false),
        ("false == false", true),
        ("false != false", false),
        ("false == true", false),
        ("false != true", true),
        ("true == false", false),
        ("true != false", true),
    ];
    for (input, expected) in tests {
        check(input, Object::Boolean(expected));
    }
}

#[test]
fn test_prefix_bang_minus() {
    check("!true", Object::Boolean(false));
    check("!false", Object::Boolean(true));
    check("!!true", Object::Boolean(true));
    check("!!false", Object::Boolean(false));
}

#[test]
fn test_int_minus_prefix() {
    for n in [5i64, 10, 15, 20, 25, 30, 35, 40, 45, 50] {
        check(&format!("-{}", n), Object::Integer(-n));
    }
}

#[test]
fn eval_bang_prefix() {
    check("!true", Object::Boolean(false));
}

#[test]
fn eval_int() {
    check("5", Object::Integer(5));
}

#[test]
fn eval_boolean() {
    check("true;", Object::Boolean(true));
}

#[test]
fn integer_literals_and_their_negation() {
    check("0", Object::Integer(0));
    check("9223372036854775807", Object::Integer(i64::MAX));
    check("-9223372036854775807", Object::Integer(-i64::MAX));
    check("--7", Object::Integer(7));
}

#[test]
fn arithmetic_precedence() {
    check("1 + 2 * 3", Object::Integer(7));
    check("(1 + 2) * 3", Object::Integer(9));
    check("10 - 4 - 3", Object::Integer(3));
    check("7 / 2", Object::Integer(3));
    check("-7 / 2", Object::Integer(-3));
    check("7 / -2", Object::Integer(-3));
}

#[test]
fn string_concatenation_associates() {
    check("\"a\" + \"b\" + \"c\"", string("abc"));
    check("\"a\" + (\"b\" + \"c\")", string("abc"));
    check("\"ab\" == \"a\" + \"b\"", Object::Boolean(true));
    check("\"ab\" != \"ab\"", Object::Boolean(false));
}

#[test]
fn array_and_string_indexing() {
    check("[1,2,3][0]", Object::Integer(1));
    check("[1,2,3][-1]", Object::Integer(3));
    check("[1,2,3][-3]", Object::Integer(1));
    check("[1,2,3][-4]", Object::Null);
    check("[1,2,3][3]", Object::Null);
    check("\"héllo\"[1]", string("é"));
    check("\"hello\"[-1]", string("o"));
    check("\"hello\"[5]", Object::Null);
    check("\"hello\"[-6]", Object::Null);
}

#[test]
fn hash_round_trip() {
    check("{\"one\": 1}[\"one\"]", Object::Integer(1));
    check("{\"one\": 1}[\"two\"]", Object::Null);
    check("{\"a\": 1, \"a\": 2}[\"a\"]", Object::Integer(1));
    check("{}[\"a\"]", Object::Null);
}

#[test]
fn closures_share_their_scope() {
    // A later binding in the captured scope is seen by the closure.
    check("let x = 1; let f = fn() { x }; let x = 2; f()", Object::Integer(2));
    // A reassignment in the same scope is seen too.
    check("let x = 1; let f = fn() { x }; x = 3; f()", Object::Integer(3));
    // Closures outlive the call that made them.
    check(
        "let adder = fn(a) { fn(b) { a + b } }; let add2 = adder(2); add2(40)",
        Object::Integer(42),
    );
    // A reassignment inside another call shadows in that call's scope and
    // does not change the captured binding.
    check(
        "let make = fn() { let c = 1; let get = fn() { c }; let set = fn() { c = 5; 0 }; set(); get() }; make()",
        Object::Integer(1),
    );
}

#[test]
fn return_stops_nested_blocks() {
    check(
        "let f = fn() { if (true) { if (true) { return 10; } return 1; } }; f()",
        Object::Integer(10),
    );
    check("let f = fn() { return 1; 2 }; f() + 1", Object::Integer(2));
}

#[test]
fn arity_mismatch_is_an_error_value() {
    assert_eq!(
        reported("let f = fn(x) { x }; f(1, 2)"),
        vec!["Wrong number of arguments. Expected 1, got 2"]
    );
    check("let f = fn(x) { x }; [f(1, 2)]", Object::Array(vec![error("Wrong number of arguments. Expected 1, got 2")]));
}

#[test]
fn error_values() {
    let cases = vec![
        ("1 / 0", "Division by zero"),
        ("9223372036854775807 + 1", "Integer overflow"),
        ("-9223372036854775807 - 2", "Integer overflow"),
        ("3037000500 * 3037000500", "Integer overflow"),
        ("1 + true", "Use infix operators on integers"),
        ("true + true", "Invalid operator: +"),
        ("\"a\" - \"b\"", "Invalid operator: -"),
        ("1 = 2", "Invalid operator: ="),
        ("!1", "Use ! prefix operator on booleans!"),
        ("-true", "Use - prefix operator on integers or floats"),
        ("if (1) { 2 }", "Use if conditionals on booleans"),
        ("nothing", "Identifier not found (eval_identifier): nothing"),
        ("y = 1", "Identifier not found: y"),
        ("1(2)", "Not a function: 1"),
        ("1[0]", "Use index expression on arrays or strings"),
        ("{1: 2}", "Hash keys must be strings"),
        ("1.a", "Use dot notation properly"),
        ("\"s\".1", "Use dot notation on strings"),
        ("{\"a\": 1}.1", "Use dot notation on hashes with a name"),
        ("\"s\".size", "Unknown string property: size"),
    ];
    for (input, message) in cases {
        assert_eq!(reported(input), vec![message.to_string()], "input: {}", input);
    }
}

#[test]
fn call_depth_is_bounded() {
    let errors = reported("let f = fn(n) { f(n) }; f(1)");
    assert_eq!(errors[0], "Maximum call depth exceeded");
    check("let f = fn(n) { if (n == 0) { 0 } else { f(n - 1) + 1 } }; f(50)", Object::Integer(50));
}

#[test]
fn statement_that_cannot_be_evaluated_stops_the_program() {
    check("if (true) { }", error("Could not evaluate statement"));
    check("let f = fn() { }; f(); 5", error("Could not evaluate statement"));
}

#[test]
fn errors_do_not_stop_later_statements() {
    let program = parse("1 / 0; 7; nothing");
    let mut evaluator = Evaluator::new();
    assert_eq!(evaluator.eval(&program), Some(Object::Integer(7)));
    assert_eq!(evaluator.errors.len(), 2);
}

#[test]
fn string_properties() {
    check("\"hello\".len", Object::Integer(5));
    check("let s = \"ab\"; s.len + 1", Object::Integer(3));
    check("{\"name\": \"Joe\"}.age", Object::Null);
}

#[test]
fn value_operations() {
    assert_eq!(prefix_object(PrefixOp::Minus, Object::Integer(5)), Object::Integer(-5));
    assert_eq!(prefix_object(PrefixOp::Minus, Object::Integer(i64::MIN)), error("Integer overflow"));
    assert_eq!(prefix_object(PrefixOp::Bang, Object::Boolean(false)), Object::Boolean(true));
    assert_eq!(infix_object(InfixOp::Mul, Object::Integer(6), Object::Integer(7)), Object::Integer(42));
    assert_eq!(infix_object(InfixOp::Div, Object::Integer(i64::MIN), Object::Integer(-1)), error("Integer overflow"));
    assert_eq!(infix_object(InfixOp::Add, string("ab"), string("cd")), string("abcd"));
    assert_eq!(
        index_object(Object::Array(vec![Object::Integer(1), Object::Integer(2)]), Object::Integer(-2)),
        Object::Integer(1)
    );
}

#[test]
fn evaluator_keeps_bindings_between_programs() {
    let first = parse("let x = 4;");
    let second = parse("x * 2");
    let mut evaluator = Evaluator::new();
    assert_eq!(evaluator.eval(&first), Some(Object::Empty));
    assert_eq!(evaluator.eval(&second), Some(Object::Integer(8)));
}

#[test]
fn return_inside_an_expression_is_never_the_result() {
    check("return if (true) { return 5; };", Object::Integer(5));
    check("let f = fn() { let y = if (true) { return 5; }; 9 }; f()", Object::Integer(5));
    check("let f = fn() { return if (true) { return 6; }; }; f() + 1", Object::Integer(7));
    check("let x = 1; let f = fn() { x = if (true) { return 2; }; 3 }; f() + x", Object::Integer(3));
}

#[test]
fn values_render_for_messages() {
    assert_eq!(reported("[1, \"a\"](2)"), vec!["Not a function: [1, a]"]);
    assert_eq!(reported("{\"k\": true}(2)"), vec!["Not a function: {k: true}"]);
    let v = Object::Array(vec![Object::Integer(-3), Object::Null, error("e")]);
    let shown: String = monkey::render::render_value(&v).iter().collect();
    assert_eq!(shown, "[-3, null, ERROR: e]");
}
