use monkey::ast::{Expression, Program, Statement};
use monkey::lexer::{Lexer, Token, TokenType};
use monkey::parser::{parse_int, Parser};
use monkey::render::{render_expression, render_program};

fn render(e: &Expression) -> String {
    render_expression(e).iter().collect()
}

fn parse(input: &str) -> Program {
    let mut l = Lexer::new(input.to_string());
    let tokens = l.gen_tokens();
    let mut p = Parser::new(tokens);
    p.parse_program().expect("parse_program always gives a program")
}

fn single_expression(input: &str) -> String {
    let program = parse(input);
    assert_eq!(program.len(), 1, "Program does not contain 1 statement: {:?}", program);
    match &program[0] {
        Statement::Expression { value } => render(value),
        other => panic!("Expected statement to be expression, got {:?}", other),
    }
}

fn chars(s: &str) -> Vec<char> {
    s.chars().collect()
}

#[test]
fn test_empty_hash() {
    assert_eq!(single_expression("{}"), "{}");
}

#[test]
fn parser_test_hash_literal() {
    assert_eq!(
        single_expression(r#"{"one": 1, "two": 2, "three": 3}"#),
        "{one: 1, two: 2, three: 3}"
    );
}

#[test]
fn parser_test_array_index() {
    assert_eq!(single_expression("myArray[1 + 1];"), "(myArray[(1 + 1)])");
}

#[test]
fn parser_test_array_literal() {
    assert_eq!(single_expression("[1, 2 * 2, 3 + 3]"), "[1, (2 * 2), (3 + 3)]");
}

#[test]
fn parser_test_string_literal() {
    assert_eq!(single_expression("\"hello world\";"), "hello world");
}

#[test]
fn eq_test() {
    assert_eq!(single_expression("5 == 5;"), "(5 == 5)");
}

#[test]
fn fn_call() {
    assert_eq!(single_expression("add(1, 2 * 3, 4 + 5);"), "add(1, (2 * 3), (4 + 5))");
}

#[test]
fn fn_literal() {
    assert_eq!(single_expression("fn(x, y) { x + y; }"), "fn(x, y) {[(x + y)]}");
}

#[test]
fn if_statement() {
    let input = r#"
            if x < y {
                return x;
            } else {
                return y;
            }
            "#;
    // The alternative is written between braces, as the consequence is.
    assert_eq!(single_expression(input), "((x < y) {[return x;]} else {[return y;]})");
}

#[test]
fn group_expr() {
    assert_eq!(single_expression("(5 + 5) * 2;"), "((5 + 5) * 2)");
}

#[test]
fn boolean_expr() {
    assert_eq!(single_expression("true;"), "true");
}

#[test]
fn infix_expr() {
    assert_eq!(single_expression("5 + 5 * 2;"), "(5 + (5 * 2))");
}

#[test]
fn prefix_expr() {
    assert_eq!(single_expression("-5;"), "(-5)");
}

#[test]
fn integer_expr() {
    assert_eq!(single_expression("5;"), "5");
}

#[test]
fn identifier_expr() {
    assert_eq!(single_expression("foobar;"), "foobar");
}

#[test]
fn return_statement() {
    let program = parse(
        r#"
            return 5;
            return 10;
            return 993322;
            "#,
    );
    assert_eq!(program.len(), 3, "Program does not contain 3 statements");
}

#[test]
fn let_statement() {
    let program = parse(
        r#"
            let x = 5;
            let y = 10;
            let foobar = 838383;
            "#,
    );
    assert_eq!(program.len(), 3, "Program does not contain 3 statements");
    let tests = vec!["x", "y", "foobar"];
    for (i, tt) in tests.iter().enumerate() {
        match &program[i] {
            Statement::Let { name, .. } => assert_eq!(name.value, chars(tt)),
            other => panic!("Expected statement to be let, got {:?}", other),
        }
    }
}

#[test]
fn precedence_ladder() {
    assert_eq!(single_expression("a.b[0]"), "((a.b)[0])");
    assert_eq!(single_expression("a + b * c"), "(a + (b * c))");
    assert_eq!(single_expression("-a.b"), "(-(a.b))");
    assert_eq!(single_expression("1 < 2 == true"), "((1 < 2) == true)");
    assert_eq!(single_expression("a - b - c"), "((a - b) - c)");
    assert_eq!(single_expression("f(x)[1]"), "(f(x)[1])");
}

#[test]
fn statements_need_no_semicolon() {
    let program = parse("let a = 1 let b = 2 a b");
    assert_eq!(program.len(), 4);
    assert_eq!(render_program(&program).iter().collect::<String>(), "let a = 1;\nlet b = 2;\na\nb");
}

#[test]
fn reassign_statement() {
    let program = parse("x = 5;");
    assert_eq!(program.len(), 1);
    match &program[0] {
        Statement::ReAssign { name, value } => {
            assert_eq!(name.value, chars("x"));
            assert_eq!(render(value), "5");
        },
        other => panic!("Expected statement to be reassign, got {:?}", other),
    }
}

#[test]
fn if_without_alternative_and_dot() {
    assert_eq!(single_expression("if (a) { b }"), "(a {[b]})");
    assert_eq!(single_expression("s.len()"), "(s.len)()");
    assert_eq!(single_expression("fn() { }"), "fn() {[]}");
}

#[test]
fn hash_with_trailing_comma() {
    assert_eq!(single_expression("{\"a\": 1, \"b\": 2,}"), "{a: 1, b: 2}");
}

#[test]
fn malformed_input_is_dropped_not_fatal() {
    // Each unrecognised construct contributes nothing; parsing goes on.
    assert_eq!(parse("let = 5;").len(), 1);
    assert_eq!(parse(")").len(), 0);
    assert_eq!(parse("[1, 2").len(), 0);
    assert_eq!(parse("{\"a\" 1}").len(), 1);
    assert_eq!(parse("fn(1) { }").len(), 2);
    assert_eq!(parse("99999999999999999999").len(), 0);
    assert_eq!(parse("").len(), 0);
    let mut p = Parser::new(Vec::new());
    assert_eq!(p.parse_program().map(|v| v.len()), Some(0));
}

#[test]
fn tokens_end_with_a_single_eof() {
    let mut l = Lexer::new("let x = \"a b\" != 5;".to_string());
    let tokens: Vec<Token> = l.gen_tokens();
    let kinds: Vec<TokenType> = tokens.iter().map(|t| t.ttype).collect();
    assert_eq!(
        kinds,
        vec![
            TokenType::Let,
            TokenType::Ident,
            TokenType::Assign,
            TokenType::String,
            TokenType::NotEq,
            TokenType::Number,
            TokenType::Semicolon,
            TokenType::Eof
        ]
    );
    assert_eq!(tokens[3].literal, chars("a b"));
}

#[test]
fn integer_literals() {
    assert_eq!(parse_int(&chars("0")), Some(0));
    assert_eq!(parse_int(&chars("993322")), Some(993322));
    assert_eq!(parse_int(&chars("9223372036854775807")), Some(i64::MAX));
    assert_eq!(parse_int(&chars("9223372036854775808")), None);
    assert_eq!(parse_int(&chars("")), None);
    assert_eq!(parse_int(&chars("12a")), None);
}

#[test]
fn rendering_is_idempotent_on_plain_expressions() {
    let sources = [
        "1 + 2 * 3",
        "-a * b",
        "add(1, 2 * 3)",
        "a[1 + 1]",
        "[1, 2 * 2, 3]",
        "{\"one\": 1, \"two\": 2}",
        "!(true == false)",
        "a.b[0]",
        "let x = (5 + 5) * 2;",
        "return f(x);",
        "f(1, -x)[g(true)]",
        "[[1, 2], !false, add(a)(b)]",
        "-(3 * [x][0])",
    ];
    for src in sources.iter() {
        let once: String = render_program(&parse(src)).iter().collect();
        let twice: String = render_program(&parse(&once)).iter().collect();
        assert_eq!(once, twice, "source {}", src);
    }
}
