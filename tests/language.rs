use minilua::eval::{compile, compile_ast, eval, Abort, CompileError, Outcome, RuntimeError};
use minilua::lex::{lex, Location, Token, TokenKind};
use minilua::parse::{BinaryOperation, Expression, FunctionCall, Literal, Statement};

fn chars(src: &str) -> Vec<char> {
    src.chars().collect()
}

fn run(src: &str) -> Result<Outcome, Abort> {
    let raw = chars(src);
    let tokens = lex(&raw).expect("lexes");
    let ast = minilua::parse::parse(&raw, tokens).expect("parses");
    let program = compile(&raw, ast).expect("compiles");
    eval(&program, 1_000_000)
}

fn stack_of(src: &str) -> Vec<i32> {
    run(src).expect("runs").stack
}

fn token(value: &str, kind: TokenKind, index: usize) -> Token {
    Token { value: value.to_string(), kind, loc: Location { col: index, line: 0, index } }
}

fn number(value: &str, index: usize) -> Expression {
    Expression::Literal(Literal::Number(token(value, TokenKind::Number, index)))
}

fn binary(left: Expression, op: &str, right: Expression) -> Expression {
    Expression::BinaryOperation(BinaryOperation {
        operator: token(op, TokenKind::Syntax, 2),
        left: Box::new(left),
        right: Box::new(right),
    })
}

// ----- Arithmetic -----

#[test]
fn addition_leaves_sum() {
    assert_eq!(stack_of("3 + 4;"), vec![7]);
}

#[test]
fn subtraction_takes_operands_left_to_right() {
    assert_eq!(stack_of("10 - 3;"), vec![7]);
    assert_eq!(stack_of("3 - 10;"), vec![-7]);
}

#[test]
fn arithmetic_table() {
    let table: Vec<(&str, i32)> =
        vec![("0 + 0;", 0), ("1 + 41;", 42), ("100 - 1;", 99), ("5 - 5;", 0), ("7;", 7)];
    for (src, expected) in table {
        assert_eq!(stack_of(src), vec![expected], "{}", src);
    }
}

#[test]
fn nested_arithmetic_tree_is_evaluated_left_to_right() {
    // (10 - 4) - 3, built by hand: the parser only reads one operator.
    let e = binary(binary(number("10", 0), "-", number("4", 5)), "-", number("3", 9));
    let program = compile_ast(&vec![Statement::Expression(e)]).expect("compiles");
    let outcome = eval(&program, 100).expect("runs");
    assert_eq!(outcome.stack, vec![3]);
    assert!(outcome.output.is_empty());
}

#[test]
fn less_than_is_strict_and_gives_one_or_zero() {
    assert_eq!(stack_of("2 < 5;"), vec![1]);
    assert_eq!(stack_of("5 < 2;"), vec![0]);
    assert_eq!(stack_of("5 < 5;"), vec![0]);
}

#[test]
fn each_expression_statement_leaves_its_value() {
    assert_eq!(stack_of("1 + 1; 2 + 2;"), vec![2, 4]);
}

#[test]
fn overflow_aborts_the_run() {
    assert_eq!(run("2147483647 + 1;").unwrap_err().error, RuntimeError::Overflow);
    assert_eq!(stack_of("2147483647 + 0;"), vec![i32::MAX]);
}

// ----- Locals, calls and frames -----

#[test]
fn top_level_locals_live_in_slots() {
    assert_eq!(stack_of("local a = 5; local b = a + 1; b;"), vec![5, 6, 6]);
}

#[test]
fn identity_call_returns_its_argument() {
    assert_eq!(stack_of("function id(x) return x; end id(42);"), vec![42]);
}

#[test]
fn call_adds_exactly_one_value_to_the_callers_stack() {
    let before = stack_of("local a = 7;");
    let after = stack_of("local a = 7; function id(x) return x; end id(42);");
    assert_eq!(after.len(), before.len() + 1);
    assert_eq!(after, vec![7, 42]);
}

#[test]
fn parameters_arrive_in_order() {
    assert_eq!(stack_of("function sub(a, b) return a - b; end sub(10, 3);"), vec![7]);
}

#[test]
fn function_locals_are_separate_from_parameters() {
    let src = "function f(a) local b = a + 1; local c = b + 1; return c; end f(1);";
    assert_eq!(stack_of(src), vec![3]);
}

#[test]
fn recursion_unwinds_to_the_baseline() {
    let src = "function sum(x) if x < 1 then return 0; end local r = sum(x - 1); return x + r; end sum(3);";
    assert_eq!(stack_of(src), vec![6]);
    let deeper = "function sum(x) if x < 1 then return 0; end local r = sum(x - 1); return x + r; end sum(10);";
    assert_eq!(stack_of(deeper), vec![55]);
}

#[test]
fn recursion_through_print_shows_each_level() {
    let src = "function down(x) if x < 1 then return 0; end print(x); local r = down(x - 1); return r; end down(3);";
    let outcome = run(src).expect("runs");
    assert_eq!(outcome.output, vec![vec![3], vec![2], vec![1]]);
    assert_eq!(outcome.stack, vec![0]);
}

#[test]
fn false_if_skips_its_body_at_top_level() {
    assert_eq!(stack_of("if 0 < 0 then return 1; end return 2;"), vec![2]);
}

#[test]
fn true_if_runs_its_body_at_top_level() {
    assert_eq!(stack_of("if 0 < 1 then return 1; end return 2;"), vec![1]);
}

#[test]
fn false_if_skips_its_body_in_a_function() {
    let src = "function f() if 0 < 0 then return 1; end return 2; end f();";
    assert_eq!(stack_of(src), vec![2]);
}

#[test]
fn top_level_return_ends_the_run() {
    let outcome = run("1; return 2; print(3);").expect("runs");
    assert_eq!(outcome.stack, vec![2]);
    assert!(outcome.output.is_empty());
}

#[test]
fn print_emits_in_source_order() {
    let outcome = run("print(1, 2, 3);").expect("runs");
    assert_eq!(outcome.output, vec![vec![1, 2, 3]]);
    assert!(outcome.stack.is_empty());
}

#[test]
fn print_of_nothing_emits_an_empty_line() {
    let outcome = run("print();").expect("runs");
    assert_eq!(outcome.output, vec![Vec::<i32>::new()]);
}

#[test]
fn later_declaration_of_a_name_wins() {
    let src = "function f() return 1; end function f() return 2; end f();";
    assert_eq!(stack_of(src), vec![2]);
}

#[test]
fn step_limit_stops_a_run() {
    let raw = chars("function sum(x) if x < 1 then return 0; end local r = sum(x - 1); return x + r; end sum(50);");
    let program = compile(&raw, minilua::parse::parse(&raw, lex(&raw).unwrap()).unwrap()).unwrap();
    assert_eq!(eval(&program, 20).unwrap_err().error, RuntimeError::StepLimit);
    assert!(eval(&program, 100_000).is_ok());
}

#[test]
fn missing_argument_is_a_slot_out_of_range() {
    assert_eq!(run("function f(a) return a; end f();").unwrap_err().error, RuntimeError::SlotOutOfRange);
}

#[test]
fn empty_program_runs_to_nothing() {
    let outcome = run("").expect("runs");
    assert!(outcome.stack.is_empty());
    assert!(outcome.output.is_empty());
}

// ----- Malformed input -----

#[test]
fn unknown_operator_fails_to_compile() {
    let e = binary(number("2", 0), "*", number("3", 4));
    match compile_ast(&vec![Statement::Expression(e)]) {
        Err(CompileError::UnknownOperator(t)) => assert_eq!(t.value, "*"),
        other => panic!("unexpected: {:?}", other),
    }
}

#[test]
fn unknown_operator_message_points_at_it() {
    let raw = chars("2 * 3;");
    let e = binary(number("2", 0), "*", number("3", 4));
    let message = compile(&raw, vec![Statement::Expression(e)]).unwrap_err();
    assert_eq!(message, "Unable to compile binary operation:\n\n2 * 3;\n  ^ Near here");
}

#[test]
fn undeclared_identifier_fails_to_compile() {
    let raw = chars("x + 1;");
    let ast = minilua::parse::parse(&raw, lex(&raw).unwrap()).unwrap();
    match compile_ast(&ast) {
        Err(CompileError::UndefinedIdentifier(t)) => assert_eq!(t.value, "x"),
        other => panic!("unexpected: {:?}", other),
    }
    let ast = minilua::parse::parse(&raw, lex(&raw).unwrap()).unwrap();
    assert_eq!(compile(&raw, ast).unwrap_err(), "Undefined identifier:\n\nx + 1;\n^ Near here");
}

#[test]
fn parameter_is_not_visible_outside_its_function() {
    let raw = chars("function f(a) return a; end a;");
    let ast = minilua::parse::parse(&raw, lex(&raw).unwrap()).unwrap();
    assert!(matches!(compile_ast(&ast), Err(CompileError::UndefinedIdentifier(_))));
}

#[test]
fn number_out_of_range_fails_to_compile() {
    let raw = chars("2147483648;");
    let ast = minilua::parse::parse(&raw, lex(&raw).unwrap()).unwrap();
    assert!(matches!(compile_ast(&ast), Err(CompileError::InvalidNumber(_))));
    assert_eq!(stack_of("2147483647;"), vec![i32::MAX]);
}

#[test]
fn call_to_undefined_function_aborts_the_run() {
    assert_eq!(run("nothing(1);").unwrap_err().error, RuntimeError::UndefinedFunction);
}

#[test]
fn abort_keeps_lines_printed_before_it() {
    let abort = run("print(1); print(nosuch(2));").unwrap_err();
    assert_eq!(abort.error, RuntimeError::UndefinedFunction);
    assert_eq!(abort.output, vec![vec![1]]);
}

#[test]
fn call_by_hand_to_undefined_function_aborts_the_run() {
    let call = Expression::FunctionCall(FunctionCall {
        name: token("g", TokenKind::Identifier, 0),
        arguments: vec![],
    });
    let program = compile_ast(&vec![Statement::Expression(call)]).unwrap();
    assert_eq!(eval(&program, 10).unwrap_err().error, RuntimeError::UndefinedFunction);
}

// ----- Lexing -----

#[test]
fn lexes_kinds_values_and_locations() {
    let raw = chars("local x1 = 12;\nif x1 < 3 then");
    let tokens = lex(&raw).unwrap();
    let got: Vec<(String, TokenKind, usize, usize, usize)> = tokens
        .iter()
        .map(|t| (t.value.clone(), t.kind.clone(), t.loc.index, t.loc.line, t.loc.col))
        .collect();
    let expected = vec![
        ("local", TokenKind::Keyword, 0, 0, 0),
        ("x1", TokenKind::Identifier, 6, 0, 6),
        ("=", TokenKind::Syntax, 9, 0, 9),
        ("12", TokenKind::Number, 11, 0, 11),
        (";", TokenKind::Syntax, 13, 0, 13),
        ("if", TokenKind::Keyword, 15, 1, 0),
        ("x1", TokenKind::Identifier, 18, 1, 3),
        ("<", TokenKind::Syntax, 21, 1, 6),
        ("3", TokenKind::Number, 23, 1, 8),
        ("then", TokenKind::Keyword, 25, 1, 10),
    ];
    let expected: Vec<(String, TokenKind, usize, usize, usize)> =
        expected.into_iter().map(|(v, k, i, l, c)| (v.to_string(), k, i, l, c)).collect();
    assert_eq!(got, expected);
}

#[test]
fn keyword_prefix_is_an_identifier() {
    let tokens = lex(&chars("ending end_ end")).unwrap();
    let kinds: Vec<TokenKind> = tokens.iter().map(|t| t.kind.clone()).collect();
    assert_eq!(kinds, vec![TokenKind::Identifier, TokenKind::Identifier, TokenKind::Keyword]);
}

#[test]
fn digits_then_letters_make_two_tokens() {
    let tokens = lex(&chars("12ab")).unwrap();
    assert_eq!(tokens.len(), 2);
    assert_eq!((tokens[0].value.as_str(), tokens[0].kind.clone()), ("12", TokenKind::Number));
    assert_eq!((tokens[1].value.as_str(), tokens[1].kind.clone()), ("ab", TokenKind::Identifier));
}

#[test]
fn unicode_letters_make_identifiers() {
    let tokens = lex(&chars("café")).unwrap();
    assert_eq!(tokens.len(), 1);
    assert_eq!(tokens[0].value, "café");
    assert_eq!(tokens[0].kind, TokenKind::Identifier);
}

#[test]
fn trailing_whitespace_is_fine() {
    let tokens = lex(&chars("a ;  \n\t")).unwrap();
    assert_eq!(tokens.len(), 2);
}

#[test]
fn unrecognized_character_fails_to_lex() {
    let message = lex(&chars("a = 1;\nb * 2;")).unwrap_err();
    assert_eq!(message, "Unrecognized character while lexing:\n\nb * 2;\n  ^ Near here");
}

#[test]
fn location_debug_shows_line_and_caret() {
    let raw = chars("first\nsecond line\nthird");
    let loc = Location { col: 3, line: 1, index: 9 };
    assert_eq!(loc.debug(&raw, "Here:"), "Here:\n\nsecond line\n   ^ Near here");
}

#[test]
fn location_increment_tracks_lines() {
    let loc = Location::start();
    let a = loc.increment(false);
    assert_eq!((a.index, a.line, a.col), (1, 0, 1));
    let b = a.increment(true);
    assert_eq!((b.index, b.line, b.col), (2, 1, 0));
}

// ----- Parsing -----

#[test]
fn parses_function_declaration() {
    let raw = chars("function add(a, b) return a + b; end");
    let ast = minilua::parse::parse(&raw, lex(&raw).unwrap()).unwrap();
    assert_eq!(ast.len(), 1);
    match &ast[0] {
        Statement::FunctionDeclaration(fd) => {
            assert_eq!(fd.name.value, "add");
            let params: Vec<&str> = fd.parameters.iter().map(|p| p.value.as_str()).collect();
            assert_eq!(params, vec!["a", "b"]);
            assert_eq!(fd.body.len(), 1);
            match &fd.body[0] {
                Statement::Return(r) => match &r.expression {
                    Expression::BinaryOperation(b) => assert_eq!(b.operator.value, "+"),
                    other => panic!("unexpected: {:?}", other),
                },
                other => panic!("unexpected: {:?}", other),
            }
        }
        other => panic!("unexpected: {:?}", other),
    }
}

#[test]
fn parses_call_arguments() {
    let raw = chars("f(1, x - 2, g());");
    let ast = minilua::parse::parse(&raw, lex(&raw).unwrap()).unwrap();
    match &ast[0] {
        Statement::Expression(Expression::FunctionCall(fc)) => {
            assert_eq!(fc.name.value, "f");
            assert_eq!(fc.arguments.len(), 3);
            assert!(matches!(fc.arguments[2], Expression::FunctionCall(_)));
        }
        other => panic!("unexpected: {:?}", other),
    }
}

#[test]
fn invalid_statement_fails_to_parse() {
    let raw = chars("local x = 1;\nend");
    let message = minilua::parse::parse(&raw, lex(&raw).unwrap()).unwrap_err();
    assert_eq!(message, "Invalid token while parsing:\n\nend\n^ Near here");
}

#[test]
fn missing_semicolon_fails_to_parse() {
    let raw = chars("1 + 2");
    assert!(minilua::parse::parse(&raw, lex(&raw).unwrap()).is_err());
}

#[test]
fn unterminated_function_fails_to_parse() {
    let raw = chars("function f() return 1;");
    assert!(minilua::parse::parse(&raw, lex(&raw).unwrap()).is_err());
}
