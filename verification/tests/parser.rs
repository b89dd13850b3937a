use c4l_front::parser::{evaluate_expression_from_tokens, token_to_bin_op, type_from_name};
use c4l_front::tokenizer;
use c4l_front::{
    BinaryOp, Expected, Expression, Found, ParseError, Parser, Program, ProgramObject, Statement,
    Token, TokenKind, Type,
};

fn parser(source: &str) -> Parser<'_> {
    Parser::new(tokenizer::parse(source).expect("the source should tokenize"))
}

fn program(source: &str) -> Program {
    parser(source).parse().expect("parsing a program never fails")
}

fn body(source: &str) -> Vec<Statement> {
    let text = format!("fn f() {{ {} }}", source);
    let mut objs = program(&text).objs;
    assert_eq!(objs.len(), 1, "{}", source);
    match objs.remove(0) {
        ProgramObject::Function { statements, .. } => statements,
    }
}

fn expression(source: &str) -> Result<Expression, ParseError> {
    parser(source).parse_expression()
}

fn whole(value: i64) -> Expression {
    Expression::IntLiteral(value)
}

fn var(name: &str) -> Expression {
    Expression::Variable(name.to_string())
}

fn binary(op: BinaryOp, left: Expression, right: Expression) -> Expression {
    Expression::Binary { op, left: Box::new(left), right: Box::new(right) }
}

fn call(name: &str, args: Vec<Expression>) -> Expression {
    Expression::FunctionCall { name: name.to_string(), args }
}

fn error(expected: Expected, found: TokenKind) -> ParseError {
    ParseError { expected, found: Found::Token(found) }
}

fn ran_out(expected: Expected) -> ParseError {
    ParseError { expected, found: Found::EndOfTokens }
}

#[test]
fn smallest_function() {
    assert_eq!(
        program("fn f() { ret 1; }"),
        Program {
            objs: vec![ProgramObject::Function {
                name: "f".to_string(),
                arguments: vec![],
                return_type: None,
                statements: vec![Statement::Ret { value: whole(1) }],
            }],
        }
    );
}

#[test]
fn let_statement_in_a_body() {
    assert_eq!(
        body("let x | i32 <- 5;"),
        vec![Statement::Let {
            name: "x".to_string(),
            type_annotation: Type::I32,
            value: whole(5),
        }]
    );
}

#[test]
fn unterminated_body_fails_at_the_end_marker() {
    let mut p = parser("fn f() { let x | i32 <- 5;");
    let result = p.parse_function();
    assert_eq!(result, Err(error(Expected::Token(TokenKind::RBrace), TokenKind::EOF)));
    assert!(result.unwrap_err().is_premature_end());
}

#[test]
fn unterminated_body_without_end_marker_runs_out_of_tokens() {
    let mut tokens = tokenizer::parse("fn f() { let x | i32 <- 5;").unwrap();
    tokens.pop();
    let result = Parser::new(tokens).parse_function();
    assert_eq!(result, Err(ran_out(Expected::Token(TokenKind::RBrace))));
    assert!(result.unwrap_err().is_premature_end());
}

#[test]
fn unterminated_body_yields_no_object() {
    assert_eq!(program("fn f() { let x | i32 <- 5;"), Program { objs: vec![] });
}

#[test]
fn unknown_type_name_is_a_custom_type() {
    assert_eq!(
        program("fn f(a | bogus) -> i32 { ret a; }"),
        Program {
            objs: vec![ProgramObject::Function {
                name: "f".to_string(),
                arguments: vec![("a".to_string(), Type::Custom("bogus".to_string()))],
                return_type: Some(Type::I32),
                statements: vec![Statement::Ret { value: var("a") }],
            }],
        }
    );
}

#[test]
fn nested_call_arguments_are_split_outside_parentheses() {
    assert_eq!(
        expression("f(g(1, 2), 3);"),
        Ok(call("f", vec![call("g", vec![whole(1), whole(2)]), whole(3)]))
    );
}

#[test]
fn deeply_nested_calls() {
    assert_eq!(
        expression("f(g(h(1, 2), 3), k(4));"),
        Ok(call(
            "f",
            vec![
                call("g", vec![call("h", vec![whole(1), whole(2)]), whole(3)]),
                call("k", vec![whole(4)]),
            ]
        ))
    );
}

#[test]
fn call_without_arguments() {
    assert_eq!(expression("f();"), Ok(call("f", vec![])));
    assert_eq!(body("f();"), vec![Statement::FunctionCall { call: call("f", vec![]) }]);
}

#[test]
fn call_with_an_empty_argument_fails() {
    assert_eq!(expression("f(1,)"), Err(ran_out(Expected::Expression)));
    assert_eq!(expression("f(,1)"), Err(ran_out(Expected::Expression)));
    assert_eq!(expression("f(1,,2)"), Err(ran_out(Expected::Expression)));
}

#[test]
fn call_that_is_never_closed_runs_out_of_tokens() {
    assert_eq!(expression("f(1, 2"), Err(ran_out(Expected::Token(TokenKind::RParen))));
    assert_eq!(expression("f((1)"), Err(ran_out(Expected::Token(TokenKind::RParen))));
}

#[test]
fn call_followed_by_the_end_marker_wants_an_operator() {
    assert_eq!(expression("f(1)"), Err(error(Expected::BinaryOperator, TokenKind::EOF)));
}

#[test]
fn first_bad_argument_is_reported() {
    assert_eq!(
        expression("f(;, 2"),
        Err(error(Expected::Expression, TokenKind::StatementEnd))
    );
}

#[test]
fn failed_call_leaves_cursor_behind_its_parenthesis() {
    let mut p = parser("f(1, +)");
    assert_eq!(p.advance(), Some(Token::Identifier("f")));
    assert!(p.parse_function_call("f".to_string()).is_err());
    assert_eq!(p.peek(), Some(Token::Number("1")));
}

#[test]
fn call_moves_cursor_past_its_closing_parenthesis() {
    let mut p = parser("f(g(1), 2) ;");
    assert_eq!(p.advance(), Some(Token::Identifier("f")));
    assert!(p.parse_function_call("f".to_string()).is_ok());
    assert_eq!(p.peek(), Some(Token::StatementEnd));
}

#[test]
fn argument_may_be_a_binary_expression() {
    assert_eq!(
        expression("f(1 + 2, a * b);"),
        Ok(call(
            "f",
            vec![
                binary(BinaryOp::Add, whole(1), whole(2)),
                binary(BinaryOp::Mul, var("a"), var("b")),
            ]
        ))
    );
}

#[test]
fn argument_that_ends_in_a_variable_is_still_binary() {
    assert_eq!(
        expression("f(1 + x);"),
        Ok(call("f", vec![binary(BinaryOp::Add, whole(1), var("x"))]))
    );
}

#[test]
fn argument_in_parentheses() {
    assert_eq!(expression("f((1));"), Ok(call("f", vec![whole(1)])));
    assert_eq!(
        expression("f((1 + 2));"),
        Ok(call("f", vec![binary(BinaryOp::Add, whole(1), whole(2))]))
    );
}

#[test]
fn rest_of_an_argument_is_passed_over() {
    assert_eq!(
        expression("f(1 + 2 + 3, 4);"),
        Ok(call("f", vec![binary(BinaryOp::Add, whole(1), whole(2)), whole(4)]))
    );
}

#[test]
fn atoms() {
    assert_eq!(expression("1;"), Ok(whole(1)));
    assert_eq!(expression("x;"), Ok(var("x")));
    assert_eq!(expression("1.5;"), Ok(Expression::FloatLiteral("1.5".to_string())));
    assert_eq!(
        expression("99999999999999999999;"),
        Ok(Expression::FloatLiteral("99999999999999999999".to_string()))
    );
    assert_eq!(expression("9223372036854775807;"), Ok(whole(i64::MAX)));
}

#[test]
fn four_binary_operators() {
    assert_eq!(expression("1 + 2;"), Ok(binary(BinaryOp::Add, whole(1), whole(2))));
    assert_eq!(expression("1 - 2;"), Ok(binary(BinaryOp::Sub, whole(1), whole(2))));
    assert_eq!(expression("1 * 2;"), Ok(binary(BinaryOp::Mul, whole(1), whole(2))));
    assert_eq!(expression("1 / 2;"), Ok(binary(BinaryOp::Div, whole(1), whole(2))));
}

#[test]
fn remainder_is_no_binary_operator() {
    assert_eq!(
        expression("1 % 2;"),
        Err(error(Expected::BinaryOperator, TokenKind::Operator))
    );
}

#[test]
fn only_one_operator_is_read() {
    let mut p = parser("1 + 2 + 3;");
    assert_eq!(p.parse_expression(), Ok(binary(BinaryOp::Add, whole(1), whole(2))));
    assert_eq!(p.peek(), Some(Token::Operator("+")));
}

#[test]
fn parenthesized_expression() {
    assert_eq!(expression("(1);"), Ok(whole(1)));
    assert_eq!(expression("(1 + 2);"), Ok(binary(BinaryOp::Add, whole(1), whole(2))));
    assert_eq!(expression("(a) + b;"), Ok(binary(BinaryOp::Add, var("a"), var("b"))));
}

#[test]
fn expression_stops_before_the_semicolon() {
    let mut p = parser("a + b; c");
    assert!(p.parse_expression().is_ok());
    assert_eq!(p.peek(), Some(Token::StatementEnd));
}

#[test]
fn expression_ends_with_the_tokens() {
    assert_eq!(
        evaluate_expression_from_tokens(vec![Token::Number("3")]),
        Ok(whole(3))
    );
    assert_eq!(
        evaluate_expression_from_tokens(vec![Token::Identifier("a")]),
        Ok(var("a"))
    );
    assert_eq!(
        evaluate_expression_from_tokens(vec![Token::LParen, Token::Number("3"), Token::RParen]),
        Ok(whole(3))
    );
}

#[test]
fn expression_errors() {
    assert_eq!(evaluate_expression_from_tokens(vec![]), Err(ran_out(Expected::Expression)));
    assert_eq!(
        evaluate_expression_from_tokens(vec![Token::Number("1"), Token::Operator("+")]),
        Err(ran_out(Expected::Expression))
    );
    assert_eq!(expression("+ 1;"), Err(error(Expected::Expression, TokenKind::Operator)));
    assert_eq!(expression("1 2;"), Err(error(Expected::BinaryOperator, TokenKind::Number)));
    assert_eq!(expression("1 + ;"), Err(error(Expected::Expression, TokenKind::StatementEnd)));
    assert_eq!(
        evaluate_expression_from_tokens(vec![Token::Number("1x")]),
        Err(error(Expected::Numeral, TokenKind::Number))
    );
}

#[test]
fn second_closing_parenthesis_ends_the_expression() {
    let mut p = parser("1 )) + 2");
    assert_eq!(p.parse_expression(), Ok(whole(1)));
    assert_eq!(p.peek(), Some(Token::Operator("+")));
}

#[test]
fn assignment_statement() {
    assert_eq!(
        body("x <- y + 1;"),
        vec![Statement::Assign {
            name: "x".to_string(),
            new_value: binary(BinaryOp::Add, var("y"), whole(1)),
        }]
    );
}

#[test]
fn call_statement() {
    assert_eq!(
        body("print(x, 1);"),
        vec![Statement::FunctionCall { call: call("print", vec![var("x"), whole(1)]) }]
    );
}

#[test]
fn return_statement() {
    assert_eq!(
        body("ret a / b;"),
        vec![Statement::Ret { value: binary(BinaryOp::Div, var("a"), var("b")) }]
    );
}

#[test]
fn statements_keep_their_order() {
    assert_eq!(
        body("let a | i64 <- 1; a <- f(a); g(a); ret a;"),
        vec![
            Statement::Let { name: "a".to_string(), type_annotation: Type::I64, value: whole(1) },
            Statement::Assign { name: "a".to_string(), new_value: call("f", vec![var("a")]) },
            Statement::FunctionCall { call: call("g", vec![var("a")]) },
            Statement::Ret { value: var("a") },
        ]
    );
}

#[test]
fn empty_body() {
    assert_eq!(body(""), vec![]);
}

#[test]
fn statement_errors() {
    assert_eq!(
        parser("if x").parse_statement(),
        Err(error(Expected::Statement, TokenKind::If))
    );
    assert_eq!(Parser::new(vec![]).parse_statement(), Err(ran_out(Expected::Statement)));
    assert_eq!(
        parser("let 1").parse_statement(),
        Err(error(Expected::VariableName, TokenKind::Number))
    );
    assert_eq!(
        parser("let x <- 1;").parse_statement(),
        Err(error(Expected::Token(TokenKind::TypeDecl), TokenKind::Assign))
    );
    assert_eq!(
        parser("let x | 5").parse_statement(),
        Err(error(Expected::TypeName, TokenKind::Number))
    );
    assert_eq!(
        parser("let x | i32 5").parse_statement(),
        Err(error(Expected::Token(TokenKind::Assign), TokenKind::Number))
    );
    assert_eq!(
        parser("let x | i32 <- 5 }").parse_statement(),
        Err(error(Expected::BinaryOperator, TokenKind::RBrace))
    );
    assert_eq!(
        parser("let x | i32 <- 5 + 6 }").parse_statement(),
        Err(error(Expected::Token(TokenKind::StatementEnd), TokenKind::RBrace))
    );
    assert_eq!(
        parser("x + 1;").parse_statement(),
        Err(error(Expected::Token(TokenKind::Assign), TokenKind::Operator))
    );
    assert_eq!(
        Parser::new(vec![Token::Identifier("x")]).parse_statement(),
        Err(ran_out(Expected::Token(TokenKind::Assign)))
    );
    assert_eq!(
        parser("ret 1 + 2 }").parse_statement(),
        Err(error(Expected::Token(TokenKind::StatementEnd), TokenKind::RBrace))
    );
    assert_eq!(
        Parser::new(vec![Token::Return, Token::Number("1")]).parse_statement(),
        Err(ran_out(Expected::Token(TokenKind::StatementEnd)))
    );
    assert_eq!(
        parser("f(1) }").parse_statement(),
        Err(error(Expected::Token(TokenKind::StatementEnd), TokenKind::RBrace))
    );
}

#[test]
fn bad_statement_fails_the_whole_body() {
    let mut p = parser("let a | i32 <- 1; if }");
    assert_eq!(p.parse_statements(), Err(error(Expected::Statement, TokenKind::If)));
}

#[test]
fn function_with_parameters_and_return_type() {
    assert_eq!(
        program("fn add(a | i32, b | u64, c | thing) -> bool { ret a; }"),
        Program {
            objs: vec![ProgramObject::Function {
                name: "add".to_string(),
                arguments: vec![
                    ("a".to_string(), Type::I32),
                    ("b".to_string(), Type::U64),
                    ("c".to_string(), Type::Custom("thing".to_string())),
                ],
                return_type: Some(Type::BOOL),
                statements: vec![Statement::Ret { value: var("a") }],
            }],
        }
    );
}

#[test]
fn parameter_labels_may_repeat() {
    let objs = program("fn f(a | i32, a | i64) { }").objs;
    assert_eq!(
        objs,
        vec![ProgramObject::Function {
            name: "f".to_string(),
            arguments: vec![("a".to_string(), Type::I32), ("a".to_string(), Type::I64)],
            return_type: None,
            statements: vec![],
        }]
    );
}

#[test]
fn built_in_type_names() {
    assert_eq!(type_from_name("i32"), Type::I32);
    assert_eq!(type_from_name("i64"), Type::I64);
    assert_eq!(type_from_name("u32"), Type::U32);
    assert_eq!(type_from_name("u64"), Type::U64);
    assert_eq!(type_from_name("f32"), Type::F32);
    assert_eq!(type_from_name("f64"), Type::F64);
    assert_eq!(type_from_name("bool"), Type::BOOL);
    assert_eq!(type_from_name("char"), Type::CHAR);
    assert_eq!(type_from_name("string"), Type::STRING);
    assert_eq!(type_from_name("I32"), Type::Custom("I32".to_string()));
    assert_eq!(type_from_name("i3"), Type::Custom("i3".to_string()));
    assert_eq!(type_from_name(""), Type::Custom(String::new()));
}

#[test]
fn function_errors() {
    assert_eq!(
        parser("f() {}").parse_function(),
        Err(error(Expected::Token(TokenKind::Function), TokenKind::Identifier))
    );
    assert_eq!(
        Parser::new(vec![]).parse_function(),
        Err(ran_out(Expected::Token(TokenKind::Function)))
    );
    assert_eq!(
        parser("fn (").parse_function(),
        Err(error(Expected::FunctionName, TokenKind::LParen))
    );
    assert_eq!(
        parser("fn f {").parse_function(),
        Err(error(Expected::Token(TokenKind::LParen), TokenKind::LBrace))
    );
    assert_eq!(
        parser("fn f(1").parse_function(),
        Err(error(Expected::ParameterName, TokenKind::Number))
    );
    assert_eq!(
        parser("fn f(a i32").parse_function(),
        Err(error(Expected::Token(TokenKind::TypeDecl), TokenKind::Identifier))
    );
    assert_eq!(
        parser("fn f(a | )").parse_function(),
        Err(error(Expected::TypeName, TokenKind::RParen))
    );
    assert_eq!(
        parser("fn f(a | i32 b").parse_function(),
        Err(error(Expected::Token(TokenKind::ArgumentSeparator), TokenKind::Identifier))
    );
    assert_eq!(
        parser("fn f(a | i32, )").parse_function(),
        Err(error(Expected::ParameterName, TokenKind::RParen))
    );
    assert_eq!(
        parser("fn f() -> {").parse_function(),
        Err(error(Expected::TypeName, TokenKind::LBrace))
    );
    assert_eq!(
        parser("fn f() ret").parse_function(),
        Err(error(Expected::Token(TokenKind::LBrace), TokenKind::Return))
    );
    assert_eq!(
        Parser::new(vec![Token::Function, Token::Identifier("f"), Token::LParen]).parse_function(),
        Err(ran_out(Expected::ParameterName))
    );
}

#[test]
fn object_errors_consume_nothing() {
    let mut p = parser("let x");
    assert_eq!(p.parse_object(), Err(error(Expected::ProgramObject, TokenKind::Let)));
    assert_eq!(p.peek(), Some(Token::Let));
    assert_eq!(Parser::new(vec![]).parse_object(), Err(ran_out(Expected::ProgramObject)));
}

#[test]
fn program_of_several_functions() {
    let objs = program("fn a() { } fn b() { ret 1; } fn c(x | i32) { }").objs;
    assert_eq!(objs.len(), 3);
    let names: Vec<String> = objs
        .into_iter()
        .map(|o| match o {
            ProgramObject::Function { name, .. } => name,
        })
        .collect();
    assert_eq!(names, vec!["a".to_string(), "b".to_string(), "c".to_string()]);
}

#[test]
fn program_stops_silently_at_the_first_object_that_fails() {
    let objs = program("fn a() { } fn b( { } fn c() { }").objs;
    assert_eq!(objs.len(), 1);
    assert_eq!(program("").objs, vec![]);
    assert_eq!(program("let x | i32 <- 1;").objs, vec![]);
    assert_eq!(Parser::new(vec![]).parse(), Ok(Program { objs: vec![] }));
}

#[test]
fn peek_does_not_consume() {
    let p = parser("fn f");
    assert_eq!(p.peek(), Some(Token::Function));
    assert_eq!(p.peek(), Some(Token::Function));
}

#[test]
fn advance_returns_each_token_once_and_then_nothing() {
    let mut p = Parser::new(vec![Token::Let, Token::Identifier("x")]);
    assert!(!p.is_end());
    assert_eq!(p.advance(), Some(Token::Let));
    assert_eq!(p.advance(), Some(Token::Identifier("x")));
    assert!(p.is_end());
    assert_eq!(p.advance(), None);
    assert_eq!(p.advance(), None);
    assert_eq!(p.peek(), None);
}

#[test]
fn expect_checks_without_consuming() {
    let p = Parser::new(vec![Token::Let, Token::Identifier("x")]);
    assert_eq!(p.expect(Token::Let), Ok(Token::Let));
    assert_eq!(
        p.expect(Token::Mut),
        Err(error(Expected::Token(TokenKind::Mut), TokenKind::Let))
    );
    assert_eq!(p.peek(), Some(Token::Let));
    assert_eq!(
        Parser::new(vec![]).expect(Token::Let),
        Err(ran_out(Expected::Token(TokenKind::Let)))
    );
}

#[test]
fn expect_compares_the_text_too() {
    let p = Parser::new(vec![Token::Identifier("x")]);
    assert_eq!(p.expect(Token::Identifier("x")), Ok(Token::Identifier("x")));
    assert_eq!(
        p.expect(Token::Identifier("y")),
        Err(error(Expected::Token(TokenKind::Identifier), TokenKind::Identifier))
    );
}

#[test]
fn expect_and_consume_consumes_on_success_only() {
    let mut p = Parser::new(vec![Token::Let, Token::Mut, Token::If]);
    assert_eq!(p.expect_and_consume(Token::Let), Ok(Token::Let));
    assert_eq!(p.peek(), Some(Token::Mut));
    assert_eq!(
        p.expect_and_consume(Token::Let),
        Err(error(Expected::Token(TokenKind::Let), TokenKind::Mut))
    );
    assert_eq!(p.peek(), Some(Token::Mut));
    assert_eq!(p.expect_and_consume(Token::Mut), Ok(Token::Mut));
    assert_eq!(p.expect_and_consume(Token::If), Ok(Token::If));
    assert!(p.is_end());
    assert_eq!(
        p.expect_and_consume(Token::If),
        Err(ran_out(Expected::Token(TokenKind::If)))
    );
    assert!(p.is_end());
}

#[test]
fn expect_and_consume_makes_the_same_check_as_expect() {
    let tokens = vec![Token::Identifier("x"), Token::Assign];
    for wanted in [Token::Identifier("x"), Token::Identifier("y"), Token::Assign, Token::EOF] {
        let mut p = Parser::new(tokens.clone());
        let checked = p.expect(wanted);
        assert_eq!(p.expect_and_consume(wanted), checked);
        let next = if checked.is_ok() { Token::Assign } else { Token::Identifier("x") };
        assert_eq!(p.peek(), Some(next));
    }
}

#[test]
fn failed_statement_leaves_cursor_at_the_token_that_did_not_fit() {
    let mut p = parser("let x <- 1;");
    assert_eq!(
        p.parse_statement(),
        Err(error(Expected::Token(TokenKind::TypeDecl), TokenKind::Assign))
    );
    assert_eq!(p.peek(), Some(Token::Assign));

    let mut p = parser("ret 1 + 2 }");
    assert_eq!(
        p.parse_statement(),
        Err(error(Expected::Token(TokenKind::StatementEnd), TokenKind::RBrace))
    );
    assert_eq!(p.peek(), Some(Token::RBrace));

    let mut p = parser("fn f {");
    assert_eq!(
        p.parse_function(),
        Err(error(Expected::Token(TokenKind::LParen), TokenKind::LBrace))
    );
    assert_eq!(p.peek(), Some(Token::LBrace));
}

#[test]
fn operators_of_tokens() {
    assert_eq!(token_to_bin_op(&Token::Operator("+")), Some(BinaryOp::Add));
    assert_eq!(token_to_bin_op(&Token::Operator("-")), Some(BinaryOp::Sub));
    assert_eq!(token_to_bin_op(&Token::Operator("*")), Some(BinaryOp::Mul));
    assert_eq!(token_to_bin_op(&Token::Operator("/")), Some(BinaryOp::Div));
    assert_eq!(token_to_bin_op(&Token::Operator("%")), None);
    assert_eq!(token_to_bin_op(&Token::Identifier("+")), None);
    assert_eq!(token_to_bin_op(&Token::TypeDecl), None);
}

#[test]
fn premature_end_errors() {
    assert!(ran_out(Expected::Expression).is_premature_end());
    assert!(error(Expected::Statement, TokenKind::EOF).is_premature_end());
    assert!(!error(Expected::Statement, TokenKind::If).is_premature_end());
}

#[test]
fn spacing_does_not_change_the_program() {
    let dense = program("fn f(){ret 1;}");
    let airy = program("\n fn   f ( )\n{\n\tret 1 ;\n}\n");
    assert_eq!(dense, airy);
    assert_eq!(dense, program("fn f() { ret 1; }"));
}

#[test]
fn cursor_stays_within_the_tokens() {
    let mut p = parser("fn f() { ret 1; }");
    assert!(p.parse().is_ok());
    assert_eq!(p.peek(), Some(Token::EOF));
    assert_eq!(p.advance(), Some(Token::EOF));
    assert!(p.is_end());
    assert_eq!(p.parse(), Ok(Program { objs: vec![] }));
    assert!(p.is_end());
}

#[test]
fn call_has_one_argument_more_than_commas_outside_parentheses() {
    for (source, count) in [
        ("f();", 0),
        ("f(a);", 1),
        ("f(a, b);", 2),
        ("f(g(a, b));", 1),
        ("f(g(a, b), h(c, d, e), k);", 3),
        ("f((a), (b));", 2),
    ] {
        match expression(source) {
            Ok(Expression::FunctionCall { name, args }) => {
                assert_eq!(name, "f", "{}", source);
                assert_eq!(args.len(), count, "{}", source);
            }
            other => panic!("{} gave {:?}", source, other),
        }
    }
}
