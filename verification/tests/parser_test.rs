use std::path::PathBuf;

use rstl::decimal::Decimal;
use rstl::errors::Errors;
use rstl::file_searcher::FileSearcher;
use rstl::lexer::Token;
use rstl::syntax_tree::{
    binary_operator, reclassify, string_value_of, AstNode, SyntaxTree, TypeAnnotation,
};

fn tree(source: &str) -> SyntaxTree {
    SyntaxTree::new(Token::lexer(source)).unwrap()
}

fn parse(source: &str) -> Result<Vec<AstNode>, String> {
    tree(source).build()
}

fn failure(source: &str) -> String {
    parse(source).unwrap_err()
}

fn number(text: &str) -> AstNode {
    AstNode::Number(Decimal::parse(text).unwrap())
}

fn identifier(name: &str) -> AstNode {
    AstNode::Identifier(name.to_string())
}

fn binary(left: AstNode, op: Token, right: AstNode) -> AstNode {
    AstNode::BinaryOp {
        left: Box::new(left),
        op,
        right: Box::new(right),
    }
}

fn call(name: &str, args: Vec<AstNode>) -> AstNode {
    AstNode::FnCall {
        name: name.to_string(),
        args,
    }
}

fn assignment(name: &str, value: AstNode) -> AstNode {
    AstNode::VarAssignment {
        name: name.to_string(),
        value: Box::new(value),
    }
}

fn declaration(
    mutable: bool,
    name: &str,
    type_annotation: Option<TypeAnnotation>,
    value: AstNode,
) -> AstNode {
    AstNode::VarDeclaration {
        mutable,
        name: name.to_string(),
        value: Box::new(value),
        type_annotation,
    }
}

fn argument(name: &str, arg_type: TypeAnnotation) -> AstNode {
    AstNode::FnArgument {
        name: name.to_string(),
        arg_type,
    }
}

#[test]
fn an_empty_source_is_an_empty_tree() {
    assert_eq!(parse(""), Ok(vec![]));
    assert_eq!(parse("  \n "), Ok(vec![]));
}

#[test]
fn invalid_text_stops_the_run_before_parsing() {
    match SyntaxTree::new(Token::lexer("@")) {
        Err(Errors::InvalidToken(text)) => assert_eq!(text, "@"),
        _ => panic!("tokenization should fail"),
    }
    match SyntaxTree::new(Token::lexer("mut a = 1; $ mut")) {
        Err(Errors::InvalidToken(text)) => assert_eq!(text, "$"),
        _ => panic!("tokenization should fail"),
    }
}

#[test]
fn peek_gives_the_kind_at_an_index() {
    let tree = tree("mut a = 1;");
    assert_eq!(tree.peek(0), Some(&Token::MutKeyword));
    assert_eq!(tree.peek(3), Some(&Token::NumberLiteral));
    assert_eq!(tree.peek(4), Some(&Token::Semicolon));
    assert_eq!(tree.peek(5), None);
    assert_eq!(tree.peek(usize::MAX), None);
}

#[test]
fn type_annotations_are_case_sensitive() {
    let tree = tree("int float bool string Int my_type 3");
    let mut i = 0;
    assert_eq!(tree.parse_type_annotation(&mut i), Ok(TypeAnnotation::Int));
    assert_eq!(i, 1);
    assert_eq!(tree.parse_type_annotation(&mut i), Ok(TypeAnnotation::Float));
    assert_eq!(tree.parse_type_annotation(&mut i), Ok(TypeAnnotation::Bool));
    assert_eq!(tree.parse_type_annotation(&mut i), Ok(TypeAnnotation::String));
    assert_eq!(
        tree.parse_type_annotation(&mut i),
        Ok(TypeAnnotation::Custom("Int".to_string()))
    );
    assert_eq!(
        tree.parse_type_annotation(&mut i),
        Ok(TypeAnnotation::Custom("my_type".to_string()))
    );
    assert_eq!(i, 6);
    assert_eq!(
        tree.parse_type_annotation(&mut i),
        Err("Expected type annotation at 6".to_string())
    );
    assert_eq!(i, 6);
    i = 7;
    assert_eq!(
        tree.parse_type_annotation(&mut i),
        Err("Expected type annotation at 7".to_string())
    );
    assert_eq!(i, 7);
}

#[test]
fn declarations_with_and_without_a_type() {
    assert_eq!(
        parse("mut a = 1; const b ~ Thing = \"x\";"),
        Ok(vec![
            declaration(true, "a", None, number("1")),
            declaration(
                false,
                "b",
                Some(TypeAnnotation::Custom("Thing".to_string())),
                AstNode::String("x".to_string())
            ),
        ])
    );
}

#[test]
fn operators_chain_to_the_right_with_one_precedence() {
    assert_eq!(
        parse("2 * a + b"),
        Ok(vec![binary(
            number("2"),
            Token::Star,
            binary(identifier("a"), Token::Plus, identifier("b"))
        )])
    );
    assert_eq!(
        parse("a - b - c"),
        Ok(vec![binary(
            identifier("a"),
            Token::Minus,
            binary(identifier("b"), Token::Minus, identifier("c"))
        )])
    );
    assert_eq!(
        parse("a == b != c * d"),
        Ok(vec![binary(
            identifier("a"),
            Token::DoubleEquals,
            binary(
                identifier("b"),
                Token::NotEquals,
                binary(identifier("c"), Token::Star, identifier("d"))
            )
        )])
    );
}

#[test]
fn parentheses_group_to_the_left() {
    assert_eq!(
        parse("(2 * a) + b;"),
        Ok(vec![binary(
            binary(number("2"), Token::Star, identifier("a")),
            Token::Plus,
            identifier("b")
        )])
    );
    assert_eq!(parse("((a))"), Ok(vec![identifier("a")]));
}

#[test]
fn subtraction_and_negative_literals() {
    assert_eq!(
        parse("a - 1;"),
        Ok(vec![binary(identifier("a"), Token::Minus, number("1"))])
    );
    assert_eq!(
        parse("mut x = -1;"),
        Ok(vec![declaration(true, "x", None, number("-1"))])
    );
    assert_eq!(parse("a -1"), Ok(vec![identifier("a"), number("-1")]));
}

#[test]
fn an_assignment_is_reclassified() {
    assert_eq!(
        parse("a = b + c;"),
        Ok(vec![assignment(
            "a",
            binary(identifier("b"), Token::Plus, identifier("c"))
        )])
    );
    assert_eq!(
        parse("a = b = c"),
        Ok(vec![assignment(
            "a",
            binary(identifier("b"), Token::Equals, identifier("c"))
        )])
    );
}

#[test]
fn an_equals_behind_another_left_side_stays_a_binary_operation() {
    assert_eq!(
        parse("f() = 3;"),
        Ok(vec![binary(call("f", vec![]), Token::Equals, number("3"))])
    );
    assert_eq!(
        parse("1 = a"),
        Ok(vec![binary(number("1"), Token::Equals, identifier("a"))])
    );
    assert_eq!(
        parse("(a) = 1"),
        Ok(vec![assignment("a", number("1"))])
    );
    assert_eq!(
        parse("a + b = c"),
        Ok(vec![binary(
            identifier("a"),
            Token::Plus,
            binary(identifier("b"), Token::Equals, identifier("c"))
        )])
    );
}

#[test]
fn reclassification_touches_assignments_only() {
    assert_eq!(
        reclassify(binary(identifier("a"), Token::Equals, number("1"))),
        assignment("a", number("1"))
    );
    assert_eq!(
        reclassify(binary(identifier("a"), Token::Plus, number("1"))),
        binary(identifier("a"), Token::Plus, number("1"))
    );
    assert_eq!(
        reclassify(binary(number("2"), Token::Equals, number("1"))),
        binary(number("2"), Token::Equals, number("1"))
    );
    assert_eq!(reclassify(identifier("a")), identifier("a"));
    assert_eq!(
        reclassify(assignment("a", number("1"))),
        assignment("a", number("1"))
    );
}

#[test]
fn the_binary_operators() {
    for op in [
        Token::Plus,
        Token::Minus,
        Token::Star,
        Token::DoubleEquals,
        Token::NotEquals,
        Token::Equals,
    ] {
        assert!(binary_operator(op));
    }
    for other in [Token::To, Token::Tilde, Token::Comma, Token::Literal, Token::Period] {
        assert!(!binary_operator(other));
    }
}

#[test]
fn string_literals_lose_their_quotes_and_escaped_quotes() {
    assert_eq!(string_value_of(r#""""#), "");
    assert_eq!(string_value_of(r#""plain""#), "plain");
    assert_eq!(string_value_of(r#""say \"hi\"""#), r#"say "hi""#);
    assert_eq!(string_value_of(r#""a\\b\n""#), r#"a\\b\n"#);
    assert_eq!(string_value_of("\"\\\\\\\"\""), "\\\\\"");
    assert_eq!(string_value_of("\"\\\"\\\"\""), "\"\"");
    assert_eq!(
        parse(r#""say \"hi\"";"#),
        Ok(vec![AstNode::String(r#"say "hi""#.to_string())])
    );
}

#[test]
fn calls_take_any_number_of_arguments() {
    assert_eq!(parse("f()"), Ok(vec![call("f", vec![])]));
    assert_eq!(
        parse("f(1, g(x), a + b);"),
        Ok(vec![call(
            "f",
            vec![
                number("1"),
                call("g", vec![identifier("x")]),
                binary(identifier("a"), Token::Plus, identifier("b")),
            ]
        )])
    );
    assert_eq!(
        parse("f(a) + 1"),
        Ok(vec![binary(
            call("f", vec![identifier("a")]),
            Token::Plus,
            number("1")
        )])
    );
}

#[test]
fn statements_at_top_level_need_no_terminator() {
    assert_eq!(
        parse("a b; return c return d; f()"),
        Ok(vec![
            identifier("a"),
            identifier("b"),
            AstNode::Return(Box::new(identifier("c"))),
            AstNode::Return(Box::new(identifier("d"))),
            call("f", vec![]),
        ])
    );
}

#[test]
fn functions_with_and_without_parameters_and_return_type() {
    assert_eq!(
        parse("fn nothing() { }"),
        Ok(vec![AstNode::FnDeclaration {
            name: "nothing".to_string(),
            args: vec![],
            return_type: None,
            body: vec![],
        }])
    );
    assert_eq!(
        parse("fn pick(a ~ Shape) -> bool { mut b ~ int = 1; b = b + a; f(b); return b == 2; }"),
        Ok(vec![AstNode::FnDeclaration {
            name: "pick".to_string(),
            args: vec![argument("a", TypeAnnotation::Custom("Shape".to_string()))],
            return_type: Some(TypeAnnotation::Bool),
            body: vec![
                declaration(true, "b", Some(TypeAnnotation::Int), number("1")),
                assignment("b", binary(identifier("b"), Token::Plus, identifier("a"))),
                call("f", vec![identifier("b")]),
                AstNode::Return(Box::new(binary(
                    identifier("b"),
                    Token::DoubleEquals,
                    number("2")
                ))),
            ],
        }])
    );
}

#[test]
fn a_function_body_takes_every_kind_of_statement() {
    assert_eq!(
        parse("fn outer() { fn inner() { return 1; } return inner(); }"),
        Ok(vec![AstNode::FnDeclaration {
            name: "outer".to_string(),
            args: vec![],
            return_type: None,
            body: vec![
                AstNode::FnDeclaration {
                    name: "inner".to_string(),
                    args: vec![],
                    return_type: None,
                    body: vec![AstNode::Return(Box::new(number("1")))],
                },
                AstNode::Return(Box::new(call("inner", vec![]))),
            ],
        }])
    );
}

#[test]
fn parsing_functions_move_the_cursor_past_what_they_took() {
    let tree = tree("f(1, 2) + x ; fn g(a ~ int) { } mut");
    let mut i = 0;
    assert!(tree.parse_primary(&mut i).is_ok());
    assert_eq!(i, 6);
    i = 0;
    assert!(tree.parse_expression(&mut i).is_ok());
    assert_eq!(i, 8);
    i = 0;
    assert!(tree.parse_expression_statement(&mut i, true).is_ok());
    assert_eq!(i, 9);
    i = 2;
    assert!(tree.parse_call_arguments(&mut i).is_ok());
    assert_eq!(i, 6);
    i = 12;
    assert!(tree.parse_function_args(&mut i).is_ok());
    assert_eq!(i, 16);
    i = 16;
    assert_eq!(tree.parse_function_body(&mut i), Ok(vec![]));
    assert_eq!(i, 18);
    i = 9;
    assert!(tree.parse_statement(&mut i, false).is_ok());
    assert_eq!(i, 18);
    assert_eq!(
        tree.parse_statement(&mut i, false),
        Err("Expected variable name at 19".to_string())
    );
    assert_eq!(i, 19);
}

#[test]
fn a_parameter_without_its_type_fails() {
    assert_eq!(
        failure("fn add(a, b ~ int) -> int { return a + b; }"),
        "Expected '~' after argument name at 4"
    );
    assert_eq!(
        failure("fn add(a ~ int, b) -> int { return a + b; }"),
        "Expected '~' after argument name at 8"
    );
    assert_eq!(failure("fn add(a ~) { }"), "Expected type annotation at 5");
}

#[test]
fn an_unterminated_body_fails_at_the_end_of_input() {
    assert_eq!(
        failure("fn add(a ~ int) -> int { return a;"),
        "Unexpected end of input while parsing function body at 13"
    );
    assert_eq!(
        failure("fn f() {"),
        "Unexpected end of input while parsing function body at 5"
    );
}

#[test]
fn each_failure_of_a_function_declaration() {
    assert_eq!(failure("fn"), "Expected function name after 'fn' at 1");
    assert_eq!(failure("fn 1"), "Expected function name after 'fn' at 1");
    assert_eq!(failure("fn f"), "Expected '(' after function name at 2");
    assert_eq!(failure("fn f {"), "Expected '(' after function name at 2");
    assert_eq!(failure("fn f("), "Expected argument name at 3");
    assert_eq!(failure("fn f(1)"), "Expected argument name at 3");
    assert_eq!(failure("fn f(a ~ int,)"), "Expected argument name at 7");
    assert_eq!(
        failure("fn f(a ~ int b)"),
        "Expected ',' or ')' after function argument at 6"
    );
    assert_eq!(failure("fn f() ->"), "Expected type annotation at 5");
    assert_eq!(failure("fn f() -> {"), "Expected type annotation at 5");
    assert_eq!(failure("fn f()"), "Expected '{' to start function body at 4");
    assert_eq!(
        failure("fn f() -> int return"),
        "Expected '{' to start function body at 6"
    );
}

#[test]
fn each_failure_of_a_statement_in_a_body() {
    assert_eq!(
        failure("fn f() { return 1 }"),
        "Expected `;` after return statement at 7"
    );
    assert_eq!(
        failure("fn f() { g() }"),
        "Expected `;` after expression in function body at 8"
    );
    assert_eq!(
        failure("fn f() { a = 1 }"),
        "Expected `;` after expression in function body at 8"
    );
    assert_eq!(
        failure("fn f() { mut a = 1 }"),
        "Expected `;` at end of var decl at 9"
    );
    assert_eq!(
        failure("fn f() { ; }"),
        "Unexpected expression at `5`, `;` "
    );
}

#[test]
fn each_failure_of_a_declaration() {
    assert_eq!(failure("mut"), "Expected variable name at 1");
    assert_eq!(failure("const 1 = 2;"), "Expected variable name at 1");
    assert_eq!(failure("mut a"), "Expected `=` after var name at 2");
    assert_eq!(failure("mut a ~ int;"), "Expected `=` after var name at 4");
    assert_eq!(failure("mut a ~ = 1;"), "Expected type annotation at 3");
    assert_eq!(failure("mut a ="), "Unexpected end of input at 3");
    assert_eq!(failure("mut a = 1"), "Expected `;` at end of var decl at 4");
    assert_eq!(
        failure("const a = 1 mut b = 2;"),
        "Expected `;` at end of var decl at 4"
    );
}

#[test]
fn each_failure_of_an_expression() {
    assert_eq!(failure(")"), "Unexpected expression at `0`, `)` ");
    assert_eq!(failure("a + ;"), "Unexpected expression at `2`, `;` ");
    assert_eq!(failure("1 + * 2"), "Unexpected expression at `2`, `*` ");
    assert_eq!(failure("a +"), "Unexpected end of input at 2");
    assert_eq!(failure("return"), "Unexpected end of input at 1");
    assert_eq!(failure("(a + b"), "Expected `)` at 4");
    assert_eq!(failure("(a b)"), "Expected `)` at 2");
    assert_eq!(failure("("), "Unexpected end of input at 1");
    assert_eq!(
        failure("f(a b)"),
        "Expected ',' or ')' in function call arguments at 3"
    );
    assert_eq!(
        failure("f(a"),
        "Expected ',' or ')' in function call arguments at 3"
    );
    assert_eq!(failure("f(a,)"), "Unexpected expression at `4`, `)` ");
    assert_eq!(failure("f("), "Unexpected end of input at 2");
    assert_eq!(failure("a -> b"), "Unexpected expression at `1`, `->` ");
    assert_eq!(failure("a ~ int"), "Unexpected expression at `1`, `~` ");
}

#[test]
fn the_first_failure_is_the_one_returned() {
    assert_eq!(
        failure("mut a = 1; mut = 2; mut"),
        "Expected variable name at 6"
    );
}

#[test]
fn position_numbers_have_all_their_digits() {
    let source = "a; ".repeat(60) + ")";
    assert_eq!(failure(&source), "Unexpected expression at `120`, `)` ");
}

#[test]
fn file_names_and_suffixes() {
    assert!(FileSearcher::has_suffix("main.rstl", ".rstl"));
    assert!(FileSearcher::has_suffix(".rstl", ".rstl"));
    assert!(FileSearcher::has_suffix("anything", ""));
    assert!(FileSearcher::has_suffix("", ""));
    assert!(FileSearcher::has_suffix("na\u{ef}ve.rstl", "\u{ef}ve.rstl"));
    assert!(!FileSearcher::has_suffix("main.rs", ".rstl"));
    assert!(!FileSearcher::has_suffix("rstl", ".rstl"));
    assert!(!FileSearcher::has_suffix("main.rstl.bak", ".rstl"));
    assert!(!FileSearcher::has_suffix("main.RSTL", ".rstl"));
    assert!(!FileSearcher::has_suffix("", ".rstl"));
}

#[test]
fn a_searcher_keeps_its_directory() {
    let searcher = FileSearcher::new(PathBuf::from("project/src"));
    assert_eq!(searcher.target_dir(), &PathBuf::from("project/src"));
}
