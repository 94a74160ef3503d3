use rstl::lexer::Token;
use rstl::syntax_tree::{AstNode, SyntaxTree, TypeAnnotation};

/// A tree with each number as the float that its literal denotes.
#[derive(Debug, PartialEq)]
enum Node {
    Number(f64),
    String(String),
    Identifier(String),
    VarDeclaration {
        mutable: bool,
        name: String,
        value: Box<Node>,
        type_annotation: Option<TypeAnnotation>,
    },
    VarAssignment {
        name: String,
        value: Box<Node>,
    },
    TypeAnnotationNode(TypeAnnotation),
    Return(Box<Node>),
    BinaryOp {
        left: Box<Node>,
        op: Token,
        right: Box<Node>,
    },
    FnArgument {
        name: String,
        arg_type: TypeAnnotation,
    },
    FnDeclaration {
        name: String,
        args: Vec<Node>,
        return_type: Option<TypeAnnotation>,
        body: Vec<Node>,
    },
    FnCall {
        name: String,
        args: Vec<Node>,
    },
}

fn floats(node: AstNode) -> Node {
    match node {
        AstNode::Number(value) => Node::Number(value.text().parse::<f64>().unwrap()),
        AstNode::String(text) => Node::String(text),
        AstNode::Identifier(name) => Node::Identifier(name),
        AstNode::VarDeclaration {
            mutable,
            name,
            value,
            type_annotation,
        } => Node::VarDeclaration {
            mutable,
            name,
            value: Box::new(floats(*value)),
            type_annotation,
        },
        AstNode::VarAssignment { name, value } => Node::VarAssignment {
            name,
            value: Box::new(floats(*value)),
        },
        AstNode::TypeAnnotationNode(annotation) => Node::TypeAnnotationNode(annotation),
        AstNode::Return(value) => Node::Return(Box::new(floats(*value))),
        AstNode::BinaryOp { left, op, right } => Node::BinaryOp {
            left: Box::new(floats(*left)),
            op,
            right: Box::new(floats(*right)),
        },
        AstNode::FnArgument { name, arg_type } => Node::FnArgument { name, arg_type },
        AstNode::FnDeclaration {
            name,
            args,
            return_type,
            body,
        } => Node::FnDeclaration {
            name,
            args: args.into_iter().map(floats).collect(),
            return_type,
            body: body.into_iter().map(floats).collect(),
        },
        AstNode::FnCall { name, args } => Node::FnCall {
            name,
            args: args.into_iter().map(floats).collect(),
        },
    }
}

fn test_node_types(tokens: Vec<AstNode>, expected_types: Vec<Node>) {
    for (i, token) in tokens.into_iter().enumerate() {
        assert_eq!(floats(token), expected_types[i], "Mismatch at node {}", i);
    }
}

#[test]
pub fn syntax_tree_variable_math() {
    let file_content = r"
            mut a~int = 10;
            const b~float = 20.0;
            const c~int = a + b;
        ";

    let lexer = Token::lexer(file_content);
    let nodes = SyntaxTree::new(lexer).unwrap().build();

    assert!(
        nodes.is_ok(),
        "An error occurred with building the AST: `{}`",
        nodes.unwrap_err()
    );

    test_node_types(
        nodes.unwrap(),
        vec![
            Node::VarDeclaration {
                mutable: true,
                name: "a".to_string(),
                value: Box::from(Node::Number(10.0)),
                type_annotation: Option::from(TypeAnnotation::Int),
            },
            Node::VarDeclaration {
                mutable: false,
                name: "b".to_string(),
                value: Box::from(Node::Number(20.0)),
                type_annotation: Option::from(TypeAnnotation::Float),
            },
            Node::VarDeclaration {
                mutable: false,
                name: "c".to_string(),
                value: Box::from(Node::BinaryOp {
                    left: Box::from(Node::Identifier("a".to_string())),
                    op: Token::Plus,
                    right: Box::from(Node::Identifier("b".to_string())),
                }),
                type_annotation: Option::from(TypeAnnotation::Int),
            },
        ],
    );
}

#[test]
pub fn syntax_tree_math_parens() {
    let file_content = r"
            mut a~int = 10;
            const b~float = 20.0;
            const c~float = 2 * (a + b);
        ";

    let lexer = Token::lexer(file_content);
    let nodes = SyntaxTree::new(lexer).unwrap().build();

    assert!(
        nodes.is_ok(),
        "An error occurred with building the AST: `{}`",
        nodes.unwrap_err()
    );

    test_node_types(
        nodes.unwrap(),
        vec![
            Node::VarDeclaration {
                mutable: true,
                name: "a".to_string(),
                value: Box::from(Node::Number(10.0)),
                type_annotation: Option::from(TypeAnnotation::Int),
            },
            Node::VarDeclaration {
                mutable: false,
                name: "b".to_string(),
                value: Box::from(Node::Number(20.0)),
                type_annotation: Option::from(TypeAnnotation::Float),
            },
            Node::VarDeclaration {
                mutable: false,
                name: "c".to_string(),
                value: Box::from(Node::BinaryOp {
                    left: Box::from(Node::Number(2.0)),
                    op: Token::Star,
                    right: Box::from(Node::BinaryOp {
                        left: Box::from(Node::Identifier("a".to_string())),
                        op: Token::Plus,
                        right: Box::from(Node::Identifier("b".to_string())),
                    }),
                }),
                type_annotation: Option::from(TypeAnnotation::Float),
            },
        ],
    );
}

#[test]
pub fn syntax_tree_function() {
    let file_content = r"
            fn add(a ~ int, b ~ int) -> int {
                return a + b;
            }

            fn sub(a ~ int, b ~ int) -> int {
                return a - b;
            }

            add(2, 4);
        ";

    let lexer = Token::lexer(file_content);
    let nodes = SyntaxTree::new(lexer).unwrap().build();

    assert!(
        nodes.is_ok(),
        "An error occurred with building the AST: `{}`",
        nodes.unwrap_err()
    );

    test_node_types(
        nodes.unwrap(),
        vec![
            Node::FnDeclaration {
                name: "add".to_string(),
                args: vec![
                    Node::FnArgument {
                        name: "a".to_string(),
                        arg_type: TypeAnnotation::Int,
                    },
                    Node::FnArgument {
                        name: "b".to_string(),
                        arg_type: TypeAnnotation::Int,
                    },
                ],
                return_type: Option::from(TypeAnnotation::Int),
                body: vec![Node::Return(Box::from(Node::BinaryOp {
                    left: Box::from(Node::Identifier("a".to_string())),
                    op: Token::Plus,
                    right: Box::from(Node::Identifier("b".to_string())),
                }))],
            },
            Node::FnDeclaration {
                name: "sub".to_string(),
                args: vec![
                    Node::FnArgument {
                        name: "a".to_string(),
                        arg_type: TypeAnnotation::Int,
                    },
                    Node::FnArgument {
                        name: "b".to_string(),
                        arg_type: TypeAnnotation::Int,
                    },
                ],
                return_type: Option::from(TypeAnnotation::Int),
                body: vec![Node::Return(Box::from(Node::BinaryOp {
                    left: Box::from(Node::Identifier("a".to_string())),
                    op: Token::Minus,
                    right: Box::from(Node::Identifier("b".to_string())),
                }))],
            },
            Node::FnCall {
                name: "add".to_string(),
                args: vec![Node::Number(2.0), Node::Number(4.0)],
            },
        ],
    );
}
