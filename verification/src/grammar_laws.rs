use vstd::prelude::*;
use crate::grammar::{
    is_binary_operator, kind_at, lemma_statement_takes, prepend, reclassified, spec_block,
    spec_build, spec_call_argument_list, spec_call_arguments, spec_expression,
    spec_function_args, spec_function_body, spec_function_declaration, spec_optional_type,
    spec_parameter_list, spec_primary, spec_statement, spec_statements, spec_type_annotation,
    spec_variable_declaration, tokens_left, Lexemes, Parsed,
};
use crate::lexer::Token;
use crate::syntax_tree::AstNodeView;

verus! {

/// Whether a parse from index `i` stayed inside the token sequence: a value
/// took no more tokens than there were, and a failure was found at a token
/// from `i` on or at the end of the sequence.
pub open spec fn is_within<T>(tokens: Lexemes, i: nat, r: Parsed<T>) -> bool {
    match r {
        Ok((_, n)) => i + n <= tokens.len(),
        Err(f) => i <= f.position <= tokens.len(),
    }
}

/// Whether the token at index `i`, if there is one, is no binary operator.
pub open spec fn ends_expression(tokens: Lexemes, i: nat) -> bool {
    match kind_at(tokens, i) {
        Some(kind) => !is_binary_operator(kind),
        None => true,
    }
}

/// Whether `node` is an expression: a number, a string, an identifier, a call
/// whose arguments are expressions, or a binary operation of two expressions
/// with one of the six binary operators.
pub open spec fn is_expression_node(node: AstNodeView) -> bool
    decreases node,
{
    match node {
        AstNodeView::Number(_) => true,
        AstNodeView::String(_) => true,
        AstNodeView::Identifier(_) => true,
        AstNodeView::BinaryOp { left, op, right } => is_binary_operator(op) && is_expression_node(
            *left,
        ) && is_expression_node(*right),
        AstNodeView::FnCall { name, args } => forall|k: int|
            0 <= k < args.len() ==> is_expression_node(#[trigger] args[k]),
        _ => false,
    }
}

/// Whether `node` has the shape of an assignment: `=` with an identifier on
/// its left.
pub open spec fn is_assignment_shaped(node: AstNodeView) -> bool {
    match node {
        AstNodeView::BinaryOp { left, op, right } => op == Token::Equals && *left
            is Identifier,
        _ => false,
    }
}

/// Whether `node` is a statement: a declaration, an assignment or a return
/// of an expression, a function declaration whose parameters are parameters
/// and whose body holds statements, or an expression that has not the shape
/// of an assignment.
pub open spec fn is_statement_node(node: AstNodeView) -> bool
    decreases node,
{
    match node {
        AstNodeView::VarDeclaration { mutable, name, value, type_annotation } => is_expression_node(
            *value,
        ),
        AstNodeView::VarAssignment { name, value } => is_expression_node(*value),
        AstNodeView::Return(value) => is_expression_node(*value),
        AstNodeView::FnDeclaration { name, args, return_type, body } => {
            &&& forall|k: int| 0 <= k < args.len() ==> (#[trigger] args[k]) is FnArgument
            &&& forall|k: int| 0 <= k < body.len() ==> is_statement_node(#[trigger] body[k])
        },
        _ => is_expression_node(node) && !is_assignment_shaped(node),
    }
}

/// Whether each node of `nodes` is an expression.
pub open spec fn are_expressions(nodes: Seq<AstNodeView>) -> bool {
    forall|k: int| 0 <= k < nodes.len() ==> is_expression_node(#[trigger] nodes[k])
}

/// Whether each node of `nodes` is a statement.
pub open spec fn are_statements(nodes: Seq<AstNodeView>) -> bool {
    forall|k: int| 0 <= k < nodes.len() ==> is_statement_node(#[trigger] nodes[k])
}

/// Whether each node of `nodes` is a parameter.
pub open spec fn are_parameters(nodes: Seq<AstNodeView>) -> bool {
    forall|k: int| 0 <= k < nodes.len() ==> (#[trigger] nodes[k]) is FnArgument
}

/// An expression stays inside the token sequence, is an expression node, and
/// goes as far as binary operators go: no binary operator follows it.
pub proof fn lemma_expression(tokens: Lexemes, i: nat)
    requires
        i <= tokens.len(),
    ensures
        is_within(tokens, i, spec_expression(tokens, i)),
        spec_expression(tokens, i) matches Ok((node, n)) ==> is_expression_node(node)
            && ends_expression(tokens, i + n),
    decreases tokens_left(tokens, i), 2nat,
{
    lemma_primary(tokens, i);
    match spec_primary(tokens, i) {
        Err(_) => {},
        Ok((left, n)) => match kind_at(tokens, i + n) {
            Some(op) => {
                if is_binary_operator(op) {
                    lemma_expression(tokens, i + n + 1);
                }
            },
            None => {},
        },
    }
}

/// A primary stays inside the token sequence and is an expression node.
pub proof fn lemma_primary(tokens: Lexemes, i: nat)
    requires
        i <= tokens.len(),
    ensures
        is_within(tokens, i, spec_primary(tokens, i)),
        spec_primary(tokens, i) matches Ok((node, n)) ==> is_expression_node(node),
    decreases tokens_left(tokens, i), 1nat,
{
    match kind_at(tokens, i) {
        Some(Token::Literal) => {
            if kind_at(tokens, i + 1) == Some(Token::LeftParen) {
                lemma_call_arguments(tokens, i + 2);
            }
        },
        Some(Token::LeftParen) => {
            lemma_expression(tokens, i + 1);
        },
        _ => {},
    }
}

/// The arguments of a call stay inside the token sequence and are
/// expression nodes.
pub proof fn lemma_call_arguments(tokens: Lexemes, i: nat)
    requires
        i <= tokens.len(),
    ensures
        is_within(tokens, i, spec_call_arguments(tokens, i)),
        spec_call_arguments(tokens, i) matches Ok((nodes, n)) ==> are_expressions(nodes),
    decreases tokens_left(tokens, i), 4nat,
{
    if kind_at(tokens, i) != Some(Token::RightParen) {
        lemma_call_argument_list(tokens, i);
    }
}

/// A list of call arguments stays inside the token sequence and holds
/// expression nodes.
pub proof fn lemma_call_argument_list(tokens: Lexemes, i: nat)
    requires
        i <= tokens.len(),
    ensures
        is_within(tokens, i, spec_call_argument_list(tokens, i)),
        spec_call_argument_list(tokens, i) matches Ok((nodes, n)) ==> are_expressions(nodes),
    decreases tokens_left(tokens, i), 3nat,
{
    lemma_expression(tokens, i);
    match spec_expression(tokens, i) {
        Err(_) => {},
        Ok((argument, n)) => {
            if kind_at(tokens, i + n) == Some(Token::Comma) {
                lemma_call_argument_list(tokens, i + n + 1);
                match spec_call_argument_list(tokens, i + n + 1) {
                    Ok((rest, m)) => {
                        let nodes = seq![argument] + rest;
                        assert forall|k: int| 0 <= k < nodes.len() implies is_expression_node(
                            #[trigger] nodes[k],
                        ) by {
                            if k > 0 {
                                assert(nodes[k] == rest[k - 1]);
                            }
                        }
                    },
                    Err(_) => {},
                }
            }
        },
    }
}

/// The parameters of a declaration stay inside the token sequence and are
/// parameter nodes.
pub proof fn lemma_function_args(tokens: Lexemes, i: nat)
    requires
        i <= tokens.len(),
    ensures
        is_within(tokens, i, spec_function_args(tokens, i)),
        spec_function_args(tokens, i) matches Ok((nodes, n)) ==> are_parameters(nodes),
{
    if kind_at(tokens, i) != Some(Token::RightParen) {
        lemma_parameter_list(tokens, i);
    }
}

/// A list of parameters stays inside the token sequence and holds parameter
/// nodes.
pub proof fn lemma_parameter_list(tokens: Lexemes, i: nat)
    requires
        i <= tokens.len(),
    ensures
        is_within(tokens, i, spec_parameter_list(tokens, i)),
        spec_parameter_list(tokens, i) matches Ok((nodes, n)) ==> are_parameters(nodes),
    decreases tokens_left(tokens, i),
{
    if kind_at(tokens, i) == Some(Token::Literal) && kind_at(tokens, i + 1) == Some(Token::Tilde) {
        match spec_type_annotation(tokens, i + 2) {
            Err(_) => {},
            Ok((arg_type, n)) => {
                if kind_at(tokens, i + 2 + n) == Some(Token::Comma) {
                    lemma_parameter_list(tokens, i + 2 + n + 1);
                    match spec_parameter_list(tokens, i + 2 + n + 1) {
                        Ok((rest, m)) => {
                            let nodes = prepend(
                                seq![
                                    AstNodeView::FnArgument { name: tokens[i as int].1, arg_type },
                                ],
                                2 + n + 1,
                                spec_parameter_list(tokens, i + 2 + n + 1),
                            )->Ok_0.0;
                            assert forall|k: int| 0 <= k < nodes.len() implies (
                            #[trigger] nodes[k]) is FnArgument by {
                                if k > 0 {
                                    assert(nodes[k] == rest[k - 1]);
                                }
                            }
                        },
                        Err(_) => {},
                    }
                }
            },
        }
    }
}

/// Reclassifying an expression gives a statement.
pub proof fn lemma_reclassified(node: AstNodeView)
    requires
        is_expression_node(node),
    ensures
        is_statement_node(reclassified(node)),
        !is_assignment_shaped(reclassified(node)),
        !is_assignment_shaped(node) ==> reclassified(node) == node,
{
}

/// A statement stays inside the token sequence and is a statement node.
pub proof fn lemma_statement(tokens: Lexemes, i: nat, terminated: bool)
    requires
        i <= tokens.len(),
    ensures
        is_within(tokens, i, spec_statement(tokens, i, terminated)),
        spec_statement(tokens, i, terminated) matches Ok((node, n)) ==> is_statement_node(node),
    decreases tokens_left(tokens, i), 1nat,
{
    match kind_at(tokens, i) {
        Some(Token::MutKeyword) | Some(Token::ConstKeyword) => {
            lemma_variable_declaration(tokens, i);
        },
        Some(Token::ReturnKeyword) => {
            lemma_expression(tokens, i + 1);
        },
        Some(Token::FunctionKeyword) => {
            lemma_function_declaration(tokens, i);
        },
        _ => {
            lemma_expression(tokens, i);
            match spec_expression(tokens, i) {
                Ok((expression, n)) => {
                    lemma_reclassified(expression);
                },
                Err(_) => {},
            }
        },
    }
}

/// A variable declaration stays inside the token sequence and is a
/// statement node.
pub proof fn lemma_variable_declaration(tokens: Lexemes, i: nat)
    requires
        i < tokens.len(),
    ensures
        is_within(tokens, i, spec_variable_declaration(tokens, i)),
        spec_variable_declaration(tokens, i) matches Ok((node, n)) ==> is_statement_node(node),
{
    if kind_at(tokens, i + 1) == Some(Token::Literal) {
        match spec_optional_type(tokens, i + 2, Token::Tilde) {
            Err(_) => {},
            Ok((_, k)) => {
                if kind_at(tokens, i + 2 + k) == Some(Token::Equals) {
                    lemma_expression(tokens, i + 2 + k + 1);
                }
            },
        }
    }
}

/// A function declaration stays inside the token sequence and is a
/// statement node.
pub proof fn lemma_function_declaration(tokens: Lexemes, i: nat)
    requires
        i < tokens.len(),
    ensures
        is_within(tokens, i, spec_function_declaration(tokens, i)),
        spec_function_declaration(tokens, i) matches Ok((node, n)) ==> is_statement_node(node),
    decreases tokens_left(tokens, i), 0nat,
{
    if kind_at(tokens, i + 1) == Some(Token::Literal) && kind_at(tokens, i + 2) == Some(
        Token::LeftParen,
    ) {
        lemma_function_args(tokens, i + 3);
        match spec_function_args(tokens, i + 3) {
            Err(_) => {},
            Ok((args, n)) => match spec_optional_type(tokens, i + 3 + n, Token::To) {
                Err(_) => {},
                Ok((_, k)) => {
                    lemma_function_body(tokens, i + 3 + n + k);
                },
            },
        }
    }
}

/// A function body stays inside the token sequence and holds statement
/// nodes.
pub proof fn lemma_function_body(tokens: Lexemes, i: nat)
    requires
        i <= tokens.len(),
    ensures
        is_within(tokens, i, spec_function_body(tokens, i)),
        spec_function_body(tokens, i) matches Ok((nodes, n)) ==> are_statements(nodes),
    decreases tokens_left(tokens, i), 3nat,
{
    if kind_at(tokens, i) == Some(Token::LeftBrace) {
        lemma_block(tokens, i + 1);
        match spec_block(tokens, i + 1) {
            Ok((nodes, n)) => {
                assert(Seq::<AstNodeView>::empty() + nodes =~= nodes);
            },
            Err(_) => {},
        }
    }
}

/// The statements of a body stay inside the token sequence and are statement
/// nodes.
pub proof fn lemma_block(tokens: Lexemes, i: nat)
    requires
        i <= tokens.len(),
    ensures
        is_within(tokens, i, spec_block(tokens, i)),
        spec_block(tokens, i) matches Ok((nodes, n)) ==> are_statements(nodes),
    decreases tokens_left(tokens, i), 2nat,
{
    if kind_at(tokens, i) != Some(Token::RightBrace) && i < tokens.len() {
        lemma_statement(tokens, i, true);
        lemma_statement_takes(tokens, i, true);
        match spec_statement(tokens, i, true) {
            Err(_) => {},
            Ok((statement, n)) => {
                lemma_block(tokens, i + n);
                match spec_block(tokens, i + n) {
                    Ok((rest, m)) => {
                        let nodes = seq![statement] + rest;
                        assert forall|k: int| 0 <= k < nodes.len() implies is_statement_node(
                            #[trigger] nodes[k],
                        ) by {
                            if k > 0 {
                                assert(nodes[k] == rest[k - 1]);
                            }
                        }
                    },
                    Err(_) => {},
                }
            },
        }
    }
}

/// The statements from an index on take every token up to the end, and are
/// statement nodes.
pub proof fn lemma_statements(tokens: Lexemes, i: nat)
    requires
        i <= tokens.len(),
    ensures
        is_within(tokens, i, spec_statements(tokens, i)),
        spec_statements(tokens, i) matches Ok((nodes, n)) ==> i + n == tokens.len()
            && are_statements(nodes),
    decreases tokens_left(tokens, i),
{
    if i < tokens.len() {
        lemma_statement(tokens, i, false);
        lemma_statement_takes(tokens, i, false);
        match spec_statement(tokens, i, false) {
            Err(_) => {},
            Ok((statement, n)) => {
                lemma_statements(tokens, i + n);
                match spec_statements(tokens, i + n) {
                    Ok((rest, m)) => {
                        let nodes = seq![statement] + rest;
                        assert forall|k: int| 0 <= k < nodes.len() implies is_statement_node(
                            #[trigger] nodes[k],
                        ) by {
                            if k > 0 {
                                assert(nodes[k] == rest[k - 1]);
                            }
                        }
                    },
                    Err(_) => {},
                }
            },
        }
    }
}

/// A tree that was built holds statements only, and a failure to build one
/// was found at a token of the sequence or at its end.
pub proof fn lemma_build(tokens: Lexemes)
    ensures
        match spec_build(tokens) {
            Ok(nodes) => are_statements(nodes),
            Err(f) => f.position <= tokens.len(),
        },
{
    lemma_statements(tokens, 0);
}

} // verus!
