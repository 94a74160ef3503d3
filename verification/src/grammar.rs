use vstd::prelude::*;
use crate::decimal::decimal_of;
use crate::lexer::Token;
use crate::syntax_tree::{AstNodeView, TypeAnnotationView};
use crate::text::decimal_text;

verus! {

/// A token sequence as the grammar sees it: each token's kind with its lexeme.
pub type Lexemes = Seq<(Token, Seq<char>)>;

/// What can be wrong with a token sequence.
#[derive(Debug, Clone, Copy, PartialEq, Eq, Structural)]
pub enum ParseErrorKind {
    ExpectedTypeAnnotation,
    ExpectedArgumentName,
    ExpectedTildeAfterArgument,
    ExpectedCommaOrParenAfterArgument,
    ExpectedFunctionName,
    ExpectedParenAfterFunctionName,
    ExpectedBodyStart,
    UnexpectedEndOfBody,
    ExpectedVariableName,
    ExpectedEquals,
    ExpectedSemicolonAfterDeclaration,
    ExpectedSemicolonAfterReturn,
    ExpectedSemicolonAfterExpression,
    ExpectedCommaOrParenInCall,
    ExpectedClosingParen,
    UnexpectedToken,
    UnexpectedEndOfInput,
}

/// A parse failure: what is wrong, and the index of the token at which it was
/// found. The index is the length of the sequence where the input ended early.
pub struct ParseFailure {
    pub kind: ParseErrorKind,
    pub position: nat,
}

/// What parsing from some index gives: a value with the number of tokens that
/// it took, or the first failure.
pub type Parsed<T> = Result<(T, nat), ParseFailure>;

/// The failure of kind `kind` at the token with index `position`.
pub open spec fn failure<T>(kind: ParseErrorKind, position: nat) -> Parsed<T> {
    Err(ParseFailure { kind, position })
}

/// The wording of each kind of failure.
pub open spec fn description(kind: ParseErrorKind) -> Seq<char> {
    match kind {
        ParseErrorKind::ExpectedTypeAnnotation => "Expected type annotation"@,
        ParseErrorKind::ExpectedArgumentName => "Expected argument name"@,
        ParseErrorKind::ExpectedTildeAfterArgument => "Expected '~' after argument name"@,
        ParseErrorKind::ExpectedCommaOrParenAfterArgument => "Expected ',' or ')' after function argument"@,
        ParseErrorKind::ExpectedFunctionName => "Expected function name after 'fn'"@,
        ParseErrorKind::ExpectedParenAfterFunctionName => "Expected '(' after function name"@,
        ParseErrorKind::ExpectedBodyStart => "Expected '{' to start function body"@,
        ParseErrorKind::UnexpectedEndOfBody => "Unexpected end of input while parsing function body"@,
        ParseErrorKind::ExpectedVariableName => "Expected variable name"@,
        ParseErrorKind::ExpectedEquals => "Expected `=` after var name"@,
        ParseErrorKind::ExpectedSemicolonAfterDeclaration => "Expected `;` at end of var decl"@,
        ParseErrorKind::ExpectedSemicolonAfterReturn => "Expected `;` after return statement"@,
        ParseErrorKind::ExpectedSemicolonAfterExpression => "Expected `;` after expression in function body"@,
        ParseErrorKind::ExpectedCommaOrParenInCall => "Expected ',' or ')' in function call arguments"@,
        ParseErrorKind::ExpectedClosingParen => "Expected `)`"@,
        ParseErrorKind::UnexpectedToken => "Unexpected expression"@,
        ParseErrorKind::UnexpectedEndOfInput => "Unexpected end of input"@,
    }
}

/// The message of a failure: its wording and the index of the token at which
/// it was found. For a token that can start no expression the message also
/// shows that token.
pub open spec fn failure_text(tokens: Lexemes, failure: ParseFailure) -> Seq<char> {
    if failure.kind == ParseErrorKind::UnexpectedToken && failure.position < tokens.len() {
        description(failure.kind) + " at `"@ + decimal_text(failure.position) + "`, `"@
            + tokens[failure.position as int].1 + "` "@
    } else {
        description(failure.kind) + " at "@ + decimal_text(failure.position)
    }
}

/// The kind of the token at index `i`; nothing past the end.
pub open spec fn kind_at(tokens: Lexemes, i: nat) -> Option<Token> {
    if i < tokens.len() {
        Some(tokens[i as int].0)
    } else {
        None
    }
}

/// The lexeme of the token at index `i`.
pub open spec fn lexeme_at(tokens: Lexemes, i: nat) -> Seq<char>
    recommends
        i < tokens.len(),
{
    tokens[i as int].1
}

/// How many tokens are left from index `i` on.
pub open spec fn tokens_left(tokens: Lexemes, i: nat) -> nat {
    if i < tokens.len() {
        (tokens.len() - i) as nat
    } else {
        0
    }
}

/// The operators that join two expressions.
pub open spec fn is_binary_operator(kind: Token) -> bool {
    kind == Token::Plus || kind == Token::Minus || kind == Token::Star || kind
        == Token::DoubleEquals || kind == Token::NotEquals || kind == Token::Equals
}

/// The type that a name stands for. The comparison is case-sensitive.
pub open spec fn type_annotation_of(name: Seq<char>) -> TypeAnnotationView {
    if name == "int"@ {
        TypeAnnotationView::Int
    } else if name == "float"@ {
        TypeAnnotationView::Float
    } else if name == "bool"@ {
        TypeAnnotationView::Bool
    } else if name == "string"@ {
        TypeAnnotationView::String
    } else {
        TypeAnnotationView::Custom(name)
    }
}

/// `s` with each backslash that stands before a double quote removed. No
/// other escape is touched.
pub open spec fn unescape_quotes(s: Seq<char>) -> Seq<char>
    decreases s.len(),
{
    if s.len() == 0 {
        Seq::empty()
    } else if s.len() >= 2 && s[0] == '\\' && s[1] == '"' {
        seq!['"'] + unescape_quotes(s.skip(2))
    } else {
        seq![s[0]] + unescape_quotes(s.skip(1))
    }
}

/// The text that a string literal stands for: the lexeme without its two
/// quotes, escaped quotes unescaped.
pub open spec fn string_value(lexeme: Seq<char>) -> Seq<char> {
    if lexeme.len() >= 2 {
        unescape_quotes(lexeme.subrange(1, lexeme.len() - 1))
    } else {
        Seq::empty()
    }
}

/// Turns an assignment-shaped expression, `=` with an identifier on its left,
/// into an assignment. Every other node is left as it is.
pub open spec fn reclassified(node: AstNodeView) -> AstNodeView {
    match node {
        AstNodeView::BinaryOp { left, op, right } => match *left {
            AstNodeView::Identifier(name) => if op == Token::Equals {
                AstNodeView::VarAssignment { name, value: right }
            } else {
                node
            },
            _ => node,
        },
        _ => node,
    }
}

/// A type annotation: one identifier, read as a type.
pub open spec fn spec_type_annotation(tokens: Lexemes, i: nat) -> Parsed<TypeAnnotationView> {
    if kind_at(tokens, i) == Some(Token::Literal) {
        Ok((type_annotation_of(lexeme_at(tokens, i)), 1))
    } else {
        failure(ParseErrorKind::ExpectedTypeAnnotation, i)
    }
}

/// An expression: a primary, then, where a binary operator follows, that
/// operator and a whole expression as its right side. So all operators have
/// one precedence and chains group to the right.
pub open spec fn spec_expression(tokens: Lexemes, i: nat) -> Parsed<AstNodeView>
    decreases tokens_left(tokens, i), 2nat,
{
    match spec_primary(tokens, i) {
        Err(f) => Err(f),
        Ok((left, n)) => match kind_at(tokens, i + n) {
            Some(op) => if is_binary_operator(op) {
                match spec_expression(tokens, i + n + 1) {
                    Err(f) => Err(f),
                    Ok((right, m)) => Ok(
                        (
                            AstNodeView::BinaryOp {
                                left: Box::new(left),
                                op,
                                right: Box::new(right),
                            },
                            n + 1 + m,
                        ),
                    ),
                }
            } else {
                Ok((left, n))
            },
            None => Ok((left, n)),
        },
    }
}

/// A primary: a number, a string, an identifier, a call, or an expression in
/// parentheses.
pub open spec fn spec_primary(tokens: Lexemes, i: nat) -> Parsed<AstNodeView>
    decreases tokens_left(tokens, i), 1nat,
{
    match kind_at(tokens, i) {
        Some(Token::NumberLiteral) => Ok(
            (AstNodeView::Number(decimal_of(lexeme_at(tokens, i))), 1),
        ),
        Some(Token::StringLiteral) => Ok(
            (AstNodeView::String(string_value(lexeme_at(tokens, i))), 1),
        ),
        Some(Token::Literal) => if kind_at(tokens, i + 1) == Some(Token::LeftParen) {
            match spec_call_arguments(tokens, i + 2) {
                Err(f) => Err(f),
                Ok((args, n)) => Ok(
                    (AstNodeView::FnCall { name: lexeme_at(tokens, i), args }, 2 + n),
                ),
            }
        } else {
            Ok((AstNodeView::Identifier(lexeme_at(tokens, i)), 1))
        },
        Some(Token::LeftParen) => match spec_expression(tokens, i + 1) {
            Err(f) => Err(f),
            Ok((inner, n)) => if kind_at(tokens, i + 1 + n) == Some(Token::RightParen) {
                Ok((inner, n + 2))
            } else {
                failure(ParseErrorKind::ExpectedClosingParen, i + 1 + n)
            },
        },
        Some(_) => failure(ParseErrorKind::UnexpectedToken, i),
        None => failure(ParseErrorKind::UnexpectedEndOfInput, i),
    }
}

/// The arguments of a call, from the token after its `(` up to its `)`.
pub open spec fn spec_call_arguments(tokens: Lexemes, i: nat) -> Parsed<Seq<AstNodeView>>
    decreases tokens_left(tokens, i), 4nat,
{
    if kind_at(tokens, i) == Some(Token::RightParen) {
        Ok((Seq::empty(), 1))
    } else {
        spec_call_argument_list(tokens, i)
    }
}

/// One or more expressions with a comma between each two, then a `)`.
pub open spec fn spec_call_argument_list(tokens: Lexemes, i: nat) -> Parsed<Seq<AstNodeView>>
    decreases tokens_left(tokens, i), 3nat,
{
    match spec_expression(tokens, i) {
        Err(f) => Err(f),
        Ok((argument, n)) => if kind_at(tokens, i + n) == Some(Token::Comma) {
            prepend(seq![argument], n + 1, spec_call_argument_list(tokens, i + n + 1))
        } else if kind_at(tokens, i + n) == Some(Token::RightParen) {
            Ok((seq![argument], n + 1))
        } else {
            failure(ParseErrorKind::ExpectedCommaOrParenInCall, i + n)
        },
    }
}

/// Puts `first`, which took `taken` tokens, in front of what was parsed after
/// it.
pub open spec fn prepend(
    first: Seq<AstNodeView>,
    taken: nat,
    rest: Parsed<Seq<AstNodeView>>,
) -> Parsed<Seq<AstNodeView>> {
    match rest {
        Ok((nodes, n)) => Ok((first + nodes, taken + n)),
        Err(f) => Err(f),
    }
}

/// Nothing in front changes nothing.
pub proof fn lemma_prepend_nothing(rest: Parsed<Seq<AstNodeView>>)
    ensures
        prepend(Seq::empty(), 0, rest) == rest,
{
    match rest {
        Ok((nodes, n)) => {
            assert(Seq::<AstNodeView>::empty() + nodes =~= nodes);
        },
        Err(_) => {},
    }
}

/// Two parts in front, one after the other, are one part in front.
pub proof fn lemma_prepend_twice(
    first: Seq<AstNodeView>,
    taken: nat,
    second: Seq<AstNodeView>,
    more: nat,
    rest: Parsed<Seq<AstNodeView>>,
)
    ensures
        prepend(first, taken, prepend(second, more, rest)) == prepend(
            first + second,
            taken + more,
            rest,
        ),
{
    match rest {
        Ok((nodes, n)) => {
            assert(first + (second + nodes) =~= (first + second) + nodes);
        },
        Err(_) => {},
    }
}

/// The parameters of a function declaration, from the token after its `(` up
/// to its `)`.
pub open spec fn spec_function_args(tokens: Lexemes, i: nat) -> Parsed<Seq<AstNodeView>> {
    if kind_at(tokens, i) == Some(Token::RightParen) {
        Ok((Seq::empty(), 1))
    } else {
        spec_parameter_list(tokens, i)
    }
}

/// One or more parameters, each a name, a `~` and a type, with a comma between
/// each two, then a `)`.
pub open spec fn spec_parameter_list(tokens: Lexemes, i: nat) -> Parsed<Seq<AstNodeView>>
    decreases tokens_left(tokens, i),
{
    if kind_at(tokens, i) != Some(Token::Literal) {
        failure(ParseErrorKind::ExpectedArgumentName, i)
    } else if kind_at(tokens, i + 1) != Some(Token::Tilde) {
        failure(ParseErrorKind::ExpectedTildeAfterArgument, i + 1)
    } else {
        match spec_type_annotation(tokens, i + 2) {
            Err(f) => Err(f),
            Ok((arg_type, n)) => {
                let parameter = AstNodeView::FnArgument { name: lexeme_at(tokens, i), arg_type };
                if kind_at(tokens, i + 2 + n) == Some(Token::Comma) {
                    prepend(seq![parameter], 2 + n + 1, spec_parameter_list(tokens, i + 2 + n + 1))
                } else if kind_at(tokens, i + 2 + n) == Some(Token::RightParen) {
                    Ok((seq![parameter], 2 + n + 1))
                } else {
                    failure(ParseErrorKind::ExpectedCommaOrParenAfterArgument, i + 2 + n)
                }
            },
        }
    }
}

/// An optional type annotation behind the token `mark`: nothing, taking no
/// token, where the token at `i` is not `mark`.
pub open spec fn spec_optional_type(tokens: Lexemes, i: nat, mark: Token) -> Parsed<
    Option<TypeAnnotationView>,
> {
    if kind_at(tokens, i) == Some(mark) {
        match spec_type_annotation(tokens, i + 1) {
            Err(f) => Err(f),
            Ok((annotation, n)) => Ok((Some(annotation), 1 + n)),
        }
    } else {
        Ok((None, 0))
    }
}

/// A variable declaration, from its `mut` or `const` on: a name, an optional
/// `~` and type, `=`, an expression and `;`.
pub open spec fn spec_variable_declaration(tokens: Lexemes, i: nat) -> Parsed<AstNodeView> {
    if kind_at(tokens, i + 1) != Some(Token::Literal) {
        failure(ParseErrorKind::ExpectedVariableName, i + 1)
    } else {
        match spec_optional_type(tokens, i + 2, Token::Tilde) {
            Err(f) => Err(f),
            Ok((type_annotation, k)) => if kind_at(tokens, i + 2 + k) != Some(Token::Equals) {
                failure(ParseErrorKind::ExpectedEquals, i + 2 + k)
            } else {
                match spec_expression(tokens, i + 2 + k + 1) {
                    Err(f) => Err(f),
                    Ok((value, n)) => if kind_at(tokens, i + 2 + k + 1 + n) != Some(
                        Token::Semicolon,
                    ) {
                        failure(
                            ParseErrorKind::ExpectedSemicolonAfterDeclaration,
                            i + 2 + k + 1 + n,
                        )
                    } else {
                        Ok(
                            (
                                AstNodeView::VarDeclaration {
                                    mutable: kind_at(tokens, i) == Some(Token::MutKeyword),
                                    name: lexeme_at(tokens, i + 1),
                                    value: Box::new(value),
                                    type_annotation,
                                },
                                2 + k + 1 + n + 1,
                            ),
                        )
                    },
                }
            },
        }
    }
}

/// A statement terminator after a statement that ended at `i`: a `;` is taken
/// where there is one; where there is none, the statement stands without it
/// unless `required` is set.
pub open spec fn spec_terminator(
    tokens: Lexemes,
    i: nat,
    required: bool,
    missing: ParseErrorKind,
) -> Parsed<()> {
    if kind_at(tokens, i) == Some(Token::Semicolon) {
        Ok(((), 1))
    } else if required {
        failure(missing, i)
    } else {
        Ok(((), 0))
    }
}

/// A return statement, from its `return` on: an expression and a terminator.
pub open spec fn spec_return(tokens: Lexemes, i: nat, terminated: bool) -> Parsed<AstNodeView> {
    match spec_expression(tokens, i + 1) {
        Err(f) => Err(f),
        Ok((value, n)) => match spec_terminator(
            tokens,
            i + 1 + n,
            terminated,
            ParseErrorKind::ExpectedSemicolonAfterReturn,
        ) {
            Err(f) => Err(f),
            Ok((_, k)) => Ok((AstNodeView::Return(Box::new(value)), 1 + n + k)),
        },
    }
}

/// An expression statement: an expression, reclassified where it has the
/// shape of an assignment, and a terminator.
pub open spec fn spec_expression_statement(tokens: Lexemes, i: nat, terminated: bool) -> Parsed<
    AstNodeView,
> {
    match spec_expression(tokens, i) {
        Err(f) => Err(f),
        Ok((expression, n)) => match spec_terminator(
            tokens,
            i + n,
            terminated,
            ParseErrorKind::ExpectedSemicolonAfterExpression,
        ) {
            Err(f) => Err(f),
            Ok((_, k)) => Ok((reclassified(expression), n + k)),
        },
    }
}

/// A statement, chosen by its first token. With `terminated` set, as it is
/// inside a function body, a return or expression statement needs its `;`.
pub open spec fn spec_statement(tokens: Lexemes, i: nat, terminated: bool) -> Parsed<AstNodeView>
    decreases tokens_left(tokens, i), 1nat,
{
    match kind_at(tokens, i) {
        Some(Token::MutKeyword) | Some(Token::ConstKeyword) => spec_variable_declaration(
            tokens,
            i,
        ),
        Some(Token::ReturnKeyword) => spec_return(tokens, i, terminated),
        Some(Token::FunctionKeyword) => spec_function_declaration(tokens, i),
        _ => spec_expression_statement(tokens, i, terminated),
    }
}

/// A function declaration, from its `fn` on: a name, the parameters in
/// parentheses, an optional `->` and return type, and the body.
pub open spec fn spec_function_declaration(tokens: Lexemes, i: nat) -> Parsed<AstNodeView>
    decreases tokens_left(tokens, i), 0nat,
{
    if kind_at(tokens, i + 1) != Some(Token::Literal) {
        failure(ParseErrorKind::ExpectedFunctionName, i + 1)
    } else if kind_at(tokens, i + 2) != Some(Token::LeftParen) {
        failure(ParseErrorKind::ExpectedParenAfterFunctionName, i + 2)
    } else {
        match spec_function_args(tokens, i + 3) {
            Err(f) => Err(f),
            Ok((args, n)) => match spec_optional_type(tokens, i + 3 + n, Token::To) {
                Err(f) => Err(f),
                Ok((return_type, k)) => match spec_function_body(tokens, i + 3 + n + k) {
                    Err(f) => Err(f),
                    Ok((body, m)) => Ok(
                        (
                            AstNodeView::FnDeclaration {
                                name: lexeme_at(tokens, i + 1),
                                args,
                                return_type,
                                body,
                            },
                            3 + n + k + m,
                        ),
                    ),
                },
            },
        }
    }
}

/// A function body: `{`, statements, each with its terminator, and `}`.
pub open spec fn spec_function_body(tokens: Lexemes, i: nat) -> Parsed<Seq<AstNodeView>>
    decreases tokens_left(tokens, i), 3nat,
{
    if kind_at(tokens, i) != Some(Token::LeftBrace) {
        failure(ParseErrorKind::ExpectedBodyStart, i)
    } else {
        prepend(Seq::empty(), 1, spec_block(tokens, i + 1))
    }
}

/// The statements of a function body up to its `}`, which is taken too.
pub open spec fn spec_block(tokens: Lexemes, i: nat) -> Parsed<Seq<AstNodeView>>
    decreases tokens_left(tokens, i), 2nat,
{
    if kind_at(tokens, i) == Some(Token::RightBrace) {
        Ok((Seq::empty(), 1))
    } else if i >= tokens.len() {
        failure(ParseErrorKind::UnexpectedEndOfBody, i)
    } else {
        match spec_statement(tokens, i, true) {
            Err(f) => Err(f),
            Ok((statement, n)) => prepend(
                seq![statement],
                at_least_one(n),
                spec_block(tokens, i + at_least_one(n)),
            ),
        }
    }
}

/// The number of tokens that a statement took. A statement takes at least one
/// token: written like this, the definitions that repeat statements are seen
/// to end.
pub open spec fn at_least_one(n: nat) -> nat {
    if n == 0 {
        1
    } else {
        n
    }
}

/// The statements from index `i` to the end of the tokens.
pub open spec fn spec_statements(tokens: Lexemes, i: nat) -> Parsed<Seq<AstNodeView>>
    decreases tokens_left(tokens, i),
{
    if i >= tokens.len() {
        Ok((Seq::empty(), 0))
    } else {
        match spec_statement(tokens, i, false) {
            Err(f) => Err(f),
            Ok((statement, n)) => prepend(
                seq![statement],
                at_least_one(n),
                spec_statements(tokens, i + at_least_one(n)),
            ),
        }
    }
}

/// The tree of a whole token sequence: its top-level statements in order, or
/// the first failure.
pub open spec fn spec_build(tokens: Lexemes) -> Result<Seq<AstNodeView>, ParseFailure> {
    match spec_statements(tokens, 0) {
        Ok((nodes, _)) => Ok(nodes),
        Err(f) => Err(f),
    }
}

/// An expression takes at least one token.
pub proof fn lemma_expression_takes(tokens: Lexemes, i: nat)
    ensures
        spec_primary(tokens, i) matches Ok((_, n)) ==> n >= 1,
        spec_expression(tokens, i) matches Ok((_, n)) ==> n >= 1,
{
}

/// A statement takes at least one token, so the cursor moves with each one.
pub proof fn lemma_statement_takes(tokens: Lexemes, i: nat, terminated: bool)
    ensures
        spec_statement(tokens, i, terminated) matches Ok((_, n)) ==> n >= 1 && at_least_one(n)
            == n,
{
    lemma_expression_takes(tokens, i);
}

} // verus!
