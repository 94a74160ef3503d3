use vstd::prelude::*;
use vstd::string::*;
use crate::errors::Errors;
use crate::grammar::{
    description, failure_text, is_binary_operator, kind_at, lemma_prepend_nothing,
    lemma_prepend_twice, lemma_statement_takes, lexeme_at, prepend, reclassified, spec_block,
    spec_build, spec_call_argument_list, spec_call_arguments, spec_expression,
    spec_expression_statement, spec_function_args, spec_function_body, spec_function_declaration,
    spec_optional_type, spec_parameter_list, spec_primary, spec_return, spec_statement,
    spec_statements, spec_terminator, spec_type_annotation, spec_variable_declaration,
    string_value, tokens_left, unescape_quotes, Lexemes, ParseErrorKind, ParseFailure, Parsed,
};
use crate::lexer::Lexer;
use crate::lexical::{is_token_sequence, lemma_kind_pattern, lexemes_of, token_kind, tokenize};
use crate::text::decimal_string;
use crate::decimal::{Decimal, DecimalView};
use crate::lexer::Token;

verus! {

/// A type written in the source: one of the built-in types, or the name of a
/// user-defined one.
#[derive(Debug, Clone, PartialEq)]
pub enum TypeAnnotation {
    Int,
    Float,
    Bool,
    String,
    Custom(String),
}

/// The mathematical value of a [`TypeAnnotation`].
pub enum TypeAnnotationView {
    Int,
    Float,
    Bool,
    String,
    Custom(Seq<char>),
}

impl View for TypeAnnotation {
    type V = TypeAnnotationView;

    open spec fn view(&self) -> TypeAnnotationView {
        match self {
            TypeAnnotation::Int => TypeAnnotationView::Int,
            TypeAnnotation::Float => TypeAnnotationView::Float,
            TypeAnnotation::Bool => TypeAnnotationView::Bool,
            TypeAnnotation::String => TypeAnnotationView::String,
            TypeAnnotation::Custom(name) => TypeAnnotationView::Custom(name@),
        }
    }
}

/// A node of the syntax tree. Each node owns its children.
#[derive(Debug, PartialEq)]
pub enum AstNode {
    /// A numeric literal.
    Number(Decimal),
    /// A string literal: its text without the quotes, escaped quotes
    /// unescaped.
    String(String),
    /// A name that stands for a value.
    Identifier(String),
    /// A declaration with `mut`, which may be assigned again, or with
    /// `const`, which may not.
    VarDeclaration {
        mutable: bool,
        name: String,
        value: Box<AstNode>,
        type_annotation: Option<TypeAnnotation>,
    },
    /// An assignment to a name.
    VarAssignment { name: String, value: Box<AstNode> },
    /// A type annotation by itself.
    TypeAnnotationNode(TypeAnnotation),
    /// A return statement.
    Return(Box<AstNode>),
    /// Two expressions joined by one of `+`, `-`, `*`, `==`, `!=` and `=`.
    BinaryOp { left: Box<AstNode>, op: Token, right: Box<AstNode> },
    /// A parameter of a function declaration.
    FnArgument { name: String, arg_type: TypeAnnotation },
    /// A function declaration. No return type means that none was written.
    FnDeclaration {
        name: String,
        args: Vec<AstNode>,
        return_type: Option<TypeAnnotation>,
        body: Vec<AstNode>,
    },
    /// A call of a function by its name.
    FnCall { name: String, args: Vec<AstNode> },
}

/// The mathematical value of an [`AstNode`].
pub enum AstNodeView {
    Number(DecimalView),
    String(Seq<char>),
    Identifier(Seq<char>),
    VarDeclaration {
        mutable: bool,
        name: Seq<char>,
        value: Box<AstNodeView>,
        type_annotation: Option<TypeAnnotationView>,
    },
    VarAssignment { name: Seq<char>, value: Box<AstNodeView> },
    TypeAnnotationNode(TypeAnnotationView),
    Return(Box<AstNodeView>),
    BinaryOp { left: Box<AstNodeView>, op: Token, right: Box<AstNodeView> },
    FnArgument { name: Seq<char>, arg_type: TypeAnnotationView },
    FnDeclaration {
        name: Seq<char>,
        args: Seq<AstNodeView>,
        return_type: Option<TypeAnnotationView>,
        body: Seq<AstNodeView>,
    },
    FnCall { name: Seq<char>, args: Seq<AstNodeView> },
}

impl AstNode {
    /// The value of the node: its own fields and the values of its children.
    pub open spec fn model(self) -> AstNodeView
        decreases self,
    {
        match self {
            AstNode::Number(value) => AstNodeView::Number(value@),
            AstNode::String(text) => AstNodeView::String(text@),
            AstNode::Identifier(name) => AstNodeView::Identifier(name@),
            AstNode::VarDeclaration { mutable, name, value, type_annotation } => {
                AstNodeView::VarDeclaration {
                    mutable,
                    name: name@,
                    value: Box::new(value.model()),
                    type_annotation: type_view(type_annotation),
                }
            },
            AstNode::VarAssignment { name, value } => AstNodeView::VarAssignment {
                name: name@,
                value: Box::new(value.model()),
            },
            AstNode::TypeAnnotationNode(annotation) => AstNodeView::TypeAnnotationNode(
                annotation@,
            ),
            AstNode::Return(value) => AstNodeView::Return(Box::new(value.model())),
            AstNode::BinaryOp { left, op, right } => AstNodeView::BinaryOp {
                left: Box::new(left.model()),
                op,
                right: Box::new(right.model()),
            },
            AstNode::FnArgument { name, arg_type } => AstNodeView::FnArgument {
                name: name@,
                arg_type: arg_type@,
            },
            AstNode::FnDeclaration { name, args, return_type, body } => {
                AstNodeView::FnDeclaration {
                    name: name@,
                    args: Self::models(args),
                    return_type: type_view(return_type),
                    body: Self::models(body),
                }
            },
            AstNode::FnCall { name, args } => AstNodeView::FnCall {
                name: name@,
                args: Self::models(args),
            },
        }
    }

    /// The values of the nodes of a list, in its order.
    pub open spec fn models(nodes: Vec<AstNode>) -> Seq<AstNodeView>
        decreases nodes,
    {
        Seq::new(
            nodes.len() as nat,
            |i: int|
                if 0 <= i < nodes.len() {
                    nodes[i].model()
                } else {
                    arbitrary()
                },
        )
    }
}

impl View for AstNode {
    type V = AstNodeView;

    open spec fn view(&self) -> AstNodeView {
        self.model()
    }
}

/// The value of an optional type annotation.
pub open spec fn type_view(annotation: Option<TypeAnnotation>) -> Option<TypeAnnotationView> {
    match annotation {
        Some(annotation) => Some(annotation@),
        None => None,
    }
}

/// The value of a list grows with the list.
pub proof fn lemma_models_push(before: Vec<AstNode>, after: Vec<AstNode>, node: AstNode)
    requires
        after@ == before@.push(node),
    ensures
        AstNode::models(after) == AstNode::models(before).push(node@),
{
    assert(AstNode::models(after) =~= AstNode::models(before).push(node@));
}

/// What a parsing function returned, as the grammar states it: the values
/// of the nodes, or the text of the message.
pub open spec fn node_outcome(r: Result<AstNode, String>) -> Result<AstNodeView, Seq<char>> {
    match r {
        Ok(node) => Ok(node@),
        Err(message) => Err(message@),
    }
}

/// What a function that parses a list of nodes returned.
pub open spec fn nodes_outcome(r: Result<Vec<AstNode>, String>) -> Result<
    Seq<AstNodeView>,
    Seq<char>,
> {
    match r {
        Ok(nodes) => Ok(AstNode::models(nodes)),
        Err(message) => Err(message@),
    }
}

/// What a function that parses a type annotation returned.
pub open spec fn type_outcome(r: Result<TypeAnnotation, String>) -> Result<
    TypeAnnotationView,
    Seq<char>,
> {
    match r {
        Ok(annotation) => Ok(annotation@),
        Err(message) => Err(message@),
    }
}

/// What a function that parses an optional type annotation returned.
pub open spec fn optional_type_outcome(r: Result<Option<TypeAnnotation>, String>) -> Result<
    Option<TypeAnnotationView>,
    Seq<char>,
> {
    match r {
        Ok(annotation) => Ok(type_view(annotation)),
        Err(message) => Err(message@),
    }
}

/// What a function that parses a token without a value returned.
pub open spec fn unit_outcome(r: Result<(), String>) -> Result<(), Seq<char>> {
    match r {
        Ok(_) => Ok(()),
        Err(message) => Err(message@),
    }
}

/// Whether a parsing function that started at token `start` did what the
/// grammar says of that place. Where the grammar gives a value, the function
/// returned it and moved the cursor past the tokens that it took. Where the
/// grammar gives a failure, the function returned its message and left the
/// cursor on the token at which the failure was found.
pub open spec fn is_outcome<V>(
    tokens: Lexemes,
    expected: Parsed<V>,
    start: nat,
    end: nat,
    got: Result<V, Seq<char>>,
) -> bool {
    match expected {
        Ok((value, taken)) => got == Ok::<V, Seq<char>>(value) && end == start + taken,
        Err(f) => got == Err::<V, Seq<char>>(failure_text(tokens, f)) && end == f.position,
    }
}

/// A token sequence to build a tree from. Its tokens come from a tokenizer, so
/// each has the kind that its lexeme spells.
pub struct SyntaxTree {
    lexer_tokens: Vec<(Token, String)>,
}

impl View for SyntaxTree {
    type V = Lexemes;

    closed spec fn view(&self) -> Lexemes {
        lexemes_of(self.lexer_tokens@)
    }
}

/// The wording of each kind of failure.
fn describe(kind: ParseErrorKind) -> (s: &'static str)
    ensures
        s@ == description(kind),
{
    match kind {
        ParseErrorKind::ExpectedTypeAnnotation => "Expected type annotation",
        ParseErrorKind::ExpectedArgumentName => "Expected argument name",
        ParseErrorKind::ExpectedTildeAfterArgument => "Expected '~' after argument name",
        ParseErrorKind::ExpectedCommaOrParenAfterArgument => "Expected ',' or ')' after function argument",
        ParseErrorKind::ExpectedFunctionName => "Expected function name after 'fn'",
        ParseErrorKind::ExpectedParenAfterFunctionName => "Expected '(' after function name",
        ParseErrorKind::ExpectedBodyStart => "Expected '{' to start function body",
        ParseErrorKind::UnexpectedEndOfBody => "Unexpected end of input while parsing function body",
        ParseErrorKind::ExpectedVariableName => "Expected variable name",
        ParseErrorKind::ExpectedEquals => "Expected `=` after var name",
        ParseErrorKind::ExpectedSemicolonAfterDeclaration => "Expected `;` at end of var decl",
        ParseErrorKind::ExpectedSemicolonAfterReturn => "Expected `;` after return statement",
        ParseErrorKind::ExpectedSemicolonAfterExpression => "Expected `;` after expression in function body",
        ParseErrorKind::ExpectedCommaOrParenInCall => "Expected ',' or ')' in function call arguments",
        ParseErrorKind::ExpectedClosingParen => "Expected `)`",
        ParseErrorKind::UnexpectedToken => "Unexpected expression",
        ParseErrorKind::UnexpectedEndOfInput => "Unexpected end of input",
    }
}

/// Unescaping goes through a text piece by piece.
proof fn lemma_unescape_step(s: Seq<char>, k: int)
    requires
        0 <= k < s.len(),
    ensures
        k + 1 < s.len() && s[k] == '\\' && s[k + 1] == '"' ==> unescape_quotes(s.skip(k)) == seq![
            '"',
        ] + unescape_quotes(s.skip(k + 2)),
        !(k + 1 < s.len() && s[k] == '\\' && s[k + 1] == '"') ==> unescape_quotes(s.skip(k))
            == seq![s[k]] + unescape_quotes(s.skip(k + 1)),
{
    assert(s.skip(k).skip(1) =~= s.skip(k + 1));
    if k + 1 < s.len() {
        assert(s.skip(k).skip(2) =~= s.skip(k + 2));
    }
}

/// The text that the string literal `lexeme` stands for.
pub fn string_value_of(lexeme: &str) -> (value: String)
    ensures
        value@ == string_value(lexeme@),
{
    let chars = crate::text::chars_of(lexeme);
    let n = chars.len();
    if n < 2 {
        return String::new();
    }
    let inner = vstd::slice::slice_subrange(chars.as_slice(), 1, n - 1);
    let m = inner.len();
    let mut out: Vec<char> = Vec::new();
    let mut k: usize = 0;
    proof {
        assert(inner@.skip(0) =~= inner@);
    }
    while k < m
        invariant
            k <= m,
            m == inner@.len(),
            out@ + unescape_quotes(inner@.skip(k as int)) == unescape_quotes(inner@),
        decreases m - k,
    {
        proof {
            lemma_unescape_step(inner@, k as int);
        }
        let ghost before = out@;
        if k + 1 < m && inner[k] == '\\' && inner[k + 1] == '"' {
            out.push('"');
            proof {
                assert(out@ + unescape_quotes(inner@.skip(k + 2)) =~= before + (seq!['"']
                    + unescape_quotes(inner@.skip(k + 2))));
            }
            k += 2;
        } else {
            out.push(inner[k]);
            proof {
                assert(out@ + unescape_quotes(inner@.skip(k + 1)) =~= before + (seq![inner@[k as int]]
                    + unescape_quotes(inner@.skip(k + 1))));
            }
            k += 1;
        }
    }
    proof {
        assert(inner@.skip(m as int) =~= Seq::<char>::empty());
        assert(out@ + Seq::<char>::empty() =~= out@);
    }
    crate::text::string_of(out.as_slice())
}

/// Whether `kind` is an operator that joins two expressions.
pub fn binary_operator(kind: Token) -> (b: bool)
    ensures
        b == is_binary_operator(kind),
{
    kind == Token::Plus || kind == Token::Minus || kind == Token::Star || kind
        == Token::DoubleEquals || kind == Token::NotEquals || kind == Token::Equals
}

/// Turns an assignment-shaped expression, `=` with an identifier on its left,
/// into an assignment, and leaves every other node as it is.
pub fn reclassify(node: AstNode) -> (r: AstNode)
    ensures
        r@ == reclassified(node@),
{
    proof {
        reveal_with_fuel(AstNode::model, 3);
    }
    match node {
        AstNode::BinaryOp { left, op, right } => {
            match *left {
                AstNode::Identifier(name) => {
                    if op == Token::Equals {
                        AstNode::VarAssignment { name, value: right }
                    } else {
                        AstNode::BinaryOp { left: Box::new(AstNode::Identifier(name)), op, right }
                    }
                },
                other => AstNode::BinaryOp { left: Box::new(other), op, right },
            }
        },
        other => other,
    }
}

impl SyntaxTree {
    #[verifier::type_invariant]
    spec fn well_formed(self) -> bool {
        is_token_sequence(lexemes_of(self.lexer_tokens@))
    }

    /// Takes all the tokens of `lexer`. Text that starts no token stops the
    /// run: no tree is built from a part of the source.
    pub fn new(lexer: Lexer) -> (r: Result<SyntaxTree, Errors>)
        ensures
            match r {
                Ok(tree) => tokenize(lexer.remaining()) == Ok::<Lexemes, Seq<char>>(tree@)
                    && is_token_sequence(tree@),
                Err(Errors::InvalidToken(text)) => tokenize(lexer.remaining()) == Err::<
                    Lexemes,
                    Seq<char>,
                >(text@),
                Err(_) => false,
            },
    {
        match lexer.tokens() {
            Ok(lexer_tokens) => Ok(SyntaxTree { lexer_tokens }),
            Err(text) => Err(Errors::InvalidToken(text)),
        }
    }

    /// The kind of the token at index `i`, if there is one.
    #[inline]
    pub fn peek(&self, i: usize) -> (r: Option<&Token>)
        ensures
            match r {
                Some(kind) => kind_at(self@, i as nat) == Some(*kind),
                None => kind_at(self@, i as nat) is None,
            },
    {
        if i < self.lexer_tokens.len() {
            Some(&self.lexer_tokens[i].0)
        } else {
            None
        }
    }

    /// The kind of the token at index `i`, if there is one.
    fn kind(&self, i: usize) -> (r: Option<Token>)
        ensures
            r == kind_at(self@, i as nat),
            r is Some ==> i < self.lexer_tokens.len(),
            r is Some ==> i < self@.len(),
    {
        if i < self.lexer_tokens.len() {
            Some(self.lexer_tokens[i].0)
        } else {
            None
        }
    }

    /// Whether the token at index `i` is of kind `kind`.
    fn at(&self, i: usize, kind: Token) -> (b: bool)
        ensures
            b == (kind_at(self@, i as nat) == Some(kind)),
            b ==> i < self.lexer_tokens.len(),
    {
        i < self.lexer_tokens.len() && self.lexer_tokens[i].0 == kind
    }

    /// The lexeme of the token at index `i`.
    fn lexeme(&self, i: usize) -> (s: String)
        requires
            i < self@.len(),
        ensures
            s@ == lexeme_at(self@, i as nat),
            token_kind(s@) == kind_at(self@, i as nat),
    {
        proof {
            use_type_invariant(self);
            assert(self@[i as int] == (self.lexer_tokens[i as int].0, self.lexer_tokens[i as int].1@));
        }
        self.lexer_tokens[i].1.clone()
    }

    /// The message of the failure of kind `kind` at token `i`.
    fn message(&self, kind: ParseErrorKind, i: usize) -> (message: String)
        ensures
            message@ == failure_text(self@, ParseFailure { kind, position: i as nat }),
    {
        let mut message = String::from_str(describe(kind));
        if kind == ParseErrorKind::UnexpectedToken && i < self.lexer_tokens.len() {
            message.append(" at `");
            message.append(decimal_string(i).as_str());
            message.append("`, `");
            message.append(self.lexer_tokens[i].1.as_str());
            message.append("` ");
        } else {
            message.append(" at ");
            message.append(decimal_string(i).as_str());
        }
        message
    }

    /// Parses a type annotation: one identifier, read as a type.
    pub fn parse_type_annotation(&self, i: &mut usize) -> (r: Result<TypeAnnotation, String>)
        ensures
            is_outcome(
                self@,
                spec_type_annotation(self@, *old(i) as nat),
                *old(i) as nat,
                *final(i) as nat,
                type_outcome(r),
            ),
    {
        if self.at(*i, Token::Literal) {
            let spelled = self.lexeme(*i);
            *i += 1;
            if spelled == String::from_str("int") {
                Ok(TypeAnnotation::Int)
            } else if spelled == String::from_str("float") {
                Ok(TypeAnnotation::Float)
            } else if spelled == String::from_str("bool") {
                Ok(TypeAnnotation::Bool)
            } else if spelled == String::from_str("string") {
                Ok(TypeAnnotation::String)
            } else {
                Ok(TypeAnnotation::Custom(spelled))
            }
        } else {
            Err(self.message(ParseErrorKind::ExpectedTypeAnnotation, *i))
        }
    }

    /// Parses an expression: a primary and, where a binary operator follows,
    /// that operator and a whole expression as its right side.
    pub fn parse_expression(&self, i: &mut usize) -> (r: Result<AstNode, String>)
        ensures
            is_outcome(
                self@,
                spec_expression(self@, *old(i) as nat),
                *old(i) as nat,
                *final(i) as nat,
                node_outcome(r),
            ),
        decreases tokens_left(self@, *old(i) as nat), 2nat,
    {
        let left = self.parse_primary(i)?;
        match self.kind(*i) {
            Some(op) => {
                if binary_operator(op) {
                    *i += 1;
                    let right = self.parse_expression(i)?;
                    Ok(AstNode::BinaryOp { left: Box::new(left), op, right: Box::new(right) })
                } else {
                    Ok(left)
                }
            },
            None => Ok(left),
        }
    }

    /// Parses a primary: a number, a string, an identifier, a call, or an
    /// expression in parentheses.
    pub fn parse_primary(&self, i: &mut usize) -> (r: Result<AstNode, String>)
        ensures
            is_outcome(
                self@,
                spec_primary(self@, *old(i) as nat),
                *old(i) as nat,
                *final(i) as nat,
                node_outcome(r),
            ),
        decreases tokens_left(self@, *old(i) as nat), 1nat,
    {
        match self.kind(*i) {
            Some(Token::NumberLiteral) => {
                let text = self.lexeme(*i);
                *i += 1;
                proof {
                    lemma_kind_pattern(text@);
                }
                Ok(AstNode::Number(Decimal::from_lexeme(text)))
            },
            Some(Token::StringLiteral) => {
                let raw = self.lexeme(*i);
                *i += 1;
                Ok(AstNode::String(string_value_of(raw.as_str())))
            },
            Some(Token::Literal) => {
                let name = self.lexeme(*i);
                *i += 1;
                if self.at(*i, Token::LeftParen) {
                    *i += 1;
                    let args = self.parse_call_arguments(i)?;
                    Ok(AstNode::FnCall { name, args })
                } else {
                    Ok(AstNode::Identifier(name))
                }
            },
            Some(Token::LeftParen) => {
                *i += 1;
                let inner = self.parse_expression(i)?;
                if !self.at(*i, Token::RightParen) {
                    return Err(self.message(ParseErrorKind::ExpectedClosingParen, *i));
                }
                *i += 1;
                Ok(inner)
            },
            Some(_) => Err(self.message(ParseErrorKind::UnexpectedToken, *i)),
            None => Err(self.message(ParseErrorKind::UnexpectedEndOfInput, *i)),
        }
    }

    /// Parses the arguments of a call, from the token after its `(` up to its
    /// `)`: expressions with a comma between each two, or none at all.
    pub fn parse_call_arguments(&self, i: &mut usize) -> (r: Result<Vec<AstNode>, String>)
        ensures
            is_outcome(
                self@,
                spec_call_arguments(self@, *old(i) as nat),
                *old(i) as nat,
                *final(i) as nat,
                nodes_outcome(r),
            ),
        decreases tokens_left(self@, *old(i) as nat), 4nat,
    {
        let mut args: Vec<AstNode> = Vec::new();
        if self.at(*i, Token::RightParen) {
            *i += 1;
            assert(AstNode::models(args) =~= Seq::empty());
            return Ok(args);
        }
        let ghost start = *i as nat;
        proof {
            assert(AstNode::models(args) =~= Seq::empty());
            lemma_prepend_nothing(spec_call_argument_list(self@, start));
        }
        loop
            invariant
                start == *old(i),
                start <= *i,
                spec_call_arguments(self@, start) == spec_call_argument_list(self@, start),
                spec_call_argument_list(self@, start) == prepend(
                    AstNode::models(args),
                    (*i - start) as nat,
                    spec_call_argument_list(self@, *i as nat),
                ),
            decreases tokens_left(self@, *i as nat),
        {
            let ghost here = *i as nat;
            let ghost before = args;
            let argument = self.parse_expression(i)?;
            let ghost taken = (*i - here) as nat;
            let ghost value = argument@;
            args.push(argument);
            proof {
                lemma_models_push(before, args, argument);
                assert(AstNode::models(before) + seq![value] =~= AstNode::models(args));
            }
            match self.kind(*i) {
                Some(Token::Comma) => {
                    *i += 1;
                    proof {
                        lemma_prepend_twice(
                            AstNode::models(before),
                            (here - start) as nat,
                            seq![value],
                            taken + 1,
                            spec_call_argument_list(self@, *i as nat),
                        );
                    }
                },
                Some(Token::RightParen) => {
                    *i += 1;
                    return Ok(args);
                },
                _ => {
                    return Err(self.message(ParseErrorKind::ExpectedCommaOrParenInCall, *i));
                },
            }
        }
    }

    /// Parses the parameters of a function declaration, from the token after
    /// its `(` up to its `)`: each a name, a `~` and a type, with a comma
    /// between each two, or none at all.
    pub fn parse_function_args(&self, i: &mut usize) -> (r: Result<Vec<AstNode>, String>)
        ensures
            is_outcome(
                self@,
                spec_function_args(self@, *old(i) as nat),
                *old(i) as nat,
                *final(i) as nat,
                nodes_outcome(r),
            ),
    {
        let mut args: Vec<AstNode> = Vec::new();
        if self.at(*i, Token::RightParen) {
            *i += 1;
            assert(AstNode::models(args) =~= Seq::empty());
            return Ok(args);
        }
        let ghost start = *i as nat;
        proof {
            assert(AstNode::models(args) =~= Seq::empty());
            lemma_prepend_nothing(spec_parameter_list(self@, start));
        }
        loop
            invariant
                start == *old(i),
                start <= *i,
                spec_function_args(self@, start) == spec_parameter_list(self@, start),
                spec_parameter_list(self@, start) == prepend(
                    AstNode::models(args),
                    (*i - start) as nat,
                    spec_parameter_list(self@, *i as nat),
                ),
            decreases tokens_left(self@, *i as nat),
        {
            let ghost here = *i as nat;
            let ghost before = args;
            if !self.at(*i, Token::Literal) {
                return Err(self.message(ParseErrorKind::ExpectedArgumentName, *i));
            }
            let name = self.lexeme(*i);
            *i += 1;
            if !self.at(*i, Token::Tilde) {
                return Err(self.message(ParseErrorKind::ExpectedTildeAfterArgument, *i));
            }
            *i += 1;
            let arg_type = self.parse_type_annotation(i)?;
            let parameter = AstNode::FnArgument { name, arg_type };
            let ghost taken = (*i - here) as nat;
            let ghost value = parameter@;
            args.push(parameter);
            proof {
                lemma_models_push(before, args, parameter);
                assert(AstNode::models(before) + seq![value] =~= AstNode::models(args));
            }
            match self.kind(*i) {
                Some(Token::Comma) => {
                    *i += 1;
                    proof {
                        lemma_prepend_twice(
                            AstNode::models(before),
                            (here - start) as nat,
                            seq![value],
                            taken + 1,
                            spec_parameter_list(self@, *i as nat),
                        );
                    }
                },
                Some(Token::RightParen) => {
                    *i += 1;
                    return Ok(args);
                },
                _ => {
                    return Err(
                        self.message(ParseErrorKind::ExpectedCommaOrParenAfterArgument, *i),
                    );
                },
            }
        }
    }

    /// Parses the type annotation behind the token `mark`, where the token at
    /// the cursor is `mark`; else takes no token.
    fn parse_optional_type(&self, i: &mut usize, mark: Token) -> (r: Result<
        Option<TypeAnnotation>,
        String,
    >)
        ensures
            is_outcome(
                self@,
                spec_optional_type(self@, *old(i) as nat, mark),
                *old(i) as nat,
                *final(i) as nat,
                optional_type_outcome(r),
            ),
    {
        if self.at(*i, mark) {
            *i += 1;
            let annotation = self.parse_type_annotation(i)?;
            Ok(Some(annotation))
        } else {
            Ok(None)
        }
    }

    /// Parses a variable declaration, from its `mut` or `const` on: a name,
    /// an optional `~` and type, `=`, an expression and `;`.
    fn parse_variable_declaration(&self, i: &mut usize) -> (r: Result<AstNode, String>)
        requires
            kind_at(self@, *old(i) as nat) == Some(Token::MutKeyword) || kind_at(
                self@,
                *old(i) as nat,
            ) == Some(Token::ConstKeyword),
        ensures
            is_outcome(
                self@,
                spec_variable_declaration(self@, *old(i) as nat),
                *old(i) as nat,
                *final(i) as nat,
                node_outcome(r),
            ),
    {
        assert(*i < self.lexer_tokens.len());
        let mutable = self.at(*i, Token::MutKeyword);
        *i += 1;
        if !self.at(*i, Token::Literal) {
            return Err(self.message(ParseErrorKind::ExpectedVariableName, *i));
        }
        let name = self.lexeme(*i);
        *i += 1;
        let type_annotation = self.parse_optional_type(i, Token::Tilde)?;
        if !self.at(*i, Token::Equals) {
            return Err(self.message(ParseErrorKind::ExpectedEquals, *i));
        }
        *i += 1;
        let value = self.parse_expression(i)?;
        if !self.at(*i, Token::Semicolon) {
            return Err(self.message(ParseErrorKind::ExpectedSemicolonAfterDeclaration, *i));
        }
        *i += 1;
        Ok(AstNode::VarDeclaration { mutable, name, value: Box::new(value), type_annotation })
    }

    /// Takes the `;` after a statement where there is one. Where there is
    /// none, that is a failure of kind `missing` if `required` is set.
    fn parse_terminator(&self, i: &mut usize, required: bool, missing: ParseErrorKind) -> (r:
        Result<(), String>)
        ensures
            is_outcome(
                self@,
                spec_terminator(self@, *old(i) as nat, required, missing),
                *old(i) as nat,
                *final(i) as nat,
                unit_outcome(r),
            ),
    {
        if self.at(*i, Token::Semicolon) {
            *i += 1;
            Ok(())
        } else if required {
            Err(self.message(missing, *i))
        } else {
            Ok(())
        }
    }

    /// Parses a return statement, from its `return` on: an expression and a
    /// terminator.
    fn parse_return(&self, i: &mut usize, terminated: bool) -> (r: Result<AstNode, String>)
        requires
            kind_at(self@, *old(i) as nat) == Some(Token::ReturnKeyword),
        ensures
            is_outcome(
                self@,
                spec_return(self@, *old(i) as nat, terminated),
                *old(i) as nat,
                *final(i) as nat,
                node_outcome(r),
            ),
    {
        assert(*i < self.lexer_tokens.len());
        *i += 1;
        let value = self.parse_expression(i)?;
        self.parse_terminator(i, terminated, ParseErrorKind::ExpectedSemicolonAfterReturn)?;
        Ok(AstNode::Return(Box::new(value)))
    }

    /// Parses an expression statement: an expression, reclassified where it
    /// has the shape of an assignment, and a terminator.
    pub fn parse_expression_statement(&self, i: &mut usize, terminated: bool) -> (r: Result<
        AstNode,
        String,
    >)
        ensures
            is_outcome(
                self@,
                spec_expression_statement(self@, *old(i) as nat, terminated),
                *old(i) as nat,
                *final(i) as nat,
                node_outcome(r),
            ),
    {
        let expression = self.parse_expression(i)?;
        self.parse_terminator(i, terminated, ParseErrorKind::ExpectedSemicolonAfterExpression)?;
        Ok(reclassify(expression))
    }

    /// Parses one statement, chosen by the token at the cursor. With
    /// `terminated` set, as it is inside a function body, a return or
    /// expression statement needs its `;`; without, it may end without one.
    pub fn parse_statement(&self, i: &mut usize, terminated: bool) -> (r: Result<AstNode, String>)
        ensures
            is_outcome(
                self@,
                spec_statement(self@, *old(i) as nat, terminated),
                *old(i) as nat,
                *final(i) as nat,
                node_outcome(r),
            ),
            r is Ok ==> *old(i) < *final(i),
        decreases tokens_left(self@, *old(i) as nat), 1nat,
    {
        proof {
            lemma_statement_takes(self@, *i as nat, terminated);
        }
        match self.kind(*i) {
            Some(Token::MutKeyword) | Some(Token::ConstKeyword) => {
                self.parse_variable_declaration(i)
            },
            Some(Token::ReturnKeyword) => self.parse_return(i, terminated),
            Some(Token::FunctionKeyword) => self.parse_function_declaration(i),
            _ => self.parse_expression_statement(i, terminated),
        }
    }

    /// Parses a function declaration, from its `fn` on: a name, the
    /// parameters in parentheses, an optional `->` and return type, and the
    /// body.
    fn parse_function_declaration(&self, i: &mut usize) -> (r: Result<AstNode, String>)
        requires
            kind_at(self@, *old(i) as nat) == Some(Token::FunctionKeyword),
        ensures
            is_outcome(
                self@,
                spec_function_declaration(self@, *old(i) as nat),
                *old(i) as nat,
                *final(i) as nat,
                node_outcome(r),
            ),
        decreases tokens_left(self@, *old(i) as nat), 0nat,
    {
        assert(*i < self.lexer_tokens.len());
        *i += 1;
        if !self.at(*i, Token::Literal) {
            return Err(self.message(ParseErrorKind::ExpectedFunctionName, *i));
        }
        let name = self.lexeme(*i);
        *i += 1;
        if !self.at(*i, Token::LeftParen) {
            return Err(self.message(ParseErrorKind::ExpectedParenAfterFunctionName, *i));
        }
        *i += 1;
        let args = self.parse_function_args(i)?;
        let return_type = self.parse_optional_type(i, Token::To)?;
        let body = self.parse_function_body(i)?;
        Ok(AstNode::FnDeclaration { name, args, return_type, body })
    }

    /// Parses a function body: `{`, statements, each with its terminator,
    /// and `}`. Input that ends before the `}` is a failure.
    pub fn parse_function_body(&self, i: &mut usize) -> (r: Result<Vec<AstNode>, String>)
        ensures
            is_outcome(
                self@,
                spec_function_body(self@, *old(i) as nat),
                *old(i) as nat,
                *final(i) as nat,
                nodes_outcome(r),
            ),
        decreases tokens_left(self@, *old(i) as nat), 3nat,
    {
        if !self.at(*i, Token::LeftBrace) {
            return Err(self.message(ParseErrorKind::ExpectedBodyStart, *i));
        }
        let ghost open = *i as nat;
        *i += 1;
        let ghost start = *i as nat;
        let mut body: Vec<AstNode> = Vec::new();
        proof {
            assert(AstNode::models(body) =~= Seq::empty());
            lemma_prepend_nothing(spec_block(self@, start));
        }
        loop
            invariant
                open == *old(i),
                start == open + 1,
                open < self@.len(),
                start <= *i,
                spec_function_body(self@, open) == prepend(
                    Seq::empty(),
                    1,
                    spec_block(self@, start),
                ),
                spec_block(self@, start) == prepend(
                    AstNode::models(body),
                    (*i - start) as nat,
                    spec_block(self@, *i as nat),
                ),
            decreases tokens_left(self@, *i as nat),
        {
            let ghost here = *i as nat;
            let ghost before = body;
            if self.at(*i, Token::RightBrace) {
                *i += 1;
                proof {
                    assert(AstNode::models(body) + Seq::<AstNodeView>::empty() =~= AstNode::models(
                        body,
                    ));
                    assert(Seq::<AstNodeView>::empty() + AstNode::models(body)
                        =~= AstNode::models(body));
                }
                return Ok(body);
            }
            if self.kind(*i).is_none() {
                return Err(self.message(ParseErrorKind::UnexpectedEndOfBody, *i));
            }
            proof {
                lemma_statement_takes(self@, here, true);
            }
            let statement = self.parse_statement(i, true)?;
            let ghost taken = (*i - here) as nat;
            let ghost value = statement@;
            body.push(statement);
            proof {
                lemma_models_push(before, body, statement);
                assert(AstNode::models(before) + seq![value] =~= AstNode::models(body));
                lemma_prepend_twice(
                    AstNode::models(before),
                    (here - start) as nat,
                    seq![value],
                    taken,
                    spec_block(self@, *i as nat),
                );
            }
        }
    }

    /// Builds the tree: the top-level statements of the token sequence in
    /// order, or the message of the first failure.
    pub fn build(&self) -> (r: Result<Vec<AstNode>, String>)
        ensures
            match spec_build(self@) {
                Ok(nodes) => nodes_outcome(r) == Ok::<Seq<AstNodeView>, Seq<char>>(nodes),
                Err(f) => nodes_outcome(r) == Err::<Seq<AstNodeView>, Seq<char>>(
                    failure_text(self@, f),
                ),
            },
    {
        let mut nodes: Vec<AstNode> = Vec::new();
        let mut i: usize = 0;
        proof {
            assert(AstNode::models(nodes) =~= Seq::empty());
            lemma_prepend_nothing(spec_statements(self@, 0));
        }
        while i < self.lexer_tokens.len()
            invariant
                spec_statements(self@, 0) == prepend(
                    AstNode::models(nodes),
                    i as nat,
                    spec_statements(self@, i as nat),
                ),
            decreases tokens_left(self@, i as nat),
        {
            let ghost here = i as nat;
            let ghost before = nodes;
            proof {
                lemma_statement_takes(self@, here, false);
            }
            let statement = self.parse_statement(&mut i, false)?;
            let ghost taken = (i - here) as nat;
            let ghost value = statement@;
            nodes.push(statement);
            proof {
                lemma_models_push(before, nodes, statement);
                assert(AstNode::models(before) + seq![value] =~= AstNode::models(nodes));
                lemma_prepend_twice(
                    AstNode::models(before),
                    here,
                    seq![value],
                    taken,
                    spec_statements(self@, i as nat),
                );
            }
        }
        proof {
            assert(AstNode::models(nodes) + Seq::<AstNodeView>::empty() =~= AstNode::models(nodes));
        }
        Ok(nodes)
    }
}

} // verus!
