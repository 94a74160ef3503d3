use vstd::prelude::*;
use crate::errors::Errors;
use crate::grammar::Lexemes;
use crate::lexer::{Lexer, Token};
use crate::lexical::{is_token_sequence, lexemes_of, tokenize};

verus! {

/// The tokens of one source text, all of them: a text that does not tokenize
/// to its end gives none.
pub struct AST {
    tokens: Vec<(Token, String)>,
}

impl View for AST {
    type V = Lexemes;

    closed spec fn view(&self) -> Lexemes {
        lexemes_of(self.tokens@)
    }
}

impl AST {
    #[verifier::type_invariant]
    spec fn well_formed(self) -> bool {
        is_token_sequence(lexemes_of(self.tokens@))
    }

    /// Takes all the tokens of `lexer`, or fails with the offending text of
    /// the first place at which no token starts.
    pub fn new(lexer: Lexer) -> (r: Result<AST, Errors>)
        ensures
            match r {
                Ok(ast) => tokenize(lexer.remaining()) == Ok::<Lexemes, Seq<char>>(ast@)
                    && is_token_sequence(ast@),
                Err(Errors::InvalidToken(text)) => tokenize(lexer.remaining()) == Err::<
                    Lexemes,
                    Seq<char>,
                >(text@),
                Err(_) => false,
            },
    {
        match lexer.tokens() {
            Ok(tokens) => Ok(AST { tokens }),
            Err(text) => Err(Errors::InvalidToken(text)),
        }
    }

    /// The tokens, each with its lexeme.
    pub fn tokens(&self) -> (tokens: &Vec<(Token, String)>)
        ensures
            lexemes_of(tokens@) == self@,
            is_token_sequence(self@),
    {
        proof {
            use_type_invariant(self);
        }
        &self.tokens
    }
}

} // verus!
