use vstd::prelude::*;
use crate::lexical::{
    after_first, first_span, first_token, is_token_sequence, join, leading_whitespace,
    lemma_first_step, lemma_longest_token, lexemes_of, reports, tokenize, trim_start,
};
use crate::scanner::{scan_token, whitespace};
use crate::text::{chars_of, substring};

verus! {

/// The kinds of token that source text is made of.
#[derive(Debug, Clone, Copy, PartialEq, Eq, Hash, Structural)]
pub enum Token {
    /// An identifier: a letter or underscore, then letters, digits and
    /// underscores.
    Literal,
    /// A decimal number, with the minus sign that stands directly before it.
    NumberLiteral,
    /// A double-quoted string, quotes and escapes included.
    StringLiteral,
    /// The keyword `mut`.
    MutKeyword,
    /// The keyword `const`.
    ConstKeyword,
    /// The keyword `fn`.
    FunctionKeyword,
    /// The keyword `return`.
    ReturnKeyword,
    /// `(`
    LeftParen,
    /// `)`
    RightParen,
    /// `{`
    LeftBrace,
    /// `}`
    RightBrace,
    /// `[`
    LeftBracket,
    /// `]`
    RightBracket,
    /// `,`
    Comma,
    /// `.`
    Period,
    /// `;`, the statement terminator.
    Semicolon,
    /// `=`
    Equals,
    /// `==`
    DoubleEquals,
    /// `!=`
    NotEquals,
    /// `+`
    Plus,
    /// `-`
    Minus,
    /// `*`
    Star,
    /// `->`, the arrow before a return type.
    To,
    /// `~`, the mark before a type annotation.
    Tilde,
}

/// A tokenizer over one source text. It reports one token at a time and
/// remembers the text of its latest report.
pub struct Lexer {
    source: Vec<char>,
    start: usize,
    end: usize,
}

impl Lexer {
    #[verifier::type_invariant]
    spec fn well_formed(self) -> bool {
        self.start <= self.end <= self.source.len()
    }

    /// The whole text that is being tokenized.
    pub closed spec fn source(&self) -> Seq<char> {
        self.source@
    }

    /// How many characters have been consumed.
    pub closed spec fn position(&self) -> nat {
        self.end as nat
    }

    /// Where the text of the latest report starts.
    pub closed spec fn span_start(&self) -> nat {
        self.start as nat
    }

    /// The text that is still to be tokenized.
    pub open spec fn remaining(&self) -> Seq<char> {
        self.source().skip(self.position() as int)
    }

    /// The text of the latest report.
    pub open spec fn span(&self) -> Seq<char> {
        self.source().subrange(self.span_start() as int, self.position() as int)
    }

    /// A tokenizer at the start of `source`.
    pub fn new(source: &str) -> (lexer: Lexer)
        ensures
            lexer.source() == source@,
            lexer.remaining() == source@,
            lexer.span() == Seq::<char>::empty(),
    {
        let lexer = Lexer { source: chars_of(source), start: 0, end: 0 };
        assert(lexer.remaining() =~= source@);
        lexer
    }

    /// Reports the next token: `None` at the end of the text, `Some(Err(()))`
    /// where no token starts after the whitespace, and else the kind of the
    /// longest token that starts there. A failure consumes the one character
    /// at which no token starts.
    pub fn next(&mut self) -> (r: Option<Result<Token, ()>>)
        ensures
            final(self).source() == old(self).source(),
            r == first_token(old(self).remaining()),
            final(self).span() == first_span(old(self).remaining()),
            final(self).remaining() == after_first(old(self).remaining()),
    {
        proof {
            use_type_invariant(&*self);
        }
        let n = self.source.len();
        let ghost rest = self.source@.skip(self.end as int);
        let mut p = self.end;
        while p < n && whitespace(self.source[p])
            invariant
                self.end <= p <= n,
                n == self.source.len(),
                rest == self.source@.skip(self.end as int),
                leading_whitespace(rest) == (p - self.end) + leading_whitespace(
                    self.source@.skip(p as int),
                ),
            decreases n - p,
        {
            proof {
                assert(self.source@.skip(p as int).skip(1) =~= self.source@.skip(p + 1));
            }
            p += 1;
        }
        proof {
            lemma_first_step(rest);
            assert(trim_start(rest) =~= self.source@.skip(p as int));
        }
        if p >= n {
            self.end = p;
            self.start = p;
            proof {
                assert(self.span() =~= first_span(rest));
                assert(self.remaining() =~= after_first(rest));
            }
            return None;
        }
        match scan_token(&self.source, p) {
            Some((kind, len)) => {
                self.end = p + len;
                self.start = p;
                proof {
                    assert(self.span() =~= first_span(rest));
                    assert(self.remaining() =~= after_first(rest));
                }
                Some(Ok(kind))
            },
            None => {
                self.end = p + 1;
                self.start = p;
                proof {
                    assert(self.span() =~= first_span(rest));
                    assert(self.remaining() =~= after_first(rest));
                }
                Some(Err(()))
            },
        }
    }

    /// The text of the latest report: the lexeme of a token or the offending
    /// text of a failure.
    pub fn slice(&self) -> (s: String)
        ensures
            s@ == self.span(),
    {
        proof {
            use_type_invariant(self);
        }
        substring(&self.source, self.start, self.end)
    }

    /// All the reports from here to the end of the text.
    pub fn collect(self) -> (all: Vec<Result<Token, ()>>)
        ensures
            all@ == reports(self.remaining()),
    {
        let mut lexer = self;
        let mut all: Vec<Result<Token, ()>> = Vec::new();
        loop
            invariant
                reports(self.remaining()) == all@ + reports(lexer.remaining()),
            decreases lexer.remaining().len(),
        {
            let ghost rest = lexer.remaining();
            proof {
                lemma_first_step(rest);
            }
            match lexer.next() {
                None => {
                    assert(all@ + Seq::<Result<Token, ()>>::empty() =~= all@);
                    return all;
                },
                Some(report) => {
                    let ghost before = all@;
                    all.push(report);
                    assert(before + (seq![report] + reports(lexer.remaining())) =~= all@
                        + reports(lexer.remaining()));
                },
            }
        }
    }

    /// The tokens from here to the end of the text, each with its lexeme, or
    /// the offending text of the first failure.
    pub fn tokens(self) -> (r: Result<Vec<(Token, String)>, String>)
        ensures
            match r {
                Ok(tokens) => tokenize(self.remaining()) == Ok::<_, Seq<char>>(lexemes_of(tokens@))
                    && is_token_sequence(lexemes_of(tokens@)),
                Err(text) => tokenize(self.remaining()) == Err::<Seq<(Token, Seq<char>)>, _>(
                    text@,
                ),
            },
    {
        let mut lexer = self;
        let mut tokens: Vec<(Token, String)> = Vec::new();
        loop
            invariant
                tokenize(self.remaining()) == join(
                    lexemes_of(tokens@),
                    tokenize(lexer.remaining()),
                ),
                is_token_sequence(lexemes_of(tokens@)),
            decreases lexer.remaining().len(),
        {
            let ghost rest = lexer.remaining();
            let ghost before = lexemes_of(tokens@);
            proof {
                lemma_first_step(rest);
                lemma_longest_token(trim_start(rest));
            }
            match lexer.next() {
                None => {
                    assert(before + Seq::<(Token, Seq<char>)>::empty() =~= before);
                    return Ok(tokens);
                },
                Some(Err(_)) => {
                    return Err(lexer.slice());
                },
                Some(Ok(kind)) => {
                    let lexeme = lexer.slice();
                    tokens.push((kind, lexeme));
                    proof {
                        let after = lexemes_of(tokens@);
                        assert(after =~= before.push((kind, lexeme@)));
                        assert(before + (seq![(kind, lexeme@)] + tokenize(
                            lexer.remaining(),
                        )->Ok_0) =~= after + tokenize(lexer.remaining())->Ok_0);
                    }
                },
            }
        }
    }
}

impl Token {
    /// A tokenizer at the start of `source`.
    pub fn lexer(source: &str) -> (lexer: Lexer)
        ensures
            lexer.source() == source@,
            lexer.remaining() == source@,
            lexer.span() == Seq::<char>::empty(),
    {
        Lexer::new(source)
    }
}

} // verus!
