use vstd::prelude::*;
use crate::lexer::Token;
use crate::lexical::{
    after_first, first_len, first_span, first_token, is_number, is_string, is_token_sequence,
    is_unsigned_number, is_whitespace, leading_whitespace, lemma_first_step, lemma_longest_token,
    lemma_longest_token_is, lemma_string_body_append, lemma_token_kind, lemma_token_shape,
    longest_token, reports, token_kind, tokenize, trim_start,
};

verus! {

/// Whether `s` holds whitespace only.
pub open spec fn is_blank(s: Seq<char>) -> bool {
    forall|i: int| 0 <= i < s.len() ==> is_whitespace(#[trigger] s[i])
}

/// Whether `s` is empty or starts with whitespace.
pub open spec fn ends_token(s: Seq<char>) -> bool {
    s.len() == 0 || is_whitespace(s[0])
}

/// The texts `lexemes` written one after another, each with its gap in front
/// of it, and `end` behind the last.
pub open spec fn spaced(lexemes: Seq<Seq<char>>, gaps: Seq<Seq<char>>, end: Seq<char>) -> Seq<
    char,
>
    decreases lexemes.len(),
{
    if lexemes.len() == 0 {
        end
    } else {
        gaps[0] + lexemes[0] + spaced(lexemes.skip(1), gaps.skip(1), end)
    }
}

/// Each lexeme with the kind that it spells.
pub open spec fn with_kinds(lexemes: Seq<Seq<char>>) -> Seq<(Token, Seq<char>)> {
    Seq::new(lexemes.len(), |k: int| (token_kind(lexemes[k])->Some_0, lexemes[k]))
}

/// Whether `lexemes`, `gaps` and `end` describe a text of tokens that
/// whitespace keeps apart: each lexeme spells a token, each gap is
/// whitespace, and only the first gap may be empty.
pub open spec fn is_spaced(lexemes: Seq<Seq<char>>, gaps: Seq<Seq<char>>, end: Seq<char>) -> bool {
    &&& gaps.len() == lexemes.len()
    &&& is_blank(end)
    &&& forall|k: int| 0 <= k < lexemes.len() ==> token_kind(#[trigger] lexemes[k]) is Some
    &&& forall|k: int| 0 <= k < gaps.len() ==> is_blank(#[trigger] gaps[k])
    &&& forall|k: int| 1 <= k < gaps.len() ==> (#[trigger] gaps[k]).len() > 0
}

/// A token does not start with whitespace.
pub proof fn lemma_token_start(x: Seq<char>)
    requires
        token_kind(x) is Some,
    ensures
        x.len() > 0,
        !is_whitespace(x[0]),
{
    lemma_token_shape(x);
}

/// No string literal is the start of a longer one.
pub proof fn lemma_string_prefix(a: Seq<char>, b: Seq<char>)
    requires
        is_string(a),
        is_string(b),
        a.len() <= b.len(),
        b.take(a.len() as int) == a,
    ensures
        a.len() == b.len(),
{
    if a.len() < b.len() {
        let body = a.subrange(1, a.len() - 1);
        let more = b.subrange(a.len() - 1, b.len() - 1);
        assert(forall|k: int| 0 <= k < a.len() ==> a[k] == b.take(a.len() as int)[k]);
        assert(more[0] == a[a.len() - 1]);
        assert(b.subrange(1, b.len() - 1) =~= body + more);
        lemma_string_body_append(body, more);
    }
}

/// Whitespace ends a token: a text that spells a token, with nothing or
/// whitespace behind it, is the longest token of the whole.
pub proof fn lemma_token_before_whitespace(lexeme: Seq<char>, rest: Seq<char>)
    requires
        token_kind(lexeme) is Some,
        ends_token(rest),
    ensures
        longest_token(lexeme + rest) == lexeme.len(),
        (lexeme + rest).take(lexeme.len() as int) == lexeme,
{
    let s = lexeme + rest;
    let n = lexeme.len();
    lemma_token_start(lexeme);
    assert(s.take(n as int) =~= lexeme);
    assert forall|m: int| n < m <= s.len() implies token_kind(#[trigger] s.take(m)) is None by {
        let y = s.take(m);
        if token_kind(y) is Some {
            lemma_token_shape(y);
            lemma_token_shape(lexeme);
            assert(y[0] == lexeme[0]);
            assert(y[n as int] == rest[0]);
            assert(is_whitespace(y[n as int]));
            if y[0] == '"' {
                assert(y.take(n as int) =~= lexeme);
                lemma_string_prefix(lexeme, y);
            } else if y[0] == '-' {
                if is_unsigned_number(y.skip(1)) {
                    assert(y.skip(1)[n - 1] == y[n as int]);
                }
            }
        }
    }
    lemma_longest_token_is(s, n);
}

/// A gap of whitespace in front of a text that starts with none is what the
/// text begins with.
pub proof fn lemma_leading_gap(gap: Seq<char>, x: Seq<char>)
    requires
        is_blank(gap),
        x.len() == 0 || !is_whitespace(x[0]),
    ensures
        leading_whitespace(gap + x) == gap.len(),
        trim_start(gap + x) == x,
    decreases gap.len(),
{
    let s = gap + x;
    if gap.len() == 0 {
        assert(s =~= x);
    } else {
        assert(s[0] == gap[0]);
        assert(s.skip(1) =~= gap.skip(1) + x);
        assert forall|i: int| 0 <= i < gap.skip(1).len() implies is_whitespace(
            #[trigger] gap.skip(1)[i],
        ) by {
            assert(gap.skip(1)[i] == gap[i + 1]);
        }
        lemma_leading_gap(gap.skip(1), x);
    }
    assert(trim_start(s) =~= x);
}

/// Tokens that whitespace keeps apart are the tokens of the text: the
/// tokenizer gives exactly one token for each lexeme, of the kind that the
/// lexeme spells, in the order of the text.
pub proof fn lemma_tokenize_spaced(lexemes: Seq<Seq<char>>, gaps: Seq<Seq<char>>, end: Seq<char>)
    requires
        is_spaced(lexemes, gaps, end),
    ensures
        tokenize(spaced(lexemes, gaps, end)) == Ok::<Seq<(Token, Seq<char>)>, Seq<char>>(
            with_kinds(lexemes),
        ),
    decreases lexemes.len(),
{
    let s = spaced(lexemes, gaps, end);
    if lexemes.len() == 0 {
        lemma_leading_gap(end, Seq::empty());
        assert(end + Seq::<char>::empty() =~= end);
        assert(with_kinds(lexemes) =~= Seq::empty());
    } else {
        let lexeme = lexemes[0];
        let later = lexemes.skip(1);
        let later_gaps = gaps.skip(1);
        let rest = spaced(later, later_gaps, end);
        assert(is_spaced(later, later_gaps, end)) by {
            assert forall|k: int| 0 <= k < later.len() implies token_kind(
                #[trigger] later[k],
            ) is Some by {
                assert(later[k] == lexemes[k + 1]);
            }
            assert forall|k: int| 0 <= k < later_gaps.len() implies is_blank(
                #[trigger] later_gaps[k],
            ) by {
                assert(later_gaps[k] == gaps[k + 1]);
            }
            assert forall|k: int| 1 <= k < later_gaps.len() implies (#[trigger] later_gaps[k]).len()
                > 0 by {
                assert(later_gaps[k] == gaps[k + 1]);
            }
        }
        lemma_tokenize_spaced(later, later_gaps, end);
        assert(ends_token(rest)) by {
            if later.len() == 0 {
                if end.len() > 0 {
                    assert(is_whitespace(end[0]));
                }
            } else {
                assert(later_gaps[0] == gaps[1]);
                assert(is_whitespace(gaps[1][0]));
                assert(rest[0] == gaps[1][0]);
            }
        }
        lemma_token_start(lexeme);
        lemma_token_before_whitespace(lexeme, rest);
        assert(s =~= gaps[0] + (lexeme + rest));
        assert((lexeme + rest)[0] == lexeme[0]);
        lemma_leading_gap(gaps[0], lexeme + rest);
        let t = trim_start(s);
        assert(t == lexeme + rest);
        assert(first_len(s) == lexeme.len());
        assert(first_span(s) == lexeme);
        assert(after_first(s) =~= rest);
        assert(first_token(s) == Some(Ok::<Token, ()>(token_kind(lexeme)->Some_0)));
        assert(seq![(token_kind(lexeme)->Some_0, lexeme)] + with_kinds(later) =~= with_kinds(
            lexemes,
        ));
    }
}

/// A text of numeric literals that whitespace keeps apart gives exactly one
/// number token for each literal, in their order.
pub proof fn lemma_tokenize_numbers(literals: Seq<Seq<char>>, gaps: Seq<Seq<char>>, end: Seq<char>)
    requires
        gaps.len() == literals.len(),
        forall|k: int| 0 <= k < literals.len() ==> is_number(#[trigger] literals[k]),
        forall|k: int| 0 <= k < gaps.len() ==> is_blank(#[trigger] gaps[k]),
        forall|k: int| 1 <= k < gaps.len() ==> (#[trigger] gaps[k]).len() > 0,
        is_blank(end),
    ensures
        tokenize(spaced(literals, gaps, end)) == Ok::<Seq<(Token, Seq<char>)>, Seq<char>>(
            Seq::new(literals.len(), |k: int| (Token::NumberLiteral, literals[k])),
        ),
{
    assert forall|k: int| 0 <= k < literals.len() implies token_kind(#[trigger] literals[k])
        == Some(Token::NumberLiteral) by {
        lemma_token_kind(literals[k]);
    }
    lemma_tokenize_spaced(literals, gaps, end);
    assert(with_kinds(literals) =~= Seq::new(
        literals.len(),
        |k: int| (Token::NumberLiteral, literals[k]),
    ));
}

/// Two string literals with whitespace between them give exactly two string
/// tokens, the first literal first.
pub proof fn lemma_tokenize_two_strings(
    front: Seq<char>,
    first: Seq<char>,
    gap: Seq<char>,
    second: Seq<char>,
    end: Seq<char>,
)
    requires
        is_string(first),
        is_string(second),
        is_blank(front),
        is_blank(gap),
        gap.len() > 0,
        is_blank(end),
    ensures
        tokenize(front + first + gap + second + end) == Ok::<Seq<(Token, Seq<char>)>, Seq<char>>(
            seq![(Token::StringLiteral, first), (Token::StringLiteral, second)],
        ),
{
    let lexemes = seq![first, second];
    let gaps = seq![front, gap];
    lemma_token_kind(first);
    lemma_token_kind(second);
    lemma_tokenize_spaced(lexemes, gaps, end);
    assert(lexemes.skip(1) =~= seq![second]);
    assert(gaps.skip(1) =~= seq![gap]);
    assert(lexemes.skip(1).skip(1) =~= Seq::<Seq<char>>::empty());
    assert(spaced(lexemes.skip(1).skip(1), gaps.skip(1).skip(1), end) == end);
    assert(spaced(lexemes.skip(1), gaps.skip(1), end) == gap + second + end);
    assert(spaced(lexemes, gaps, end) =~= front + first + gap + second + end);
    assert(with_kinds(lexemes) =~= seq![
        (Token::StringLiteral, first),
        (Token::StringLiteral, second),
    ]);
}

/// A text that spells a token tokenizes to that one token.
pub proof fn lemma_tokenize_lexeme(lexeme: Seq<char>)
    requires
        token_kind(lexeme) is Some,
    ensures
        tokenize(lexeme) == Ok::<Seq<(Token, Seq<char>)>, Seq<char>>(
            seq![(token_kind(lexeme)->Some_0, lexeme)],
        ),
{
    let lexemes = seq![lexeme];
    let gaps = seq![Seq::<char>::empty()];
    let end = Seq::<char>::empty();
    lemma_tokenize_spaced(lexemes, gaps, end);
    assert(lexemes.skip(1) =~= Seq::<Seq<char>>::empty());
    assert(spaced(lexemes.skip(1), gaps.skip(1), end) == end);
    assert(spaced(lexemes, gaps, end) =~= lexeme);
    assert(with_kinds(lexemes) =~= seq![(token_kind(lexeme)->Some_0, lexeme)]);
}

/// Each token that the tokenizer gives has the kind that its lexeme spells.
pub proof fn lemma_tokens_spell_their_kind(s: Seq<char>)
    requires
        tokenize(s) is Ok,
    ensures
        is_token_sequence(tokenize(s)->Ok_0),
    decreases s.len(),
{
    lemma_first_step(s);
    lemma_longest_token(trim_start(s));
    match first_token(s) {
        None => {},
        Some(Err(_)) => {},
        Some(Ok(kind)) => {
            lemma_tokens_spell_their_kind(after_first(s));
            let rest = tokenize(after_first(s))->Ok_0;
            let all = tokenize(s)->Ok_0;
            assert(all == seq![(kind, first_span(s))] + rest);
            assert forall|i: int| 0 <= i < all.len() implies token_kind((#[trigger] all[i]).1)
                == Some(all[i].0) by {
                if i > 0 {
                    assert(all[i] == rest[i - 1]);
                }
            }
        },
    }
}

/// Lexeme fidelity: tokenizing the lexeme of any token of a text gives that
/// token again, and nothing else.
pub proof fn lemma_lexeme_round_trip(s: Seq<char>, k: int)
    requires
        tokenize(s) is Ok,
        0 <= k < tokenize(s)->Ok_0.len(),
    ensures
        tokenize(tokenize(s)->Ok_0[k].1) == Ok::<Seq<(Token, Seq<char>)>, Seq<char>>(
            seq![tokenize(s)->Ok_0[k]],
        ),
{
    lemma_tokens_spell_their_kind(s);
    let token = tokenize(s)->Ok_0[k];
    lemma_tokenize_lexeme(token.1);
}

/// The kinds of `tokens`, each as a report of success.
pub open spec fn as_reports(tokens: Seq<(Token, Seq<char>)>) -> Seq<Result<Token, ()>> {
    Seq::new(tokens.len(), |k: int| Ok(tokens[k].0))
}

/// Whether one of `all` is a failure.
pub open spec fn has_failure(all: Seq<Result<Token, ()>>) -> bool {
    exists|k: int| 0 <= k < all.len() && (#[trigger] all[k]) is Err
}

/// The reports and the tokens of a text agree: where the text tokenizes, the
/// reports are its tokens' kinds in order, and where it does not, one of the
/// reports is a failure.
pub proof fn lemma_reports_and_tokens(s: Seq<char>)
    ensures
        match tokenize(s) {
            Ok(tokens) => reports(s) == as_reports(tokens),
            Err(_) => has_failure(reports(s)),
        },
    decreases s.len(),
{
    lemma_first_step(s);
    match first_token(s) {
        None => {
            assert(reports(s) =~= as_reports(Seq::empty()));
        },
        Some(Err(_)) => {
            assert(reports(s)[0] is Err);
        },
        Some(Ok(kind)) => {
            lemma_reports_and_tokens(after_first(s));
            let later = reports(after_first(s));
            match tokenize(after_first(s)) {
                Ok(rest) => {
                    assert(reports(s) =~= as_reports(seq![(kind, first_span(s))] + rest));
                },
                Err(_) => {
                    let k = choose|k: int| 0 <= k < later.len() && (#[trigger] later[k]) is Err;
                    assert(reports(s)[k + 1] == later[k]);
                },
            }
        },
    }
}

} // verus!
