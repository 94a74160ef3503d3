use vstd::prelude::*;
use crate::lexer::Token;

verus! {

/// Characters that separate tokens and belong to none.
pub open spec fn is_whitespace(c: char) -> bool {
    c == ' ' || c == '\t' || c == '\n' || c == '\x0c'
}

/// The ten decimal digits.
pub open spec fn is_digit(c: char) -> bool {
    '0' <= c <= '9'
}

/// The characters that an identifier can begin with: the letters `a` to `z`
/// and `A` to `Z`, and the underscore.
pub open spec fn is_identifier_start(c: char) -> bool {
    'a' <= c <= 'z' || 'A' <= c <= 'Z' || c == '_'
}

/// The characters that an identifier can go on with: those it can begin with,
/// and the digits.
pub open spec fn is_identifier_part(c: char) -> bool {
    is_identifier_start(c) || is_digit(c)
}

/// An identifier: one starting character, then any run of continuing characters.
pub open spec fn is_identifier(s: Seq<char>) -> bool {
    &&& s.len() > 0
    &&& is_identifier_start(s[0])
    &&& forall|i: int| 0 < i < s.len() ==> is_identifier_part(#[trigger] s[i])
}

/// An unsigned decimal: digits with at most one point among them, and at least
/// one digit. So `12`, `1.5`, `1.` and `.5` are numbers; `.` alone is not.
pub open spec fn is_unsigned_number(s: Seq<char>) -> bool {
    &&& forall|i: int| 0 <= i < s.len() ==> is_digit(#[trigger] s[i]) || s[i] == '.'
    &&& exists|i: int| 0 <= i < s.len() && is_digit(#[trigger] s[i])
    &&& forall|i: int, j: int|
        0 <= i < j < s.len() ==> !(#[trigger] s[i] == '.' && #[trigger] s[j] == '.')
}

/// A number: an unsigned decimal, or a minus sign directly followed by one.
/// The sign belongs to the number only where nothing stands between them: in
/// `a - 1` the minus is an operator, and `-1` is one number.
pub open spec fn is_number(s: Seq<char>) -> bool {
    is_unsigned_number(s) || (s.len() > 0 && s[0] == '-' && is_unsigned_number(s.skip(1)))
}

/// The inside of a string literal: characters other than the quote and the
/// backslash, and escapes made of a backslash and any character but a newline.
pub open spec fn is_string_body(s: Seq<char>) -> bool
    decreases s.len(),
{
    if s.len() == 0 {
        true
    } else if s[0] == '\\' {
        s.len() >= 2 && s[1] != '\n' && is_string_body(s.skip(2))
    } else {
        s[0] != '"' && is_string_body(s.skip(1))
    }
}

/// A string literal: a string body between two double quotes.
pub open spec fn is_string(s: Seq<char>) -> bool {
    &&& s.len() >= 2
    &&& s[0] == '"'
    &&& s[s.len() - 1] == '"'
    &&& is_string_body(s.subrange(1, s.len() - 1))
}

/// The delimiter or operator that the character `c` is by itself, if it is one.
pub open spec fn single_token(c: char) -> Option<Token> {
    if c == '(' {
        Some(Token::LeftParen)
    } else if c == ')' {
        Some(Token::RightParen)
    } else if c == '{' {
        Some(Token::LeftBrace)
    } else if c == '}' {
        Some(Token::RightBrace)
    } else if c == '[' {
        Some(Token::LeftBracket)
    } else if c == ']' {
        Some(Token::RightBracket)
    } else if c == ',' {
        Some(Token::Comma)
    } else if c == '.' {
        Some(Token::Period)
    } else if c == ';' {
        Some(Token::Semicolon)
    } else if c == '=' {
        Some(Token::Equals)
    } else if c == '+' {
        Some(Token::Plus)
    } else if c == '-' {
        Some(Token::Minus)
    } else if c == '*' {
        Some(Token::Star)
    } else if c == '~' {
        Some(Token::Tilde)
    } else {
        None
    }
}

/// The operator or keyword that the characters `a` and `b` spell together, if
/// they spell one.
pub open spec fn double_token(a: char, b: char) -> Option<Token> {
    if a == '=' && b == '=' {
        Some(Token::DoubleEquals)
    } else if a == '!' && b == '=' {
        Some(Token::NotEquals)
    } else if a == '-' && b == '>' {
        Some(Token::To)
    } else if a == 'f' && b == 'n' {
        Some(Token::FunctionKeyword)
    } else {
        None
    }
}

/// The keyword, delimiter or operator that `s` spells, if it spells one.
pub open spec fn fixed_token(s: Seq<char>) -> Option<Token> {
    if s.len() == 1 {
        single_token(s[0])
    } else if s.len() == 2 {
        double_token(s[0], s[1])
    } else if s =~= seq!['m', 'u', 't'] {
        Some(Token::MutKeyword)
    } else if s =~= seq!['c', 'o', 'n', 's', 't'] {
        Some(Token::ConstKeyword)
    } else if s =~= seq!['r', 'e', 't', 'u', 'r', 'n'] {
        Some(Token::ReturnKeyword)
    } else {
        None
    }
}

/// The kind of token that `s` spells from its first character to its last, if
/// any. A keyword's spelling is a keyword, never an identifier.
#[verifier::opaque]
pub open spec fn token_kind(s: Seq<char>) -> Option<Token> {
    if fixed_token(s) is Some {
        fixed_token(s)
    } else if is_identifier(s) {
        Some(Token::Literal)
    } else if is_number(s) {
        Some(Token::NumberLiteral)
    } else if is_string(s) {
        Some(Token::StringLiteral)
    } else {
        None
    }
}


/// The length of the longest prefix of `s`, no longer than `n`, that spells a
/// token; 0 where there is none.
pub open spec fn longest_token_within(s: Seq<char>, n: nat) -> nat
    decreases n,
{
    if n == 0 {
        0
    } else if n <= s.len() && token_kind(s.take(n as int)) is Some {
        n
    } else {
        longest_token_within(s, (n - 1) as nat)
    }
}

/// Maximal munch: the length of the longest prefix of `s` that spells a token;
/// 0 where no prefix does.
pub open spec fn longest_token(s: Seq<char>) -> nat {
    longest_token_within(s, s.len())
}

/// How many whitespace characters `s` begins with.
pub open spec fn leading_whitespace(s: Seq<char>) -> nat
    decreases s.len(),
{
    if s.len() > 0 && is_whitespace(s[0]) {
        1 + leading_whitespace(s.skip(1))
    } else {
        0
    }
}

/// `s` without the whitespace it begins with.
pub open spec fn trim_start(s: Seq<char>) -> Seq<char> {
    s.skip(leading_whitespace(s) as int)
}

/// What the tokenizer reports first on the text `s`: nothing where only
/// whitespace is left, a failure where no token starts after the whitespace,
/// and else the kind of the longest token that starts there.
pub open spec fn first_token(s: Seq<char>) -> Option<Result<Token, ()>> {
    let t = trim_start(s);
    if t.len() == 0 {
        None
    } else if longest_token(t) == 0 {
        Some(Err(()))
    } else {
        Some(Ok(token_kind(t.take(longest_token(t) as int))->Some_0))
    }
}

/// The length of the text that the first report is about: the lexeme of the
/// token or, on a failure, the one character at which no token starts.
pub open spec fn first_len(s: Seq<char>) -> nat {
    let t = trim_start(s);
    if t.len() == 0 {
        0
    } else if longest_token(t) == 0 {
        1
    } else {
        longest_token(t)
    }
}

/// The text that the first report is about.
pub open spec fn first_span(s: Seq<char>) -> Seq<char> {
    trim_start(s).take(first_len(s) as int)
}

/// What is left of `s` after the first report.
pub open spec fn after_first(s: Seq<char>) -> Seq<char> {
    trim_start(s).skip(first_len(s) as int)
}

/// The tokens of the text `s` in order, each with its lexeme, or the offending
/// text of the first place at which no token starts.
pub open spec fn tokenize(s: Seq<char>) -> Result<Seq<(Token, Seq<char>)>, Seq<char>>
    decreases s.len(),
    via tokenize_terminates
{
    match first_token(s) {
        None => Ok(Seq::empty()),
        Some(Err(_)) => Err(first_span(s)),
        Some(Ok(kind)) => match tokenize(after_first(s)) {
            Ok(rest) => Ok(seq![(kind, first_span(s))] + rest),
            Err(text) => Err(text),
        },
    }
}

#[via_fn]
proof fn tokenize_terminates(s: Seq<char>) {
    lemma_first_step(s);
}

/// Puts the tokens `first` in front of what the rest of the text gave.
pub open spec fn join(
    first: Seq<(Token, Seq<char>)>,
    rest: Result<Seq<(Token, Seq<char>)>, Seq<char>>,
) -> Result<Seq<(Token, Seq<char>)>, Seq<char>> {
    match rest {
        Ok(tokens) => Ok(first + tokens),
        Err(text) => Err(text),
    }
}

/// The reports of the tokenizer on the text `s`, one after another, up to the
/// end of the text. After a failure the tokenizer goes on behind the
/// offending character.
pub open spec fn reports(s: Seq<char>) -> Seq<Result<Token, ()>>
    decreases s.len(),
    via reports_terminates
{
    match first_token(s) {
        None => Seq::empty(),
        Some(report) => seq![report] + reports(after_first(s)),
    }
}

#[via_fn]
proof fn reports_terminates(s: Seq<char>) {
    lemma_first_step(s);
}

/// Whether each token of `tokens` has the kind that its lexeme spells.
pub open spec fn is_token_sequence(tokens: Seq<(Token, Seq<char>)>) -> bool {
    forall|i: int| 0 <= i < tokens.len() ==> token_kind((#[trigger] tokens[i]).1) == Some(tokens[i].0)
}

/// Tokens as contracts speak of them: each kind with the text of its lexeme.
pub open spec fn lexemes_of(tokens: Seq<(Token, String)>) -> Seq<(Token, Seq<char>)> {
    Seq::new(tokens.len(), |i: int| (tokens[i].0, tokens[i].1@))
}

/// The leading whitespace of a text is whitespace, and what follows it is
/// none.
pub proof fn lemma_leading_whitespace(s: Seq<char>)
    ensures
        leading_whitespace(s) <= s.len(),
        forall|i: int| 0 <= i < leading_whitespace(s) ==> is_whitespace(#[trigger] s[i]),
        leading_whitespace(s) < s.len() ==> !is_whitespace(s[leading_whitespace(s) as int]),
    decreases s.len(),
{
    if s.len() > 0 && is_whitespace(s[0]) {
        lemma_leading_whitespace(s.skip(1));
        assert forall|i: int| 0 <= i < leading_whitespace(s) implies is_whitespace(
            #[trigger] s[i],
        ) by {
            if i > 0 {
                assert(s[i] == s.skip(1)[i - 1]);
            }
        }
    }
}

/// What the search for the longest token among the first `n` prefixes finds.
pub proof fn lemma_longest_token_within(s: Seq<char>, n: nat)
    requires
        n <= s.len(),
    ensures
        longest_token_within(s, n) <= n,
        longest_token_within(s, n) > 0 ==> token_kind(
            s.take(longest_token_within(s, n) as int),
        ) is Some,
        forall|m: int|
            longest_token_within(s, n) < m <= n ==> token_kind(#[trigger] s.take(m)) is None,
    decreases n,
{
    if n > 0 && !(token_kind(s.take(n as int)) is Some) {
        lemma_longest_token_within(s, (n - 1) as nat);
    }
}

/// What the longest token is: a prefix that spells a token while no longer
/// prefix does.
pub proof fn lemma_longest_token(s: Seq<char>)
    ensures
        longest_token(s) <= s.len(),
        longest_token(s) > 0 ==> token_kind(s.take(longest_token(s) as int)) is Some,
        forall|m: int| longest_token(s) < m <= s.len() ==> token_kind(#[trigger] s.take(m)) is None,
{
    lemma_longest_token_within(s, s.len());
}

/// A prefix that spells a token, with no longer prefix that does, is the
/// longest token.
pub proof fn lemma_longest_token_is(s: Seq<char>, n: nat)
    requires
        0 < n <= s.len(),
        token_kind(s.take(n as int)) is Some,
        forall|m: int| n < m <= s.len() ==> token_kind(#[trigger] s.take(m)) is None,
    ensures
        longest_token(s) == n,
{
    lemma_longest_token(s);
    let k = longest_token(s);
    if k < n {
        assert(token_kind(s.take(n as int)) is None);
    }
    if k > n {
        assert(token_kind(s.take(k as int)) is None);
    }
}

/// Where no prefix spells a token, the longest token has length 0.
pub proof fn lemma_longest_token_none(s: Seq<char>)
    requires
        forall|m: int| 0 < m <= s.len() ==> token_kind(#[trigger] s.take(m)) is None,
    ensures
        longest_token(s) == 0,
{
    lemma_longest_token(s);
    let k = longest_token(s);
    if k > 0 {
        assert(token_kind(s.take(k as int)) is None);
    }
}

/// Each report consumes at least the character it is about.
pub proof fn lemma_first_step(s: Seq<char>)
    ensures
        leading_whitespace(s) + first_len(s) <= s.len(),
        first_token(s) is Some ==> first_len(s) > 0,
        first_token(s) is None ==> first_len(s) == 0 && leading_whitespace(s) == s.len(),
        after_first(s).len() == s.len() - leading_whitespace(s) - first_len(s),
        after_first(s) == s.skip((leading_whitespace(s) + first_len(s)) as int),
        first_span(s) == s.subrange(
            leading_whitespace(s) as int,
            (leading_whitespace(s) + first_len(s)) as int,
        ),
{
    lemma_leading_whitespace(s);
    lemma_longest_token(trim_start(s));
    assert(after_first(s) =~= s.skip((leading_whitespace(s) + first_len(s)) as int));
    assert(first_span(s) =~= s.subrange(
        leading_whitespace(s) as int,
        (leading_whitespace(s) + first_len(s)) as int,
    ));
}


/// The spelling of each keyword, delimiter and operator.
pub proof fn lemma_fixed_tokens()
    ensures
        token_kind(seq!['m', 'u', 't']) == Some(Token::MutKeyword),
        token_kind(seq!['c', 'o', 'n', 's', 't']) == Some(Token::ConstKeyword),
        token_kind(seq!['f', 'n']) == Some(Token::FunctionKeyword),
        token_kind(seq!['r', 'e', 't', 'u', 'r', 'n']) == Some(Token::ReturnKeyword),
        token_kind(seq!['(']) == Some(Token::LeftParen),
        token_kind(seq![')']) == Some(Token::RightParen),
        token_kind(seq!['{']) == Some(Token::LeftBrace),
        token_kind(seq!['}']) == Some(Token::RightBrace),
        token_kind(seq!['[']) == Some(Token::LeftBracket),
        token_kind(seq![']']) == Some(Token::RightBracket),
        token_kind(seq![',']) == Some(Token::Comma),
        token_kind(seq!['.']) == Some(Token::Period),
        token_kind(seq![';']) == Some(Token::Semicolon),
        token_kind(seq!['=']) == Some(Token::Equals),
        token_kind(seq!['=', '=']) == Some(Token::DoubleEquals),
        token_kind(seq!['!', '=']) == Some(Token::NotEquals),
        token_kind(seq!['+']) == Some(Token::Plus),
        token_kind(seq!['-']) == Some(Token::Minus),
        token_kind(seq!['*']) == Some(Token::Star),
        token_kind(seq!['-', '>']) == Some(Token::To),
        token_kind(seq!['~']) == Some(Token::Tilde),
{
    reveal(token_kind);
}

/// The kind of a text, from the pattern that it matches.
pub proof fn lemma_token_kind(x: Seq<char>)
    ensures
        fixed_token(x) is Some ==> token_kind(x) == fixed_token(x),
        fixed_token(x) is None && is_identifier(x) ==> token_kind(x) == Some(Token::Literal),
        is_number(x) ==> token_kind(x) == Some(Token::NumberLiteral),
        is_string(x) ==> token_kind(x) == Some(Token::StringLiteral),
        token_kind(x) is Some ==> fixed_token(x) is Some || is_identifier(x) || is_number(x)
            || is_string(x),
{
    reveal(token_kind);
    if is_unsigned_number(x) {
        let i = choose|i: int| 0 <= i < x.len() && is_digit(#[trigger] x[i]);
        assert(is_digit(x[0]) || x[0] == '.');
    }
    if x.len() > 0 && x[0] == '-' && is_unsigned_number(x.skip(1)) {
        let i = choose|i: int| 0 <= i < x.skip(1).len() && is_digit(#[trigger] x.skip(1)[i]);
        assert(x.skip(1)[i] == x[i + 1]);
    }
}

/// The pattern that a text of each open kind matches.
pub proof fn lemma_kind_pattern(x: Seq<char>)
    ensures
        token_kind(x) == Some(Token::Literal) ==> is_identifier(x),
        token_kind(x) == Some(Token::NumberLiteral) ==> is_number(x),
        token_kind(x) == Some(Token::StringLiteral) ==> is_string(x),
{
    reveal(token_kind);
}

/// What a text that spells a token looks like, by its first character.
pub proof fn lemma_token_shape(x: Seq<char>)
    requires
        token_kind(x) is Some,
    ensures
        x.len() > 0,
        is_identifier_start(x[0]) ==> is_identifier(x),
        is_digit(x[0]) ==> is_unsigned_number(x),
        x[0] == '.' ==> x.len() == 1 || is_unsigned_number(x),
        x[0] == '-' ==> x.len() == 1 || (x.len() == 2 && x[1] == '>') || is_unsigned_number(
            x.skip(1),
        ),
        x[0] == '"' ==> is_string(x),
        x[0] == '=' ==> x.len() == 1 || (x.len() == 2 && x[1] == '='),
        x[0] == '!' ==> x.len() == 2 && x[1] == '=',
        is_single_delimiter(x[0]) ==> x.len() == 1,
        !is_token_start(x[0]) ==> false,
{
    reveal(token_kind);
    if is_unsigned_number(x) {
        let i = choose|i: int| 0 <= i < x.len() && is_digit(#[trigger] x[i]);
        assert(is_digit(x[0]) || x[0] == '.');
    }
    if x.len() > 0 && x[0] == '-' && is_unsigned_number(x.skip(1)) {
        let i = choose|i: int| 0 <= i < x.skip(1).len() && is_digit(#[trigger] x.skip(1)[i]);
    }
}

/// The delimiters and operators that are one character long and begin no
/// longer token.
pub open spec fn is_single_delimiter(c: char) -> bool {
    c == '(' || c == ')' || c == '{' || c == '}' || c == '[' || c == ']' || c == ',' || c == ';'
        || c == '+' || c == '*' || c == '~'
}

/// The characters with which a token can begin.
pub open spec fn is_token_start(c: char) -> bool {
    is_identifier_start(c) || is_digit(c) || c == '.' || c == '-' || c == '"' || c == '=' || c
        == '!' || is_single_delimiter(c)
}

/// An unsigned decimal begins with a digit, or with a point and then a digit.
pub proof fn lemma_number_start(x: Seq<char>)
    requires
        is_unsigned_number(x),
    ensures
        x.len() > 0,
        is_digit(x[0]) || (x[0] == '.' && x.len() >= 2 && is_digit(x[1])),
{
    let i = choose|i: int| 0 <= i < x.len() && is_digit(#[trigger] x[i]);
    assert(is_digit(x[0]) || x[0] == '.');
    if x[0] == '.' {
        assert(i >= 1);
        assert(is_digit(x[1]) || x[1] == '.');
    }
}


/// A complete string body in front of a text decides nothing about it.
pub proof fn lemma_string_body_append(a: Seq<char>, b: Seq<char>)
    requires
        is_string_body(a),
    ensures
        is_string_body(a + b) == is_string_body(b),
    decreases a.len(),
{
    if a.len() == 0 {
        assert(a + b =~= b);
    } else if a[0] == '\\' {
        assert((a + b).skip(2) =~= a.skip(2) + b);
        lemma_string_body_append(a.skip(2), b);
    } else {
        assert((a + b).skip(1) =~= a.skip(1) + b);
        lemma_string_body_append(a.skip(1), b);
    }
}

/// A quote inside a string body is escaped: the body does not end before it.
pub proof fn lemma_string_body_quote(a: Seq<char>, k: int)
    requires
        is_string_body(a),
        0 <= k < a.len(),
        a[k] == '"',
    ensures
        !is_string_body(a.take(k)),
    decreases a.len(),
{
    if a[0] == '\\' {
        if k >= 2 {
            assert(a.take(k).skip(2) =~= a.skip(2).take(k - 2));
            lemma_string_body_quote(a.skip(2), k - 2);
        }
    } else {
        assert(a.take(k).skip(1) =~= a.skip(1).take(k - 1));
        lemma_string_body_quote(a.skip(1), k - 1);
    }
}

/// A string body that is cut inside an escape, or before a newline that
/// follows a backslash, is no string body.
pub proof fn lemma_string_body_broken(a: Seq<char>, b: Seq<char>)
    requires
        is_string_body(a),
        b.len() > 0 && b[0] == '\\' && (b.len() == 1 || b[1] == '\n'),
    ensures
        !is_string_body(a + b),
{
    lemma_string_body_append(a, b);
}

} // verus!
