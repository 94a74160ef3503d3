use vstd::prelude::*;
use crate::lexer::Token;
use crate::lexical::{
    fixed_token, is_digit, is_identifier, is_identifier_part, is_identifier_start, is_number,
    is_single_delimiter, is_string, is_string_body, is_unsigned_number, is_whitespace,
    lemma_fixed_tokens, lemma_longest_token_is, lemma_longest_token_none, lemma_number_start,
    lemma_string_body_append, lemma_string_body_broken, lemma_string_body_quote, lemma_token_kind,
    lemma_token_shape, longest_token, token_kind,
};

verus! {

/// The text of `src` that starts at `p` and is `m` characters long.
pub open spec fn text_at(src: Seq<char>, p: int, m: int) -> Seq<char> {
    src.subrange(p, p + m)
}

pub(crate) fn whitespace(c: char) -> (b: bool)
    ensures
        b == is_whitespace(c),
{
    c == ' ' || c == '\t' || c == '\n' || c == '\x0c'
}

fn digit(c: char) -> (b: bool)
    ensures
        b == is_digit(c),
{
    '0' <= c && c <= '9'
}

fn identifier_start(c: char) -> (b: bool)
    ensures
        b == is_identifier_start(c),
{
    ('a' <= c && c <= 'z') || ('A' <= c && c <= 'Z') || c == '_'
}

fn identifier_part(c: char) -> (b: bool)
    ensures
        b == is_identifier_part(c),
{
    identifier_start(c) || digit(c)
}

fn single_delimiter(c: char) -> (r: Option<Token>)
    ensures
        r is Some <==> is_single_delimiter(c),
        r matches Some(kind) ==> fixed_token(seq![c]) == Some(kind),
{
    proof {
        assert(seq![c].len() == 1 && seq![c][0] == c);
    }
    if c == '(' {
        Some(Token::LeftParen)
    } else if c == ')' {
        Some(Token::RightParen)
    } else if c == '{' {
        Some(Token::LeftBrace)
    } else if c == '}' {
        Some(Token::RightBrace)
    } else if c == '[' {
        Some(Token::LeftBracket)
    } else if c == ']' {
        Some(Token::RightBracket)
    } else if c == ',' {
        Some(Token::Comma)
    } else if c == ';' {
        Some(Token::Semicolon)
    } else if c == '+' {
        Some(Token::Plus)
    } else if c == '*' {
        Some(Token::Star)
    } else if c == '~' {
        Some(Token::Tilde)
    } else {
        None
    }
}

/// The length of the identifier that starts at `p`, taken as far as it goes.
fn scan_identifier(src: &Vec<char>, p: usize) -> (len: usize)
    requires
        p < src.len(),
        is_identifier_start(src[p as int]),
    ensures
        0 < len <= src.len() - p,
        is_identifier(text_at(src@, p as int, len as int)),
        p + len < src.len() ==> !is_identifier_part(src[p + len]),
{
    let mut q = p + 1;
    while q < src.len() && identifier_part(src[q])
        invariant
            p < q <= src.len(),
            forall|k: int| p < k < q ==> is_identifier_part(#[trigger] src[k]),
        decreases src.len() - q,
    {
        q += 1;
    }
    q - p
}

/// The length of the unsigned decimal that starts at `p`, taken as far as it
/// goes: digits, then a point if one follows, then digits.
fn scan_number(src: &Vec<char>, p: usize) -> (len: usize)
    requires
        p < src.len(),
        is_digit(src[p as int]) || (src[p as int] == '.' && p + 1 < src.len() && is_digit(
            src[p + 1],
        )),
    ensures
        0 < len <= src.len() - p,
        is_unsigned_number(text_at(src@, p as int, len as int)),
        forall|m: int|
            len < m <= src.len() - p ==> !is_unsigned_number(#[trigger] text_at(src@, p as int, m)),
{
    let n = src.len();
    let mut q = p;
    while q < n && digit(src[q])
        invariant
            p <= q <= n,
            n == src.len(),
            forall|k: int| p <= k < q ==> is_digit(#[trigger] src[k]),
        decreases n - q,
    {
        q += 1;
    }
    let ghost point: int = -1;
    if q < n && src[q] == '.' {
        proof {
            point = q as int;
        }
        q += 1;
        while q < n && digit(src[q])
            invariant
                p <= point < q <= n,
                n == src.len(),
                src[point] == '.',
                forall|k: int| p <= k < q && k != point ==> is_digit(#[trigger] src[k]),
            decreases n - q,
        {
            q += 1;
        }
    }
    let len = q - p;
    proof {
        let x = text_at(src@, p as int, len as int);
        let d: int = if is_digit(src[p as int]) {
            0
        } else {
            1
        };
        assert(is_digit(x[d]));
        assert(is_unsigned_number(x));
        assert forall|m: int| len < m <= src.len() - p implies !is_unsigned_number(
            #[trigger] text_at(src@, p as int, m),
        ) by {
            let y = text_at(src@, p as int, m);
            assert(y[len as int] == src[q as int]);
            if point >= 0 {
                assert(y[point - p] == '.');
            }
        }
    }
    len
}

/// Whether the text from `p` to the end of `src` is an unsigned decimal.
fn unsigned_number_from(src: &Vec<char>, p: usize) -> (b: bool)
    requires
        p <= src.len(),
    ensures
        b == is_unsigned_number(src@.skip(p as int)),
{
    let n = src.len();
    let ghost whole = src@.skip(p as int);
    proof {
        assert(whole =~= text_at(src@, p as int, n - p));
        if is_unsigned_number(whole) {
            lemma_number_start(whole);
        }
    }
    if p < n && (digit(src[p]) || (src[p] == '.' && p + 1 < n && digit(src[p + 1]))) {
        let len = scan_number(src, p);
        len == n - p
    } else {
        false
    }
}

/// Whether `chars` spells a number.
pub fn is_number_text(chars: &Vec<char>) -> (b: bool)
    ensures
        b == is_number(chars@),
{
    proof {
        assert(chars@.skip(0) =~= chars@);
        if is_unsigned_number(chars@) {
            lemma_number_start(chars@);
        }
    }
    if chars.len() > 0 && chars[0] == '-' {
        unsigned_number_from(chars, 1)
    } else {
        unsigned_number_from(chars, 0)
    }
}

/// The length of the string literal that starts with the quote at `p`, or
/// nothing where the quote opens none.
fn scan_string(src: &Vec<char>, p: usize) -> (r: Option<usize>)
    requires
        p < src.len(),
        src[p as int] == '"',
    ensures
        match r {
            Some(len) => {
                &&& 0 < len <= src.len() - p
                &&& is_string(text_at(src@, p as int, len as int))
                &&& forall|m: int|
                    len < m <= src.len() - p ==> !is_string(#[trigger] text_at(src@, p as int, m))
            },
            None => forall|m: int|
                0 < m <= src.len() - p ==> !is_string(#[trigger] text_at(src@, p as int, m)),
        },
{
    let n = src.len();
    let mut q = p + 1;
    loop
        invariant
            p < q <= n,
            n == src.len(),
            src[p as int] == '"',
            is_string_body(src@.subrange(p + 1, q as int)),
        decreases n - q,
    {
        let ghost body = src@.subrange(p + 1, q as int);
        if q >= n {
            proof {
                assert forall|m: int| 0 < m <= src.len() - p implies !is_string(
                    #[trigger] text_at(src@, p as int, m),
                ) by {
                    let y = text_at(src@, p as int, m);
                    if is_string(y) {
                        assert(y[m - 1] == body[m - 2]);
                        lemma_string_body_quote(body, m - 2);
                        assert(body.take(m - 2) =~= y.subrange(1, m - 1));
                    }
                }
            }
            return None;
        }
        let c = src[q];
        if c == '"' {
            let len = q + 1 - p;
            proof {
                let x = text_at(src@, p as int, len as int);
                assert(x.subrange(1, len - 1) =~= body);
                assert forall|m: int| len < m <= src.len() - p implies !is_string(
                    #[trigger] text_at(src@, p as int, m),
                ) by {
                    let y = text_at(src@, p as int, m);
                    let rest = src@.subrange(q as int, p + m - 1);
                    assert(y.subrange(1, m - 1) =~= body + rest);
                    lemma_string_body_append(body, rest);
                }
            }
            return Some(len);
        }
        if c == '\\' {
            if q + 1 >= n || src[q + 1] == '\n' {
                proof {
                    assert forall|m: int| 0 < m <= src.len() - p implies !is_string(
                        #[trigger] text_at(src@, p as int, m),
                    ) by {
                        let y = text_at(src@, p as int, m);
                        if is_string(y) {
                            if m - 2 < body.len() {
                                assert(y[m - 1] == body[m - 2]);
                                lemma_string_body_quote(body, m - 2);
                                assert(body.take(m - 2) =~= y.subrange(1, m - 1));
                            } else {
                                assert(p + m - 1 > q);
                                let rest = src@.subrange(q as int, p + m - 1);
                                assert(y.subrange(1, m - 1) =~= body + rest);
                                lemma_string_body_broken(body, rest);
                            }
                        }
                    }
                }
                return None;
            }
            proof {
                let escape = src@.subrange(q as int, q + 2);
                assert(is_string_body(escape.skip(2)));
                assert(is_string_body(escape));
                lemma_string_body_append(body, escape);
                assert(body + escape =~= src@.subrange(p + 1, q + 2));
            }
            q += 2;
        } else {
            proof {
                let plain = src@.subrange(q as int, q + 1);
                assert(is_string_body(plain.skip(1)));
                assert(is_string_body(plain));
                lemma_string_body_append(body, plain);
                assert(body + plain =~= src@.subrange(p + 1, q + 1));
            }
            q += 1;
        }
    }
}

/// The kind of the identifier-shaped text at `p`: a keyword where it spells
/// one, and else an identifier.
fn identifier_kind(src: &Vec<char>, p: usize, len: usize) -> (kind: Token)
    requires
        0 < len <= src.len() - p,
        is_identifier(text_at(src@, p as int, len as int)),
    ensures
        token_kind(text_at(src@, p as int, len as int)) == Some(kind),
{
    let ghost x = text_at(src@, p as int, len as int);
    proof {
        assert(forall|k: int| 0 <= k < len ==> x[k] == src[p + k]);
        lemma_token_kind(x);
    }
    if len == 3 && src[p] == 'm' && src[p + 1] == 'u' && src[p + 2] == 't' {
        assert(x =~= seq!['m', 'u', 't']);
        Token::MutKeyword
    } else if len == 5 && src[p] == 'c' && src[p + 1] == 'o' && src[p + 2] == 'n' && src[p + 3]
        == 's' && src[p + 4] == 't' {
        assert(x =~= seq!['c', 'o', 'n', 's', 't']);
        Token::ConstKeyword
    } else if len == 2 && src[p] == 'f' && src[p + 1] == 'n' {
        assert(x =~= seq!['f', 'n']);
        Token::FunctionKeyword
    } else if len == 6 && src[p] == 'r' && src[p + 1] == 'e' && src[p + 2] == 't' && src[p + 3]
        == 'u' && src[p + 4] == 'r' && src[p + 5] == 'n' {
        assert(x =~= seq!['r', 'e', 't', 'u', 'r', 'n']);
        Token::ReturnKeyword
    } else {
        Token::Literal
    }
}

/// What a scan of the text `t` may return: the longest token that `t` begins
/// with, by kind and length, or nothing where `t` begins with none.
pub open spec fn is_scan_of(t: Seq<char>, r: Option<(Token, usize)>) -> bool {
    match r {
        Some((kind, len)) => {
            &&& 0 < len <= t.len()
            &&& longest_token(t) == len
            &&& token_kind(t.take(len as int)) == Some(kind)
        },
        None => longest_token(t) == 0,
    }
}

/// A prefix of the text from `p` on is the text at `p` of that length.
proof fn lemma_take_is_text_at(src: Seq<char>, p: int)
    requires
        0 <= p <= src.len(),
    ensures
        forall|m: int|
            0 <= m <= src.len() - p ==> #[trigger] src.skip(p).take(m) == text_at(src, p, m),
{
    assert forall|m: int| 0 <= m <= src.len() - p implies #[trigger] src.skip(p).take(m)
        == text_at(src, p, m) by {
        assert(src.skip(p).take(m) =~= text_at(src, p, m));
    }
}

/// Scans the identifier or keyword that starts at `p`.
fn scan_word(src: &Vec<char>, p: usize) -> (r: Option<(Token, usize)>)
    requires
        p < src.len(),
        is_identifier_start(src[p as int]),
    ensures
        is_scan_of(src@.skip(p as int), r),
{
    let n = src.len();
    let c = src[p];
    let ghost t = src@.skip(p as int);
    proof {
        lemma_take_is_text_at(src@, p as int);
    }
    let len = scan_identifier(src, p);
    let kind = identifier_kind(src, p, len);
    proof {
        assert forall|m: int| len < m <= t.len() implies token_kind(
                #[trigger] t.take(m),
            ) is None by {
                let y = t.take(m);
                if token_kind(y) is Some {
                    lemma_token_shape(y);
                    assert(is_identifier_part(y[len as int]));
                }
            }
            lemma_longest_token_is(t, len as nat);
    }
    Some((kind, len))
}

/// Scans the token that starts with the digit or the point at `p`: a number,
/// or a lone point where no digit follows it.
fn scan_numeric(src: &Vec<char>, p: usize) -> (r: Option<(Token, usize)>)
    requires
        p < src.len(),
        is_digit(src[p as int]) || src[p as int] == '.',
    ensures
        is_scan_of(src@.skip(p as int), r),
{
    let n = src.len();
    let c = src[p];
    let ghost t = src@.skip(p as int);
    proof {
        lemma_take_is_text_at(src@, p as int);
    }
    if digit(c) || (p + 1 < n && digit(src[p + 1])) {
        let len = scan_number(src, p);
        proof {
            let x = t.take(len as int);
            lemma_number_start(x);
            lemma_token_kind(x);
            assert(token_kind(x) == Some(Token::NumberLiteral));
            assert forall|m: int| len < m <= t.len() implies token_kind(
                #[trigger] t.take(m),
            ) is None by {
                let y = t.take(m);
                if token_kind(y) is Some {
                    lemma_token_shape(y);
                    
                }
            }
            lemma_longest_token_is(t, len as nat);
        }
        Some((Token::NumberLiteral, len))
    } else {
        proof {
            assert(t.take(1) =~= seq!['.']);
            lemma_fixed_tokens();
            assert forall|m: int| 1 < m <= t.len() implies token_kind(
                #[trigger] t.take(m),
            ) is None by {
                let y = t.take(m);
                if token_kind(y) is Some {
                    lemma_token_shape(y);
                    lemma_number_start(y);
                }
            }
            lemma_longest_token_is(t, 1);
        }
        Some((Token::Period, 1))
    }
}

/// Scans the token that starts with the minus sign at `p`: a negative number
/// where a number follows at once, else an arrow or a lone minus.
fn scan_minus(src: &Vec<char>, p: usize) -> (r: Option<(Token, usize)>)
    requires
        p < src.len(),
        src[p as int] == '-',
    ensures
        is_scan_of(src@.skip(p as int), r),
{
    let n = src.len();
    let c = src[p];
    let ghost t = src@.skip(p as int);
    proof {
        lemma_take_is_text_at(src@, p as int);
    }
    if p + 1 < n && (digit(src[p + 1]) || (src[p + 1] == '.' && p + 2 < n && digit(src[p + 2]))) {
        let len = 1 + scan_number(src, p + 1);
        proof {
            let x = t.take(len as int);
            assert(x.skip(1) =~= text_at(src@, p + 1, len - 1));
            lemma_number_start(x.skip(1));
            assert(x[1] == x.skip(1)[0]);
            lemma_token_kind(x);
            assert(token_kind(x) == Some(Token::NumberLiteral));
            assert forall|m: int| len < m <= t.len() implies token_kind(
                #[trigger] t.take(m),
            ) is None by {
                let y = t.take(m);
                if token_kind(y) is Some {
                    lemma_token_shape(y);
                    assert(y.skip(1) =~= text_at(src@, p + 1, m - 1));
                }
            }
            lemma_longest_token_is(t, len as nat);
        }
        Some((Token::NumberLiteral, len))
    } else if p + 1 < n && src[p + 1] == '>' {
        proof {
            assert(t.take(2) =~= seq!['-', '>']);
            lemma_fixed_tokens();
            assert forall|m: int| 2 < m <= t.len() implies token_kind(
                #[trigger] t.take(m),
            ) is None by {
                let y = t.take(m);
                if token_kind(y) is Some {
                    lemma_token_shape(y);
                    lemma_number_start(y.skip(1));
                }
            }
            lemma_longest_token_is(t, 2);
        }
        Some((Token::To, 2))
    } else {
        proof {
            assert(t.take(1) =~= seq!['-']);
            lemma_fixed_tokens();
            assert forall|m: int| 1 < m <= t.len() implies token_kind(
                #[trigger] t.take(m),
            ) is None by {
                let y = t.take(m);
                if token_kind(y) is Some {
                    lemma_token_shape(y);
                    assert(y[1] == src[p + 1]);
                    if is_unsigned_number(y.skip(1)) {
                        lemma_number_start(y.skip(1));
                        assert(y.skip(1)[0] == src[p + 1]);
                        if y.skip(1).len() >= 2 {
                            assert(y.skip(1)[1] == src[p + 2]);
                        }
                    }
                }
            }
            lemma_longest_token_is(t, 1);
        }
        Some((Token::Minus, 1))
    }
}

/// Scans the string literal that the quote at `p` opens, if it opens one.
fn scan_quote(src: &Vec<char>, p: usize) -> (r: Option<(Token, usize)>)
    requires
        p < src.len(),
        src[p as int] == '"',
    ensures
        is_scan_of(src@.skip(p as int), r),
{
    let n = src.len();
    let c = src[p];
    let ghost t = src@.skip(p as int);
    proof {
        lemma_take_is_text_at(src@, p as int);
    }
    match scan_string(src, p) {
        Some(len) => {
            proof {
                let x = t.take(len as int);
                lemma_token_kind(x);
                assert(token_kind(x) == Some(Token::StringLiteral));
                assert forall|m: int| len < m <= t.len() implies token_kind(
                #[trigger] t.take(m),
            ) is None by {
                let y = t.take(m);
                if token_kind(y) is Some {
                    lemma_token_shape(y);
                    
                }
            }
            lemma_longest_token_is(t, len as nat);
            }
            Some((Token::StringLiteral, len))
        },
        None => {
            proof {
                assert forall|m: int| 0 < m <= t.len() implies token_kind(
                    #[trigger] t.take(m),
                ) is None by {
                    let y = t.take(m);
                    if token_kind(y) is Some {
                        lemma_token_shape(y);
                        
                    }
                }
                lemma_longest_token_none(t);
            }
            None
        },
    }
}

/// Scans the operator that starts with the `=` or the `!` at `p`. A `!` that
/// no `=` follows starts no token.
fn scan_operator(src: &Vec<char>, p: usize) -> (r: Option<(Token, usize)>)
    requires
        p < src.len(),
        src[p as int] == '=' || src[p as int] == '!',
    ensures
        is_scan_of(src@.skip(p as int), r),
{
    let n = src.len();
    let c = src[p];
    let ghost t = src@.skip(p as int);
    proof {
        lemma_take_is_text_at(src@, p as int);
    }
    if p + 1 < n && src[p + 1] == '=' {
        let kind = if c == '=' {
            Token::DoubleEquals
        } else {
            Token::NotEquals
        };
        proof {
            assert(t.take(2) =~= seq![c, '=']);
            lemma_fixed_tokens();
            assert forall|m: int| 2 < m <= t.len() implies token_kind(
                #[trigger] t.take(m),
            ) is None by {
                let y = t.take(m);
                if token_kind(y) is Some {
                    lemma_token_shape(y);
                    
                }
            }
            lemma_longest_token_is(t, 2);
        }
        Some((kind, 2))
    } else if c == '=' {
        proof {
            assert(t.take(1) =~= seq!['=']);
            lemma_fixed_tokens();
            assert forall|m: int| 1 < m <= t.len() implies token_kind(
                #[trigger] t.take(m),
            ) is None by {
                let y = t.take(m);
                if token_kind(y) is Some {
                    lemma_token_shape(y);
                    assert(y[1] == src[p + 1]);
                }
            }
            lemma_longest_token_is(t, 1);
        }
        Some((Token::Equals, 1))
    } else {
        proof {
                assert forall|m: int| 0 < m <= t.len() implies token_kind(
                    #[trigger] t.take(m),
                ) is None by {
                    let y = t.take(m);
                    if token_kind(y) is Some {
                        lemma_token_shape(y);
                        assert(y[1] == src[p + 1]);
                    }
                }
                lemma_longest_token_none(t);
            }
        None
    }
}

/// Scans the one-character token at `p`, if the character there is one.
fn scan_delimiter(src: &Vec<char>, p: usize) -> (r: Option<(Token, usize)>)
    requires
        p < src.len(),
        !is_identifier_start(src[p as int]),
        !is_digit(src[p as int]),
        src[p as int] != '.' && src[p as int] != '-' && src[p as int] != '"' && src[p as int] != '='
            && src[p as int] != '!',
    ensures
        is_scan_of(src@.skip(p as int), r),
{
    let n = src.len();
    let c = src[p];
    let ghost t = src@.skip(p as int);
    proof {
        lemma_take_is_text_at(src@, p as int);
    }
    match single_delimiter(c) {
        Some(kind) => {
            proof {
                assert(t.take(1) =~= seq![c]);
                lemma_fixed_tokens();
                assert forall|m: int| 1 < m <= t.len() implies token_kind(
                #[trigger] t.take(m),
            ) is None by {
                let y = t.take(m);
                if token_kind(y) is Some {
                    lemma_token_shape(y);
                    
                }
            }
            lemma_longest_token_is(t, 1);
            }
            Some((kind, 1))
        },
        None => {
            proof {
                assert forall|m: int| 0 < m <= t.len() implies token_kind(
                    #[trigger] t.take(m),
                ) is None by {
                    let y = t.take(m);
                    if token_kind(y) is Some {
                        lemma_token_shape(y);
                        
                    }
                }
                lemma_longest_token_none(t);
            }
            None
        },
    }
}

/// The longest token that starts at `p`, with its length, or nothing where no
/// token starts there.
pub(crate) fn scan_token(src: &Vec<char>, p: usize) -> (r: Option<(Token, usize)>)
    requires
        p < src.len(),
    ensures
        is_scan_of(src@.skip(p as int), r),
{
    let c = src[p];
    if identifier_start(c) {
        scan_word(src, p)
    } else if digit(c) || c == '.' {
        scan_numeric(src, p)
    } else if c == '-' {
        scan_minus(src, p)
    } else if c == '"' {
        scan_quote(src, p)
    } else if c == '=' || c == '!' {
        scan_operator(src, p)
    } else {
        scan_delimiter(src, p)
    }
}

} // verus!
