use rstl::ast::AST;
use rstl::decimal::Decimal;
use rstl::errors::Errors;
use rstl::lexer::{Lexer, Token};
use rstl::scanner::is_number_text;
use rstl::text::{chars_of, decimal_string};

fn kinds(source: &str) -> Vec<Result<Token, ()>> {
    Token::lexer(source).collect()
}

fn lexemes(source: &str) -> Vec<(Token, String)> {
    Token::lexer(source).tokens().unwrap()
}

fn pair(kind: Token, lexeme: &str) -> (Token, String) {
    (kind, lexeme.to_string())
}

#[test]
fn empty_and_blank_sources_have_no_tokens() {
    assert_eq!(kinds(""), vec![]);
    assert_eq!(kinds(" \t\n\x0c  "), vec![]);
    assert_eq!(lexemes("   "), vec![]);
}

#[test]
fn carriage_return_is_no_whitespace() {
    assert_eq!(kinds("\r"), vec![Err(())]);
}

#[test]
fn keywords_are_reserved_words() {
    assert_eq!(
        lexemes("mut const fn return"),
        vec![
            pair(Token::MutKeyword, "mut"),
            pair(Token::ConstKeyword, "const"),
            pair(Token::FunctionKeyword, "fn"),
            pair(Token::ReturnKeyword, "return"),
        ]
    );
}

#[test]
fn longer_words_that_start_with_a_keyword_are_identifiers() {
    assert_eq!(
        lexemes("mutable constant fnord returns mu Mut _fn fn2"),
        vec![
            pair(Token::Literal, "mutable"),
            pair(Token::Literal, "constant"),
            pair(Token::Literal, "fnord"),
            pair(Token::Literal, "returns"),
            pair(Token::Literal, "mu"),
            pair(Token::Literal, "Mut"),
            pair(Token::Literal, "_fn"),
            pair(Token::Literal, "fn2"),
        ]
    );
}

#[test]
fn every_delimiter_and_operator() {
    assert_eq!(
        kinds("( ) { } [ ] , . ; = == != + - * -> ~"),
        vec![
            Ok(Token::LeftParen),
            Ok(Token::RightParen),
            Ok(Token::LeftBrace),
            Ok(Token::RightBrace),
            Ok(Token::LeftBracket),
            Ok(Token::RightBracket),
            Ok(Token::Comma),
            Ok(Token::Period),
            Ok(Token::Semicolon),
            Ok(Token::Equals),
            Ok(Token::DoubleEquals),
            Ok(Token::NotEquals),
            Ok(Token::Plus),
            Ok(Token::Minus),
            Ok(Token::Star),
            Ok(Token::To),
            Ok(Token::Tilde),
        ]
    );
}

#[test]
fn the_longest_operator_wins() {
    assert_eq!(
        lexemes("===!==->-"),
        vec![
            pair(Token::DoubleEquals, "=="),
            pair(Token::Equals, "="),
            pair(Token::NotEquals, "!="),
            pair(Token::Equals, "="),
            pair(Token::To, "->"),
            pair(Token::Minus, "-"),
        ]
    );
}

#[test]
fn tokens_need_no_whitespace_between_them() {
    assert_eq!(
        lexemes("f(a,b);"),
        vec![
            pair(Token::Literal, "f"),
            pair(Token::LeftParen, "("),
            pair(Token::Literal, "a"),
            pair(Token::Comma, ","),
            pair(Token::Literal, "b"),
            pair(Token::RightParen, ")"),
            pair(Token::Semicolon, ";"),
        ]
    );
}

#[test]
fn numbers_need_a_digit_on_one_side_of_the_point() {
    assert_eq!(
        lexemes("12 1.5 1. .5 007"),
        vec![
            pair(Token::NumberLiteral, "12"),
            pair(Token::NumberLiteral, "1.5"),
            pair(Token::NumberLiteral, "1."),
            pair(Token::NumberLiteral, ".5"),
            pair(Token::NumberLiteral, "007"),
        ]
    );
    assert_eq!(lexemes("."), vec![pair(Token::Period, ".")]);
}

#[test]
fn a_number_has_one_point_at_most() {
    assert_eq!(
        lexemes("1.2.3"),
        vec![pair(Token::NumberLiteral, "1.2"), pair(Token::NumberLiteral, ".3")]
    );
    assert_eq!(
        lexemes("1..2"),
        vec![pair(Token::NumberLiteral, "1."), pair(Token::NumberLiteral, ".2")]
    );
    assert_eq!(
        lexemes("a.b"),
        vec![
            pair(Token::Literal, "a"),
            pair(Token::Period, "."),
            pair(Token::Literal, "b"),
        ]
    );
}

#[test]
fn a_minus_apart_from_a_number_is_subtraction() {
    assert_eq!(
        lexemes("a - 1"),
        vec![
            pair(Token::Literal, "a"),
            pair(Token::Minus, "-"),
            pair(Token::NumberLiteral, "1"),
        ]
    );
}

#[test]
fn a_minus_directly_before_a_number_is_its_sign() {
    assert_eq!(lexemes("-1"), vec![pair(Token::NumberLiteral, "-1")]);
    assert_eq!(lexemes("-.5"), vec![pair(Token::NumberLiteral, "-.5")]);
    assert_eq!(lexemes("-12.25"), vec![pair(Token::NumberLiteral, "-12.25")]);
    assert_eq!(
        lexemes("mut x = -1;"),
        vec![
            pair(Token::MutKeyword, "mut"),
            pair(Token::Literal, "x"),
            pair(Token::Equals, "="),
            pair(Token::NumberLiteral, "-1"),
            pair(Token::Semicolon, ";"),
        ]
    );
    assert_eq!(
        lexemes("a -1"),
        vec![pair(Token::Literal, "a"), pair(Token::NumberLiteral, "-1")]
    );
    assert_eq!(
        lexemes("-."),
        vec![pair(Token::Minus, "-"), pair(Token::Period, ".")]
    );
    assert_eq!(
        lexemes("--1"),
        vec![pair(Token::Minus, "-"), pair(Token::NumberLiteral, "-1")]
    );
}

#[test]
fn strings_keep_their_quotes_and_escapes() {
    assert_eq!(
        lexemes(r#""" "a b" "say \"hi\"" "back\\slash""#),
        vec![
            pair(Token::StringLiteral, r#""""#),
            pair(Token::StringLiteral, r#""a b""#),
            pair(Token::StringLiteral, r#""say \"hi\"""#),
            pair(Token::StringLiteral, r#""back\\slash""#),
        ]
    );
}

#[test]
fn strings_may_hold_newlines_and_any_other_character() {
    assert_eq!(
        lexemes("\"line one\nline two\" \"caf\u{e9} \u{1F600}\""),
        vec![
            pair(Token::StringLiteral, "\"line one\nline two\""),
            pair(Token::StringLiteral, "\"caf\u{e9} \u{1F600}\""),
        ]
    );
}

#[test]
fn adjacent_strings_are_two_tokens() {
    assert_eq!(
        lexemes(r#""a""b""#),
        vec![
            pair(Token::StringLiteral, r#""a""#),
            pair(Token::StringLiteral, r#""b""#),
        ]
    );
}

#[test]
fn an_unterminated_string_is_no_token() {
    assert_eq!(Token::lexer("\"abc").tokens(), Err("\"".to_string()));
    assert_eq!(Token::lexer("\"abc\\\"").tokens(), Err("\"".to_string()));
    assert_eq!(Token::lexer("\"abc\\").tokens(), Err("\"".to_string()));
}

#[test]
fn a_backslash_before_a_newline_breaks_a_string() {
    assert_eq!(Token::lexer("\"a\\\nb\"").tokens(), Err("\"".to_string()));
}

#[test]
fn an_unknown_character_fails_tokenization() {
    assert_eq!(kinds("@"), vec![Err(())]);
    assert_eq!(Token::lexer("@").tokens(), Err("@".to_string()));
    assert_eq!(Token::lexer("a = 1 # b").tokens(), Err("#".to_string()));
    assert_eq!(Token::lexer("caf\u{e9}").tokens(), Err("\u{e9}".to_string()));
    assert_eq!(Token::lexer("a ! b").tokens(), Err("!".to_string()));
}

#[test]
fn the_first_failure_is_the_one_reported() {
    assert_eq!(Token::lexer("@ $").tokens(), Err("@".to_string()));
}

#[test]
fn reports_go_on_behind_an_offending_character() {
    assert_eq!(
        kinds("a @ b"),
        vec![Ok(Token::Literal), Err(()), Ok(Token::Literal)]
    );
    assert_eq!(kinds("@@"), vec![Err(()), Err(())]);
}

#[test]
fn next_and_slice_walk_the_text() {
    let mut lexer = Lexer::new("  foo  =\t42 ?");
    assert_eq!(lexer.slice(), "");
    assert_eq!(lexer.next(), Some(Ok(Token::Literal)));
    assert_eq!(lexer.slice(), "foo");
    assert_eq!(lexer.next(), Some(Ok(Token::Equals)));
    assert_eq!(lexer.slice(), "=");
    assert_eq!(lexer.next(), Some(Ok(Token::NumberLiteral)));
    assert_eq!(lexer.slice(), "42");
    assert_eq!(lexer.next(), Some(Err(())));
    assert_eq!(lexer.slice(), "?");
    assert_eq!(lexer.next(), None);
    assert_eq!(lexer.slice(), "");
    assert_eq!(lexer.next(), None);
}

#[test]
fn collecting_starts_where_the_lexer_stands() {
    let mut lexer = Lexer::new("a b c");
    assert_eq!(lexer.next(), Some(Ok(Token::Literal)));
    assert_eq!(
        lexer.tokens(),
        Ok(vec![pair(Token::Literal, "b"), pair(Token::Literal, "c")])
    );
}

#[test]
fn whitespace_separated_numbers_give_one_token_each() {
    let source = "  1 2.5\t-3\n.5 \x0c 10. 1234567890.1234567890  ";
    let expected = ["1", "2.5", "-3", ".5", "10.", "1234567890.1234567890"];
    let tokens = lexemes(source);
    assert_eq!(tokens.len(), expected.len());
    for (token, literal) in tokens.iter().zip(expected.iter()) {
        assert_eq!(token, &pair(Token::NumberLiteral, literal));
    }
}

#[test]
fn two_strings_give_two_tokens_in_order() {
    assert_eq!(
        lexemes("\n \"string0123456789\"\n \"string\"\n "),
        vec![
            pair(Token::StringLiteral, "\"string0123456789\""),
            pair(Token::StringLiteral, "\"string\""),
        ]
    );
}

#[test]
fn tokenizing_a_lexeme_gives_its_token_again() {
    let source = r#"
        fn area(w ~ float, h ~ float) -> float {
            mut label ~ string = "w \"times\" h";
            const half = .5;
            return w * h - -2. == 3 != x;
        }
        area(1, [2.0]);
    "#;
    let tokens = lexemes(source);
    assert_eq!(tokens.len(), 47);
    for (kind, lexeme) in tokens {
        assert_eq!(
            Token::lexer(lexeme.as_str()).tokens(),
            Ok(vec![(kind, lexeme.clone())])
        );
    }
}

#[test]
fn the_token_list_of_a_text() {
    let ast = AST::new(Token::lexer("mut a = 10;")).unwrap();
    assert_eq!(
        ast.tokens(),
        &vec![
            pair(Token::MutKeyword, "mut"),
            pair(Token::Literal, "a"),
            pair(Token::Equals, "="),
            pair(Token::NumberLiteral, "10"),
            pair(Token::Semicolon, ";"),
        ]
    );
}

#[test]
fn the_token_list_fails_with_the_offending_text() {
    match AST::new(Token::lexer("mut a = @;")) {
        Err(Errors::InvalidToken(text)) => assert_eq!(text, "@"),
        _ => panic!("tokenization should fail"),
    }
}

#[test]
fn decimal_texts() {
    for text in ["0", "10", "20.0", "1.", ".5", "-1", "-.5", "-12.25", "007"] {
        assert!(is_number_text(&chars_of(text)), "{text}");
        let value = Decimal::parse(text).unwrap();
        assert_eq!(value.text(), text);
        assert_eq!(value.is_negative(), text.starts_with('-'));
        assert_eq!(value.clone(), value);
    }
    assert_eq!(Decimal::parse("20.0").unwrap().text().parse::<f64>(), Ok(20.0));
    assert_eq!(Decimal::parse("-.5").unwrap().text().parse::<f64>(), Ok(-0.5));
    assert_eq!(Decimal::parse("1.").unwrap().text().parse::<f64>(), Ok(1.0));
}

#[test]
fn texts_that_are_no_decimal() {
    for text in ["", ".", "-", "-.", "1.2.3", "1e5", "+1", "--1", "1-", " 1", "1 ", "a", "١"] {
        assert!(!is_number_text(&chars_of(text)), "{text}");
        assert_eq!(Decimal::parse(text), None);
    }
}

#[test]
fn characters_of_a_text() {
    assert_eq!(chars_of(""), Vec::<char>::new());
    assert_eq!(chars_of("a\u{e9}\u{1F600}"), vec!['a', '\u{e9}', '\u{1F600}']);
}

#[test]
fn reports_are_the_kinds_of_the_tokens() {
    let source = "fn f(a ~ int) -> int { return a * -2.5 == \"x\"; }";
    let kinds: Vec<Result<Token, ()>> = lexemes(source)
        .into_iter()
        .map(|(kind, _)| Ok(kind))
        .collect();
    assert_eq!(Token::lexer(source).collect(), kinds);
    assert!(Token::lexer("a $ b").tokens().is_err());
    assert!(Token::lexer("a $ b").collect().contains(&Err(())));
}

#[test]
fn lexemes_with_characters_of_several_bytes() {
    assert_eq!(
        lexemes("x = \"h\u{e9}\" + \"\u{1F600}\";"),
        vec![
            pair(Token::Literal, "x"),
            pair(Token::Equals, "="),
            pair(Token::StringLiteral, "\"h\u{e9}\""),
            pair(Token::Plus, "+"),
            pair(Token::StringLiteral, "\"\u{1F600}\""),
            pair(Token::Semicolon, ";"),
        ]
    );
}

#[test]
fn decimal_numerals() {
    assert_eq!(decimal_string(0), "0");
    assert_eq!(decimal_string(7), "7");
    assert_eq!(decimal_string(10), "10");
    assert_eq!(decimal_string(109), "109");
    assert_eq!(decimal_string(1234567890), "1234567890");
    assert_eq!(decimal_string(usize::MAX), usize::MAX.to_string());
}
