use c4l_front::tokenizer::parse;
use c4l_front::{LexError, Token, TokenKind};

fn tokens(source: &str) -> Vec<Token<'_>> {
    parse(source).expect("the source should tokenize")
}

#[test]
fn empty_source_is_just_the_end_marker() {
    assert_eq!(tokens(""), vec![Token::EOF]);
}

#[test]
fn white_space_alone_is_just_the_end_marker() {
    assert_eq!(tokens(" \t\n\x0c  "), vec![Token::EOF]);
}

#[test]
fn end_marker_comes_once_and_last() {
    let all = tokens("fn f() { ret 1; }");
    assert_eq!(all.last(), Some(&Token::EOF));
    assert_eq!(all.iter().filter(|t| **t == Token::EOF).count(), 1);
}

#[test]
fn small_function_tokenizes() {
    assert_eq!(
        tokens("fn f() { ret 1; }"),
        vec![
            Token::Function,
            Token::Identifier("f"),
            Token::LParen,
            Token::RParen,
            Token::LBrace,
            Token::Return,
            Token::Number("1"),
            Token::StatementEnd,
            Token::RBrace,
            Token::EOF,
        ]
    );
}

#[test]
fn every_keyword_is_recognised() {
    assert_eq!(
        tokens("let mut ret if else while for fn mod struct enum"),
        vec![
            Token::Let,
            Token::Mut,
            Token::Return,
            Token::If,
            Token::Else,
            Token::While,
            Token::For,
            Token::Function,
            Token::Module,
            Token::Struct,
            Token::Enum,
            Token::EOF,
        ]
    );
}

#[test]
fn every_symbol_is_recognised() {
    assert_eq!(
        tokens("<- |> | -> => @ ~ ( ) { } [ ] , ; ."),
        vec![
            Token::Assign,
            Token::FnPipe,
            Token::TypeDecl,
            Token::RetType,
            Token::FnArrow,
            Token::PatternMatch,
            Token::Wildcard,
            Token::LParen,
            Token::RParen,
            Token::LBrace,
            Token::RBrace,
            Token::LBracket,
            Token::RBracket,
            Token::ArgumentSeparator,
            Token::StatementEnd,
            Token::FieldAccessor,
            Token::EOF,
        ]
    );
}

#[test]
fn every_operator_is_recognised() {
    assert_eq!(
        tokens("+ - * / %"),
        vec![
            Token::Operator("+"),
            Token::Operator("-"),
            Token::Operator("*"),
            Token::Operator("/"),
            Token::Operator("%"),
            Token::EOF,
        ]
    );
}

#[test]
fn tokens_need_no_space_between_them() {
    assert_eq!(
        tokens("x<-a+1;"),
        vec![
            Token::Identifier("x"),
            Token::Assign,
            Token::Identifier("a"),
            Token::Operator("+"),
            Token::Number("1"),
            Token::StatementEnd,
            Token::EOF,
        ]
    );
}

#[test]
fn longer_word_beats_keyword() {
    assert_eq!(
        tokens("letter fnord iffy"),
        vec![
            Token::Identifier("letter"),
            Token::Identifier("fnord"),
            Token::Identifier("iffy"),
            Token::EOF,
        ]
    );
}

#[test]
fn keyword_beats_identifier_of_same_length() {
    assert_eq!(tokens("let"), vec![Token::Let, Token::EOF]);
    assert_eq!(tokens("Let"), vec![Token::Identifier("Let"), Token::EOF]);
}

#[test]
fn truth_values_are_literals() {
    assert_eq!(
        tokens("true false truex"),
        vec![
            Token::BoolLiteral("true"),
            Token::BoolLiteral("false"),
            Token::Identifier("truex"),
            Token::EOF,
        ]
    );
}

#[test]
fn identifiers_may_hold_digits_and_underscores() {
    assert_eq!(
        tokens("_a1 a_b __ x9"),
        vec![
            Token::Identifier("_a1"),
            Token::Identifier("a_b"),
            Token::Identifier("__"),
            Token::Identifier("x9"),
            Token::EOF,
        ]
    );
}

#[test]
fn whole_and_decimal_numbers() {
    assert_eq!(
        tokens("0 42 3.25 007"),
        vec![
            Token::Number("0"),
            Token::Number("42"),
            Token::Number("3.25"),
            Token::Number("007"),
            Token::EOF,
        ]
    );
}

#[test]
fn point_without_digits_is_not_part_of_the_number() {
    assert_eq!(
        tokens("1.x"),
        vec![
            Token::Number("1"),
            Token::FieldAccessor,
            Token::Identifier("x"),
            Token::EOF,
        ]
    );
    assert_eq!(tokens("1."), vec![Token::Number("1"), Token::FieldAccessor, Token::EOF]);
}

#[test]
fn second_point_starts_a_new_token() {
    assert_eq!(
        tokens("1.2.3"),
        vec![
            Token::Number("1.2"),
            Token::FieldAccessor,
            Token::Number("3"),
            Token::EOF,
        ]
    );
}

#[test]
fn digits_followed_by_letters_are_an_identifier() {
    assert_eq!(tokens("12ab"), vec![Token::Identifier("12ab"), Token::EOF]);
}

#[test]
fn decimal_number_ends_where_its_digits_end() {
    assert_eq!(
        tokens("1.5abc"),
        vec![Token::Number("1.5"), Token::Identifier("abc"), Token::EOF]
    );
}

#[test]
fn minus_and_arrow() {
    assert_eq!(
        tokens("a->b a-b"),
        vec![
            Token::Identifier("a"),
            Token::RetType,
            Token::Identifier("b"),
            Token::Identifier("a"),
            Token::Operator("-"),
            Token::Identifier("b"),
            Token::EOF,
        ]
    );
    assert_eq!(parse("a- >b"), Err(LexError { position: 3 }));
}

#[test]
fn bar_and_pipe() {
    assert_eq!(
        tokens("x|i32 a|>b"),
        vec![
            Token::Identifier("x"),
            Token::TypeDecl,
            Token::Identifier("i32"),
            Token::Identifier("a"),
            Token::FnPipe,
            Token::Identifier("b"),
            Token::EOF,
        ]
    );
}

#[test]
fn string_literal_keeps_its_quotes() {
    assert_eq!(
        tokens("\"hello world\""),
        vec![Token::StringLiteral("\"hello world\""), Token::EOF]
    );
    assert_eq!(tokens("\"\""), vec![Token::StringLiteral("\"\""), Token::EOF]);
}

#[test]
fn string_literal_with_escapes() {
    let source = r#""a\"b\\" x"#;
    assert_eq!(
        tokens(source),
        vec![
            Token::StringLiteral(r#""a\"b\\""#),
            Token::Identifier("x"),
            Token::EOF,
        ]
    );
}

#[test]
fn string_literal_may_span_lines() {
    assert_eq!(
        tokens("\"a\nb\""),
        vec![Token::StringLiteral("\"a\nb\""), Token::EOF]
    );
}

#[test]
fn unterminated_string_is_an_error() {
    assert_eq!(parse("x \"abc"), Err(LexError { position: 2 }));
    assert_eq!(parse("\"abc\\\""), Err(LexError { position: 0 }));
}

#[test]
fn backslash_before_line_feed_ends_no_string() {
    assert_eq!(parse("\"a\\\nb\""), Err(LexError { position: 0 }));
}

#[test]
fn char_literal_keeps_its_quotes() {
    assert_eq!(
        tokens("'a' ' ' '''"),
        vec![
            Token::CharLiteral("'a'"),
            Token::CharLiteral("' '"),
            Token::CharLiteral("'''"),
            Token::EOF,
        ]
    );
}

#[test]
fn char_literal_holds_one_character() {
    assert_eq!(parse("'ab'"), Err(LexError { position: 0 }));
    assert_eq!(parse("'\n'"), Err(LexError { position: 0 }));
    assert_eq!(parse("'a"), Err(LexError { position: 0 }));
}

#[test]
fn characters_outside_ascii_count_as_one() {
    assert_eq!(
        tokens("'é' \"größe\" x"),
        vec![
            Token::CharLiteral("'é'"),
            Token::StringLiteral("\"größe\""),
            Token::Identifier("x"),
            Token::EOF,
        ]
    );
    assert_eq!(parse("\"ä\" é"), Err(LexError { position: 4 }));
}

#[test]
fn unknown_character_is_an_error_at_its_position() {
    assert_eq!(parse("let x # y"), Err(LexError { position: 6 }));
    assert_eq!(parse("#"), Err(LexError { position: 0 }));
}

#[test]
fn half_an_arrow_is_an_error() {
    assert_eq!(parse("a < b"), Err(LexError { position: 2 }));
    assert_eq!(parse("a = b"), Err(LexError { position: 2 }));
    assert_eq!(parse("a <"), Err(LexError { position: 2 }));
}

#[test]
fn error_returns_no_tokens_read_before_it() {
    assert!(parse("fn f() { ret 1; } ?").is_err());
}

#[test]
fn respelled_tokens_tokenize_to_themselves() {
    let source = "fn  add(a|i32,b|i32)->i32{ let s | i32<-a+b; ret s; } \"two words\" '-' 1.5 true";
    let first = tokens(source);
    let respelled = "fn add ( a | i32 , b | i32 ) -> i32 { let s | i32 <- a + b ; ret s ; } \"two words\" '-' 1.5 true";
    assert_eq!(tokens(respelled), first);
}

#[test]
fn tokens_compare_by_kind_and_text() {
    assert_eq!(Token::Identifier("a"), Token::Identifier("a"));
    assert_ne!(Token::Identifier("a"), Token::Identifier("b"));
    assert_ne!(Token::Identifier("a"), Token::Number("a"));
    assert_ne!(Token::Let, Token::Mut);
    assert_eq!(Token::EOF, Token::EOF);
}

#[test]
fn token_reports_kind_and_text() {
    assert_eq!(Token::Identifier("abc").kind(), TokenKind::Identifier);
    assert_eq!(Token::Identifier("abc").text(), Some("abc"));
    assert_eq!(Token::LBrace.kind(), TokenKind::LBrace);
    assert_eq!(Token::LBrace.text(), None);
}

#[test]
fn carriage_return_is_no_white_space() {
    assert_eq!(parse("a\r\nb"), Err(LexError { position: 1 }));
}

#[test]
fn digits_with_an_exponent_letter_are_an_identifier() {
    assert_eq!(tokens("1e5"), vec![Token::Identifier("1e5"), Token::EOF]);
}

#[test]
fn longest_token_wins_at_each_position() {
    assert_eq!(
        tokens("format|>x->y<-z"),
        vec![
            Token::Identifier("format"),
            Token::FnPipe,
            Token::Identifier("x"),
            Token::RetType,
            Token::Identifier("y"),
            Token::Assign,
            Token::Identifier("z"),
            Token::EOF,
        ]
    );
}
