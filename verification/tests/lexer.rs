use quince::error::QuinceError;
use quince::syntax::lexer::Lexer;
use quince::syntax::token::TokenKind;

/// Tokenizes to kinds only, dropping the trailing `Eof`.
fn kinds(src: &str) -> Vec<TokenKind> {
    let mut tokens = Lexer::new(src).tokenize().expect("should lex");
    assert_eq!(tokens.pop().map(|t| t.kind), Some(TokenKind::Eof));
    tokens.into_iter().map(|t| t.kind).collect()
}

fn error(src: &str) -> QuinceError {
    Lexer::new(src).tokenize().expect_err("should fail to lex")
}

#[test]
fn empty_input_is_just_eof() {
    let tokens = Lexer::new("").tokenize().unwrap();
    assert_eq!(tokens.len(), 1);
    assert_eq!(tokens[0].kind, TokenKind::Eof);
}

#[test]
fn keywords_are_distinct_from_idents() {
    assert_eq!(kinds("let"), vec![TokenKind::Let]);
    assert_eq!(kinds("letter"), vec![TokenKind::Ident("letter".into())]);
    assert_eq!(kinds("_x1"), vec![TokenKind::Ident("_x1".into())]);
}

#[test]
fn two_char_operators_win_over_one() {
    assert_eq!(
        kinds("== = != ! <= < >= > && ||"),
        vec![
            TokenKind::Eq,
            TokenKind::Assign,
            TokenKind::Ne,
            TokenKind::Not,
            TokenKind::Le,
            TokenKind::Lt,
            TokenKind::Ge,
            TokenKind::Gt,
            TokenKind::AndAnd,
            TokenKind::OrOr,
        ]
    );
}

#[test]
fn integers_and_floats() {
    assert_eq!(kinds("42"), vec![TokenKind::Int(42)]);
    assert_eq!(kinds("2.5"), vec![TokenKind::Float(f64::to_bits(2.5))]);
}

#[test]
fn trailing_dot_is_not_part_of_the_number() {
    // Keeps `1.max()` available as a method call rather than a bad float.
    assert_eq!(
        kinds("1.max"),
        vec![
            TokenKind::Int(1),
            TokenKind::Dot,
            TokenKind::Ident("max".into())
        ]
    );
}

#[test]
fn integer_overflow_is_an_error() {
    let err = error("99999999999999999999");
    assert!(err.message.contains("out of range"), "{}", err.message);
}

#[test]
fn strings_handle_escapes() {
    assert_eq!(kinds(r#""hi""#), vec![TokenKind::Str("hi".into())]);
    assert_eq!(kinds(r#""a\nb""#), vec![TokenKind::Str("a\nb".into())]);
    assert_eq!(kinds(r#""q\"q""#), vec![TokenKind::Str("q\"q".into())]);
    assert_eq!(
        kinds(r#""back\\slash""#),
        vec![TokenKind::Str("back\\slash".into())]
    );
}

#[test]
fn unterminated_string_is_an_error() {
    let err = error(r#""oops"#);
    assert!(err.message.contains("unterminated"), "{}", err.message);
}

#[test]
fn unknown_escape_is_an_error() {
    let err = error(r#""a\qb""#);
    assert!(err.message.contains("unknown escape"), "{}", err.message);
}

#[test]
fn comments_and_whitespace_are_skipped() {
    assert_eq!(
        kinds("let # trailing comment\n x"),
        vec![TokenKind::Let, TokenKind::Ident("x".into())]
    );
    assert_eq!(kinds("# only a comment"), vec![]);
    assert_eq!(kinds("#!/usr/bin/env quince\nlet"), vec![TokenKind::Let]);
}

#[test]
fn one_slash_divides_and_two_floor_divide() {
    assert_eq!(
        kinds("a / b // c"),
        vec![
            TokenKind::Ident("a".into()),
            TokenKind::Slash,
            TokenKind::Ident("b".into()),
            TokenKind::SlashSlash,
            TokenKind::Ident("c".into()),
        ]
    );
}

#[test]
fn single_ampersand_suggests_the_pair() {
    let err = error("a & b");
    assert!(err.message.contains("&&"), "{}", err.message);
}

#[test]
fn newlines_are_recorded_on_the_following_token() {
    let tokens = Lexer::new("a b\nc").tokenize().unwrap();
    let flags: Vec<_> = tokens.iter().map(|t| t.newline_before).collect();
    // a, b, c, Eof — only `c` follows a line break.
    assert_eq!(flags, vec![false, false, true, false]);
}

#[test]
fn a_comment_does_not_swallow_its_newline() {
    let tokens = Lexer::new("a # note\nb").tokenize().unwrap();
    assert!(
        tokens[1].newline_before,
        "`b` should still start a new line"
    );
}

#[test]
fn spans_cover_exactly_the_token() {
    let tokens = Lexer::new("let x = 42").tokenize().unwrap();
    let spans: Vec<_> = tokens.iter().map(|t| (t.span.start, t.span.end)).collect();
    assert_eq!(spans, vec![(0, 3), (4, 5), (6, 7), (8, 10), (10, 10)]);
}

#[test]
fn spans_survive_multibyte_characters() {
    // `é` is two bytes, so a naive char-count would misplace everything after it.
    let src = r#"let é = "π""#;
    let tokens = Lexer::new(src).tokenize().unwrap();
    let last = &tokens[tokens.len() - 2];
    assert_eq!(last.kind, TokenKind::Str("π".into()));
    assert_eq!(
        &src[last.span.start as usize..last.span.end as usize],
        r#""π""#
    );
}

#[test]
fn lexes_the_hello_example() {
    let src = "\
fn greet(name) {
return \"hello, \" + name
}

let x = 42

if x > 10 {
print(greet(\"world\"))
}
";
    let tokens = Lexer::new(src).tokenize().expect("example should lex");
    assert_eq!(tokens.first().map(|t| &t.kind), Some(&TokenKind::Fn));
    assert_eq!(tokens.last().map(|t| &t.kind), Some(&TokenKind::Eof));
}
