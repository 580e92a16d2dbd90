use pilisp::cubical::lexer::{Lexer, Token, TokenKind, is_ident_continue, is_ident_start};

fn lex(src: &str) -> Vec<Token> {
    Lexer::new(src).lex().unwrap()
}

fn kinds(src: &str) -> Vec<TokenKind> {
    lex(src).into_iter().map(|t| t.kind).collect()
}

#[test]
fn lexes_a_declaration() {
    assert_eq!(
        kinds("id : (A : U) -> A -> A"),
        vec![
            TokenKind::Ident("id".into()),
            TokenKind::Colon,
            TokenKind::LParen,
            TokenKind::Ident("A".into()),
            TokenKind::Colon,
            TokenKind::Ident("U".into()),
            TokenKind::RParen,
            TokenKind::Arrow,
            TokenKind::Ident("A".into()),
            TokenKind::Arrow,
            TokenKind::Ident("A".into()),
            TokenKind::Eof,
        ]
    );
}

#[test]
fn lexes_operators_and_unicode_forms() {
    assert_eq!(
        kinds("= => / /\\ \\ \\/ \u{3BB} \u{2227} \u{2228} \u{27E8} \u{27E9} < > * \u{D7} ~ \u{AC} { } [ ] , . | @"),
        vec![
            TokenKind::Equals,
            TokenKind::FatArrow,
            TokenKind::Slash,
            TokenKind::AndSym,
            TokenKind::Backslash,
            TokenKind::OrSym,
            TokenKind::Backslash,
            TokenKind::AndSym,
            TokenKind::OrSym,
            TokenKind::LAngle,
            TokenKind::RAngle,
            TokenKind::LAngle,
            TokenKind::RAngle,
            TokenKind::Star,
            TokenKind::Star,
            TokenKind::Tilde,
            TokenKind::Tilde,
            TokenKind::LBrace,
            TokenKind::RBrace,
            TokenKind::LBracket,
            TokenKind::RBracket,
            TokenKind::Comma,
            TokenKind::Dot,
            TokenKind::Pipe,
            TokenKind::At,
            TokenKind::Eof,
        ]
    );
}

#[test]
fn comments_run_to_the_end_of_the_line() {
    assert_eq!(
        kinds("a -- a comment -> here\nb"),
        vec![TokenKind::Ident("a".into()), TokenKind::Ident("b".into()), TokenKind::Eof]
    );
    assert_eq!(kinds("-- only a comment"), vec![TokenKind::Eof]);
}

#[test]
fn tokens_carry_line_and_column() {
    let ts = lex("a\n  bc d\n");
    assert_eq!((ts[0].line, ts[0].col), (1, 1));
    assert_eq!((ts[1].line, ts[1].col), (2, 3));
    assert_eq!((ts[2].line, ts[2].col), (2, 6));
    assert!(matches!(ts[3].kind, TokenKind::Eof));
    assert_eq!((ts[3].line, ts[3].col), (3, 1));
}

#[test]
fn integers() {
    assert_eq!(kinds("0 42 007"), vec![TokenKind::Int(0), TokenKind::Int(42), TokenKind::Int(7), TokenKind::Eof]);
    assert_eq!(kinds("2147483647"), vec![TokenKind::Int(2147483647), TokenKind::Eof]);
    let e = Lexer::new("x 2147483648").lex().unwrap_err();
    assert_eq!(e.message, "integer literal is too large");
    assert_eq!((e.line, e.col), (1, 3));
}

#[test]
fn identifiers() {
    assert_eq!(
        kinds("_x a' b? c! d-e \u{3B1}1"),
        vec![
            TokenKind::Ident("_x".into()),
            TokenKind::Ident("a'".into()),
            TokenKind::Ident("b?".into()),
            TokenKind::Ident("c!".into()),
            TokenKind::Ident("d-e".into()),
            TokenKind::Ident("\u{3B1}1".into()),
            TokenKind::Eof,
        ]
    );
    assert!(is_ident_start('_') && is_ident_start('z') && !is_ident_start('1'));
    assert!(is_ident_continue('1') && is_ident_continue('-') && !is_ident_continue(' '));
}

#[test]
fn string_literals_and_escapes() {
    assert_eq!(
        kinds(r#""a\"b\\c" "x""#),
        vec![TokenKind::String("a\"b\\c".into()), TokenKind::String("x".into()), TokenKind::Eof]
    );
}

#[test]
fn string_errors() {
    let e = Lexer::new("\"abc").lex().unwrap_err();
    assert_eq!(e.message, "unterminated string literal");
    assert_eq!((e.line, e.col), (1, 1));
    let e = Lexer::new("  \"ab\ncd\"").lex().unwrap_err();
    assert_eq!(e.message, "unterminated string literal");
    assert_eq!((e.line, e.col), (1, 3));
    let e = Lexer::new("\"a\\n\"").lex().unwrap_err();
    assert_eq!(e.message, "invalid escape sequence '\\n'");
    assert_eq!((e.line, e.col), (1, 4));
    let e = Lexer::new("\"a\\").lex().unwrap_err();
    assert_eq!(e.message, "unterminated string literal");
}

#[test]
fn unexpected_characters() {
    let e = Lexer::new("a - b").lex().unwrap_err();
    assert_eq!(e.message, "unexpected '-'");
    assert_eq!((e.line, e.col), (1, 3));
    let e = Lexer::new("a\n #").lex().unwrap_err();
    assert_eq!(e.message, "unexpected character '#'");
    assert_eq!((e.line, e.col), (2, 2));
}
