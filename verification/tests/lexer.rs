use omni_compiler::lexer::{Lexer, Token, TokenKind};

fn lex(src: &str) -> Result<Vec<Token>, String> {
    let mut lexer = Lexer::new(src);
    lexer.tokenize()
}

fn summary(tokens: &[Token]) -> Vec<(TokenKind, String, usize, usize)> {
    tokens.iter().map(|t| (t.kind, t.text.clone(), t.line, t.col)).collect()
}

fn t(kind: TokenKind, text: &str, line: usize, col: usize) -> (TokenKind, String, usize, usize) {
    (kind, text.to_string(), line, col)
}

#[test]
fn stage0_lexes_a_simple_line() {
    let tokens = lex("let x = 1\n").unwrap();
    assert_eq!(
        summary(&tokens),
        vec![
            t(TokenKind::Ident, "let", 1, 1),
            t(TokenKind::Ident, "x", 1, 5),
            t(TokenKind::Equals, "", 1, 7),
            t(TokenKind::Number, "1", 1, 9),
            t(TokenKind::Newline, "\n", 1, 10),
            t(TokenKind::Eof, "", 2, 1),
        ]
    );
}

#[test]
fn stage0_indentation_becomes_indent_and_dedent() {
    let tokens = lex("if a\n    b\nc\n").unwrap();
    assert_eq!(
        summary(&tokens),
        vec![
            t(TokenKind::If, "if", 1, 1),
            t(TokenKind::Ident, "a", 1, 4),
            t(TokenKind::Newline, "\n", 1, 5),
            t(TokenKind::Indent, "", 2, 5),
            t(TokenKind::Ident, "b", 2, 5),
            t(TokenKind::Newline, "\n", 2, 6),
            t(TokenKind::Dedent, "", 3, 1),
            t(TokenKind::Ident, "c", 3, 1),
            t(TokenKind::Newline, "\n", 3, 2),
            t(TokenKind::Eof, "", 4, 1),
        ]
    );
}

#[test]
fn stage0_open_blocks_are_closed_at_the_end() {
    let tokens = lex("a\n  b").unwrap();
    let kinds: Vec<TokenKind> = tokens.iter().map(|t| t.kind).collect();
    assert_eq!(
        kinds,
        vec![TokenKind::Ident, TokenKind::Newline, TokenKind::Indent, TokenKind::Ident, TokenKind::Dedent, TokenKind::Eof]
    );
    assert_eq!((tokens[4].line, tokens[4].col), (2, 4));
}

#[test]
fn stage0_inconsistent_indentation_is_an_error() {
    assert_eq!(lex("a\n  b\n c\n").unwrap_err(), "Inconsistent indentation at line 3");
}

#[test]
fn stage0_lone_ampersand_is_an_error() {
    assert_eq!(lex("a & b").unwrap_err(), "Unexpected '&' at 1:4");
    let tokens = lex("a && b").unwrap();
    assert_eq!(tokens[1].kind, TokenKind::AndAnd);
}

#[test]
fn stage0_strings_and_interpolation() {
    let tokens = lex("\"a{b}\"").unwrap();
    assert_eq!(summary(&tokens)[0], t(TokenKind::InterpolatedString, "a`b`", 1, 1));
    let tokens = lex("\"x{{y}}\\n\"").unwrap();
    assert_eq!(summary(&tokens)[0], t(TokenKind::StringLiteral, "x{y}\n", 1, 1));
    assert_eq!(lex("\"ab").unwrap_err(), "Unterminated string literal");
    assert_eq!(lex("\"a\\").unwrap_err(), "Unterminated escape in string");
}

#[test]
fn stage0_comments_and_arrows() {
    let tokens = lex("--- hi ---x").unwrap();
    assert_eq!(summary(&tokens)[0], t(TokenKind::BlockComment, " hi ", 1, 4));
    assert_eq!(summary(&tokens)[1], t(TokenKind::Ident, "x", 1, 11));
    let tokens = lex("-- c\n").unwrap();
    assert_eq!(summary(&tokens)[0], t(TokenKind::LineComment, " c", 1, 3));
    assert_eq!(summary(&tokens)[1], t(TokenKind::Newline, "\n", 1, 5));
    let tokens = lex("/// d").unwrap();
    assert_eq!(summary(&tokens)[0], t(TokenKind::DocComment, " d", 1, 4));
    let tokens = lex("a->b").unwrap();
    assert_eq!(summary(&tokens)[1], t(TokenKind::Arrow, "->", 1, 2));
    assert_eq!(summary(&tokens)[2], t(TokenKind::Ident, "b", 1, 4));
}

#[test]
fn stage0_operators_and_skipped_characters() {
    let tokens = lex("a...b == c => d $ e").unwrap();
    let kinds: Vec<TokenKind> = tokens.iter().map(|t| t.kind).collect();
    assert_eq!(
        kinds,
        vec![
            TokenKind::Ident,
            TokenKind::DotDotDot,
            TokenKind::Ident,
            TokenKind::EqEq,
            TokenKind::Ident,
            TokenKind::FatArrow,
            TokenKind::Ident,
            TokenKind::Ident,
            TokenKind::Eof,
        ]
    );
}
