use omni_compiler::complete_lexer::{tokenize_complete, CompleteLexer, TokenKind};

fn kinds(src: &str) -> Vec<TokenKind> {
    tokenize_complete(src).unwrap().iter().map(|t| t.kind).collect()
}

fn texts(src: &str) -> Vec<String> {
    tokenize_complete(src).unwrap().iter().map(|t| t.text.clone()).collect()
}

#[test]
fn simple_statement() {
    let ts = tokenize_complete("let x = 5").unwrap();
    let ks: Vec<TokenKind> = ts.iter().map(|t| t.kind).collect();
    assert_eq!(ks, vec![TokenKind::Let, TokenKind::Ident, TokenKind::Equals, TokenKind::Number, TokenKind::Eof]);
    assert_eq!((ts[1].line, ts[1].col), (1, 5));
    assert_eq!((ts[4].line, ts[4].col), (1, 10));
}

#[test]
fn minus_and_arrow() {
    assert_eq!(kinds("a-b"), vec![TokenKind::Ident, TokenKind::Minus, TokenKind::Ident, TokenKind::Eof]);
    assert_eq!(kinds("a -> b"), vec![TokenKind::Ident, TokenKind::Arrow, TokenKind::Ident, TokenKind::Eof]);
    assert_eq!(
        kinds("fn main() -> i64"),
        vec![TokenKind::Fn, TokenKind::Ident, TokenKind::LParen, TokenKind::RParen, TokenKind::Arrow, TokenKind::Ident, TokenKind::Eof]
    );
    let ts = tokenize_complete("a -> b").unwrap();
    assert_eq!((ts[1].line, ts[1].col), (1, 3));
    assert_eq!(ts[1].text, "-");
}

#[test]
fn indentation_gives_layout_tokens() {
    assert_eq!(
        kinds("f:\n    g\nh"),
        vec![
            TokenKind::Ident,
            TokenKind::Colon,
            TokenKind::Newline,
            TokenKind::Indent,
            TokenKind::Ident,
            TokenKind::Newline,
            TokenKind::Dedent,
            TokenKind::Ident,
            TokenKind::Eof,
        ]
    );
    let ts = tokenize_complete("f\n  g").unwrap();
    let last_two: Vec<(TokenKind, String)> = ts[ts.len() - 2..].iter().map(|t| (t.kind, t.text.clone())).collect();
    assert_eq!(last_two, vec![(TokenKind::Dedent, "dedent".to_string()), (TokenKind::Eof, String::new())]);
}

#[test]
fn inconsistent_indentation_is_an_error() {
    assert_eq!(
        tokenize_complete("a\n    b\n  c").unwrap_err(),
        "Inconsistent indentation at line 3"
    );
}

#[test]
fn brackets_suspend_layout() {
    assert_eq!(
        kinds("(\n  a)"),
        vec![TokenKind::LParen, TokenKind::Newline, TokenKind::Ident, TokenKind::RParen, TokenKind::Eof]
    );
}

#[test]
fn string_literals() {
    assert_eq!(texts("\"hi\\n\""), vec!["hi\n".to_string(), String::new()]);
    assert_eq!(kinds("\"a`b\""), vec![TokenKind::InterpolatedString, TokenKind::Eof]);
    assert_eq!(texts("\"a`b\"")[0], "ab");
    assert_eq!(tokenize_complete("\"abc").unwrap_err(), "Unterminated string");
}

#[test]
fn raw_and_byte_strings() {
    let ts = tokenize_complete("r#\"raw \"x\"#").unwrap();
    assert_eq!(ts[0].kind, TokenKind::RawString);
    assert_eq!(ts[0].text, "raw \"x");
    assert_eq!(tokenize_complete("r#\"open").unwrap_err(), "Unterminated raw string");
    let ts = tokenize_complete("b\"bytes\"").unwrap();
    assert_eq!(ts[0].kind, TokenKind::ByteString);
    assert_eq!(ts[0].text, "bytes");
}

#[test]
fn numbers() {
    assert_eq!(
        kinds("0x1F 0b102 3.14 7u"),
        vec![TokenKind::HexNumber, TokenKind::BinNumber, TokenKind::Number, TokenKind::Float, TokenKind::Number, TokenKind::Eof]
    );
    assert_eq!(texts("0X1f 3.14 7u")[..3].to_vec(), vec!["0x1f", "3.14", "7u"]);
    assert_eq!(kinds("1.x"), vec![TokenKind::Number, TokenKind::Dot, TokenKind::Ident, TokenKind::Eof]);
}

#[test]
fn comments() {
    let ts = tokenize_complete("-- note\nx").unwrap();
    assert_eq!(ts[0].kind, TokenKind::LineComment);
    assert_eq!(ts[0].text, " note");
    assert_eq!(ts[0].col, 6);
    let ts = tokenize_complete("/* c */x").unwrap();
    assert_eq!((ts[0].kind, ts[0].text.as_str()), (TokenKind::BlockComment, " c "));
    assert_eq!(ts[1].kind, TokenKind::Ident);
    let ts = tokenize_complete("/* open").unwrap();
    assert_eq!((ts[0].kind, ts[0].text.as_str()), (TokenKind::DocComment, " open"));
}

#[test]
fn keywords_and_operators() {
    assert_eq!(kinds("fn Self int"), vec![TokenKind::Fn, TokenKind::SelfType, TokenKind::Int, TokenKind::Eof]);
    assert_eq!(
        kinds("a == b != c ... :: =>"),
        vec![
            TokenKind::Ident,
            TokenKind::EqEq,
            TokenKind::Ident,
            TokenKind::NotEq,
            TokenKind::Ident,
            TokenKind::DotDotDot,
            TokenKind::ColonColon,
            TokenKind::FatArrow,
            TokenKind::Eof,
        ]
    );
    assert_eq!(texts("==")[0], "=");
}

#[test]
fn lexer_object_matches_free_function() {
    let mut lexer = CompleteLexer::new("match x");
    let ts = lexer.tokenize().unwrap();
    assert_eq!(ts.len(), 3);
    assert_eq!(ts[0].kind, TokenKind::Match);
}

#[test]
fn layout_tokens_balance_and_eof_comes_last_once() {
    let toks = tokenize_complete("fn f\n    a\n        b\nc\n").unwrap();
    assert_eq!(toks.last().unwrap().kind, TokenKind::Eof);
    assert_eq!(toks.iter().filter(|t| t.kind == TokenKind::Eof).count(), 1);
    let mut depth: i64 = 0;
    for t in &toks {
        if t.kind == TokenKind::Indent {
            depth += 1;
        } else if t.kind == TokenKind::Dedent {
            depth -= 1;
        }
        assert!(depth >= 0);
    }
    assert_eq!(depth, 0);
    assert_eq!(toks.iter().filter(|t| t.kind == TokenKind::Indent).count(), 2);
}
