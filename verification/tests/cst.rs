use omni_compiler::cst::{build_cst, format_cst, SyntaxKind};
use omni_compiler::formatter::{format_cst_source, format_cst_source_with_config, FormatterConfig};
use omni_compiler::lexer::{Lexer, Token, TokenKind};

fn tree_of(src: &str) -> omni_compiler::cst::SyntaxNode {
    let mut lexer = Lexer::new(src);
    let tokens = lexer.tokenize().unwrap();
    build_cst(&tokens)
}

#[test]
fn cst_keeps_every_token_and_prints_the_tree() {
    let root = tree_of("a\n");
    assert_eq!(root.kind, SyntaxKind::Root);
    assert_eq!(
        format_cst(&root, 0),
        "Root\n  Statement\n    TOKEN TokenIdent 'a' (1:1)\n  TOKEN TokenNewline '\n' (1:2)\n  Statement\n    TOKEN TokenOther '' (2:1)\n"
    );
}

#[test]
fn cst_groups_blocks() {
    let root = tree_of("if a\n    b\nc\n");
    let printed = format_cst(&root, 0);
    assert!(printed.contains("  Block\n    TOKEN TokenIndent '' (2:5)\n    Statement\n      TOKEN TokenIdent 'b' (2:5)\n"));
    assert!(printed.contains("    TOKEN TokenDedent '' (3:1)\n"));
}

#[test]
fn formatter_writes_tokens_back() {
    let root = tree_of("x   y\n");
    assert_eq!(format_cst_source(&root), "x y\n");
    // the stage-0 lexer gives operators no text
    let root = tree_of("a  =   1\n");
    assert_eq!(format_cst_source(&root), "a 1\n");
}

#[test]
fn formatter_indents_blocks() {
    let root = tree_of("if a\n    b\nc\n");
    assert_eq!(format_cst_source(&root), "if a\n    b\n    c\n");
}

#[test]
fn formatter_strict_mode_trims_lines_and_ends_with_newline() {
    let root = tree_of("a = \"x\"");
    let plain = format_cst_source_with_config(&root, &FormatterConfig::new());
    assert_eq!(plain, "a \"x\" ");
    let strict = format_cst_source_with_config(&root, &FormatterConfig::new().with_strict_mode(true));
    assert_eq!(strict, "a \"x\"\n");
}

#[test]
fn cst_takes_the_last_token_as_the_end_of_an_unclosed_block() {
    let tok = |kind: TokenKind, text: &str, col: usize| Token { kind, text: text.to_string(), line: 1, col };
    let tokens = vec![tok(TokenKind::Indent, "", 1), tok(TokenKind::Ident, "a", 2), tok(TokenKind::Ident, "b", 3)];
    let root = build_cst(&tokens);
    assert_eq!(
        format_cst(&root, 0),
        "Root\n  Block\n    TOKEN TokenIndent '' (1:1)\n    Statement\n      TOKEN TokenIdent 'a' (1:2)\n    TOKEN TokenIdent 'b' (1:3)\n"
    );
}
