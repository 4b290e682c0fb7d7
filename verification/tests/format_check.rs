use omni_compiler::complete_lexer::{lex_panics, tokenize_complete, TokenKind};
use omni_compiler::formatter::check_format;

#[test]
fn formatted_source_passes_the_check() {
    assert_eq!(check_format("let x = 1\n"), Ok(()));
}

#[test]
fn unformatted_source_gets_a_line_diff() {
    let r = check_format("let   x = 1\n");
    assert_eq!(
        r,
        Err("Formatting would change the file:\n\n--- original\n+++ formatted\n- let   x = 1\n+ let x = 1\n".to_string())
    );
}

#[test]
fn lexer_errors_are_reported() {
    let r = check_format("let s = \"open\n");
    assert!(r.unwrap_err().starts_with("Lexer error: "));
}

#[test]
fn open_block_comment_ending_in_first_column_is_the_panicking_input() {
    assert!(lex_panics("x /*\n"));
    assert!(!lex_panics("x /* closed */\n"));
    assert!(!lex_panics("x /* open"));
    let toks = tokenize_complete("x /* open").unwrap();
    assert_eq!(toks[1].kind, TokenKind::DocComment);
}
