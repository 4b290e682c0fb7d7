use omni_compiler::complete_lexer::{Token, TokenKind};
use omni_compiler::macros::{
    expand_tokens_pre_parse, find_macro_invocation, macro_args_to_string, parse_macro_definition,
    tokens_to_flat_macro_args, MacroArg, MacroDefinition, MacroExpander, Pattern, PatternMatcher,
    PatternValue, RepetitionKind,
};

fn tok(kind: TokenKind, text: &str, line: usize, col: usize) -> Token {
    Token { kind, text: text.to_string(), line, col }
}

fn lit(s: &str) -> MacroArg {
    MacroArg::Literal(s.to_string())
}

fn texts(args: &[MacroArg]) -> Vec<String> {
    args.iter()
        .map(|a| match a {
            MacroArg::Literal(s) => s.clone(),
            MacroArg::TokenTree(_) => "<group>".to_string(),
            MacroArg::Repetition(_, _) => "<rep>".to_string(),
        })
        .collect()
}

#[test]
fn test_macro_expand() {
    let mut expander = MacroExpander::new();
    let mut macro_def = MacroDefinition::new("double");
    macro_def.add_rule(
        vec![MacroArg::Literal("$x".to_string())],
        vec![MacroArg::Literal("$x + $x".to_string())],
    );
    expander.define("double", macro_def);

    let result = expander.expand("double", &[MacroArg::Literal("5".to_string())]);
    assert!(result.is_ok());
}

#[test]
fn test_pattern_matcher() {
    let mut matcher = PatternMatcher::new();
    matcher.add_arm(Pattern::Int(1), false);
    matcher.add_arm(Pattern::Int(2), false);
    matcher.add_arm(Pattern::Wildcard, false);

    assert!(!matcher.is_exhaustive("i32"));
}

#[test]
fn test_pre_parse_macro_definition_and_expansion() {
    let tokens = vec![
        tok(TokenKind::Ident, "macro", 1, 1),
        tok(TokenKind::Ident, "double", 1, 7),
        tok(TokenKind::Newline, "\n", 1, 13),
        tok(TokenKind::Indent, "", 2, 1),
        tok(TokenKind::LParen, "(", 2, 5),
        tok(TokenKind::Ident, "$x", 2, 6),
        tok(TokenKind::RParen, ")", 2, 8),
        tok(TokenKind::FatArrow, "=>", 2, 10),
        tok(TokenKind::LParen, "(", 2, 13),
        tok(TokenKind::Ident, "$x", 2, 14),
        tok(TokenKind::Plus, "+", 2, 16),
        tok(TokenKind::Ident, "$x", 2, 18),
        tok(TokenKind::RParen, ")", 2, 20),
        tok(TokenKind::Newline, "\n", 2, 21),
        tok(TokenKind::Dedent, "dedent", 3, 1),
        tok(TokenKind::Newline, "\n", 3, 1),
        tok(TokenKind::Fn, "fn", 4, 1),
        tok(TokenKind::Ident, "main", 4, 4),
        tok(TokenKind::LParen, "(", 4, 8),
        tok(TokenKind::RParen, ")", 4, 9),
        tok(TokenKind::Arrow, "->", 4, 11),
        tok(TokenKind::Int, "int", 4, 14),
        tok(TokenKind::Newline, "\n", 4, 17),
        tok(TokenKind::Indent, "", 5, 1),
        tok(TokenKind::Ident, "double", 5, 5),
        tok(TokenKind::Bang, "!", 5, 11),
        tok(TokenKind::LParen, "(", 5, 12),
        tok(TokenKind::Number, "5", 5, 13),
        tok(TokenKind::RParen, ")", 5, 14),
        tok(TokenKind::Newline, "\n", 5, 15),
        tok(TokenKind::Dedent, "dedent", 6, 1),
        tok(TokenKind::Eof, "", 6, 1)
    ];

    let result = expand_tokens_pre_parse(&tokens);
    assert!(result.is_ok(), "expansion should succeed");

    let expanded = result.unwrap();
    let macro_keyword = expanded.iter().find(|t| t.text == "macro");
    assert!(macro_keyword.is_none(), "macro definition should be removed");

    let has_five = expanded.iter().any(|t| t.text == "5");
    let has_plus = expanded.iter().any(|t| t.text == "+");
    assert!(has_five, "expanded tokens should contain 5");
    assert!(has_plus, "expanded tokens should contain +");
}

#[test]
fn test_macro_args_to_string() {
    let args = vec![
        MacroArg::Literal("5".into()),
        MacroArg::Literal("+".into()),
        MacroArg::Literal("5".into()),
    ];
    let s = macro_args_to_string(&args);
    assert_eq!(s, "5 + 5");
}

#[test]
fn test_find_macro_invocation() {
    let tokens = vec![
        tok(TokenKind::Ident, "foo", 1, 1),
        tok(TokenKind::Bang, "!", 1, 4),
        tok(TokenKind::LParen, "(", 1, 5),
        tok(TokenKind::Number, "42", 1, 6),
        tok(TokenKind::RParen, ")", 1, 8),
    ];
    let result = find_macro_invocation(&tokens, 0);
    assert!(result.is_some());
    let (end, name, inner) = result.unwrap();
    assert_eq!(end, 4);
    assert_eq!(name, "foo");
    assert_eq!(inner.len(), 1);
    assert_eq!(inner[0].text, "42");
}

#[test]
fn expansion_substitutes_bound_arguments() {
    let mut def = MacroDefinition::new("double");
    def.add_rule(vec![lit("$x")], vec![lit("$x"), lit("+"), lit("$x")]);
    let out = def.expand(&[lit("7")]).unwrap();
    assert_eq!(texts(&out), vec!["7", "+", "7"]);
}

#[test]
fn expansion_reports_unknown_and_unmatched_macros() {
    let mut expander = MacroExpander::default();
    assert_eq!(expander.expand("nope", &[]).unwrap_err(), "Unknown macro: `nope`");
    let mut def = MacroDefinition::new("one");
    def.add_rule(vec![lit("$a")], vec![lit("$a")]);
    expander.define("one", def);
    assert!(expander.is_defined("one"));
    assert_eq!(
        expander.expand("one", &[lit("1"), lit("2")]).unwrap_err(),
        "No matching rule for macro `one`"
    );
}

#[test]
fn literal_pattern_elements_must_match_exactly() {
    let mut def = MacroDefinition::new("m");
    def.add_rule(vec![lit("if"), lit("$c")], vec![lit("when"), lit("$c")]);
    def.add_rule(vec![lit("$a"), lit("$b")], vec![lit("$b"), lit("$a")]);
    assert_eq!(texts(&def.expand(&[lit("if"), lit("x")]).unwrap()), vec!["when", "x"]);
    assert_eq!(texts(&def.expand(&[lit("p"), lit("q")]).unwrap()), vec!["q", "p"]);
}

#[test]
fn repetition_groups_check_their_size() {
    let mut def = MacroDefinition::new("opt");
    def.add_rule(
        vec![MacroArg::TokenTree(vec![MacroArg::Repetition(Box::new(lit("$x")), RepetitionKind::ZeroOrOne)])],
        vec![lit("ok")],
    );
    assert!(def.expand(&[MacroArg::TokenTree(vec![lit("a")])]).is_ok());
    assert!(def.expand(&[MacroArg::TokenTree(vec![lit("a"), lit("b")])]).is_err());
}

#[test]
fn args_text_groups_and_repetitions() {
    let args = vec![
        lit("f"),
        MacroArg::TokenTree(vec![lit("a"), lit(","), lit("b")]),
        MacroArg::Repetition(Box::new(lit("x")), RepetitionKind::OneOrMore),
    ];
    assert_eq!(macro_args_to_string(&args), "f (a , b) x+");
    assert_eq!(macro_args_to_string(&[]), "");
}

#[test]
fn flat_args_hold_token_texts() {
    let tokens = vec![tok(TokenKind::Number, "1", 1, 1), tok(TokenKind::Plus, "+", 1, 3)];
    assert_eq!(texts(&tokens_to_flat_macro_args(&tokens)), vec!["1", "+"]);
}

#[test]
fn invocation_needs_bang_and_closing_delimiter() {
    let unclosed = vec![
        tok(TokenKind::Ident, "foo", 1, 1),
        tok(TokenKind::Bang, "!", 1, 4),
        tok(TokenKind::LBracket, "[", 1, 5),
        tok(TokenKind::Number, "1", 1, 6),
    ];
    assert!(find_macro_invocation(&unclosed, 0).is_none());
    let nested = vec![
        tok(TokenKind::Ident, "foo", 1, 1),
        tok(TokenKind::Bang, "!", 1, 4),
        tok(TokenKind::LParen, "(", 1, 5),
        tok(TokenKind::LParen, "(", 1, 6),
        tok(TokenKind::Newline, "\n", 1, 7),
        tok(TokenKind::RParen, ")", 2, 1),
        tok(TokenKind::RParen, ")", 2, 2),
    ];
    let (end, _, inner) = find_macro_invocation(&nested, 0).unwrap();
    assert_eq!(end, 6);
    assert_eq!(inner.len(), 2);
}

#[test]
fn definition_with_braces_is_parsed() {
    let tokens = vec![
        tok(TokenKind::Ident, "macro", 1, 1),
        tok(TokenKind::Ident, "id", 1, 7),
        tok(TokenKind::LBrace, "{", 1, 10),
        tok(TokenKind::LParen, "(", 1, 11),
        tok(TokenKind::Ident, "$v", 1, 12),
        tok(TokenKind::RParen, ")", 1, 14),
        tok(TokenKind::FatArrow, "=>", 1, 16),
        tok(TokenKind::LParen, "(", 1, 19),
        tok(TokenKind::Ident, "$v", 1, 20),
        tok(TokenKind::RParen, ")", 1, 22),
        tok(TokenKind::RBrace, "}", 1, 23),
    ];
    let (end, name, rules) = parse_macro_definition(&tokens, 0).unwrap();
    assert_eq!(end, 10);
    assert_eq!(name, "id");
    assert_eq!(rules.len(), 1);
    assert_eq!(texts(&rules[0].0), vec!["$v"]);
    assert!(parse_macro_definition(&tokens, 1).is_none());
}

#[test]
fn failed_expansion_gives_warning() {
    let tokens = vec![
        tok(TokenKind::Ident, "macro", 1, 1),
        tok(TokenKind::Ident, "id", 1, 7),
        tok(TokenKind::LBrace, "{", 1, 10),
        tok(TokenKind::LParen, "(", 1, 11),
        tok(TokenKind::Ident, "$v", 1, 12),
        tok(TokenKind::RParen, ")", 1, 14),
        tok(TokenKind::FatArrow, "=>", 1, 16),
        tok(TokenKind::LParen, "(", 1, 19),
        tok(TokenKind::Ident, "$v", 1, 20),
        tok(TokenKind::RParen, ")", 1, 22),
        tok(TokenKind::RBrace, "}", 1, 23),
        tok(TokenKind::Ident, "id", 2, 1),
        tok(TokenKind::Bang, "!", 2, 3),
        tok(TokenKind::LParen, "(", 2, 4),
        tok(TokenKind::RParen, ")", 2, 5),
    ];
    let err = expand_tokens_pre_parse(&tokens).unwrap_err();
    assert_eq!(err.len(), 1);
    assert_eq!(err[0].message, "Macro expansion failed for 'id': No matching rule for macro `id`");
}

#[test]
fn unknown_invocations_pass_through() {
    let tokens = vec![
        tok(TokenKind::Ident, "bar", 1, 1),
        tok(TokenKind::Bang, "!", 1, 4),
        tok(TokenKind::LParen, "(", 1, 5),
        tok(TokenKind::RParen, ")", 1, 6),
    ];
    let out = expand_tokens_pre_parse(&tokens).unwrap();
    assert_eq!(out.len(), 4);
    assert_eq!(out[0].text, "bar");
}

#[test]
fn bool_matcher_exhaustive_with_both_arms() {
    let mut m = PatternMatcher::default();
    m.add_arm(Pattern::Bool(true), true);
    assert!(!m.is_exhaustive("bool"));
    m.add_arm(Pattern::Bool(false), false);
    assert!(m.is_exhaustive("bool"));
}

#[test]
fn match_value_binds_variables_and_respects_guards() {
    let mut m = PatternMatcher::new();
    m.add_arm(Pattern::Variable("skipped".to_string()), false);
    m.add_arm(
        Pattern::Tuple(vec![Pattern::Int(1), Pattern::Variable("y".to_string())]),
        true,
    );
    let v = PatternValue::Tuple(vec![PatternValue::Int(1), PatternValue::Bool(true)]);
    let b = m.match_value(&v).unwrap();
    assert!(b.contains_key("y"));
    assert!(!b.contains_key("skipped"));
    assert!(m.match_value(&PatternValue::Int(3)).is_none());
}

#[test]
fn or_pattern_tries_left_first() {
    let mut m = PatternMatcher::new();
    m.add_arm(
        Pattern::Or(
            Box::new(Pattern::Literal("a".to_string())),
            Box::new(Pattern::Variable("v".to_string())),
        ),
        true,
    );
    let left = m.match_value(&PatternValue::Literal("a".to_string())).unwrap();
    assert!(!left.contains_key("v"));
    let right = m.match_value(&PatternValue::Literal("b".to_string())).unwrap();
    assert!(right.contains_key("v"));
}

#[test]
fn expansion_without_definitions_keeps_every_token() {
    let tokens = vec![
        tok(TokenKind::Ident, "foo", 1, 1),
        tok(TokenKind::Bang, "!", 1, 4),
        tok(TokenKind::LParen, "(", 1, 5),
        tok(TokenKind::Number, "1", 1, 6),
        tok(TokenKind::RParen, ")", 1, 7),
        tok(TokenKind::Eof, "", 1, 8),
    ];
    let out = expand_tokens_pre_parse(&tokens).unwrap();
    assert_eq!(out.len(), tokens.len());
    for (a, b) in out.iter().zip(tokens.iter()) {
        assert_eq!((a.kind.clone(), a.text.clone(), a.line, a.col), (b.kind.clone(), b.text.clone(), b.line, b.col));
    }
}
