//! The stage-0 lexer: layout-sensitive tokens for the bootstrap language.
//!
//! Its behaviour is given as a state machine over the source characters:
//! `lex_step` is one turn of the scanning loop and `lex_run` runs it to the
//! end of the input. `Lexer::tokenize` is proved to produce exactly what
//! `lex_run` describes.

use vstd::prelude::*;
use crate::text::{
    ascii_alpha, ascii_digit, chars_eq, chars_of, decimal, is_ascii_alpha, is_ascii_digit, is_whitespace,
    occurs_at, push_char, push_decimal, push_str, unicode_whitespace,
};

verus! {

#[derive(Debug, Clone, Copy, PartialEq, Eq, Structural)]
pub enum TokenKind {
    Ident,
    StringLiteral,
    InterpolatedString,
    Number,
    Newline,
    Indent,
    Dedent,
    LineComment,
    BlockComment,
    DocComment,
    Equals,
    Plus,
    Minus,
    Star,
    Slash,
    Percent,
    EqEq,
    NotEq,
    Lt,
    LtEq,
    Gt,
    GtEq,
    AndAnd,
    OrOr,
    Bang,
    LParen,
    RParen,
    Arrow,
    FatArrow,
    LBracket,
    RBracket,
    Comma,
    Colon,
    Dot,
    DotDot,
    DotDotDot,
    True,
    False,
    Linear,
    Unsafe,
    Enum,
    Variant,
    Match,
    If,
    Then,
    Else,
    Pipe,
    Eof,
}

#[derive(Debug, Clone)]
pub struct Token {
    pub kind: TokenKind,
    pub text: String,
    pub line: usize,
    pub col: usize,
}

/// How a token moves the layout depth: +1 for an indent, -1 for a dedent.
pub open spec fn layout_delta(k: TokenKind) -> int {
    if k == TokenKind::Indent { 1 } else if k == TokenKind::Dedent { -1 } else { 0 }
}

/// The net layout depth reached by `s`: indents minus dedents.
pub open spec fn layout_depth(s: Seq<Token>) -> int
    decreases s.len(),
{
    if s.len() == 0 { 0 } else { layout_depth(s.drop_last()) + layout_delta(s.last().kind) }
}

/// No prefix of `s` closes more blocks than it opened.
pub open spec fn layout_prefix_ok(s: Seq<Token>) -> bool
    decreases s.len(),
{
    if s.len() == 0 { true } else { layout_prefix_ok(s.drop_last()) && layout_depth(s) >= 0 }
}

/// Every block `s` opens is closed, and none is closed before it is opened.
pub open spec fn layout_balanced(s: Seq<Token>) -> bool {
    layout_prefix_ok(s) && layout_depth(s) == 0
}



/// The abstract content of a token: (kind, text, line, column).
pub type TokenView = (TokenKind, Seq<char>, nat, nat);

impl View for Token {
    type V = TokenView;

    open spec fn view(&self) -> TokenView {
        (self.kind, self.text@, self.line as nat, self.col as nat)
    }
}

pub open spec fn token_views(ts: Seq<Token>) -> Seq<TokenView> {
    ts.map_values(|t: Token| t@)
}

/// The kind of a word: its keyword kind, or `Ident`.
pub open spec fn keyword_kind(w: Seq<char>) -> TokenKind {
    if w == "true"@ { TokenKind::True }
    else if w == "false"@ { TokenKind::False }
    else if w == "linear"@ { TokenKind::Linear }
    else if w == "unsafe"@ { TokenKind::Unsafe }
    else if w == "enum"@ { TokenKind::Enum }
    else if w == "variant"@ { TokenKind::Variant }
    else if w == "match"@ { TokenKind::Match }
    else if w == "if"@ { TokenKind::If }
    else if w == "then"@ { TokenKind::Then }
    else if w == "else"@ { TokenKind::Else }
    else if w == "pipe"@ { TokenKind::Pipe }
    else { TokenKind::Ident }
}

/// The reserved words of the language.
pub open spec fn is_reserved(w: Seq<char>) -> bool {
    ||| w == "true"@
    ||| w == "false"@
    ||| w == "linear"@
    ||| w == "unsafe"@
    ||| w == "enum"@
    ||| w == "variant"@
    ||| w == "match"@
    ||| w == "if"@
    ||| w == "then"@
    ||| w == "else"@
    ||| w == "pipe"@
}

/// Every reserved word is lexed as a keyword and never as a name; no two
/// reserved words share a kind; every other word is a name.
pub proof fn law_reserved_words(w: Seq<char>, v: Seq<char>)
    ensures
        is_reserved(w) ==> keyword_kind(w) != TokenKind::Ident,
        !is_reserved(w) ==> keyword_kind(w) == TokenKind::Ident,
        is_reserved(w) && is_reserved(v) && keyword_kind(w) == keyword_kind(v) ==> w == v,
{
    reveal_strlit("true");
    reveal_strlit("false");
    reveal_strlit("linear");
    reveal_strlit("unsafe");
    reveal_strlit("enum");
    reveal_strlit("variant");
    reveal_strlit("match");
    reveal_strlit("if");
    reveal_strlit("then");
    reveal_strlit("else");
    reveal_strlit("pipe");
}

// ---------------------------------------------------------------------------
// The scanning state machine
// ---------------------------------------------------------------------------

/// Where the lexer stands: the next character, the line and column reported
/// for it, the open indentation levels, and whether a line is starting.
pub struct LexState {
    pub pos: nat,
    pub line: nat,
    pub col: nat,
    pub stack: Seq<nat>,
    pub at_line_start: bool,
}

/// The state a fresh lexer starts in.
pub open spec fn initial_state() -> LexState {
    LexState { pos: 0, line: 1, col: 1, stack: seq![0nat], at_line_start: true }
}

/// Line and column after reading `ch`: a newline starts the next line,
/// anything else moves one column right.
pub open spec fn bump(lc: (nat, nat), ch: char) -> (nat, nat) {
    if ch == '\n' { (lc.0 + 1, 1) } else { (lc.0, lc.1 + 1) }
}

/// Line and column after reading `cs[i..j]` from `lc`.
pub open spec fn advance(cs: Seq<char>, i: nat, j: nat, lc: (nat, nat)) -> (nat, nat)
    decreases j,
{
    if j <= i { lc } else { bump(advance(cs, i, (j - 1) as nat, lc), cs[j - 1]) }
}

/// `st` after reading the characters up to (not including) `j`.
pub open spec fn moved(cs: Seq<char>, st: LexState, j: nat) -> LexState {
    let lc = advance(cs, st.pos, j, (st.line, st.col));
    LexState { pos: j, line: lc.0, col: lc.1, stack: st.stack, at_line_start: st.at_line_start }
}

/// The line and column reached after reading up to `j` from `st`.
pub open spec fn here(cs: Seq<char>, st: LexState, j: nat) -> (nat, nat) {
    advance(cs, st.pos, j, (st.line, st.col))
}

pub open spec fn with_line_start(st: LexState, b: bool) -> LexState {
    LexState { pos: st.pos, line: st.line, col: st.col, stack: st.stack, at_line_start: b }
}

pub open spec fn with_stack(st: LexState, stack: Seq<nat>) -> LexState {
    LexState { pos: st.pos, line: st.line, col: st.col, stack, at_line_start: st.at_line_start }
}

pub open spec fn tok(kind: TokenKind, text: Seq<char>, lc: (nat, nat)) -> TokenView {
    (kind, text, lc.0, lc.1)
}

/// The character classes the scanner reads runs of.
#[derive(Clone, Copy)]
pub enum CharClass {
    /// space or tab
    IndentSpace,
    NotNewline,
    /// an ASCII letter or digit, or `_`
    WordChar,
    Digit,
}

pub open spec fn in_class(k: CharClass, c: char) -> bool {
    match k {
        CharClass::IndentSpace => c == ' ' || c == '\t',
        CharClass::NotNewline => c != '\n',
        CharClass::WordChar => is_ascii_alpha(c) || is_ascii_digit(c) || c == '_',
        CharClass::Digit => is_ascii_digit(c),
    }
}

/// The end of the run of class `k` that starts at `i`.
pub open spec fn run_end(cs: Seq<char>, i: nat, k: CharClass) -> nat
    decreases cs.len() - i,
{
    if i < cs.len() && in_class(k, cs[i as int]) { run_end(cs, i + 1, k) } else { i }
}

/// The indentation width of `cs[i..j]`: a space counts one, a tab four.
pub open spec fn indent_width(cs: Seq<char>, i: nat, j: nat) -> nat
    decreases j,
{
    if j <= i { 0 } else { indent_width(cs, i, (j - 1) as nat) + (if cs[j - 1] == '\t' { 4nat } else { 1nat }) }
}

/// The first position at or after `i` where `pat` occurs.
pub open spec fn find_from(cs: Seq<char>, i: nat, pat: Seq<char>) -> Option<nat>
    decreases cs.len() - i,
{
    if i >= cs.len() || i + pat.len() > cs.len() {
        None
    } else if occurs_at(cs, pat, i as int) {
        Some(i)
    } else {
        find_from(cs, i + 1, pat)
    }
}

/// The character an escape `\c` stands for inside a string literal.
pub open spec fn unescape(c: char) -> char {
    if c == 'n' { '\n' } else if c == 't' { '\t' } else { c }
}

/// Reads the rest of a string literal from `i`, with `acc` read so far: the
/// position after the closing quote, the text, and whether an interpolation
/// (a single brace, written as a backquote) occurred; or the error.
pub open spec fn scan_str(cs: Seq<char>, i: nat, acc: Seq<char>, interp: bool) -> Result<(nat, Seq<char>, bool), Seq<char>>
    decreases cs.len() - i,
{
    if i >= cs.len() {
        Err("Unterminated string literal"@)
    } else {
        let c = cs[i as int];
        let doubled = i + 1 < cs.len() && cs[i + 1int] == c;
        if c == '"' {
            Ok((i + 1, acc, interp))
        } else if c == '{' {
            if doubled { scan_str(cs, i + 2, acc.push('{'), interp) } else { scan_str(cs, i + 1, acc.push('`'), true) }
        } else if c == '}' {
            if doubled { scan_str(cs, i + 2, acc.push('}'), interp) } else { scan_str(cs, i + 1, acc.push('`'), interp) }
        } else if c == '\\' {
            if i + 1 < cs.len() {
                scan_str(cs, i + 2, acc.push(unescape(cs[i + 1int])), interp)
            } else {
                Err("Unterminated escape in string"@)
            }
        } else {
            scan_str(cs, i + 1, acc.push(c), interp)
        }
    }
}

/// Pops the indentation levels deeper than `w`; returns the remaining levels
/// and how many were popped.
pub open spec fn pop_above(stack: Seq<nat>, w: nat) -> (Seq<nat>, nat)
    decreases stack.len(),
{
    if stack.len() > 0 && w < stack.last() {
        let r = pop_above(stack.drop_last(), w);
        (r.0, r.1 + 1)
    } else {
        (stack, 0)
    }
}

/// `n` layout tokens of kind `kind` with no text, all at `lc`.
pub open spec fn layout_run(n: nat, kind: TokenKind, lc: (nat, nat)) -> Seq<TokenView> {
    Seq::new(n, |i: int| tok(kind, seq![], lc))
}

/// One turn of the scanning loop.
pub enum Step {
    /// The new state and the tokens emitted.
    Next(LexState, Seq<TokenView>),
    /// Lexing stops with this error message.
    Fail(Seq<char>),
}

pub open spec fn emit(st: LexState, t: TokenView) -> Step {
    Step::Next(st, seq![t])
}

/// A turn at the start of a line: blank lines, indentation and layout tokens.
pub open spec fn step_line_start(cs: Seq<char>, st: LexState) -> Step {
    let p = st.pos;
    if cs[p as int] == '\n' {
        emit(moved(cs, st, p + 1), tok(TokenKind::Newline, "\n"@, (st.line, st.col)))
    } else {
        let j = run_end(cs, p, CharClass::IndentSpace);
        let w = indent_width(cs, p, j);
        let s2 = moved(cs, st, j);
        let lc = here(cs, st, j);
        if !(j < cs.len() && cs[j as int] != '\n') {
            Step::Next(s2, seq![])
        } else if w > st.stack.last() {
            emit(with_line_start(with_stack(s2, st.stack.push(w)), false), tok(TokenKind::Indent, seq![], lc))
        } else if w < st.stack.last() {
            let popped = pop_above(st.stack, w);
            if w != popped.0.last() {
                Step::Fail("Inconsistent indentation at line "@ + decimal(lc.0))
            } else {
                Step::Next(with_line_start(with_stack(s2, popped.0), false), layout_run(popped.1, TokenKind::Dedent, lc))
            }
        } else {
            Step::Next(with_line_start(s2, false), seq![])
        }
    }
}

/// A `---` comment, its text starting at `i`: up to the next `---`, or to
/// the end of the input.
pub open spec fn step_block_comment(cs: Seq<char>, st: LexState, i: nat) -> Step {
    let lc = here(cs, st, i);
    match find_from(cs, i, "---"@) {
        Some(k) => emit(moved(cs, st, k + 3), tok(TokenKind::BlockComment, cs.subrange(i as int, k as int), lc)),
        None => emit(moved(cs, st, cs.len()), tok(TokenKind::BlockComment, cs.subrange(i as int, cs.len() as int), lc)),
    }
}

/// A comment running to the end of the line, its text starting at `i`.
pub open spec fn step_line_comment(cs: Seq<char>, st: LexState, i: nat, kind: TokenKind) -> Step {
    let e = run_end(cs, i, CharClass::NotNewline);
    emit(moved(cs, st, e), tok(kind, cs.subrange(i as int, e as int), here(cs, st, i)))
}

/// A string literal.
pub open spec fn step_string(cs: Seq<char>, st: LexState) -> Step {
    match scan_str(cs, st.pos + 1, seq![], false) {
        Err(e) => Step::Fail(e),
        Ok(r) => emit(
            moved(cs, st, r.0),
            tok(if r.2 { TokenKind::InterpolatedString } else { TokenKind::StringLiteral }, r.1, (st.line, st.col)),
        ),
    }
}

/// A word: a letter or `_` followed by letters, digits and `_`.
pub open spec fn step_word(cs: Seq<char>, st: LexState) -> Step {
    let e = run_end(cs, st.pos, CharClass::WordChar);
    let w = cs.subrange(st.pos as int, e as int);
    emit(moved(cs, st, e), tok(keyword_kind(w), w, (st.line, st.col)))
}

/// A run of decimal digits.
pub open spec fn step_number(cs: Seq<char>, st: LexState) -> Step {
    let e = run_end(cs, st.pos, CharClass::Digit);
    emit(moved(cs, st, e), tok(TokenKind::Number, cs.subrange(st.pos as int, e as int), (st.line, st.col)))
}

/// The operator at `p` and the position after it; `None` for a character
/// that is skipped.
pub open spec fn operator_at(cs: Seq<char>, p: nat) -> Option<(TokenKind, nat)> {
    let c = cs[p as int];
    let q = p + 1;
    let n1 = if q < cs.len() { cs[q as int] } else { ' ' };
    let n2 = if q + 1 < cs.len() { cs[q + 1int] } else { ' ' };
    if c == '=' {
        Some(if n1 == '=' { (TokenKind::EqEq, q + 1) } else if n1 == '>' { (TokenKind::FatArrow, q + 1) } else { (TokenKind::Equals, q) })
    } else if c == '+' {
        Some((TokenKind::Plus, q))
    } else if c == '-' {
        Some((TokenKind::Minus, q))
    } else if c == '*' {
        Some((TokenKind::Star, q))
    } else if c == '/' {
        Some((TokenKind::Slash, q))
    } else if c == '%' {
        Some((TokenKind::Percent, q))
    } else if c == '!' {
        Some(if n1 == '=' { (TokenKind::NotEq, q + 1) } else { (TokenKind::Bang, q) })
    } else if c == '<' {
        Some(if n1 == '=' { (TokenKind::LtEq, q + 1) } else { (TokenKind::Lt, q) })
    } else if c == '>' {
        Some(if n1 == '=' { (TokenKind::GtEq, q + 1) } else { (TokenKind::Gt, q) })
    } else if c == '&' {
        Some((TokenKind::AndAnd, q + 1))
    } else if c == '|' {
        Some(if n1 == '|' { (TokenKind::OrOr, q + 1) } else { (TokenKind::Pipe, q) })
    } else if c == '(' {
        Some((TokenKind::LParen, q))
    } else if c == ')' {
        Some((TokenKind::RParen, q))
    } else if c == '[' {
        Some((TokenKind::LBracket, q))
    } else if c == ']' {
        Some((TokenKind::RBracket, q))
    } else if c == ',' {
        Some((TokenKind::Comma, q))
    } else if c == ':' {
        Some((TokenKind::Colon, q))
    } else if c == '.' {
        Some(if n1 == '.' {
            if n2 == '.' { (TokenKind::DotDotDot, q + 2) } else { (TokenKind::DotDot, q + 1) }
        } else {
            (TokenKind::Dot, q)
        })
    } else {
        None
    }
}

/// An operator or punctuation token (with no text); a lone `&` is an error;
/// any other character is skipped.
pub open spec fn step_operator(cs: Seq<char>, st: LexState) -> Step {
    let p = st.pos;
    if cs[p as int] == '&' && !(p + 1 < cs.len() && cs[p + 1int] == '&') {
        let lc = here(cs, st, p + 1);
        Step::Fail("Unexpected '&' at "@ + decimal(lc.0) + ":"@ + decimal(lc.1))
    } else {
        match operator_at(cs, p) {
            Some((k, e)) => emit(moved(cs, st, e), tok(k, seq![], (st.line, st.col))),
            None => Step::Next(moved(cs, st, p + 1), seq![]),
        }
    }
}

/// A turn inside a line.
pub open spec fn step_in_line(cs: Seq<char>, st: LexState) -> Step {
    let p = st.pos;
    let c = cs[p as int];
    let n1 = if p + 1 < cs.len() { cs[p + 1int] } else { ' ' };
    let n2 = if p + 2 < cs.len() { cs[p + 2int] } else { ' ' };
    if c == '\n' {
        emit(with_line_start(moved(cs, st, p + 1), true), tok(TokenKind::Newline, "\n"@, (st.line, st.col)))
    } else if unicode_whitespace(c) {
        Step::Next(moved(cs, st, p + 1), seq![])
    } else if c == '-' && n1 == '-' && n2 == '-' {
        step_block_comment(cs, st, p + 3)
    } else if c == '-' && n1 == '-' {
        step_line_comment(cs, st, p + 2, TokenKind::LineComment)
    } else if c == '-' && n1 == '>' {
        emit(moved(cs, st, p + 2), tok(TokenKind::Arrow, "->"@, (st.line, st.col)))
    } else if c == '/' && n1 == '/' && n2 == '/' {
        step_line_comment(cs, st, p + 3, TokenKind::DocComment)
    } else if c == '"' {
        step_string(cs, st)
    } else if is_ascii_alpha(c) || c == '_' {
        step_word(cs, st)
    } else if is_ascii_digit(c) {
        step_number(cs, st)
    } else {
        step_operator(cs, st)
    }
}

/// One turn of the scanning loop (only taken while input remains).
pub open spec fn lex_step(cs: Seq<char>, st: LexState) -> Step {
    if st.at_line_start { step_line_start(cs, st) } else { step_in_line(cs, st) }
}

/// The tokens emitted once the input is used up: a `Dedent` for each open
/// indentation level, then `Eof`, all where the input ended.
pub open spec fn finish(st: LexState) -> Seq<TokenView> {
    layout_run((st.stack.len() - 1) as nat, TokenKind::Dedent, (st.line, st.col))
        .push(tok(TokenKind::Eof, seq![], (st.line, st.col)))
}

/// How a run of the lexer ends.
pub enum LexOutcome {
    Done(Seq<TokenView>),
    Failed(Seq<char>),
}

pub open spec fn prepend(toks: Seq<TokenView>, o: LexOutcome) -> LexOutcome {
    match o {
        LexOutcome::Done(rest) => LexOutcome::Done(toks + rest),
        other => other,
    }
}

/// Progress measure: every turn reads input or leaves the start of a line.
pub open spec fn measure(cs: Seq<char>, st: LexState) -> int {
    2 * (cs.len() - st.pos) + (if st.at_line_start { 1int } else { 0int })
}

/// The result of lexing `cs` from `st` to the end of the input.
pub open spec fn lex_run(cs: Seq<char>, st: LexState) -> LexOutcome
    decreases measure(cs, st),
{
    if st.pos >= cs.len() {
        LexOutcome::Done(finish(st))
    } else {
        match lex_step(cs, st) {
            Step::Next(s2, toks) => {
                proof {
                    lemma_step_progress(cs, st);
                }
                prepend(toks, lex_run(cs, s2))
            },
            Step::Fail(e) => LexOutcome::Failed(e),
        }
    }
}

// ---------------------------------------------------------------------------
// Progress of the state machine
// ---------------------------------------------------------------------------

pub proof fn lemma_run_end_bounds(cs: Seq<char>, i: nat, k: CharClass)
    requires
        i <= cs.len(),
    ensures
        i <= run_end(cs, i, k) <= cs.len(),
        run_end(cs, i, k) < cs.len() ==> !in_class(k, cs[run_end(cs, i, k) as int]),
        forall|m: int| i <= m < run_end(cs, i, k) ==> in_class(k, #[trigger] cs[m]),
    decreases cs.len() - i,
{
    if i < cs.len() && in_class(k, cs[i as int]) {
        lemma_run_end_bounds(cs, i + 1, k);
    }
}

pub proof fn lemma_find_from_bounds(cs: Seq<char>, i: nat, pat: Seq<char>)
    ensures
        find_from(cs, i, pat) matches Some(m) ==> i <= m && m + pat.len() <= cs.len() && occurs_at(cs, pat, m as int),
        find_from(cs, i, pat) matches Some(m) ==> forall|q: int| i <= q < m ==> !occurs_at(cs, pat, q),
        find_from(cs, i, pat) is None && pat.len() > 0 ==> forall|q: int| i <= q ==> !occurs_at(cs, pat, q),
    decreases cs.len() - i,
{
    if i >= cs.len() || i + pat.len() > cs.len() {
    } else if occurs_at(cs, pat, i as int) {
    } else {
        lemma_find_from_bounds(cs, i + 1, pat);
    }
}

pub proof fn lemma_scan_str_bounds(cs: Seq<char>, i: nat, acc: Seq<char>, interp: bool)
    ensures
        scan_str(cs, i, acc, interp) matches Ok(r) ==> i < r.0 <= cs.len(),
    decreases cs.len() - i,
{
    if i < cs.len() {
        let c = cs[i as int];
        let doubled = i + 1 < cs.len() && cs[i + 1int] == c;
        if c == '"' {
        } else if c == '{' {
            if doubled {
                lemma_scan_str_bounds(cs, i + 2, acc.push('{'), interp);
            } else {
                lemma_scan_str_bounds(cs, i + 1, acc.push('`'), true);
            }
        } else if c == '}' {
            if doubled {
                lemma_scan_str_bounds(cs, i + 2, acc.push('}'), interp);
            } else {
                lemma_scan_str_bounds(cs, i + 1, acc.push('`'), interp);
            }
        } else if c == '\\' {
            if i + 1 < cs.len() {
                lemma_scan_str_bounds(cs, i + 2, acc.push(unescape(cs[i + 1int])), interp);
            }
        } else {
            lemma_scan_str_bounds(cs, i + 1, acc.push(c), interp);
        }
    }
}

/// Every turn keeps the position within the input and lowers the measure.
pub proof fn lemma_step_progress(cs: Seq<char>, st: LexState)
    requires
        st.pos < cs.len(),
    ensures
        lex_step(cs, st) matches Step::Next(s2, toks) ==> s2.pos <= cs.len() && measure(cs, s2) < measure(cs, st),
{
    let p = st.pos;
    if st.at_line_start {
        lemma_run_end_bounds(cs, p, CharClass::IndentSpace);
    } else {
        let c = cs[p as int];
        let n1 = if p + 1 < cs.len() { cs[p + 1int] } else { ' ' };
        let n2 = if p + 2 < cs.len() { cs[p + 2int] } else { ' ' };
        if c == '-' && n1 == '-' && n2 == '-' {
            reveal_strlit("---");
            lemma_find_from_bounds(cs, p + 3, "---"@);
        } else if c == '-' && n1 == '-' {
            lemma_run_end_bounds(cs, p + 2, CharClass::NotNewline);
        } else if c == '/' && n1 == '/' && n2 == '/' {
            lemma_run_end_bounds(cs, p + 3, CharClass::NotNewline);
        } else if c == '"' {
            lemma_scan_str_bounds(cs, p + 1, seq![], false);
        } else if is_ascii_alpha(c) || c == '_' {
            lemma_run_end_bounds(cs, p + 1, CharClass::WordChar);
        } else if is_ascii_digit(c) {
            lemma_run_end_bounds(cs, p + 1, CharClass::Digit);
        }
    }
}

// ---------------------------------------------------------------------------
// Layout of the output
// ---------------------------------------------------------------------------

/// The layout depth reached by a sequence of token views.
pub open spec fn view_depth(ts: Seq<TokenView>) -> int
    decreases ts.len(),
{
    if ts.len() == 0 { 0 } else { view_depth(ts.drop_last()) + layout_delta(ts.last().0) }
}

/// Starting at depth `d0`, no prefix of `ts` goes below depth zero.
pub open spec fn view_prefix_ok(ts: Seq<TokenView>, d0: int) -> bool
    decreases ts.len(),
{
    if ts.len() == 0 { d0 >= 0 } else { view_prefix_ok(ts.drop_last(), d0) && d0 + view_depth(ts) >= 0 }
}

proof fn lemma_view_concat(a: Seq<TokenView>, b: Seq<TokenView>, d0: int)
    ensures
        view_depth(a + b) == view_depth(a) + view_depth(b),
        view_prefix_ok(a, d0) && view_prefix_ok(b, d0 + view_depth(a)) ==> view_prefix_ok(a + b, d0),
    decreases b.len(),
{
    if b.len() == 0 {
        assert(a + b =~= a);
    } else {
        lemma_view_concat(a, b.drop_last(), d0);
        assert((a + b).drop_last() =~= a + b.drop_last());
    }
}

proof fn lemma_view_dedents(n: nat, lc: (nat, nat), d0: int)
    ensures
        view_depth(layout_run(n, TokenKind::Dedent, lc)) == -n,
        d0 >= n ==> view_prefix_ok(layout_run(n, TokenKind::Dedent, lc), d0),
    decreases n,
{
    if n > 0 {
        lemma_view_dedents((n - 1) as nat, lc, d0);
        assert(layout_run(n, TokenKind::Dedent, lc).drop_last() =~= layout_run((n - 1) as nat, TokenKind::Dedent, lc));
    } else {
        assert(layout_run(n, TokenKind::Dedent, lc) =~= Seq::<TokenView>::empty());
    }
}

proof fn lemma_view_single(t: TokenView, d0: int)
    requires
        d0 >= 0,
        t.0 != TokenKind::Indent,
        t.0 != TokenKind::Dedent,
    ensures
        view_depth(seq![t]) == 0,
        view_prefix_ok(seq![t], d0),
{
    let e = Seq::<TokenView>::empty();
    assert(seq![t].drop_last() =~= e);
    assert(view_depth(e) == 0);
    assert(view_prefix_ok(e, d0));
}

proof fn lemma_view_indent(lc: (nat, nat), d0: int)
    requires
        d0 >= 0,
    ensures
        view_depth(seq![tok(TokenKind::Indent, seq![], lc)]) == 1,
        view_prefix_ok(seq![tok(TokenKind::Indent, seq![], lc)], d0),
{
    let e = Seq::<TokenView>::empty();
    assert(seq![tok(TokenKind::Indent, seq![], lc)].drop_last() =~= e);
    assert(view_depth(e) == 0);
    assert(view_prefix_ok(e, d0));
}

/// One turn keeps the outermost level and changes the depth of the output by
/// exactly the change of the number of open levels, never going below zero.
proof fn lemma_step_layout(cs: Seq<char>, st: LexState)
    requires
        st.pos < cs.len(),
        st.stack.len() >= 1,
        st.stack[0] == 0,
    ensures
        lex_step(cs, st) matches Step::Next(s2, toks) ==> {
            &&& s2.stack.len() >= 1
            &&& s2.stack[0] == 0
            &&& view_depth(toks) == s2.stack.len() - st.stack.len()
            &&& view_prefix_ok(toks, st.stack.len() - 1)
        },
{
    let d0 = st.stack.len() - 1;
    let p = st.pos;
    match lex_step(cs, st) {
        Step::Next(s2, toks) => {
            if toks.len() == 0 {
                assert(view_depth(toks) == 0);
                assert(view_prefix_ok(toks, d0));
            }
            if st.at_line_start && cs[p as int] != '\n' {
                let j = run_end(cs, p, CharClass::IndentSpace);
                let w = indent_width(cs, p, j);
                let lc = here(cs, st, j);
                if !(j < cs.len() && cs[j as int] != '\n') {
                } else if w > st.stack.last() {
                    lemma_view_indent(lc, d0);
                } else if w < st.stack.last() {
                    lemma_pop_above(st.stack, w);
                    let popped = pop_above(st.stack, w);
                    lemma_view_dedents(popped.1, lc, d0);
                } else {
                }
            } else if st.at_line_start {
                lemma_view_single(toks[0], d0);
                assert(toks =~= seq![toks[0]]);
            } else if toks.len() > 0 {
                assert(toks =~= seq![toks[0]]);
                lemma_view_single(toks[0], d0);
            }
        },
        _ => {},
    }
}

/// A run from a state with valid open levels ends with all of them closed and
/// never closes more than it opened.
pub proof fn lemma_run_layout(cs: Seq<char>, st: LexState)
    requires
        st.stack.len() >= 1,
        st.stack[0] == 0,
    ensures
        lex_run(cs, st) matches LexOutcome::Done(ts) ==> view_depth(ts) == 1 - st.stack.len()
            && view_prefix_ok(ts, st.stack.len() - 1),
    decreases measure(cs, st),
{
    let d0 = st.stack.len() - 1;
    if st.pos >= cs.len() {
        let lc = (st.line, st.col);
        let ds = layout_run((st.stack.len() - 1) as nat, TokenKind::Dedent, lc);
        lemma_view_dedents((st.stack.len() - 1) as nat, lc, d0);
        lemma_view_single(tok(TokenKind::Eof, seq![], lc), 0);
        lemma_view_concat(ds, seq![tok(TokenKind::Eof, seq![], lc)], d0);
        assert(finish(st) =~= ds + seq![tok(TokenKind::Eof, seq![], lc)]);
    } else {
        lemma_step_layout(cs, st);
        lemma_step_progress(cs, st);
        match lex_step(cs, st) {
            Step::Next(s2, toks) => {
                lemma_run_layout(cs, s2);
                match lex_run(cs, s2) {
                    LexOutcome::Done(rest) => {
                        lemma_view_concat(toks, rest, d0);
                    },
                    _ => {},
                }
            },
            _ => {},
        }
    }
}

// ---------------------------------------------------------------------------
// Facts about reading characters
// ---------------------------------------------------------------------------

proof fn lemma_advance_extend(cs: Seq<char>, i: nat, j: nat, lc: (nat, nat))
    requires
        i <= j,
    ensures
        advance(cs, i, j + 1, lc) == bump(advance(cs, i, j, lc), cs[j as int]),
{
}

proof fn lemma_advance_compose(cs: Seq<char>, i: nat, a: nat, b: nat, lc: (nat, nat))
    requires
        i <= a <= b,
    ensures
        advance(cs, a, b, advance(cs, i, a, lc)) == advance(cs, i, b, lc),
    decreases b,
{
    if b > a {
        lemma_advance_compose(cs, i, a, (b - 1) as nat, lc);
    }
}

/// Reading up to `a` and then on to `b` is reading up to `b`.
proof fn lemma_moved_compose(cs: Seq<char>, st: LexState, a: nat, b: nat)
    requires
        st.pos <= a <= b,
    ensures
        moved(cs, moved(cs, st, a), b) == moved(cs, st, b),
{
    lemma_advance_compose(cs, st.pos, a, b, (st.line, st.col));
}

pub open spec fn stack_view(s: Seq<usize>) -> Seq<nat> {
    s.map_values(|x: usize| x as nat)
}

/// What one turn leaves behind: for `Next`, the state and the tokens
/// appended; for `Fail`, the error returned.
pub open spec fn step_result(
    step: Step,
    s2: LexState,
    before: Seq<TokenView>,
    after: Seq<TokenView>,
    r: Result<(), String>,
) -> bool {
    match step {
        Step::Next(st, ts) => r is Ok && s2 == st && after =~= before + ts,
        Step::Fail(e) => r matches Err(m) && m@ == e,
    }
}

proof fn lemma_pop_above(stack: Seq<nat>, w: nat)
    requires
        stack.len() >= 1,
        stack[0] == 0,
    ensures
        pop_above(stack, w).0.len() >= 1,
        pop_above(stack, w).0[0] == 0,
        pop_above(stack, w).0 == stack.take(pop_above(stack, w).0.len() as int),
        pop_above(stack, w).0.len() + pop_above(stack, w).1 == stack.len(),
    decreases stack.len(),
{
    if stack.len() > 0 && w < stack.last() {
        lemma_pop_above(stack.drop_last(), w);
        let r = pop_above(stack.drop_last(), w);
        assert(stack.drop_last().take(r.0.len() as int) =~= stack.take(r.0.len() as int));
    } else {
        assert(stack.take(stack.len() as int) =~= stack);
    }
}

proof fn lemma_prepend_assoc(a: Seq<TokenView>, b: Seq<TokenView>, o: LexOutcome)
    ensures
        prepend(a, prepend(b, o)) == prepend(a + b, o),
{
    match o {
        LexOutcome::Done(rest) => {
            assert(a + (b + rest) =~= (a + b) + rest);
        },
        _ => {},
    }
}

fn push_tok(tokens: &mut Vec<Token>, kind: TokenKind, text: String, line: usize, col: usize)
    ensures
        token_views(final(tokens)@) == token_views(old(tokens)@).push((kind, text@, line as nat, col as nat)),
{
    let ghost before = tokens@;
    tokens.push(Token { kind, text, line, col });
    assert(token_views(tokens@) =~= token_views(before).push((kind, text@, line as nat, col as nat)));
}

fn class_holds(k: &CharClass, c: char) -> (b: bool)
    ensures
        b == in_class(*k, c),
{
    match k {
        CharClass::IndentSpace => c == ' ' || c == '\t',
        CharClass::NotNewline => c != '\n',
        CharClass::WordChar => ascii_alpha(c) || ascii_digit(c) || c == '_',
        CharClass::Digit => ascii_digit(c),
    }
}

fn keyword_of(w: &str) -> (k: TokenKind)
    ensures
        k == keyword_kind(w@),
{
    let cs = chars_of(w);
    let ws = cs.as_slice();
    if chars_eq(ws, chars_of("true").as_slice()) { TokenKind::True }
    else if chars_eq(ws, chars_of("false").as_slice()) { TokenKind::False }
    else if chars_eq(ws, chars_of("linear").as_slice()) { TokenKind::Linear }
    else if chars_eq(ws, chars_of("unsafe").as_slice()) { TokenKind::Unsafe }
    else if chars_eq(ws, chars_of("enum").as_slice()) { TokenKind::Enum }
    else if chars_eq(ws, chars_of("variant").as_slice()) { TokenKind::Variant }
    else if chars_eq(ws, chars_of("match").as_slice()) { TokenKind::Match }
    else if chars_eq(ws, chars_of("if").as_slice()) { TokenKind::If }
    else if chars_eq(ws, chars_of("then").as_slice()) { TokenKind::Then }
    else if chars_eq(ws, chars_of("else").as_slice()) { TokenKind::Else }
    else if chars_eq(ws, chars_of("pipe").as_slice()) { TokenKind::Pipe }
    else { TokenKind::Ident }
}

/// The stage-0 lexer over the characters of one source text.
pub struct Lexer {
    chars: Vec<char>,
    pos: usize,
    line: usize,
    col: usize,
    indent_stack: Vec<usize>,
    at_line_start: bool,
}

impl Lexer {
    /// The characters being lexed.
    pub closed spec fn source(&self) -> Seq<char> {
        self.chars@
    }

    /// The scanning state.
    pub closed spec fn state(&self) -> LexState {
        LexState {
            pos: self.pos as nat,
            line: self.line as nat,
            col: self.col as nat,
            stack: stack_view(self.indent_stack@),
            at_line_start: self.at_line_start,
        }
    }

    /// The lexer's invariant: the position lies within the source, line and
    /// column are counted from one, and the outermost indentation level is
    /// zero.
    pub closed spec fn wf(&self) -> bool {
        &&& self.chars@.len() <= isize::MAX / 4
        &&& self.pos <= self.chars@.len()
        &&& 1 <= self.col <= self.pos + 1
        &&& self.line <= self.pos + 1
        &&& self.indent_stack@.len() >= 1
        &&& self.indent_stack@[0] == 0
    }

    /// A lexer at the start of `src`.
    pub fn new(src: &str) -> (l: Self)
        ensures
            l.wf(),
            l.source() == src@,
            l.state() == initial_state(),
    {
        let mut indent_stack: Vec<usize> = Vec::new();
        indent_stack.push(0);
        let l = Lexer { chars: chars_of(src), pos: 0, line: 1, col: 1, indent_stack, at_line_start: true };
        assert(stack_view(l.indent_stack@) =~= seq![0nat]);
        l
    }

    /// Reads one character, moving the line and column.
    fn next_char(&mut self)
        requires
            old(self).wf(),
            old(self).pos < old(self).chars@.len(),
        ensures
            final(self).wf(),
            final(self).chars@ == old(self).chars@,
            final(self).state() == moved(old(self).chars@, old(self).state(), (old(self).pos + 1) as nat),
            final(self).pos == old(self).pos + 1,
            final(self).indent_stack@ == old(self).indent_stack@,
            final(self).at_line_start == old(self).at_line_start,
    {
        let ch = self.chars[self.pos];
        self.pos = self.pos + 1;
        if ch == '\n' {
            self.line = self.line + 1;
            self.col = 1;
        } else {
            self.col = self.col + 1;
        }
        proof {
            let st = old(self).state();
            lemma_advance_extend(self.chars@, st.pos, st.pos, (st.line, st.col));
        }
    }

    /// Reads the run of class `k` at the cursor.
    fn take_run(&mut self, k: CharClass)
        requires
            old(self).wf(),
        ensures
            final(self).wf(),
            final(self).chars@ == old(self).chars@,
            final(self).state() == moved(old(self).chars@, old(self).state(), run_end(old(self).chars@, old(self).pos as nat, k)),
    {
        let ghost cs = self.chars@;
        let ghost st0 = self.state();
        let ghost p0 = self.pos as nat;
        proof {
            lemma_run_end_bounds(cs, p0, k);
        }
        while self.pos < self.chars.len() && class_holds(&k, self.chars[self.pos])
            invariant
                self.wf(),
                self.chars@ == cs,
                p0 <= self.pos <= run_end(cs, p0, k),
                run_end(cs, p0, k) == run_end(cs, self.pos as nat, k),
                self.state() == moved(cs, st0, self.pos as nat),
                st0.pos == p0,
            decreases self.chars@.len() - self.pos,
        {
            let ghost pp = self.pos as nat;
            proof {
                lemma_run_end_bounds(cs, pp + 1, k);
            }
            self.next_char();
            proof {
                lemma_moved_compose(cs, st0, pp, pp + 1);
            }
        }
    }

    /// Reads spaces and tabs at the cursor and returns their width.
    fn indent_of(&mut self) -> (indent: usize)
        requires
            old(self).wf(),
        ensures
            final(self).wf(),
            final(self).chars@ == old(self).chars@,
            final(self).state() == moved(old(self).chars@, old(self).state(), run_end(old(self).chars@, old(self).pos as nat, CharClass::IndentSpace)),
            indent == indent_width(old(self).chars@, old(self).pos as nat, final(self).pos as nat),
    {
        let ghost cs = self.chars@;
        let ghost st0 = self.state();
        let ghost p0 = self.pos as nat;
        let k = CharClass::IndentSpace;
        let mut indent: usize = 0;
        proof {
            lemma_run_end_bounds(cs, p0, k);
        }
        while self.pos < self.chars.len() && (self.chars[self.pos] == ' ' || self.chars[self.pos] == '\t')
            invariant
                self.wf(),
                self.chars@ == cs,
                p0 <= self.pos <= run_end(cs, p0, k),
                run_end(cs, p0, k) == run_end(cs, self.pos as nat, k),
                self.state() == moved(cs, st0, self.pos as nat),
                st0.pos == p0,
                k == CharClass::IndentSpace,
                indent == indent_width(cs, p0, self.pos as nat),
                indent <= 4 * (self.pos - p0),
            decreases self.chars@.len() - self.pos,
        {
            let pp = self.pos;
            if self.chars[self.pos] == '\t' {
                indent = indent + 4;
            } else {
                indent = indent + 1;
            }
            proof {
                lemma_run_end_bounds(cs, pp as nat + 1, k);
            }
            self.next_char();
            proof {
                lemma_moved_compose(cs, st0, pp as nat, pp as nat + 1);
            }
        }
        indent
    }

    /// The characters `a..b` of the source.
    fn text_between(&self, a: usize, b: usize) -> (s: String)
        requires
            a <= b <= self.chars@.len(),
        ensures
            s@ == self.chars@.subrange(a as int, b as int),
    {
        let mut s = String::new();
        let mut i = a;
        while i < b
            invariant
                a <= i <= b,
                b <= self.chars@.len(),
                s@ == self.chars@.subrange(a as int, i as int),
            decreases b - i,
        {
            push_char(&mut s, self.chars[i]);
            i = i + 1;
            assert(s@ =~= self.chars@.subrange(a as int, i as int));
        }
        s
    }

    /// A turn at the start of a line.
    fn lex_line_start(&mut self, tokens: &mut Vec<Token>) -> (r: Result<(), String>)
        requires
            old(self).wf(),
            old(self).pos < old(self).chars@.len(),
            old(self).at_line_start,
        ensures
            final(self).wf(),
            final(self).chars@ == old(self).chars@,
            step_result(step_line_start(old(self).chars@, old(self).state()), final(self).state(),
                token_views(old(tokens)@), token_views(final(tokens)@), r),
    {
        let ghost cs = self.chars@;
        let ghost st = self.state();
        let c = self.chars[self.pos];
        if c == '\n' {
            let line = self.line;
            let col = self.col;
            self.next_char();
            push_tok(tokens, TokenKind::Newline, String::from_str("\n"), line, col);
            return Ok(());
        }
        let indent = self.indent_of();
        if !(self.pos < self.chars.len() && self.chars[self.pos] != '\n') {
            return Ok(());
        }
        let ghost lc = (self.line as nat, self.col as nat);
        let current = self.indent_stack[self.indent_stack.len() - 1];
        if indent > current {
            self.indent_stack.push(indent);
            push_tok(tokens, TokenKind::Indent, String::new(), self.line, self.col);
            assert(stack_view(self.indent_stack@) =~= st.stack.push(indent as nat));
        } else if indent < current {
            let ghost total = pop_above(st.stack, indent as nat);
            let ghost before = token_views(tokens@);
            let ghost n: nat = 0;
            let ghost s_pre = self.state();
            proof {
                lemma_pop_above(st.stack, indent as nat);
            }
            while indent < self.indent_stack[self.indent_stack.len() - 1]
                invariant
                    self.indent_stack@.len() >= 1,
                    self.indent_stack@[0] == 0,
                    self.chars@ == cs,
                    self.chars@.len() <= isize::MAX / 4,
                    self.pos <= self.chars@.len(),
                    1 <= self.col <= self.pos + 1,
                    self.line <= self.pos + 1,
                    lc == (self.line as nat, self.col as nat),
                    self.pos as nat == s_pre.pos,
                    self.at_line_start == s_pre.at_line_start,
                    pop_above(stack_view(self.indent_stack@), indent as nat).0 == total.0,
                    pop_above(stack_view(self.indent_stack@), indent as nat).1 + n == total.1,
                    token_views(tokens@) == before + layout_run(n, TokenKind::Dedent, lc),
                decreases self.indent_stack@.len(),
            {
                let ghost sv = stack_view(self.indent_stack@);
                self.indent_stack.pop();
                assert(stack_view(self.indent_stack@) =~= sv.drop_last());
                push_tok(tokens, TokenKind::Dedent, String::new(), self.line, self.col);
                proof {
                    n = n + 1;
                    assert(before + layout_run(n, TokenKind::Dedent, lc)
                        =~= (before + layout_run((n - 1) as nat, TokenKind::Dedent, lc)).push(tok(TokenKind::Dedent, seq![], lc)));
                }
            }
            let top = self.indent_stack[self.indent_stack.len() - 1];
            if indent != top {
                let mut msg = String::new();
                push_str(&mut msg, "Inconsistent indentation at line ");
                push_decimal(&mut msg, self.line);
                return Err(msg);
            }
        }
        self.at_line_start = false;
        Ok(())
    }

    /// A `---` comment whose opener has been read up to `i`.
    fn lex_block_comment(&mut self, tokens: &mut Vec<Token>) -> (r: Result<(), String>)
        requires
            old(self).wf(),
            old(self).pos + 2 < old(self).chars@.len(),
            old(self).chars@[old(self).pos as int] == '-',
            old(self).chars@[old(self).pos + 1] == '-',
            old(self).chars@[old(self).pos + 2] == '-',
        ensures
            final(self).wf(),
            final(self).chars@ == old(self).chars@,
            step_result(step_block_comment(old(self).chars@, old(self).state(), (old(self).pos + 3) as nat),
                final(self).state(), token_views(old(tokens)@), token_views(final(tokens)@), r),
    {
        let ghost cs = self.chars@;
        let ghost st = self.state();
        let p = self.pos;
        self.next_char();
        self.next_char();
        self.next_char();
        proof {
            lemma_moved_compose(cs, st, (p + 1) as nat, (p + 2) as nat);
            lemma_moved_compose(cs, st, (p + 2) as nat, (p + 3) as nat);
            reveal_strlit("---");
        }
        let start_line = self.line;
        let start_col = self.col;
        let mut closed = false;
        let mut end_text = p + 3;
        while self.pos < self.chars.len() && !closed
            invariant
                self.wf(),
                self.chars@ == cs,
                st.pos == p,
                p + 3 <= self.pos <= cs.len(),
                p + 3 <= end_text,
                (start_line as nat, start_col as nat) == here(cs, st, (p + 3) as nat),
                self.state() == moved(cs, st, self.pos as nat),
                "---"@ == seq!['-', '-', '-'],
                !closed ==> end_text == self.pos && forall|q: int| p + 3 <= q < self.pos ==> !occurs_at(cs, "---"@, q),
                closed ==> {
                    &&& end_text + 3 == self.pos
                    &&& occurs_at(cs, "---"@, end_text as int)
                    &&& forall|q: int| p + 3 <= q < end_text ==> !occurs_at(cs, "---"@, q)
                },
            decreases cs.len() - self.pos, (if closed { 0int } else { 1int }),
        {
            let ghost pp = self.pos as nat;
            if self.pos + 2 < self.chars.len() && self.chars[self.pos] == '-' && self.chars[self.pos + 1] == '-'
                && self.chars[self.pos + 2] == '-' {
                self.next_char();
                self.next_char();
                self.next_char();
                proof {
                    lemma_moved_compose(cs, st, pp, pp + 1);
                    lemma_moved_compose(cs, st, pp + 1, pp + 2);
                    lemma_moved_compose(cs, st, pp, pp + 2);
                    lemma_moved_compose(cs, st, pp + 2, pp + 3);
                    lemma_moved_compose(cs, st, pp, pp + 3);
                    assert(cs.subrange(pp as int, (pp + 3) as int) =~= seq!['-', '-', '-']);
                }
                closed = true;
            } else {
                proof {
                    if occurs_at(cs, "---"@, pp as int) {
                        assert(cs.subrange(pp as int, (pp + 3) as int)[0] == cs[pp as int]);
                        assert(cs.subrange(pp as int, (pp + 3) as int)[1] == cs[(pp + 1) as int]);
                        assert(cs.subrange(pp as int, (pp + 3) as int)[2] == cs[(pp + 2) as int]);
                    }
                }
                self.next_char();
                proof {
                    lemma_moved_compose(cs, st, pp, pp + 1);
                }
                end_text = self.pos;
            }
        }
        proof {
            lemma_find_from_bounds(cs, (p + 3) as nat, "---"@);
            if !closed {
                assert(forall|q: int| p + 3 <= q ==> !occurs_at(cs, "---"@, q));
            }
        }
        let text = self.text_between(p + 3, end_text);
        push_tok(tokens, TokenKind::BlockComment, text, start_line, start_col);
        Ok(())
    }

    /// A comment to the end of the line after an opener of `skip` characters.
    fn lex_line_comment(&mut self, tokens: &mut Vec<Token>, skip: usize, kind: TokenKind) -> (r: Result<(), String>)
        requires
            old(self).wf(),
            skip == 2 || skip == 3,
            old(self).pos + skip <= old(self).chars@.len(),
        ensures
            final(self).wf(),
            final(self).chars@ == old(self).chars@,
            step_result(step_line_comment(old(self).chars@, old(self).state(), (old(self).pos + skip) as nat, kind),
                final(self).state(), token_views(old(tokens)@), token_views(final(tokens)@), r),
    {
        let ghost cs = self.chars@;
        let ghost st = self.state();
        let p = self.pos;
        let mut k: usize = 0;
        while k < skip
            invariant
                self.wf(),
                self.chars@ == cs,
                st.pos == p,
                k <= skip,
                p + skip <= cs.len(),
                self.pos == p + k,
                self.state() == moved(cs, st, self.pos as nat),
            decreases skip - k,
        {
            let ghost pp = self.pos as nat;
            self.next_char();
            proof {
                lemma_moved_compose(cs, st, pp, pp + 1);
            }
            k = k + 1;
        }
        let start_line = self.line;
        let start_col = self.col;
        proof {
            lemma_run_end_bounds(cs, (p + skip) as nat, CharClass::NotNewline);
        }
        self.take_run(CharClass::NotNewline);
        proof {
            lemma_moved_compose(cs, st, (p + skip) as nat, self.pos as nat);
        }
        let text = self.text_between(p + skip, self.pos);
        push_tok(tokens, kind, text, start_line, start_col);
        Ok(())
    }

    /// A string literal; the opening quote is the next character.
    fn lex_string(&mut self, tokens: &mut Vec<Token>) -> (r: Result<(), String>)
        requires
            old(self).wf(),
            old(self).pos < old(self).chars@.len(),
            old(self).chars@[old(self).pos as int] == '"',
        ensures
            final(self).wf(),
            final(self).chars@ == old(self).chars@,
            step_result(step_string(old(self).chars@, old(self).state()),
                final(self).state(), token_views(old(tokens)@), token_views(final(tokens)@), r),
    {
        let ghost cs = self.chars@;
        let ghost st = self.state();
        let line = self.line;
        let col = self.col;
        let p = self.pos;
        self.next_char();
        let mut s = String::new();
        let mut interp = false;
        while self.pos < self.chars.len()
            invariant
                self.wf(),
                self.chars@ == cs,
                st.pos == p,
                st.line == line,
                st.col == col,
                cs == old(self).chars@,
                st == old(self).state(),
                tokens@ == old(tokens)@,
                p + 1 <= self.pos <= cs.len(),
                self.state() == moved(cs, st, self.pos as nat),
                scan_str(cs, (p + 1) as nat, seq![], false) == scan_str(cs, self.pos as nat, s@, interp),
            decreases cs.len() - self.pos,
        {
            let ch = self.chars[self.pos];
            let ghost pp = self.pos as nat;
            let doubled = self.pos + 1 < self.chars.len() && self.chars[self.pos + 1] == ch;
            if ch == '"' {
                self.next_char();
                proof {
                    lemma_moved_compose(cs, st, pp, pp + 1);
                }
                let kind = if interp { TokenKind::InterpolatedString } else { TokenKind::StringLiteral };
                push_tok(tokens, kind, s, line, col);
                return Ok(());
            } else if ch == '{' || ch == '}' {
                self.next_char();
                proof {
                    lemma_moved_compose(cs, st, pp, pp + 1);
                }
                if doubled {
                    push_char(&mut s, ch);
                    self.next_char();
                    proof {
                        lemma_moved_compose(cs, st, pp + 1, pp + 2);
                        lemma_moved_compose(cs, st, pp, pp + 2);
                    }
                } else {
                    if ch == '{' {
                        interp = true;
                    }
                    push_char(&mut s, '`');
                }
            } else if ch == '\\' {
                self.next_char();
                proof {
                    lemma_moved_compose(cs, st, pp, pp + 1);
                }
                if self.pos < self.chars.len() {
                    let esc = self.chars[self.pos];
                    self.next_char();
                    proof {
                        lemma_moved_compose(cs, st, pp + 1, pp + 2);
                        lemma_moved_compose(cs, st, pp, pp + 2);
                    }
                    let un = if esc == 'n' { '\n' } else if esc == 't' { '\t' } else { esc };
                    push_char(&mut s, un);
                } else {
                    return Err(String::from_str("Unterminated escape in string"));
                }
            } else {
                push_char(&mut s, ch);
                self.next_char();
                proof {
                    lemma_moved_compose(cs, st, pp, pp + 1);
                }
            }
        }
        Err(String::from_str("Unterminated string literal"))
    }

    /// A word or a number: the run of `k` at the cursor, of kind `kind` (a
    /// word's kind is its keyword kind).
    fn lex_run_token(&mut self, tokens: &mut Vec<Token>, k: CharClass) -> (r: Result<(), String>)
        requires
            old(self).wf(),
            old(self).pos < old(self).chars@.len(),
            k is WordChar || k is Digit,
        ensures
            final(self).wf(),
            final(self).chars@ == old(self).chars@,
            step_result(
                if k is WordChar { step_word(old(self).chars@, old(self).state()) } else { step_number(old(self).chars@, old(self).state()) },
                final(self).state(), token_views(old(tokens)@), token_views(final(tokens)@), r),
    {
        let line = self.line;
        let col = self.col;
        let p = self.pos;
        let is_word = match k {
            CharClass::WordChar => true,
            _ => false,
        };
        proof {
            lemma_run_end_bounds(self.chars@, p as nat, k);
        }
        self.take_run(k);
        let text = self.text_between(p, self.pos);
        let kind = if is_word { keyword_of(text.as_str()) } else { TokenKind::Number };
        push_tok(tokens, kind, text, line, col);
        Ok(())
    }

    /// An operator or punctuation token, or a skipped character.
    fn lex_operator(&mut self, tokens: &mut Vec<Token>) -> (r: Result<(), String>)
        requires
            old(self).wf(),
            old(self).pos < old(self).chars@.len(),
        ensures
            final(self).wf(),
            final(self).chars@ == old(self).chars@,
            step_result(step_operator(old(self).chars@, old(self).state()),
                final(self).state(), token_views(old(tokens)@), token_views(final(tokens)@), r),
    {
        let ghost cs = self.chars@;
        let ghost st = self.state();
        let start_line = self.line;
        let start_col = self.col;
        let p = self.pos;
        let c = self.chars[p];
        let n1 = if p + 1 < self.chars.len() { self.chars[p + 1] } else { ' ' };
        let n2 = if p + 2 < self.chars.len() { self.chars[p + 2] } else { ' ' };
        self.next_char();
        if c == '&' && n1 != '&' {
            let mut msg = String::new();
            push_str(&mut msg, "Unexpected '&' at ");
            push_decimal(&mut msg, self.line);
            push_char(&mut msg, ':');
            push_decimal(&mut msg, self.col);
            proof {
                reveal_strlit(":");
            }
            assert(msg@ =~= "Unexpected '&' at "@ + decimal(self.line as nat) + ":"@ + decimal(self.col as nat));
            return Err(msg);
        }
        let (kind, len): (TokenKind, usize) = if c == '=' {
            if n1 == '=' { (TokenKind::EqEq, 2) } else if n1 == '>' { (TokenKind::FatArrow, 2) } else { (TokenKind::Equals, 1) }
        } else if c == '+' {
            (TokenKind::Plus, 1)
        } else if c == '-' {
            (TokenKind::Minus, 1)
        } else if c == '*' {
            (TokenKind::Star, 1)
        } else if c == '/' {
            (TokenKind::Slash, 1)
        } else if c == '%' {
            (TokenKind::Percent, 1)
        } else if c == '!' {
            if n1 == '=' { (TokenKind::NotEq, 2) } else { (TokenKind::Bang, 1) }
        } else if c == '<' {
            if n1 == '=' { (TokenKind::LtEq, 2) } else { (TokenKind::Lt, 1) }
        } else if c == '>' {
            if n1 == '=' { (TokenKind::GtEq, 2) } else { (TokenKind::Gt, 1) }
        } else if c == '&' {
            (TokenKind::AndAnd, 2)
        } else if c == '|' {
            if n1 == '|' { (TokenKind::OrOr, 2) } else { (TokenKind::Pipe, 1) }
        } else if c == '(' {
            (TokenKind::LParen, 1)
        } else if c == ')' {
            (TokenKind::RParen, 1)
        } else if c == '[' {
            (TokenKind::LBracket, 1)
        } else if c == ']' {
            (TokenKind::RBracket, 1)
        } else if c == ',' {
            (TokenKind::Comma, 1)
        } else if c == ':' {
            (TokenKind::Colon, 1)
        } else if c == '.' {
            if n1 == '.' {
                if n2 == '.' { (TokenKind::DotDotDot, 3) } else { (TokenKind::DotDot, 2) }
            } else {
                (TokenKind::Dot, 1)
            }
        } else {
            return Ok(());
        };
        let mut k: usize = 1;
        while k < len
            invariant
                self.wf(),
                self.chars@ == cs,
                st.pos == p,
                1 <= k <= len,
                p + len <= cs.len(),
                self.pos == p + k,
                self.state() == moved(cs, st, self.pos as nat),
            decreases len - k,
        {
            let ghost pp = self.pos as nat;
            self.next_char();
            proof {
                lemma_moved_compose(cs, st, pp, pp + 1);
            }
            k = k + 1;
        }
        push_tok(tokens, kind, String::new(), start_line, start_col);
        Ok(())
    }

    /// A turn inside a line.
    fn lex_in_line(&mut self, tokens: &mut Vec<Token>) -> (r: Result<(), String>)
        requires
            old(self).wf(),
            old(self).pos < old(self).chars@.len(),
            !old(self).at_line_start,
        ensures
            final(self).wf(),
            final(self).chars@ == old(self).chars@,
            step_result(step_in_line(old(self).chars@, old(self).state()), final(self).state(),
                token_views(old(tokens)@), token_views(final(tokens)@), r),
    {
        let ghost cs = self.chars@;
        let ghost st = self.state();
        let p = self.pos;
        let c = self.chars[p];
        let n1 = if p + 1 < self.chars.len() { self.chars[p + 1] } else { ' ' };
        let n2 = if p + 2 < self.chars.len() { self.chars[p + 2] } else { ' ' };
        if c == '\n' {
            let line = self.line;
            let col = self.col;
            self.next_char();
            push_tok(tokens, TokenKind::Newline, String::from_str("\n"), line, col);
            self.at_line_start = true;
            return Ok(());
        }
        if is_whitespace(c) {
            self.next_char();
            return Ok(());
        }
        if c == '-' && n1 == '-' && n2 == '-' {
            return self.lex_block_comment(tokens);
        }
        if c == '-' && n1 == '-' {
            return self.lex_line_comment(tokens, 2, TokenKind::LineComment);
        }
        if c == '-' && n1 == '>' {
            let line = self.line;
            let col = self.col;
            self.next_char();
            self.next_char();
            proof {
                lemma_moved_compose(cs, st, (p + 1) as nat, (p + 2) as nat);
                reveal_strlit("->");
            }
            let mut arrow = String::new();
            push_char(&mut arrow, '-');
            push_char(&mut arrow, '>');
            assert(arrow@ =~= "->"@);
            push_tok(tokens, TokenKind::Arrow, arrow, line, col);
            return Ok(());
        }
        if c == '/' && n1 == '/' && n2 == '/' {
            return self.lex_line_comment(tokens, 3, TokenKind::DocComment);
        }
        if c == '"' {
            return self.lex_string(tokens);
        }
        if ascii_alpha(c) || c == '_' {
            return self.lex_run_token(tokens, CharClass::WordChar);
        }
        if ascii_digit(c) {
            return self.lex_run_token(tokens, CharClass::Digit);
        }
        self.lex_operator(tokens)
    }

    /// Splits the source into tokens: indentation becomes `Indent`/`Dedent`
    /// pairs, and the stream ends with one `Eof` token.
    pub fn tokenize(&mut self) -> (r: Result<Vec<Token>, String>)
        requires
            old(self).wf(),
        ensures
            final(self).wf(),
            final(self).source() == old(self).source(),
            r matches Ok(ts) ==> lex_run(old(self).source(), old(self).state()) == LexOutcome::Done(token_views(ts@)),
            r matches Err(e) ==> lex_run(old(self).source(), old(self).state()) == LexOutcome::Failed(e@),
    {
        let ghost cs = self.chars@;
        let ghost st0 = self.state();
        let mut tokens: Vec<Token> = Vec::new();
        assert(token_views(tokens@) =~= Seq::<TokenView>::empty());
        assert(prepend(Seq::<TokenView>::empty(), lex_run(cs, st0)) == lex_run(cs, st0)) by {
            match lex_run(cs, st0) {
                LexOutcome::Done(rest) => {
                    assert(Seq::<TokenView>::empty() + rest =~= rest);
                },
                _ => {},
            }
        }
        while self.pos < self.chars.len()
            invariant
                self.wf(),
                self.chars@ == cs,
                lex_run(cs, st0) == prepend(token_views(tokens@), lex_run(cs, self.state())),
                cs == old(self).chars@,
                st0 == old(self).state(),
            decreases measure(cs, self.state()),
        {
            let ghost cur = self.state();
            let ghost before = token_views(tokens@);
            proof {
                lemma_step_progress(cs, cur);
            }
            let r = if self.at_line_start {
                self.lex_line_start(&mut tokens)
            } else {
                self.lex_in_line(&mut tokens)
            };
            match r {
                Ok(()) => {
                    proof {
                        let step = lex_step(cs, cur);
                        let s2 = step->Next_0;
                        let toks = step->Next_1;
                        lemma_prepend_assoc(before, toks, lex_run(cs, s2));
                    }
                },
                Err(e) => {
                    return Err(e);
                },
            }
        }
        let ghost last = self.state();
        let ghost before = token_views(tokens@);
        let ghost lc = (self.line as nat, self.col as nat);
        let ghost n: nat = 0;
        while self.indent_stack.len() > 1
            invariant
                self.wf(),
                self.chars@ == cs,
                self.pos == last.pos,
                self.line == last.line,
                self.col == last.col,
                self.at_line_start == last.at_line_start,
                stack_view(self.indent_stack@) == last.stack.take(self.indent_stack@.len() as int),
                n + self.indent_stack@.len() == last.stack.len(),
                lc == (self.line as nat, self.col as nat),
                token_views(tokens@) == before + layout_run(n, TokenKind::Dedent, lc),
            decreases self.indent_stack@.len(),
        {
            self.indent_stack.pop();
            assert(stack_view(self.indent_stack@) =~= last.stack.take(self.indent_stack@.len() as int));
            push_tok(&mut tokens, TokenKind::Dedent, String::new(), self.line, self.col);
            proof {
                n = n + 1;
                assert(before + layout_run(n, TokenKind::Dedent, lc)
                    =~= (before + layout_run((n - 1) as nat, TokenKind::Dedent, lc)).push(tok(TokenKind::Dedent, seq![], lc)));
            }
        }
        push_tok(&mut tokens, TokenKind::Eof, String::new(), self.line, self.col);
        proof {
            assert(token_views(tokens@) =~= before + finish(last));
        }
        Ok(tokens)
    }
}

} // verus!
