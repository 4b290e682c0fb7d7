//! The full-language lexer: every keyword, literal form, comment style and
//! operator of Omni, with indentation-based layout outside brackets.
//!
//! Its behaviour is given as a state machine over the source characters:
//! `lex_step` is one turn of the scanning loop and `lex_run` runs it to the end
//! of the input. `CompleteLexer::tokenize` is proved to produce exactly what
//! `lex_run` describes.

use vstd::prelude::*;
use crate::strmap::StrMap;
use crate::text::{
    chars_of, decimal, is_alphabetic, is_alphanumeric, is_ascii_digit, is_ascii_hex,
    occurs_at, occurs_at_exec, push_char, push_decimal, push_str,
    unicode_alphabetic, unicode_alphanumeric,
};

verus! {

/// Every kind of token of the language.
#[derive(Debug, Clone, Copy, PartialEq, Eq, Structural)]
pub enum TokenKind {
    Ident,
    StringLiteral,
    InterpolatedString,
    Number,
    Float,
    HexNumber,
    OctNumber,
    BinNumber,
    RawString,
    ByteString,
    Newline,
    Indent,
    Dedent,
    LineComment,
    BlockComment,
    DocComment,
    Equals,
    Plus,
    Minus,
    Star,
    Slash,
    Percent,
    EqEq,
    NotEq,
    Lt,
    LtEq,
    Gt,
    GtEq,
    AndAnd,
    OrOr,
    Bang,
    LParen,
    RParen,
    Arrow,
    FatArrow,
    LBracket,
    RBracket,
    LBrace,
    RBrace,
    Comma,
    Colon,
    ColonColon,
    Dot,
    DotDot,
    DotDotDot,
    Semi,
    At,
    Question,
    Tilde,
    True,
    False,
    Linear,
    Unsafe,
    Enum,
    Variant,
    Match,
    If,
    Then,
    Else,
    Pipe,
    Mod,
    Fn,
    Pub,
    Async,
    Await,
    Effect,
    Yield,
    Spawn,
    Cap,
    Friend,
    Trait,
    Impl,
    Struct,
    Class,
    Type,
    Let,
    Mut,
    Const,
    Static,
    Return,
    Break,
    Continue,
    Loop,
    While,
    For,
    In,
    Where,
    Use,
    Import,
    Export,
    From,
    As,
    Self_,
    SelfType,
    Inout,
    Int,
    Int8,
    Int16,
    Int32,
    Int64,
    UInt,
    UInt8,
    UInt16,
    UInt32,
    UInt64,
    Float32,
    Float64,
    Char,
    Bool,
    String,
    Void,
    Eof,
}

/// A token: its kind, its text, and the line and column it is reported at.
#[derive(Debug, Clone)]
pub struct Token {
    pub kind: TokenKind,
    pub text: String,
    pub line: usize,
    pub col: usize,
}

/// The abstract content of a token: (kind, text, line, column).
pub type TokenView = (TokenKind, Seq<char>, nat, nat);

impl View for Token {
    type V = TokenView;

    open spec fn view(&self) -> TokenView {
        (self.kind, self.text@, self.line as nat, self.col as nat)
    }
}

pub open spec fn token_views(ts: Seq<Token>) -> Seq<TokenView> {
    ts.map_values(|t: Token| t@)
}

/// The reserved words and the kinds they lex to.
pub open spec fn keyword_table() -> Map<Seq<char>, TokenKind> {
    Map::<Seq<char>, TokenKind>::empty()
        .insert("true"@, TokenKind::True)
        .insert("false"@, TokenKind::False)
        .insert("linear"@, TokenKind::Linear)
        .insert("unsafe"@, TokenKind::Unsafe)
        .insert("enum"@, TokenKind::Enum)
        .insert("variant"@, TokenKind::Variant)
        .insert("match"@, TokenKind::Match)
        .insert("if"@, TokenKind::If)
        .insert("then"@, TokenKind::Then)
        .insert("else"@, TokenKind::Else)
        .insert("pipe"@, TokenKind::Pipe)
        .insert("mod"@, TokenKind::Mod)
        .insert("fn"@, TokenKind::Fn)
        .insert("pub"@, TokenKind::Pub)
        .insert("async"@, TokenKind::Async)
        .insert("await"@, TokenKind::Await)
        .insert("effect"@, TokenKind::Effect)
        .insert("yield"@, TokenKind::Yield)
        .insert("spawn"@, TokenKind::Spawn)
        .insert("cap"@, TokenKind::Cap)
        .insert("friend"@, TokenKind::Friend)
        .insert("trait"@, TokenKind::Trait)
        .insert("impl"@, TokenKind::Impl)
        .insert("struct"@, TokenKind::Struct)
        .insert("class"@, TokenKind::Class)
        .insert("type"@, TokenKind::Type)
        .insert("let"@, TokenKind::Let)
        .insert("mut"@, TokenKind::Mut)
        .insert("const"@, TokenKind::Const)
        .insert("static"@, TokenKind::Static)
        .insert("return"@, TokenKind::Return)
        .insert("break"@, TokenKind::Break)
        .insert("continue"@, TokenKind::Continue)
        .insert("loop"@, TokenKind::Loop)
        .insert("while"@, TokenKind::While)
        .insert("for"@, TokenKind::For)
        .insert("in"@, TokenKind::In)
        .insert("where"@, TokenKind::Where)
        .insert("use"@, TokenKind::Use)
        .insert("mod"@, TokenKind::Mod)
        .insert("import"@, TokenKind::Import)
        .insert("export"@, TokenKind::Export)
        .insert("from"@, TokenKind::From)
        .insert("as"@, TokenKind::As)
        .insert("self"@, TokenKind::Self_)
        .insert("Self"@, TokenKind::SelfType)
        .insert("inout"@, TokenKind::Inout)
        .insert("int"@, TokenKind::Int)
        .insert("int8"@, TokenKind::Int8)
        .insert("int16"@, TokenKind::Int16)
        .insert("int32"@, TokenKind::Int32)
        .insert("int64"@, TokenKind::Int64)
        .insert("uint"@, TokenKind::UInt)
        .insert("uint8"@, TokenKind::UInt8)
        .insert("uint16"@, TokenKind::UInt16)
        .insert("uint32"@, TokenKind::UInt32)
        .insert("uint64"@, TokenKind::UInt64)
        .insert("float32"@, TokenKind::Float32)
        .insert("float64"@, TokenKind::Float64)
        .insert("char"@, TokenKind::Char)
        .insert("bool"@, TokenKind::Bool)
        .insert("string"@, TokenKind::String)
        .insert("void"@, TokenKind::Void)
}

/// The kind a word lexes to: its keyword kind, or `Ident`.
pub open spec fn word_kind(w: Seq<char>) -> TokenKind {
    if keyword_table().contains_key(w) { keyword_table()[w] } else { TokenKind::Ident }
}

// ---------------------------------------------------------------------------
// The scanning state machine
// ---------------------------------------------------------------------------

/// Where the lexer stands: the next character, the line and column reported for
/// it, the open indentation levels, whether a line is starting, and how many
/// brackets are open.
pub struct LexState {
    pub pos: nat,
    pub line: nat,
    pub col: nat,
    pub stack: Seq<nat>,
    pub at_line_start: bool,
    pub nesting: nat,
}

/// The state a fresh lexer starts in.
pub open spec fn initial_state() -> LexState {
    LexState { pos: 0, line: 1, col: 1, stack: seq![0nat], at_line_start: true, nesting: 0 }
}

/// Line and column after reading `ch`: a newline starts the next line, a
/// carriage return moves nothing, anything else moves one column right.
pub open spec fn bump(lc: (nat, nat), ch: char) -> (nat, nat) {
    if ch == '\n' {
        (lc.0 + 1, 1)
    } else if ch == '\r' {
        lc
    } else {
        (lc.0, lc.1 + 1)
    }
}

/// Line and column after reading `cs[i..j]` from `lc`.
pub open spec fn advance(cs: Seq<char>, i: nat, j: nat, lc: (nat, nat)) -> (nat, nat)
    decreases j,
{
    if j <= i {
        lc
    } else {
        bump(advance(cs, i, (j - 1) as nat, lc), cs[j - 1])
    }
}

/// `st` after reading the characters up to (not including) `j`.
pub open spec fn moved(cs: Seq<char>, st: LexState, j: nat) -> LexState {
    let lc = advance(cs, st.pos, j, (st.line, st.col));
    LexState {
        pos: j,
        line: lc.0,
        col: lc.1,
        stack: st.stack,
        at_line_start: st.at_line_start,
        nesting: st.nesting,
    }
}

/// The line and column reached after reading up to `j` from `st`.
pub open spec fn here(cs: Seq<char>, st: LexState, j: nat) -> (nat, nat) {
    advance(cs, st.pos, j, (st.line, st.col))
}

pub open spec fn with_line_start(st: LexState, b: bool) -> LexState {
    LexState {
        pos: st.pos,
        line: st.line,
        col: st.col,
        stack: st.stack,
        at_line_start: b,
        nesting: st.nesting,
    }
}

pub open spec fn with_stack(st: LexState, stack: Seq<nat>) -> LexState {
    LexState {
        pos: st.pos,
        line: st.line,
        col: st.col,
        stack,
        at_line_start: st.at_line_start,
        nesting: st.nesting,
    }
}

pub open spec fn with_nesting(st: LexState, n: nat) -> LexState {
    LexState {
        pos: st.pos,
        line: st.line,
        col: st.col,
        stack: st.stack,
        at_line_start: st.at_line_start,
        nesting: n,
    }
}

pub open spec fn tok(kind: TokenKind, text: Seq<char>, lc: (nat, nat)) -> TokenView {
    (kind, text, lc.0, lc.1)
}

/// The character classes the scanner reads runs of.
#[derive(Clone, Copy)]
pub enum CharClass {
    /// space, tab or carriage return
    InlineSpace,
    /// space or tab
    IndentSpace,
    NotNewline,
    NotQuote,
    Hash,
    /// a Unicode letter or digit, or `_`
    IdentChar,
    HexDigit,
    OctDigit,
    BinDigit,
    DigitOrUnderscore,
}

pub open spec fn in_class(k: CharClass, c: char) -> bool {
    match k {
        CharClass::InlineSpace => c == ' ' || c == '\t' || c == '\r',
        CharClass::IndentSpace => c == ' ' || c == '\t',
        CharClass::NotNewline => c != '\n',
        CharClass::NotQuote => c != '"',
        CharClass::Hash => c == '#',
        CharClass::IdentChar => unicode_alphanumeric(c) || c == '_',
        CharClass::HexDigit => is_ascii_hex(c),
        CharClass::OctDigit => '0' <= c && c <= '7',
        CharClass::BinDigit => c == '0' || c == '1',
        CharClass::DigitOrUnderscore => is_ascii_digit(c) || c == '_',
    }
}

/// The end of the run of class `k` that starts at `i`.
pub open spec fn run_end(cs: Seq<char>, i: nat, k: CharClass) -> nat
    decreases cs.len() - i,
{
    if i < cs.len() && in_class(k, cs[i as int]) {
        run_end(cs, i + 1, k)
    } else {
        i
    }
}

/// The indentation width of `cs[i..j]`: a space counts one, a tab four.
pub open spec fn indent_width(cs: Seq<char>, i: nat, j: nat) -> nat
    decreases j,
{
    if j <= i {
        0
    } else {
        indent_width(cs, i, (j - 1) as nat) + (if cs[j - 1] == '\t' { 4nat } else { 1nat })
    }
}

/// The first position at or after `i` where `pat` occurs.
pub open spec fn find_from(cs: Seq<char>, i: nat, pat: Seq<char>) -> Option<nat>
    recommends
        pat.len() > 0,
    decreases cs.len() - i,
{
    if i >= cs.len() || i + pat.len() > cs.len() {
        None
    } else if occurs_at(cs, pat, i as int) {
        Some(i)
    } else {
        find_from(cs, i + 1, pat)
    }
}

/// The escapes `\n`, `\t`, `\r` and `\0` stand for the control characters
/// line feed (U+000A), tab (U+0009), carriage return (U+000D) and NUL
/// (U+0000); any other escaped character stands for itself. So an escaped
/// letter becomes a control character exactly when it is one of the four,
/// and the four give four different characters.
pub proof fn law_escapes(c: char, d: char)
    ensures
        (c == 'n' || c == 't' || c == 'r' || c == '0') <==> (unescape(c) as u32) < 0x20 && c != unescape(c),
        !(c == 'n' || c == 't' || c == 'r' || c == '0') ==> unescape(c) == c,
        c == 'n' ==> unescape(c) as u32 == 0x0A,
        c == 't' ==> unescape(c) as u32 == 0x09,
        c == 'r' ==> unescape(c) as u32 == 0x0D,
        c == '0' ==> unescape(c) as u32 == 0x00,
        (c == 'n' || c == 't' || c == 'r' || c == '0') && (d == 'n' || d == 't' || d == 'r' || d == '0') && unescape(c) == unescape(d) ==> c == d,
{
}

/// The character an escape `\c` stands for inside a string literal.
pub open spec fn unescape(c: char) -> char {
    if c == 'n' {
        '\n'
    } else if c == 't' {
        '\t'
    } else if c == 'r' {
        '\r'
    } else if c == '0' {
        '\0'
    } else {
        c
    }
}

/// Reads the rest of a string literal from `i`, with `acc` read so far:
/// the position after the closing quote, the text, and whether a backquote
/// (an interpolation) occurred; `None` when the input ends first.
pub open spec fn scan_str(cs: Seq<char>, i: nat, acc: Seq<char>, interp: bool) -> Option<(nat, Seq<char>, bool)>
    decreases cs.len() - i,
{
    if i >= cs.len() {
        None
    } else if cs[i as int] == '"' {
        Some((i + 1, acc, interp))
    } else if cs[i as int] == '`' {
        scan_str(cs, i + 1, acc, true)
    } else if cs[i as int] == '\\' {
        if i + 1 < cs.len() {
            scan_str(cs, i + 2, acc.push(unescape(cs[i + 1int])), interp)
        } else {
            None
        }
    } else {
        scan_str(cs, i + 1, acc.push(cs[i as int]), interp)
    }
}

/// Pops the indentation levels deeper than `w`; returns the remaining levels
/// and how many were popped.
pub open spec fn pop_above(stack: Seq<nat>, w: nat) -> (Seq<nat>, nat)
    decreases stack.len(),
{
    if stack.len() > 0 && w < stack.last() {
        let r = pop_above(stack.drop_last(), w);
        (r.0, r.1 + 1)
    } else {
        (stack, 0)
    }
}

/// `n` layout tokens of kind `kind` with text `text`, all at `lc`.
pub open spec fn layout_run(n: nat, kind: TokenKind, text: Seq<char>, lc: (nat, nat)) -> Seq<TokenView> {
    Seq::new(n, |i: int| tok(kind, text, lc))
}

/// One turn of the scanning loop.
pub enum Step {
    /// The new state and the tokens emitted.
    Next(LexState, Seq<TokenView>),
    /// Lexing stops with this error message.
    Fail(Seq<char>),
    /// An arithmetic check fails: a comment left open at the end of the input
    /// whose last line is too short to report a column two places back.
    Panic,
}

pub open spec fn emit(st: LexState, t: TokenView) -> Step {
    Step::Next(st, seq![t])
}

/// A turn at the start of a line: blank lines, indentation and layout tokens.
pub open spec fn step_line_start(cs: Seq<char>, st: LexState) -> Step {
    let p = st.pos;
    if cs[p as int] == '\n' {
        emit(moved(cs, st, p + 1), tok(TokenKind::Newline, "\n"@, (st.line, st.col)))
    } else if st.nesting > 0 {
        let j = run_end(cs, p, CharClass::InlineSpace);
        let s2 = moved(cs, st, j);
        if j < cs.len() && cs[j as int] != '\n' {
            Step::Next(with_line_start(s2, false), seq![])
        } else {
            Step::Next(s2, seq![])
        }
    } else {
        let j = run_end(cs, p, CharClass::IndentSpace);
        let w = indent_width(cs, p, j);
        let s2 = moved(cs, st, j);
        let lc = here(cs, st, j);
        if !(j < cs.len() && cs[j as int] != '\n') {
            Step::Next(s2, seq![])
        } else if w > st.stack.last() {
            emit(with_line_start(with_stack(s2, st.stack.push(w)), false), tok(TokenKind::Indent, seq![], lc))
        } else if w < st.stack.last() {
            let popped = pop_above(st.stack, w);
            if w != popped.0.last() {
                Step::Fail("Inconsistent indentation at line "@ + decimal(lc.0))
            } else {
                Step::Next(
                    with_line_start(with_stack(s2, popped.0), false),
                    layout_run(popped.1, TokenKind::Dedent, seq![], lc),
                )
            }
        } else {
            Step::Next(with_line_start(s2, false), seq![])
        }
    }
}

/// A comment running to the end of the line, its text starting at `i`.
pub open spec fn step_line_comment(cs: Seq<char>, st: LexState, i: nat) -> Step {
    let e = run_end(cs, i, CharClass::NotNewline);
    let lc = here(cs, st, e);
    emit(moved(cs, st, e), tok(TokenKind::LineComment, cs.subrange(i as int, e as int), (lc.0, (lc.1 - 2) as nat)))
}

/// A `/* ... */` comment; left open, it runs to the end and is a doc comment.
pub open spec fn step_block_comment(cs: Seq<char>, st: LexState) -> Step {
    let i = st.pos + 2;
    match find_from(cs, i, "*/"@) {
        Some(k) => {
            let lc = here(cs, st, k + 2);
            emit(moved(cs, st, k + 2), tok(TokenKind::BlockComment, cs.subrange(i as int, k as int), (lc.0, (lc.1 - 2) as nat)))
        },
        None => {
            let lc = here(cs, st, cs.len());
            if lc.1 < 2 {
                Step::Panic
            } else {
                emit(moved(cs, st, cs.len()), tok(TokenKind::DocComment, cs.subrange(i as int, cs.len() as int), (lc.0, (lc.1 - 2) as nat)))
            }
        },
    }
}

/// A `"..."` literal with escapes; a backquote inside makes it interpolated.
pub open spec fn step_string(cs: Seq<char>, st: LexState) -> Step {
    match scan_str(cs, st.pos + 1, seq![], false) {
        None => Step::Fail("Unterminated string"@),
        Some(r) => emit(
            moved(cs, st, r.0),
            tok(if r.2 { TokenKind::InterpolatedString } else { TokenKind::StringLiteral }, r.1, (st.line, st.col)),
        ),
    }
}

/// `r#..."...."#...`: the text runs to the first quote followed by as many
/// hashes as opened it. Hashes not followed by a quote leave the word `r`.
pub open spec fn step_raw_string(cs: Seq<char>, st: LexState) -> Step {
    let h = run_end(cs, st.pos + 1, CharClass::Hash);
    if h < cs.len() && cs[h as int] == '"' {
        let closer = seq!['"'] + cs.subrange(st.pos + 1int, h as int);
        match find_from(cs, h + 1, closer) {
            None => Step::Fail("Unterminated raw string"@),
            Some(m) => {
                let e = m + closer.len();
                emit(moved(cs, st, e), tok(TokenKind::RawString, cs.subrange(h + 1int, m as int), here(cs, st, e)))
            },
        }
    } else {
        emit(moved(cs, st, h), tok(TokenKind::Ident, "r"@, here(cs, st, h)))
    }
}

/// `b"..."`: the text up to the next quote (or the end of the input).
pub open spec fn step_byte_string(cs: Seq<char>, st: LexState) -> Step {
    let e = run_end(cs, st.pos + 2, CharClass::NotQuote);
    let end = if e < cs.len() { e + 1 } else { e };
    emit(moved(cs, st, end), tok(TokenKind::ByteString, cs.subrange(st.pos + 2int, e as int), here(cs, st, end)))
}

/// A word: a letter or `_` followed by letters, digits and `_`.
pub open spec fn step_word(cs: Seq<char>, st: LexState) -> Step {
    let e = run_end(cs, st.pos + 1, CharClass::IdentChar);
    let w = cs.subrange(st.pos as int, e as int);
    emit(moved(cs, st, e), tok(word_kind(w), w, (st.line, st.col)))
}

/// A number: `0x`/`0o`/`0b` literals, or decimal digits (with `_`), an
/// optional fraction, and an optional one-letter suffix.
pub open spec fn step_number(cs: Seq<char>, st: LexState) -> Step {
    let p = st.pos;
    let lc = (st.line, st.col);
    let radix = if cs[p as int] == '0' && p + 1 < cs.len() { cs[p + 1int] } else { ' ' };
    if radix == 'x' || radix == 'X' {
        let e = run_end(cs, p + 2, CharClass::HexDigit);
        emit(moved(cs, st, e), tok(TokenKind::HexNumber, "0x"@ + cs.subrange(p + 2int, e as int), lc))
    } else if radix == 'o' || radix == 'O' {
        let e = run_end(cs, p + 2, CharClass::OctDigit);
        emit(moved(cs, st, e), tok(TokenKind::OctNumber, "0o"@ + cs.subrange(p + 2int, e as int), lc))
    } else if radix == 'b' || radix == 'B' {
        let e = run_end(cs, p + 2, CharClass::BinDigit);
        emit(moved(cs, st, e), tok(TokenKind::BinNumber, "0b"@ + cs.subrange(p + 2int, e as int), lc))
    } else {
        let e1 = run_end(cs, p, CharClass::DigitOrUnderscore);
        let frac = e1 + 1 < cs.len() && cs[e1 as int] == '.' && is_ascii_digit(cs[e1 + 1int]);
        let e2 = if frac { run_end(cs, e1 + 1, CharClass::DigitOrUnderscore) } else { e1 };
        let e3 = if e2 < cs.len() && unicode_alphabetic(cs[e2 as int]) { e2 + 1 } else { e2 };
        emit(
            moved(cs, st, e3),
            tok(if frac { TokenKind::Float } else { TokenKind::Number }, cs.subrange(p as int, e3 as int), lc),
        )
    }
}

/// A `-` that does not start a comment: with a `>` right after it, the two
/// make an arrow; alone it is a minus sign. The token is written `-` and
/// placed at the `-`.
pub open spec fn step_minus(cs: Seq<char>, st: LexState) -> Step {
    let p = st.pos;
    let arrow = p + 1 < cs.len() && cs[p + 1int] == '>';
    let end = if arrow { p + 2 } else { p + 1 };
    emit(moved(cs, st, end), tok(if arrow { TokenKind::Arrow } else { TokenKind::Minus }, "-"@, here(cs, st, p)))
}

/// The kind of the operator at `p` and the position after it.
pub open spec fn operator_at(cs: Seq<char>, p: nat) -> (TokenKind, nat) {
    let c = cs[p as int];
    let q = p + 1;
    let n1 = if q < cs.len() { cs[q as int] } else { ' ' };
    let n2 = if q + 1 < cs.len() { cs[q + 1int] } else { ' ' };
    if c == '=' {
        if n1 == '=' { (TokenKind::EqEq, q + 1) } else if n1 == '>' { (TokenKind::FatArrow, q + 1) } else { (TokenKind::Equals, q) }
    } else if c == '+' {
        (TokenKind::Plus, q)
    } else if c == '*' {
        (TokenKind::Star, q)
    } else if c == '%' {
        (TokenKind::Percent, q)
    } else if c == '!' {
        if n1 == '=' { (TokenKind::NotEq, q + 1) } else { (TokenKind::Bang, q) }
    } else if c == '<' {
        if n1 == '=' { (TokenKind::LtEq, q + 1) } else { (TokenKind::Lt, q) }
    } else if c == '>' {
        if n1 == '=' { (TokenKind::GtEq, q + 1) } else { (TokenKind::Gt, q) }
    } else if c == '&' {
        if n1 == '&' { (TokenKind::AndAnd, q + 1) } else { (TokenKind::Bang, q) }
    } else if c == '|' {
        if n1 == '|' { (TokenKind::OrOr, q + 1) } else { (TokenKind::Pipe, q) }
    } else if c == '(' {
        (TokenKind::LParen, q)
    } else if c == ')' {
        (TokenKind::RParen, q)
    } else if c == '[' {
        (TokenKind::LBracket, q)
    } else if c == ']' {
        (TokenKind::RBracket, q)
    } else if c == '{' {
        (TokenKind::LBrace, q)
    } else if c == '}' {
        (TokenKind::RBrace, q)
    } else if c == ';' {
        (TokenKind::Semi, q)
    } else if c == ',' {
        (TokenKind::Comma, q)
    } else if c == ':' {
        if n1 == ':' { (TokenKind::ColonColon, q + 1) } else { (TokenKind::Colon, q) }
    } else if c == '.' {
        if n1 == '.' {
            if n2 == '.' { (TokenKind::DotDotDot, q + 2) } else { (TokenKind::DotDot, q + 1) }
        } else {
            (TokenKind::Dot, q)
        }
    } else if c == '@' {
        (TokenKind::At, q)
    } else if c == '?' {
        (TokenKind::Question, q)
    } else if c == '~' {
        (TokenKind::Tilde, q)
    } else {
        (TokenKind::Ident, q)
    }
}

/// Bracket depth after the character `c`: opening brackets deepen it,
/// closing ones make it shallower (never below zero).
pub open spec fn nesting_after(c: char, n: nat) -> nat {
    if c == '(' || c == '[' || c == '{' {
        n + 1
    } else if c == ')' || c == ']' || c == '}' {
        if n > 0 { (n - 1) as nat } else { 0 }
    } else {
        n
    }
}

/// Any other character: an operator (its text is the first character only) or
/// a one-character `Ident` for anything unrecognised.
pub open spec fn step_operator(cs: Seq<char>, st: LexState) -> Step {
    let c = cs[st.pos as int];
    let op = operator_at(cs, st.pos);
    emit(with_nesting(moved(cs, st, op.1), nesting_after(c, st.nesting)), tok(op.0, seq![c], (st.line, st.col)))
}

/// A turn inside a line.
pub open spec fn step_in_line(cs: Seq<char>, st: LexState) -> Step {
    let p = st.pos;
    let c = cs[p as int];
    let n1 = if p + 1 < cs.len() { cs[p + 1int] } else { ' ' };
    if c == '\n' {
        emit(with_line_start(moved(cs, st, p + 1), true), tok(TokenKind::Newline, "\n"@, here(cs, st, p + 1)))
    } else if c == ' ' || c == '\t' || c == '\r' {
        Step::Next(moved(cs, st, p + 1), seq![])
    } else if (c == '-' && n1 == '-') || (c == '/' && n1 == '/') {
        step_line_comment(cs, st, p + 2)
    } else if c == '/' && n1 == '*' {
        step_block_comment(cs, st)
    } else if c == '/' {
        emit(moved(cs, st, p + 1), tok(TokenKind::Slash, "/"@, here(cs, st, p + 1)))
    } else if c == '"' {
        step_string(cs, st)
    } else if c == 'r' && n1 == '#' {
        step_raw_string(cs, st)
    } else if c == 'b' && n1 == '"' {
        step_byte_string(cs, st)
    } else if unicode_alphabetic(c) || c == '_' {
        step_word(cs, st)
    } else if is_ascii_digit(c) {
        step_number(cs, st)
    } else if c == '-' {
        step_minus(cs, st)
    } else {
        step_operator(cs, st)
    }
}

/// One turn of the scanning loop (only taken while input remains).
pub open spec fn lex_step(cs: Seq<char>, st: LexState) -> Step {
    if st.at_line_start {
        step_line_start(cs, st)
    } else {
        step_in_line(cs, st)
    }
}

/// The tokens emitted once the input is used up: a `Dedent` (with text
/// "dedent", in column 1) for each open indentation level, then `Eof`.
pub open spec fn finish(st: LexState) -> Seq<TokenView> {
    layout_run((st.stack.len() - 1) as nat, TokenKind::Dedent, "dedent"@, (st.line, 1))
        .push(tok(TokenKind::Eof, seq![], (st.line, st.col)))
}

/// How a run of the lexer ends.
pub enum LexOutcome {
    Done(Seq<TokenView>),
    Failed(Seq<char>),
    Panics,
}

pub open spec fn prepend(toks: Seq<TokenView>, o: LexOutcome) -> LexOutcome {
    match o {
        LexOutcome::Done(rest) => LexOutcome::Done(toks + rest),
        other => other,
    }
}

/// Progress measure: every turn reads input or leaves the start of a line.
pub open spec fn measure(cs: Seq<char>, st: LexState) -> int {
    2 * (cs.len() - st.pos) + (if st.at_line_start { 1int } else { 0int })
}

/// The result of lexing `cs` from `st` to the end of the input.
pub open spec fn lex_run(cs: Seq<char>, st: LexState) -> LexOutcome
    decreases measure(cs, st),
{
    if st.pos >= cs.len() {
        LexOutcome::Done(finish(st))
    } else {
        match lex_step(cs, st) {
            Step::Next(s2, toks) => {
                proof {
                    lemma_step_progress(cs, st);
                }
                prepend(toks, lex_run(cs, s2))
            },
            Step::Fail(e) => LexOutcome::Failed(e),
            Step::Panic => LexOutcome::Panics,
        }
    }
}

// ---------------------------------------------------------------------------
// Progress of the state machine
// ---------------------------------------------------------------------------

pub proof fn lemma_run_end_bounds(cs: Seq<char>, i: nat, k: CharClass)
    requires
        i <= cs.len(),
    ensures
        i <= run_end(cs, i, k) <= cs.len(),
        run_end(cs, i, k) < cs.len() ==> !in_class(k, cs[run_end(cs, i, k) as int]),
        forall|m: int| i <= m < run_end(cs, i, k) ==> in_class(k, #[trigger] cs[m]),
    decreases cs.len() - i,
{
    if i < cs.len() && in_class(k, cs[i as int]) {
        lemma_run_end_bounds(cs, i + 1, k);
    }
}

pub proof fn lemma_find_from_bounds(cs: Seq<char>, i: nat, pat: Seq<char>)
    ensures
        find_from(cs, i, pat) matches Some(m) ==> i <= m && m + pat.len() <= cs.len() && occurs_at(cs, pat, m as int),
        find_from(cs, i, pat) matches Some(m) ==> forall|q: int| i <= q < m ==> !occurs_at(cs, pat, q),
        find_from(cs, i, pat) is None && pat.len() > 0 ==> forall|q: int| i <= q ==> !occurs_at(cs, pat, q),
    decreases cs.len() - i,
{
    if i >= cs.len() || i + pat.len() > cs.len() {
    } else if occurs_at(cs, pat, i as int) {
    } else {
        lemma_find_from_bounds(cs, i + 1, pat);
    }
}

pub proof fn lemma_scan_str_bounds(cs: Seq<char>, i: nat, acc: Seq<char>, interp: bool)
    ensures
        scan_str(cs, i, acc, interp) matches Some(r) ==> i < r.0 <= cs.len(),
    decreases cs.len() - i,
{
    if i >= cs.len() {
    } else if cs[i as int] == '"' {
    } else if cs[i as int] == '`' {
        lemma_scan_str_bounds(cs, i + 1, acc, true);
    } else if cs[i as int] == '\\' {
        if i + 1 < cs.len() {
            lemma_scan_str_bounds(cs, i + 2, acc.push(unescape(cs[i + 1int])), interp);
        }
    } else {
        lemma_scan_str_bounds(cs, i + 1, acc.push(cs[i as int]), interp);
    }
}

/// Every turn keeps the position within the input and lowers the measure.
pub proof fn lemma_step_progress(cs: Seq<char>, st: LexState)
    requires
        st.pos < cs.len(),
    ensures
        lex_step(cs, st) matches Step::Next(s2, toks) ==> s2.pos <= cs.len() && measure(cs, s2) < measure(cs, st),
{
    let p = st.pos;
    if st.at_line_start {
        lemma_run_end_bounds(cs, p, CharClass::InlineSpace);
        lemma_run_end_bounds(cs, p, CharClass::IndentSpace);
    } else {
        let c = cs[p as int];
        let n1 = if p + 1 < cs.len() { cs[p + 1int] } else { ' ' };
        if (c == '-' && n1 == '-') || (c == '/' && n1 == '/') {
            lemma_run_end_bounds(cs, p + 2, CharClass::NotNewline);
        } else if c == '/' && n1 == '*' {
            reveal_strlit("*/");
            lemma_find_from_bounds(cs, p + 2, "*/"@);
        } else if c == '"' {
            lemma_scan_str_bounds(cs, p + 1, seq![], false);
        } else if c == 'r' && n1 == '#' {
            lemma_run_end_bounds(cs, p + 1, CharClass::Hash);
            let h = run_end(cs, p + 1, CharClass::Hash);
            if h < cs.len() && cs[h as int] == '"' {
                let closer = seq!['"'] + cs.subrange(p + 1int, h as int);
                lemma_find_from_bounds(cs, h + 1, closer);
            }
        } else if c == 'b' && n1 == '"' {
            lemma_run_end_bounds(cs, p + 2, CharClass::NotQuote);
        } else if unicode_alphabetic(c) || c == '_' {
            lemma_run_end_bounds(cs, p + 1, CharClass::IdentChar);
        } else if is_ascii_digit(c) {
            let radix = if c == '0' && p + 1 < cs.len() { cs[p + 1int] } else { ' ' };
            if radix == 'x' || radix == 'X' {
                lemma_run_end_bounds(cs, p + 2, CharClass::HexDigit);
            } else if radix == 'o' || radix == 'O' {
                lemma_run_end_bounds(cs, p + 2, CharClass::OctDigit);
            } else if radix == 'b' || radix == 'B' {
                lemma_run_end_bounds(cs, p + 2, CharClass::BinDigit);
            } else {
                lemma_run_end_bounds(cs, p, CharClass::DigitOrUnderscore);
                let e1 = run_end(cs, p, CharClass::DigitOrUnderscore);
                if e1 + 1 < cs.len() {
                    lemma_run_end_bounds(cs, e1 + 1, CharClass::DigitOrUnderscore);
                }
            }
        }
    }
}

// ---------------------------------------------------------------------------
// Facts about reading characters
// ---------------------------------------------------------------------------

proof fn lemma_advance_extend(cs: Seq<char>, i: nat, j: nat, lc: (nat, nat))
    requires
        i <= j,
    ensures
        advance(cs, i, j + 1, lc) == bump(advance(cs, i, j, lc), cs[j as int]),
{
}

proof fn lemma_advance_compose(cs: Seq<char>, i: nat, a: nat, b: nat, lc: (nat, nat))
    requires
        i <= a <= b,
    ensures
        advance(cs, a, b, advance(cs, i, a, lc)) == advance(cs, i, b, lc),
    decreases b,
{
    if b > a {
        lemma_advance_compose(cs, i, a, (b - 1) as nat, lc);
    }
}

/// Reading up to `a` and then on to `b` is reading up to `b`.
proof fn lemma_moved_compose(cs: Seq<char>, st: LexState, a: nat, b: nat)
    requires
        st.pos <= a <= b,
    ensures
        moved(cs, moved(cs, st, a), b) == moved(cs, st, b),
{
    lemma_advance_compose(cs, st.pos, a, b, (st.line, st.col));
}

// ---------------------------------------------------------------------------
// Layout of the output
// ---------------------------------------------------------------------------

/// How a token moves the layout depth: +1 for an indent, -1 for a dedent.
pub open spec fn layout_delta(k: TokenKind) -> int {
    if k == TokenKind::Indent { 1 } else if k == TokenKind::Dedent { -1 } else { 0 }
}

/// The layout depth reached by a sequence of token views.
pub open spec fn view_depth(ts: Seq<TokenView>) -> int
    decreases ts.len(),
{
    if ts.len() == 0 { 0 } else { view_depth(ts.drop_last()) + layout_delta(ts.last().0) }
}

/// Starting at depth `d0`, no prefix of `ts` goes below depth zero.
pub open spec fn view_prefix_ok(ts: Seq<TokenView>, d0: int) -> bool
    decreases ts.len(),
{
    if ts.len() == 0 { d0 >= 0 } else { view_prefix_ok(ts.drop_last(), d0) && d0 + view_depth(ts) >= 0 }
}

/// No token of `ts` is `Eof`.
pub open spec fn no_eof(ts: Seq<TokenView>) -> bool {
    forall|i: int| 0 <= i < ts.len() ==> (#[trigger] ts[i]).0 != TokenKind::Eof
}

proof fn lemma_view_concat(a: Seq<TokenView>, b: Seq<TokenView>, d0: int)
    ensures
        view_depth(a + b) == view_depth(a) + view_depth(b),
        view_prefix_ok(a, d0) && view_prefix_ok(b, d0 + view_depth(a)) ==> view_prefix_ok(a + b, d0),
    decreases b.len(),
{
    if b.len() == 0 {
        assert(a + b =~= a);
    } else {
        lemma_view_concat(a, b.drop_last(), d0);
        assert((a + b).drop_last() =~= a + b.drop_last());
    }
}

proof fn lemma_view_layout_run(n: nat, k: TokenKind, text: Seq<char>, lc: (nat, nat), d0: int)
    requires
        k == TokenKind::Dedent || k == TokenKind::Indent,
    ensures
        view_depth(layout_run(n, k, text, lc)) == n * layout_delta(k),
        d0 >= 0 && (k == TokenKind::Indent || d0 >= n) ==> view_prefix_ok(layout_run(n, k, text, lc), d0),
        no_eof(layout_run(n, k, text, lc)),
    decreases n,
{
    if n > 0 {
        lemma_view_layout_run((n - 1) as nat, k, text, lc, d0);
        assert(layout_run(n, k, text, lc).drop_last() =~= layout_run((n - 1) as nat, k, text, lc));
    } else {
        assert(layout_run(n, k, text, lc) =~= Seq::<TokenView>::empty());
    }
}

proof fn lemma_view_single(t: TokenView, d0: int)
    requires
        d0 >= 0,
    ensures
        view_depth(seq![t]) == layout_delta(t.0),
        t.0 != TokenKind::Dedent ==> view_prefix_ok(seq![t], d0),
{
    let e = Seq::<TokenView>::empty();
    assert(seq![t].drop_last() =~= e);
    assert(view_depth(e) == 0);
    assert(view_prefix_ok(e, d0));
}

/// No keyword is a layout token or the end of input.
proof fn lemma_word_kind(w: Seq<char>)
    ensures
        word_kind(w) != TokenKind::Indent,
        word_kind(w) != TokenKind::Dedent,
        word_kind(w) != TokenKind::Eof,
{
}

/// A turn inside a line emits at most one token, never a layout token or
/// the end of input.
proof fn lemma_in_line_tokens(cs: Seq<char>, st: LexState)
    requires
        st.pos < cs.len(),
    ensures
        step_in_line(cs, st) matches Step::Next(s2, toks) ==> {
            &&& toks.len() <= 1
            &&& forall|i: int| 0 <= i < toks.len() ==> {
                &&& (#[trigger] toks[i]).0 != TokenKind::Indent
                &&& toks[i].0 != TokenKind::Dedent
                &&& toks[i].0 != TokenKind::Eof
            }
            &&& s2.stack == st.stack
        },
{
    let p = st.pos;
    let e = run_end(cs, st.pos + 1, CharClass::IdentChar);
    lemma_word_kind(cs.subrange(st.pos as int, e as int));
}

/// One turn keeps the outermost level, changes the depth of the output by
/// exactly the change of the number of open levels without going below
/// zero, and emits no `Eof`.
proof fn lemma_step_layout(cs: Seq<char>, st: LexState)
    requires
        st.pos < cs.len(),
        st.stack.len() >= 1,
        st.stack[0] == 0,
    ensures
        lex_step(cs, st) matches Step::Next(s2, toks) ==> {
            &&& s2.stack.len() >= 1
            &&& s2.stack[0] == 0
            &&& view_depth(toks) == s2.stack.len() - st.stack.len()
            &&& view_prefix_ok(toks, st.stack.len() - 1)
            &&& no_eof(toks)
        },
{
    let d0 = st.stack.len() - 1;
    let p = st.pos;
    match lex_step(cs, st) {
        Step::Next(s2, toks) => {
            if toks.len() == 0 {
                assert(view_depth(toks) == 0);
                assert(view_prefix_ok(toks, d0));
            }
            if !st.at_line_start {
                lemma_in_line_tokens(cs, st);
                if toks.len() == 1 {
                    assert(toks =~= seq![toks[0]]);
                    lemma_view_single(toks[0], d0);
                }
            } else if cs[p as int] == '\n' {
                assert(toks =~= seq![toks[0]]);
                lemma_view_single(toks[0], d0);
            } else if st.nesting > 0 {
            } else {
                let j = run_end(cs, p, CharClass::IndentSpace);
                let w = indent_width(cs, p, j);
                let lc = here(cs, st, j);
                if !(j < cs.len() && cs[j as int] != '\n') {
                } else if w > st.stack.last() {
                    assert(toks =~= seq![toks[0]]);
                    lemma_view_single(toks[0], d0);
                } else if w < st.stack.last() {
                    lemma_pop_above(st.stack, w);
                    let popped = pop_above(st.stack, w);
                    lemma_view_layout_run(popped.1, TokenKind::Dedent, seq![], lc, d0);
                } else {
                }
            }
        },
        _ => {},
    }
}

proof fn lemma_run_layout(cs: Seq<char>, st: LexState)
    requires
        st.stack.len() >= 1,
        st.stack[0] == 0,
    ensures
        lex_run(cs, st) matches LexOutcome::Done(ts) ==> {
            &&& view_depth(ts) == 1 - st.stack.len()
            &&& view_prefix_ok(ts, st.stack.len() - 1)
            &&& ts.len() >= 1
            &&& ts.last().0 == TokenKind::Eof
            &&& no_eof(ts.drop_last())
        },
    decreases measure(cs, st),
{
    let d0 = st.stack.len() - 1;
    if st.pos >= cs.len() {
        let lc = (st.line, 1nat);
        let ds = layout_run((st.stack.len() - 1) as nat, TokenKind::Dedent, "dedent"@, lc);
        let e = tok(TokenKind::Eof, seq![], (st.line, st.col));
        lemma_view_layout_run((st.stack.len() - 1) as nat, TokenKind::Dedent, "dedent"@, lc, d0);
        lemma_view_single(e, 0);
        lemma_view_concat(ds, seq![e], d0);
        assert(finish(st) =~= ds + seq![e]);
        assert(finish(st).drop_last() =~= ds);
    } else {
        lemma_step_layout(cs, st);
        lemma_step_progress(cs, st);
        match lex_step(cs, st) {
            Step::Next(s2, toks) => {
                lemma_run_layout(cs, s2);
                match lex_run(cs, s2) {
                    LexOutcome::Done(rest) => {
                        lemma_view_concat(toks, rest, d0);
                        let all = toks + rest;
                        assert(all.last() == rest.last());
                        assert(all.drop_last() =~= toks + rest.drop_last());
                        assert forall|i: int| 0 <= i < all.drop_last().len() implies (#[trigger] all.drop_last()[i]).0 != TokenKind::Eof by {
                            if i < toks.len() {
                                assert(all.drop_last()[i] == toks[i]);
                            } else {
                                assert(all.drop_last()[i] == rest.drop_last()[i - toks.len()]);
                            }
                        }
                    },
                    _ => {},
                }
            },
            _ => {},
        }
    }
}

/// What a fresh lexer produces ends with its only `Eof` token, closes every
/// indentation level it opens (as many `Dedent` as `Indent` tokens, in
/// depth), and never closes a level it did not open: no prefix has more
/// dedents than indents.
pub proof fn law_complete_lexer_layout(src: Seq<char>)
    ensures
        lex_run(src, initial_state()) matches LexOutcome::Done(ts) ==> {
            &&& ts.len() >= 1
            &&& ts.last().0 == TokenKind::Eof
            &&& no_eof(ts.drop_last())
            &&& view_depth(ts) == 0
            &&& view_prefix_ok(ts, 0)
            &&& forall|k: int| 0 <= k <= ts.len() ==> view_depth(#[trigger] ts.take(k)) >= 0
        },
{
    lemma_run_layout(src, initial_state());
    match lex_run(src, initial_state()) {
        LexOutcome::Done(ts) => {
            assert forall|k: int| 0 <= k <= ts.len() implies view_depth(#[trigger] ts.take(k)) >= 0 by {
                lemma_prefix_depth(ts, k);
            }
        },
        _ => {},
    }
}

proof fn lemma_prefix_depth(ts: Seq<TokenView>, k: int)
    requires
        view_prefix_ok(ts, 0),
        0 <= k <= ts.len(),
    ensures
        view_depth(ts.take(k)) >= 0,
    decreases ts.len(),
{
    if k == ts.len() {
        assert(ts.take(k) =~= ts);
        if ts.len() == 0 {
            assert(view_depth(ts) == 0);
        }
    } else {
        assert(ts.drop_last().take(k) =~= ts.take(k));
        lemma_prefix_depth(ts.drop_last(), k);
    }
}

pub open spec fn stack_view(s: Seq<usize>) -> Seq<nat> {
    s.map_values(|x: usize| x as nat)
}

/// What one turn leaves behind: for `Next`, the state and the tokens appended;
/// for `Fail`, the error returned. A panicking turn is never taken.
pub open spec fn step_result(
    step: Step,
    s2: LexState,
    before: Seq<TokenView>,
    after: Seq<TokenView>,
    r: Result<(), String>,
) -> bool {
    match step {
        Step::Next(st, ts) => r is Ok && s2 == st && after =~= before + ts,
        Step::Fail(e) => r matches Err(m) && m@ == e,
        Step::Panic => false,
    }
}

proof fn lemma_pop_above(stack: Seq<nat>, w: nat)
    requires
        stack.len() >= 1,
        stack[0] == 0,
    ensures
        pop_above(stack, w).0.len() >= 1,
        pop_above(stack, w).0[0] == 0,
        pop_above(stack, w).0 == stack.take(pop_above(stack, w).0.len() as int),
        pop_above(stack, w).0.len() + pop_above(stack, w).1 == stack.len(),
    decreases stack.len(),
{
    if stack.len() > 0 && w < stack.last() {
        lemma_pop_above(stack.drop_last(), w);
        let r = pop_above(stack.drop_last(), w);
        assert(stack.drop_last().take(r.0.len() as int) =~= stack.take(r.0.len() as int));
    } else {
        assert(stack.take(stack.len() as int) =~= stack);
    }
}

proof fn lemma_prepend_assoc(a: Seq<TokenView>, b: Seq<TokenView>, o: LexOutcome)
    ensures
        prepend(a, prepend(b, o)) == prepend(a + b, o),
{
    match o {
        LexOutcome::Done(rest) => {
            assert(a + (b + rest) =~= (a + b) + rest);
        },
        _ => {},
    }
}

fn unescape_char(c: char) -> (r: char)
    ensures
        r == unescape(c),
{
    if c == 'n' {
        '\n'
    } else if c == 't' {
        '\t'
    } else if c == 'r' {
        '\r'
    } else if c == '0' {
        '\0'
    } else {
        c
    }
}

fn push_tok(tokens: &mut Vec<Token>, kind: TokenKind, text: String, line: usize, col: usize)
    ensures
        token_views(final(tokens)@) == token_views(old(tokens)@).push((kind, text@, line as nat, col as nat)),
{
    let ghost before = tokens@;
    tokens.push(Token { kind, text, line, col });
    assert(token_views(tokens@) =~= token_views(before).push((kind, text@, line as nat, col as nat)));
}

fn class_holds(k: &CharClass, c: char) -> (b: bool)
    ensures
        b == in_class(*k, c),
{
    match k {
        CharClass::InlineSpace => c == ' ' || c == '\t' || c == '\r',
        CharClass::IndentSpace => c == ' ' || c == '\t',
        CharClass::NotNewline => c != '\n',
        CharClass::NotQuote => c != '"',
        CharClass::Hash => c == '#',
        CharClass::IdentChar => is_alphanumeric(c) || c == '_',
        CharClass::HexDigit => crate::text::ascii_hex(c),
        CharClass::OctDigit => '0' <= c && c <= '7',
        CharClass::BinDigit => c == '0' || c == '1',
        CharClass::DigitOrUnderscore => crate::text::ascii_digit(c) || c == '_',
    }
}

/// The keyword table as a map.
fn keyword_map() -> (m: StrMap<TokenKind>)
    ensures
        m@ == keyword_table(),
{
    let mut keywords: StrMap<TokenKind> = StrMap::new();
    keywords.insert(String::from_str("true"), TokenKind::True);
    keywords.insert(String::from_str("false"), TokenKind::False);
    keywords.insert(String::from_str("linear"), TokenKind::Linear);
    keywords.insert(String::from_str("unsafe"), TokenKind::Unsafe);
    keywords.insert(String::from_str("enum"), TokenKind::Enum);
    keywords.insert(String::from_str("variant"), TokenKind::Variant);
    keywords.insert(String::from_str("match"), TokenKind::Match);
    keywords.insert(String::from_str("if"), TokenKind::If);
    keywords.insert(String::from_str("then"), TokenKind::Then);
    keywords.insert(String::from_str("else"), TokenKind::Else);
    keywords.insert(String::from_str("pipe"), TokenKind::Pipe);
    keywords.insert(String::from_str("mod"), TokenKind::Mod);
    keywords.insert(String::from_str("fn"), TokenKind::Fn);
    keywords.insert(String::from_str("pub"), TokenKind::Pub);
    keywords.insert(String::from_str("async"), TokenKind::Async);
    keywords.insert(String::from_str("await"), TokenKind::Await);
    keywords.insert(String::from_str("effect"), TokenKind::Effect);
    keywords.insert(String::from_str("yield"), TokenKind::Yield);
    keywords.insert(String::from_str("spawn"), TokenKind::Spawn);
    keywords.insert(String::from_str("cap"), TokenKind::Cap);
    keywords.insert(String::from_str("friend"), TokenKind::Friend);
    keywords.insert(String::from_str("trait"), TokenKind::Trait);
    keywords.insert(String::from_str("impl"), TokenKind::Impl);
    keywords.insert(String::from_str("struct"), TokenKind::Struct);
    keywords.insert(String::from_str("class"), TokenKind::Class);
    keywords.insert(String::from_str("type"), TokenKind::Type);
    keywords.insert(String::from_str("let"), TokenKind::Let);
    keywords.insert(String::from_str("mut"), TokenKind::Mut);
    keywords.insert(String::from_str("const"), TokenKind::Const);
    keywords.insert(String::from_str("static"), TokenKind::Static);
    keywords.insert(String::from_str("return"), TokenKind::Return);
    keywords.insert(String::from_str("break"), TokenKind::Break);
    keywords.insert(String::from_str("continue"), TokenKind::Continue);
    keywords.insert(String::from_str("loop"), TokenKind::Loop);
    keywords.insert(String::from_str("while"), TokenKind::While);
    keywords.insert(String::from_str("for"), TokenKind::For);
    keywords.insert(String::from_str("in"), TokenKind::In);
    keywords.insert(String::from_str("where"), TokenKind::Where);
    keywords.insert(String::from_str("use"), TokenKind::Use);
    keywords.insert(String::from_str("mod"), TokenKind::Mod);
    keywords.insert(String::from_str("import"), TokenKind::Import);
    keywords.insert(String::from_str("export"), TokenKind::Export);
    keywords.insert(String::from_str("from"), TokenKind::From);
    keywords.insert(String::from_str("as"), TokenKind::As);
    keywords.insert(String::from_str("self"), TokenKind::Self_);
    keywords.insert(String::from_str("Self"), TokenKind::SelfType);
    keywords.insert(String::from_str("inout"), TokenKind::Inout);
    keywords.insert(String::from_str("int"), TokenKind::Int);
    keywords.insert(String::from_str("int8"), TokenKind::Int8);
    keywords.insert(String::from_str("int16"), TokenKind::Int16);
    keywords.insert(String::from_str("int32"), TokenKind::Int32);
    keywords.insert(String::from_str("int64"), TokenKind::Int64);
    keywords.insert(String::from_str("uint"), TokenKind::UInt);
    keywords.insert(String::from_str("uint8"), TokenKind::UInt8);
    keywords.insert(String::from_str("uint16"), TokenKind::UInt16);
    keywords.insert(String::from_str("uint32"), TokenKind::UInt32);
    keywords.insert(String::from_str("uint64"), TokenKind::UInt64);
    keywords.insert(String::from_str("float32"), TokenKind::Float32);
    keywords.insert(String::from_str("float64"), TokenKind::Float64);
    keywords.insert(String::from_str("char"), TokenKind::Char);
    keywords.insert(String::from_str("bool"), TokenKind::Bool);
    keywords.insert(String::from_str("string"), TokenKind::String);
    keywords.insert(String::from_str("void"), TokenKind::Void);
    keywords
}

/// The lexer: the source characters, the scanning state, and the keyword table.
pub struct CompleteLexer {
    chars: Vec<char>,
    pos: usize,
    line: usize,
    col: usize,
    indent_stack: Vec<usize>,
    at_line_start: bool,
    nesting: usize,
    keywords: StrMap<TokenKind>,
}

impl CompleteLexer {
    /// The source characters.
    pub closed spec fn source(&self) -> Seq<char> {
        self.chars@
    }

    /// The scanning state.
    pub closed spec fn state(&self) -> LexState {
        LexState {
            pos: self.pos as nat,
            line: self.line as nat,
            col: self.col as nat,
            stack: stack_view(self.indent_stack@),
            at_line_start: self.at_line_start,
            nesting: self.nesting as nat,
        }
    }

    /// The lexer's invariant: the position lies within the source, line and
    /// column are counted from one, the outermost indentation level is zero,
    /// and the keyword table is the language's.
    pub closed spec fn wf(&self) -> bool {
        &&& self.chars@.len() <= isize::MAX / 4
        &&& self.pos <= self.chars@.len()
        &&& 1 <= self.col <= self.pos + 1
        &&& self.line <= self.pos + 1
        &&& self.nesting <= self.pos
        &&& self.indent_stack@.len() >= 1
        &&& self.indent_stack@[0] == 0
        &&& self.keywords@ == keyword_table()
    }

    /// Whether `name` is a reserved word.
    pub fn is_keyword(name: &str) -> (b: bool)
        ensures
            b == keyword_table().contains_key(name@),
    {
        keyword_map().contains_key(name)
    }

    /// A lexer at the start of `src`.
    pub fn new(src: &str) -> (l: Self)
        ensures
            l.wf(),
            l.source() == src@,
            l.state() == initial_state(),
    {
        let keywords = keyword_map();
        let mut indent_stack: Vec<usize> = Vec::new();
        indent_stack.push(0);
        let l = CompleteLexer {
            chars: chars_of(src),
            pos: 0,
            line: 1,
            col: 1,
            indent_stack,
            at_line_start: true,
            nesting: 0,
            keywords,
        };
        assert(stack_view(l.indent_stack@) =~= seq![0nat]);
        l
    }

    fn peek_char(&self) -> (r: Option<char>)
        ensures
            self.pos < self.chars@.len() ==> r == Some(self.chars@[self.pos as int]),
            self.pos >= self.chars@.len() ==> r is None,
    {
        if self.pos < self.chars.len() {
            Some(self.chars[self.pos])
        } else {
            None
        }
    }

    /// Reads one character, moving the line and column.
    fn next_char(&mut self)
        requires
            old(self).wf(),
            old(self).pos < old(self).chars@.len(),
        ensures
            final(self).wf(),
            final(self).chars@ == old(self).chars@,
            final(self).state() == moved(old(self).chars@, old(self).state(), (old(self).pos + 1) as nat),
            final(self).pos == old(self).pos + 1,
            (final(self).line as nat, final(self).col as nat)
                == bump((old(self).line as nat, old(self).col as nat), old(self).chars@[old(self).pos as int]),
            final(self).indent_stack@ == old(self).indent_stack@,
            final(self).nesting == old(self).nesting,
            final(self).at_line_start == old(self).at_line_start,
    {
        let ch = self.chars[self.pos];
        self.pos = self.pos + 1;
        if ch == '\n' {
            self.line = self.line + 1;
            self.col = 1;
        } else if ch != '\r' {
            self.col = self.col + 1;
        }
        proof {
            let st = old(self).state();
            lemma_advance_extend(self.chars@, st.pos, st.pos, (st.line, st.col));
        }
    }

    /// Reads the run of class `k` at the cursor.
    fn take_run(&mut self, k: CharClass)
        requires
            old(self).wf(),
        ensures
            final(self).wf(),
            final(self).chars@ == old(self).chars@,
            final(self).state() == moved(old(self).chars@, old(self).state(), run_end(old(self).chars@, old(self).pos as nat, k)),
            (forall|m: int| old(self).pos <= m < final(self).pos ==> #[trigger] old(self).chars@[m] != '\n')
                ==> final(self).col >= old(self).col,
    {
        let ghost cs = self.chars@;
        let ghost st0 = self.state();
        let ghost p0 = self.pos as nat;
        let ghost c0 = self.col;
        proof {
            lemma_run_end_bounds(cs, p0, k);
        }
        while self.pos < self.chars.len() && class_holds(&k, self.chars[self.pos])
            invariant
                self.wf(),
                self.chars@ == cs,
                p0 <= self.pos <= run_end(cs, p0, k),
                run_end(cs, p0, k) == run_end(cs, self.pos as nat, k),
                self.state() == moved(cs, st0, self.pos as nat),
                st0.pos == p0,
                (forall|m: int| p0 <= m < self.pos ==> #[trigger] cs[m] != '\n') ==> self.col >= c0,
            decreases self.chars@.len() - self.pos,
        {
            let ghost pp = self.pos as nat;
            proof {
                lemma_run_end_bounds(cs, pp + 1, k);
            }
            self.next_char();
            proof {
                lemma_moved_compose(cs, st0, pp, pp + 1);
            }
        }
    }

    /// Reads spaces and tabs at the cursor and returns their width.
    fn indent_of(&mut self) -> (indent: usize)
        requires
            old(self).wf(),
        ensures
            final(self).wf(),
            final(self).chars@ == old(self).chars@,
            final(self).state() == moved(old(self).chars@, old(self).state(), run_end(old(self).chars@, old(self).pos as nat, CharClass::IndentSpace)),
            indent == indent_width(old(self).chars@, old(self).pos as nat, final(self).pos as nat),
    {
        let ghost cs = self.chars@;
        let ghost st0 = self.state();
        let ghost p0 = self.pos as nat;
        let k = CharClass::IndentSpace;
        let mut indent: usize = 0;
        proof {
            lemma_run_end_bounds(cs, p0, k);
        }
        while self.pos < self.chars.len() && (self.chars[self.pos] == ' ' || self.chars[self.pos] == '\t')
            invariant
                self.wf(),
                self.chars@ == cs,
                p0 <= self.pos <= run_end(cs, p0, k),
                run_end(cs, p0, k) == run_end(cs, self.pos as nat, k),
                self.state() == moved(cs, st0, self.pos as nat),
                st0.pos == p0,
                k == CharClass::IndentSpace,
                indent == indent_width(cs, p0, self.pos as nat),
                indent <= 4 * (self.pos - p0),
            decreases self.chars@.len() - self.pos,
        {
            let pp = self.pos;
            if self.chars[self.pos] == '\t' {
                indent = indent + 4;
            } else {
                indent = indent + 1;
            }
            proof {
                lemma_run_end_bounds(cs, pp as nat + 1, k);
            }
            self.next_char();
            proof {
                lemma_moved_compose(cs, st0, pp as nat, pp as nat + 1);
            }
        }
        indent
    }


    /// A turn at the start of a line.
    fn lex_line_start(&mut self, tokens: &mut Vec<Token>) -> (r: Result<(), String>)
        requires
            old(self).wf(),
            old(self).pos < old(self).chars@.len(),
            old(self).at_line_start,
        ensures
            final(self).wf(),
            final(self).chars@ == old(self).chars@,
            step_result(step_line_start(old(self).chars@, old(self).state()), final(self).state(),
                token_views(old(tokens)@), token_views(final(tokens)@), r),
    {
        let ghost cs = self.chars@;
        let ghost st = self.state();
        let c = self.chars[self.pos];
        if c == '\n' {
            let line = self.line;
            let col = self.col;
            self.next_char();
            push_tok(tokens, TokenKind::Newline, String::from_str("\n"), line, col);
            return Ok(());
        }
        if self.nesting > 0 {
            self.take_run(CharClass::InlineSpace);
            if self.pos < self.chars.len() && self.chars[self.pos] != '\n' {
                self.at_line_start = false;
            }
            return Ok(());
        }
        let indent = self.indent_of();
        if !(self.pos < self.chars.len() && self.chars[self.pos] != '\n') {
            return Ok(());
        }
        let ghost lc = (self.line as nat, self.col as nat);
        let current = self.indent_stack[self.indent_stack.len() - 1];
        if indent > current {
            self.indent_stack.push(indent);
            push_tok(tokens, TokenKind::Indent, String::new(), self.line, self.col);
            assert(stack_view(self.indent_stack@) =~= st.stack.push(indent as nat));
        } else if indent < current {
            let ghost total = pop_above(st.stack, indent as nat);
            let ghost before = token_views(tokens@);
            let ghost n: nat = 0;
            let ghost s_pre = self.state();
            proof {
                lemma_pop_above(st.stack, indent as nat);
            }
            while indent < self.indent_stack[self.indent_stack.len() - 1]
                invariant
                    self.indent_stack@.len() >= 1,
                    self.indent_stack@[0] == 0,
                    self.chars@ == cs,
                    self.chars@.len() <= isize::MAX / 4,
                    self.pos <= self.chars@.len(),
                    1 <= self.col <= self.pos + 1,
                    self.line <= self.pos + 1,
                    self.nesting <= self.pos,
                    self.keywords@ == keyword_table(),
                    lc == (self.line as nat, self.col as nat),
                    self.pos as nat == s_pre.pos,
                    self.nesting as nat == s_pre.nesting,
                    self.at_line_start == s_pre.at_line_start,
                    pop_above(stack_view(self.indent_stack@), indent as nat).0 == total.0,
                    pop_above(stack_view(self.indent_stack@), indent as nat).1 + n == total.1,
                    token_views(tokens@) == before + layout_run(n, TokenKind::Dedent, seq![], lc),
                decreases self.indent_stack@.len(),
            {
                let ghost sv = stack_view(self.indent_stack@);
                self.indent_stack.pop();
                assert(stack_view(self.indent_stack@) =~= sv.drop_last());
                push_tok(tokens, TokenKind::Dedent, String::new(), self.line, self.col);
                proof {
                    n = n + 1;
                    assert(before + layout_run(n, TokenKind::Dedent, seq![], lc)
                        =~= (before + layout_run((n - 1) as nat, TokenKind::Dedent, seq![], lc)).push(tok(TokenKind::Dedent, seq![], lc)));
                }
            }
            let top = self.indent_stack[self.indent_stack.len() - 1];
            if indent != top {
                let mut msg = String::new();
                push_str(&mut msg, "Inconsistent indentation at line ");
                push_decimal(&mut msg, self.line);
                return Err(msg);
            }
        }
        self.at_line_start = false;
        Ok(())
    }

    /// A comment to the end of the line, after a two-character opener.
    fn lex_line_comment(&mut self, tokens: &mut Vec<Token>) -> (r: Result<(), String>)
        requires
            old(self).wf(),
            old(self).pos + 1 < old(self).chars@.len(),
            old(self).chars@[old(self).pos as int] == '-' || old(self).chars@[old(self).pos as int] == '/',
            old(self).chars@[old(self).pos + 1] == '-' || old(self).chars@[old(self).pos + 1] == '/',
        ensures
            final(self).wf(),
            final(self).chars@ == old(self).chars@,
            step_result(step_line_comment(old(self).chars@, old(self).state(), (old(self).pos + 2) as nat),
                final(self).state(), token_views(old(tokens)@), token_views(final(tokens)@), r),
    {
        let ghost cs = self.chars@;
        let ghost st = self.state();
        let p = self.pos;
        self.next_char();
        self.next_char();
        proof {
            lemma_moved_compose(cs, st, (p + 1) as nat, (p + 2) as nat);
            lemma_run_end_bounds(cs, (p + 2) as nat, CharClass::NotNewline);
        }
        let ghost mid = self.state();
        self.take_run(CharClass::NotNewline);
        proof {
            lemma_moved_compose(cs, st, (p + 2) as nat, self.pos as nat);
        }
        let text = self.text_between(p + 2, self.pos);
        push_tok(tokens, TokenKind::LineComment, text, self.line, self.col - 2);
        Ok(())
    }

    /// `/* ... */`, or a doc comment when it is never closed.
    fn lex_block_comment(&mut self, tokens: &mut Vec<Token>) -> (r: Result<(), String>)
        requires
            old(self).wf(),
            old(self).pos + 1 < old(self).chars@.len(),
            old(self).chars@[old(self).pos as int] == '/',
            old(self).chars@[old(self).pos + 1] == '*',
            !(step_block_comment(old(self).chars@, old(self).state()) is Panic),
        ensures
            final(self).wf(),
            final(self).chars@ == old(self).chars@,
            step_result(step_block_comment(old(self).chars@, old(self).state()),
                final(self).state(), token_views(old(tokens)@), token_views(final(tokens)@), r),
    {
        let ghost cs = self.chars@;
        let ghost st = self.state();
        let p = self.pos;
        self.next_char();
        self.next_char();
        proof {
            lemma_moved_compose(cs, st, (p + 1) as nat, (p + 2) as nat);
            reveal_strlit("*/");
        }
        let mut closed = false;
        while self.pos < self.chars.len() && !closed
            invariant
                self.wf(),
                self.chars@ == cs,
                st.pos == p,
                p + 2 <= self.pos <= cs.len(),
                self.state() == moved(cs, st, self.pos as nat),
                "*/"@ == seq!['*', '/'],
                !closed ==> forall|q: int| p + 2 <= q < self.pos ==> !occurs_at(cs, "*/"@, q),
                closed ==> {
                    &&& p + 4 <= self.pos
                    &&& occurs_at(cs, "*/"@, self.pos - 2)
                    &&& forall|q: int| p + 2 <= q < self.pos - 2 ==> !occurs_at(cs, "*/"@, q)
                    &&& self.col >= 3
                },
            decreases cs.len() - self.pos, (if closed { 0int } else { 1int }),
        {
            let ghost q = self.pos as int;
            let ch = self.chars[self.pos];
            let ghost pp = self.pos as nat;
            self.next_char();
            proof {
                lemma_moved_compose(cs, st, pp, pp + 1);
            }
            if ch == '*' && self.pos < self.chars.len() && self.chars[self.pos] == '/' {
                let ghost pq = self.pos as nat;
                self.next_char();
                proof {
                    lemma_moved_compose(cs, st, pq, pq + 1);
                    assert(cs.subrange(q, q + 2) =~= seq!['*', '/']);
                }
                closed = true;
            } else {
                proof {
                    if occurs_at(cs, "*/"@, q) {
                        assert(cs.subrange(q, q + 2)[0] == cs[q]);
                        assert(cs.subrange(q, q + 2)[1] == cs[q + 1]);
                    }
                }
            }
        }
        proof {
            lemma_find_from_bounds(cs, (p + 2) as nat, "*/"@);
        }
        if closed {
            let text = self.text_between(p + 2, self.pos - 2);
            push_tok(tokens, TokenKind::BlockComment, text, self.line, self.col - 2);
        } else {
            let text = self.text_between(p + 2, self.pos);
            push_tok(tokens, TokenKind::DocComment, text, self.line, self.col - 2);
        }
        Ok(())
    }


    /// A string literal with escapes.
    fn lex_string(&mut self, tokens: &mut Vec<Token>) -> (r: Result<(), String>)
        requires
            old(self).wf(),
            old(self).pos < old(self).chars@.len(),
            old(self).chars@[old(self).pos as int] == '"',
        ensures
            final(self).wf(),
            final(self).chars@ == old(self).chars@,
            step_result(step_string(old(self).chars@, old(self).state()),
                final(self).state(), token_views(old(tokens)@), token_views(final(tokens)@), r),
    {
        let ghost cs = self.chars@;
        let ghost st = self.state();
        let line = self.line;
        let col = self.col;
        let p = self.pos;
        self.next_char();
        let mut s = String::new();
        let mut interp = false;
        while self.pos < self.chars.len()
            invariant
                self.wf(),
                self.chars@ == cs,
                st.pos == p,
                st.line == line,
                st.col == col,
                cs == old(self).chars@,
                st == old(self).state(),
                tokens@ == old(tokens)@,
                p + 1 <= self.pos <= cs.len(),
                self.state() == moved(cs, st, self.pos as nat),
                scan_str(cs, (p + 1) as nat, seq![], false) == scan_str(cs, self.pos as nat, s@, interp),
            decreases cs.len() - self.pos,
        {
            let ch = self.chars[self.pos];
            let ghost pp = self.pos as nat;
            if ch == '"' {
                self.next_char();
                proof {
                    lemma_moved_compose(cs, st, pp, pp + 1);
                }
                let kind = if interp { TokenKind::InterpolatedString } else { TokenKind::StringLiteral };
                push_tok(tokens, kind, s, line, col);
                return Ok(());
            } else if ch == '`' {
                self.next_char();
                proof {
                    lemma_moved_compose(cs, st, pp, pp + 1);
                }
                interp = true;
            } else if ch == '\\' {
                self.next_char();
                proof {
                    lemma_moved_compose(cs, st, pp, pp + 1);
                }
                if self.pos < self.chars.len() {
                    let esc = self.chars[self.pos];
                    self.next_char();
                    proof {
                        lemma_moved_compose(cs, st, pp + 1, pp + 2);
                        lemma_moved_compose(cs, st, pp, pp + 2);
                    }
                    push_char(&mut s, unescape_char(esc));
                }
            } else {
                push_char(&mut s, ch);
                self.next_char();
                proof {
                    lemma_moved_compose(cs, st, pp, pp + 1);
                }
            }
        }
        Err(String::from_str("Unterminated string"))
    }

    /// A raw string `r#"..."#`, or the word `r` when no quote follows the hashes.
    fn lex_raw_string(&mut self, tokens: &mut Vec<Token>) -> (r: Result<(), String>)
        requires
            old(self).wf(),
            old(self).pos + 1 < old(self).chars@.len(),
            old(self).chars@[old(self).pos as int] == 'r',
            old(self).chars@[old(self).pos + 1] == '#',
        ensures
            final(self).wf(),
            final(self).chars@ == old(self).chars@,
            step_result(step_raw_string(old(self).chars@, old(self).state()),
                final(self).state(), token_views(old(tokens)@), token_views(final(tokens)@), r),
    {
        let ghost cs = self.chars@;
        let ghost st = self.state();
        let p = self.pos;
        self.next_char();
        proof {
            lemma_run_end_bounds(cs, (p + 1) as nat, CharClass::Hash);
        }
        self.take_run(CharClass::Hash);
        proof {
            lemma_moved_compose(cs, st, (p + 1) as nat, self.pos as nat);
        }
        let h = self.pos;
        if !(h < self.chars.len() && self.chars[h] == '"') {
            let mut word = String::new();
            push_char(&mut word, 'r');
            proof {
                reveal_strlit("r");
                assert(word@ =~= "r"@);
            }
            push_tok(tokens, TokenKind::Ident, word, self.line, self.col);
            return Ok(());
        }
        let mut closer: Vec<char> = Vec::new();
        closer.push('"');
        let mut i = p + 1;
        while i < h
            invariant
                p + 1 <= i <= h,
                h < cs.len(),
                self.chars@ == cs,
                closer@ == seq!['"'] + cs.subrange(p + 1, i as int),
            decreases h - i,
        {
            closer.push(self.chars[i]);
            i = i + 1;
            assert(closer@ =~= seq!['"'] + cs.subrange(p + 1, i as int));
        }
        let ghost pat = closer@;
        let clen = closer.len();
        assert(clen == h - p);
        self.next_char();
        proof {
            lemma_moved_compose(cs, st, h as nat, (h + 1) as nat);
        }
        let start = h + 1;
        let mut found = false;
        while self.pos < self.chars.len() && !found
            invariant
                self.wf(),
                self.chars@ == cs,
                closer@ == pat,
                clen == pat.len(),
                clen >= 1,
                clen <= cs.len(),
                start == h + 1,
                h < cs.len(),
                p < h,
                st.pos == p,
                start <= self.pos <= cs.len(),
                self.state() == moved(cs, st, self.pos as nat),
                !found ==> forall|q: int| start <= q && q + clen <= self.pos ==> !occurs_at(cs, pat, q),
                found ==> {
                    &&& start + clen <= self.pos
                    &&& occurs_at(cs, pat, self.pos - clen)
                    &&& forall|q: int| start <= q < self.pos - clen ==> !occurs_at(cs, pat, q)
                },
            decreases cs.len() - self.pos, (if found { 0int } else { 1int }),
        {
            let ghost pp = self.pos as nat;
            self.next_char();
            proof {
                lemma_moved_compose(cs, st, pp, pp + 1);
            }
            if self.pos >= start + clen {
                if occurs_at_exec(self.chars.as_slice(), closer.as_slice(), self.pos - clen) {
                    found = true;
                }
            }
        }
        proof {
            lemma_find_from_bounds(cs, start as nat, pat);
        }
        if !found {
            return Err(String::from_str("Unterminated raw string"));
        }
        let text = self.text_between(start, self.pos - clen);
        push_tok(tokens, TokenKind::RawString, text, self.line, self.col);
        Ok(())
    }

    /// `b"..."`.
    fn lex_byte_string(&mut self, tokens: &mut Vec<Token>) -> (r: Result<(), String>)
        requires
            old(self).wf(),
            old(self).pos + 1 < old(self).chars@.len(),
            old(self).chars@[old(self).pos as int] == 'b',
            old(self).chars@[old(self).pos + 1] == '"',
        ensures
            final(self).wf(),
            final(self).chars@ == old(self).chars@,
            step_result(step_byte_string(old(self).chars@, old(self).state()),
                final(self).state(), token_views(old(tokens)@), token_views(final(tokens)@), r),
    {
        let ghost cs = self.chars@;
        let ghost st = self.state();
        let p = self.pos;
        self.next_char();
        self.next_char();
        proof {
            lemma_moved_compose(cs, st, (p + 1) as nat, (p + 2) as nat);
            lemma_run_end_bounds(cs, (p + 2) as nat, CharClass::NotQuote);
        }
        self.take_run(CharClass::NotQuote);
        proof {
            lemma_moved_compose(cs, st, (p + 2) as nat, self.pos as nat);
        }
        let e = self.pos;
        let text = self.text_between(p + 2, e);
        if self.pos < self.chars.len() {
            self.next_char();
            proof {
                lemma_moved_compose(cs, st, e as nat, (e + 1) as nat);
            }
        }
        push_tok(tokens, TokenKind::ByteString, text, self.line, self.col);
        Ok(())
    }

    /// A keyword or identifier.
    fn lex_word(&mut self, tokens: &mut Vec<Token>) -> (r: Result<(), String>)
        requires
            old(self).wf(),
            old(self).pos < old(self).chars@.len(),
        ensures
            final(self).wf(),
            final(self).chars@ == old(self).chars@,
            step_result(step_word(old(self).chars@, old(self).state()),
                final(self).state(), token_views(old(tokens)@), token_views(final(tokens)@), r),
    {
        let ghost cs = self.chars@;
        let ghost st = self.state();
        let line = self.line;
        let col = self.col;
        let p = self.pos;
        self.next_char();
        proof {
            lemma_run_end_bounds(cs, (p + 1) as nat, CharClass::IdentChar);
        }
        self.take_run(CharClass::IdentChar);
        proof {
            lemma_moved_compose(cs, st, (p + 1) as nat, self.pos as nat);
        }
        let text = self.text_between(p, self.pos);
        let kind = match self.keywords.get(text.as_str()) {
            Some(k) => *k,
            None => TokenKind::Ident,
        };
        push_tok(tokens, kind, text, line, col);
        Ok(())
    }


    /// A number literal.
    fn lex_number(&mut self, tokens: &mut Vec<Token>) -> (r: Result<(), String>)
        requires
            old(self).wf(),
            old(self).pos < old(self).chars@.len(),
        ensures
            final(self).wf(),
            final(self).chars@ == old(self).chars@,
            step_result(step_number(old(self).chars@, old(self).state()),
                final(self).state(), token_views(old(tokens)@), token_views(final(tokens)@), r),
    {
        let ghost cs = self.chars@;
        let ghost st = self.state();
        let line = self.line;
        let col = self.col;
        let p = self.pos;
        let c = self.chars[p];
        let radix = if c == '0' && p + 1 < self.chars.len() { self.chars[p + 1] } else { ' ' };
        if radix == 'x' || radix == 'X' || radix == 'o' || radix == 'O' || radix == 'b' || radix == 'B' {
            self.next_char();
            self.next_char();
            proof {
                lemma_moved_compose(cs, st, (p + 1) as nat, (p + 2) as nat);
            }
            let mut text = String::new();
            let kind;
            if radix == 'x' || radix == 'X' {
                proof {
                    lemma_run_end_bounds(cs, (p + 2) as nat, CharClass::HexDigit);
                }
                self.take_run(CharClass::HexDigit);
                push_str(&mut text, "0x");
                kind = TokenKind::HexNumber;
            } else if radix == 'o' || radix == 'O' {
                proof {
                    lemma_run_end_bounds(cs, (p + 2) as nat, CharClass::OctDigit);
                }
                self.take_run(CharClass::OctDigit);
                push_str(&mut text, "0o");
                kind = TokenKind::OctNumber;
            } else {
                proof {
                    lemma_run_end_bounds(cs, (p + 2) as nat, CharClass::BinDigit);
                }
                self.take_run(CharClass::BinDigit);
                push_str(&mut text, "0b");
                kind = TokenKind::BinNumber;
            }
            proof {
                lemma_moved_compose(cs, st, (p + 2) as nat, self.pos as nat);
            }
            let digits = self.text_between(p + 2, self.pos);
            push_str(&mut text, digits.as_str());
            push_tok(tokens, kind, text, line, col);
            return Ok(());
        }
        proof {
            lemma_run_end_bounds(cs, p as nat, CharClass::DigitOrUnderscore);
        }
        self.take_run(CharClass::DigitOrUnderscore);
        let e1 = self.pos;
        let frac = e1 + 1 < self.chars.len() && self.chars[e1] == '.' && crate::text::ascii_digit(self.chars[e1 + 1]);
        if frac {
            self.next_char();
            proof {
                lemma_moved_compose(cs, st, e1 as nat, (e1 + 1) as nat);
                lemma_run_end_bounds(cs, (e1 + 1) as nat, CharClass::DigitOrUnderscore);
            }
            self.take_run(CharClass::DigitOrUnderscore);
            proof {
                lemma_moved_compose(cs, st, (e1 + 1) as nat, self.pos as nat);
            }
        }
        let e2 = self.pos;
        if e2 < self.chars.len() && is_alphabetic(self.chars[e2]) {
            self.next_char();
            proof {
                lemma_moved_compose(cs, st, e2 as nat, (e2 + 1) as nat);
            }
        }
        let text = self.text_between(p, self.pos);
        let kind = if frac { TokenKind::Float } else { TokenKind::Number };
        push_tok(tokens, kind, text, line, col);
        Ok(())
    }

    /// A `-` that does not open a comment.
    fn lex_minus(&mut self, tokens: &mut Vec<Token>) -> (r: Result<(), String>)
        requires
            old(self).wf(),
            old(self).pos < old(self).chars@.len(),
        ensures
            final(self).wf(),
            final(self).chars@ == old(self).chars@,
            step_result(step_minus(old(self).chars@, old(self).state()),
                final(self).state(), token_views(old(tokens)@), token_views(final(tokens)@), r),
    {
        let ghost cs = self.chars@;
        let ghost st = self.state();
        let p = self.pos;
        let line = self.line;
        let col = self.col;
        self.next_char();
        let mut kind = TokenKind::Minus;
        if self.pos < self.chars.len() && self.chars[self.pos] == '>' {
            self.next_char();
            proof {
                lemma_moved_compose(cs, st, (p + 1) as nat, (p + 2) as nat);
            }
            kind = TokenKind::Arrow;
        }
        let mut text = String::new();
        push_char(&mut text, '-');
        proof {
            reveal_strlit("-");
            assert(text@ =~= "-"@);
        }
        push_tok(tokens, kind, text, line, col);
        Ok(())
    }

    /// An operator or punctuation character.
    fn lex_operator(&mut self, tokens: &mut Vec<Token>) -> (r: Result<(), String>)
        requires
            old(self).wf(),
            old(self).pos < old(self).chars@.len(),
        ensures
            final(self).wf(),
            final(self).chars@ == old(self).chars@,
            step_result(step_operator(old(self).chars@, old(self).state()),
                final(self).state(), token_views(old(tokens)@), token_views(final(tokens)@), r),
    {
        let ghost cs = self.chars@;
        let ghost st = self.state();
        let line = self.line;
        let col = self.col;
        let p = self.pos;
        let c = self.chars[p];
        self.next_char();
        let n1 = if p + 1 < self.chars.len() { self.chars[p + 1] } else { ' ' };
        let n2 = if p + 2 < self.chars.len() { self.chars[p + 2] } else { ' ' };
        let mut extra: usize = 0;
        let kind = if c == '=' {
            if n1 == '=' {
                extra = 1;
                TokenKind::EqEq
            } else if n1 == '>' {
                extra = 1;
                TokenKind::FatArrow
            } else {
                TokenKind::Equals
            }
        } else if c == '+' {
            TokenKind::Plus
        } else if c == '*' {
            TokenKind::Star
        } else if c == '%' {
            TokenKind::Percent
        } else if c == '!' {
            if n1 == '=' {
                extra = 1;
                TokenKind::NotEq
            } else {
                TokenKind::Bang
            }
        } else if c == '<' {
            if n1 == '=' {
                extra = 1;
                TokenKind::LtEq
            } else {
                TokenKind::Lt
            }
        } else if c == '>' {
            if n1 == '=' {
                extra = 1;
                TokenKind::GtEq
            } else {
                TokenKind::Gt
            }
        } else if c == '&' {
            if n1 == '&' {
                extra = 1;
                TokenKind::AndAnd
            } else {
                TokenKind::Bang
            }
        } else if c == '|' {
            if n1 == '|' {
                extra = 1;
                TokenKind::OrOr
            } else {
                TokenKind::Pipe
            }
        } else if c == '(' {
            TokenKind::LParen
        } else if c == ')' {
            TokenKind::RParen
        } else if c == '[' {
            TokenKind::LBracket
        } else if c == ']' {
            TokenKind::RBracket
        } else if c == '{' {
            TokenKind::LBrace
        } else if c == '}' {
            TokenKind::RBrace
        } else if c == ';' {
            TokenKind::Semi
        } else if c == ',' {
            TokenKind::Comma
        } else if c == ':' {
            if n1 == ':' {
                extra = 1;
                TokenKind::ColonColon
            } else {
                TokenKind::Colon
            }
        } else if c == '.' {
            if n1 == '.' {
                if n2 == '.' {
                    extra = 2;
                    TokenKind::DotDotDot
                } else {
                    extra = 1;
                    TokenKind::DotDot
                }
            } else {
                TokenKind::Dot
            }
        } else if c == '@' {
            TokenKind::At
        } else if c == '?' {
            TokenKind::Question
        } else if c == '~' {
            TokenKind::Tilde
        } else {
            TokenKind::Ident
        };
        assert(operator_at(cs, p as nat) == (kind, (p + 1 + extra) as nat));
        let mut k: usize = 0;
        while k < extra
            invariant
                self.wf(),
                self.chars@ == cs,
                st.pos == p,
                k <= extra,
                p + 1 + extra <= cs.len(),
                self.pos == p + 1 + k,
                self.state() == moved(cs, st, self.pos as nat),
            decreases extra - k,
        {
            let ghost q = self.pos as nat;
            self.next_char();
            proof {
                lemma_moved_compose(cs, st, q, q + 1);
            }
            k = k + 1;
        }
        if c == '(' || c == '[' || c == '{' {
            self.nesting = self.nesting + 1;
        } else if c == ')' || c == ']' || c == '}' {
            self.nesting = if self.nesting > 0 { self.nesting - 1 } else { 0 };
        }
        let mut text = String::new();
        push_char(&mut text, c);
        assert(text@ =~= seq![c]);
        push_tok(tokens, kind, text, line, col);
        Ok(())
    }


    /// A turn inside a line.
    fn lex_in_line(&mut self, tokens: &mut Vec<Token>) -> (r: Result<(), String>)
        requires
            old(self).wf(),
            old(self).pos < old(self).chars@.len(),
            !(step_in_line(old(self).chars@, old(self).state()) is Panic),
        ensures
            final(self).wf(),
            final(self).chars@ == old(self).chars@,
            step_result(step_in_line(old(self).chars@, old(self).state()),
                final(self).state(), token_views(old(tokens)@), token_views(final(tokens)@), r),
    {
        let ghost cs = self.chars@;
        let ghost st = self.state();
        let p = self.pos;
        let c = self.chars[p];
        let n1 = if p + 1 < self.chars.len() { self.chars[p + 1] } else { ' ' };
        if c == '\n' {
            self.next_char();
            self.at_line_start = true;
            push_tok(tokens, TokenKind::Newline, String::from_str("\n"), self.line, self.col);
            Ok(())
        } else if c == ' ' || c == '\t' || c == '\r' {
            self.next_char();
            assert(token_views(tokens@) =~= token_views(tokens@) + seq![]);
            Ok(())
        } else if (c == '-' && n1 == '-') || (c == '/' && n1 == '/') {
            self.lex_line_comment(tokens)
        } else if c == '/' && n1 == '*' {
            self.lex_block_comment(tokens)
        } else if c == '/' {
            self.next_char();
            push_tok(tokens, TokenKind::Slash, String::from_str("/"), self.line, self.col);
            Ok(())
        } else if c == '"' {
            self.lex_string(tokens)
        } else if c == 'r' && n1 == '#' {
            self.lex_raw_string(tokens)
        } else if c == 'b' && n1 == '"' {
            self.lex_byte_string(tokens)
        } else if is_alphabetic(c) || c == '_' {
            self.lex_word(tokens)
        } else if crate::text::ascii_digit(c) {
            self.lex_number(tokens)
        } else if c == '-' {
            self.lex_minus(tokens)
        } else {
            self.lex_operator(tokens)
        }
    }

    /// Lexes the rest of the input: every token up to and including `Eof`, or
    /// the first error. The result is exactly what `lex_run` describes.
    pub fn tokenize(&mut self) -> (r: Result<Vec<Token>, String>)
        requires
            old(self).wf(),
            !(lex_run(old(self).source(), old(self).state()) is Panics),
        ensures
            final(self).wf(),
            final(self).source() == old(self).source(),
            r matches Ok(ts) ==> lex_run(old(self).source(), old(self).state()) == LexOutcome::Done(token_views(ts@)),
            r matches Err(e) ==> lex_run(old(self).source(), old(self).state()) == LexOutcome::Failed(e@),
    {
        let ghost cs = self.chars@;
        let ghost st0 = self.state();
        let mut tokens: Vec<Token> = Vec::new();
        assert(token_views(tokens@) =~= Seq::<TokenView>::empty());
        assert(prepend(Seq::<TokenView>::empty(), lex_run(cs, st0)) == lex_run(cs, st0)) by {
            match lex_run(cs, st0) {
                LexOutcome::Done(rest) => {
                    assert(Seq::<TokenView>::empty() + rest =~= rest);
                },
                _ => {},
            }
        }
        while self.pos < self.chars.len()
            invariant
                self.wf(),
                self.chars@ == cs,
                lex_run(cs, st0) == prepend(token_views(tokens@), lex_run(cs, self.state())),
                !(lex_run(cs, st0) is Panics),
                cs == old(self).chars@,
                st0 == old(self).state(),
            decreases measure(cs, self.state()),
        {
            let ghost cur = self.state();
            let ghost before = token_views(tokens@);
            proof {
                lemma_step_progress(cs, cur);
            }
            let r = if self.at_line_start {
                self.lex_line_start(&mut tokens)
            } else {
                self.lex_in_line(&mut tokens)
            };
            match r {
                Ok(()) => {
                    proof {
                        let step = lex_step(cs, cur);
                        let s2 = step->Next_0;
                        let toks = step->Next_1;
                        lemma_prepend_assoc(before, toks, lex_run(cs, s2));
                    }
                },
                Err(e) => {
                    return Err(e);
                },
            }
        }
        let ghost last = self.state();
        let ghost before = token_views(tokens@);
        let ghost lc = (self.line as nat, 1nat);
        proof {
            reveal_strlit("dedent");
        }
        let ghost n: nat = 0;
        while self.indent_stack.len() > 1
            invariant
                self.wf(),
                self.chars@ == cs,
                self.pos == last.pos,
                self.line == last.line,
                self.col == last.col,
                self.nesting == last.nesting,
                self.at_line_start == last.at_line_start,
                stack_view(self.indent_stack@) == last.stack.take(self.indent_stack@.len() as int),
                n + self.indent_stack@.len() == last.stack.len(),
                lc == (self.line as nat, 1nat),
                token_views(tokens@) == before + layout_run(n, TokenKind::Dedent, "dedent"@, lc),
            decreases self.indent_stack@.len(),
        {
            let ghost sv = stack_view(self.indent_stack@);
            self.indent_stack.pop();
            assert(stack_view(self.indent_stack@) =~= last.stack.take(self.indent_stack@.len() as int));
            push_tok(&mut tokens, TokenKind::Dedent, String::from_str("dedent"), self.line, 1);
            proof {
                n = n + 1;
                assert(before + layout_run(n, TokenKind::Dedent, "dedent"@, lc)
                    =~= (before + layout_run((n - 1) as nat, TokenKind::Dedent, "dedent"@, lc)).push(tok(TokenKind::Dedent, "dedent"@, lc)));
            }
        }
        push_tok(&mut tokens, TokenKind::Eof, String::new(), self.line, self.col);
        proof {
            assert(token_views(tokens@) =~= before + finish(last));
        }
        Ok(tokens)
    }

    /// The characters `cs[a..b]` as a string.
    fn text_between(&self, a: usize, b: usize) -> (s: String)
        requires
            a <= b <= self.chars@.len(),
        ensures
            s@ == self.chars@.subrange(a as int, b as int),
    {
        let mut s = String::new();
        let mut i = a;
        while i < b
            invariant
                a <= i <= b,
                b <= self.chars@.len(),
                s@ == self.chars@.subrange(a as int, i as int),
            decreases b - i,
        {
            push_char(&mut s, self.chars[i]);
            i = i + 1;
            assert(s@ =~= self.chars@.subrange(a as int, i as int));
        }
        s
    }
}

impl CompleteLexer {
    /// Whether a `*/` occurs at or after `i`.
    fn closes_after(&self, i: usize) -> (b: bool)
        requires
            self.wf(),
            i <= self.chars@.len(),
        ensures
            b == (find_from(self.chars@, i as nat, "*/"@) is Some),
    {
        let ghost cs = self.chars@;
        proof {
            reveal_strlit("*/");
        }
        let mut k = i;
        while k < self.chars.len()
            invariant
                i <= k <= cs.len(),
                cs == self.chars@,
                cs.len() <= isize::MAX / 4,
                "*/"@ == seq!['*', '/'],
                find_from(cs, i as nat, "*/"@) == find_from(cs, k as nat, "*/"@),
            decreases cs.len() - k,
        {
            if k + 2 > self.chars.len() {
                return false;
            }
            if self.chars[k] == '*' && self.chars[k + 1] == '/' {
                assert(cs.subrange(k as int, k + 2) =~= seq!['*', '/']);
                return true;
            }
            proof {
                if occurs_at(cs, "*/"@, k as int) {
                    assert(cs.subrange(k as int, k + 2)[0] == cs[k as int]);
                    assert(cs.subrange(k as int, k + 2)[1] == cs[k + 1]);
                }
            }
            k = k + 1;
        }
        false
    }

    /// The column reached by reading the rest of the input.
    fn column_at_end(&self) -> (c: usize)
        requires
            self.wf(),
        ensures
            c == here(self.chars@, self.state(), self.chars@.len()).1,
    {
        let ghost cs = self.chars@;
        let ghost st = self.state();
        let mut line = self.line;
        let mut col = self.col;
        let mut j = self.pos;
        while j < self.chars.len()
            invariant
                self.pos <= j <= cs.len(),
                cs == self.chars@,
                st == self.state(),
                cs.len() <= isize::MAX / 4,
                1 <= col <= j + 1,
                line <= j + 1,
                (line as nat, col as nat) == advance(cs, st.pos, j as nat, (st.line, st.col)),
            decreases cs.len() - j,
        {
            let ch = self.chars[j];
            if ch == '\n' {
                line = line + 1;
                col = 1;
            } else if ch != '\r' {
                col = col + 1;
            }
            j = j + 1;
        }
        col
    }

    /// Whether the next turn of the scanning loop is one the lexer cannot
    /// take: a `/*` comment left open whose end falls in the first column.
    fn turn_panics(&self) -> (b: bool)
        requires
            self.wf(),
            self.pos < self.chars@.len(),
        ensures
            b == (lex_step(self.chars@, self.state()) is Panic),
    {
        if self.at_line_start {
            return false;
        }
        let p = self.pos;
        let c = self.chars[p];
        let n1 = if p + 1 < self.chars.len() { self.chars[p + 1] } else { ' ' };
        if c == '/' && n1 == '*' {
            !self.closes_after(p + 2) && self.column_at_end() < 2
        } else {
            false
        }
    }

    /// Whether lexing the rest of the input reaches a turn the lexer cannot
    /// take, before any error.
    pub fn run_panics(&mut self) -> (b: bool)
        requires
            old(self).wf(),
        ensures
            b == (lex_run(old(self).source(), old(self).state()) is Panics),
    {
        let ghost cs = self.chars@;
        let ghost st0 = self.state();
        let mut tokens: Vec<Token> = Vec::new();
        while self.pos < self.chars.len()
            invariant
                self.wf(),
                self.chars@ == cs,
                (lex_run(cs, st0) is Panics) == (lex_run(cs, self.state()) is Panics),
                cs == old(self).chars@,
                st0 == old(self).state(),
            decreases measure(cs, self.state()),
        {
            let ghost cur = self.state();
            proof {
                lemma_step_progress(cs, cur);
            }
            if self.turn_panics() {
                return true;
            }
            let r = if self.at_line_start {
                self.lex_line_start(&mut tokens)
            } else {
                self.lex_in_line(&mut tokens)
            };
            if r.is_err() {
                return false;
            }
        }
        false
    }
}

/// Whether lexing `src` with a fresh lexer reaches a turn the lexer cannot
/// take (the inputs `tokenize_complete` leaves out).
pub fn lex_panics(src: &str) -> (b: bool)
    ensures
        b == (lex_run(src@, initial_state()) is Panics),
{
    let mut lexer = CompleteLexer::new(src);
    lexer.run_panics()
}

/// Lexes all of `src` with a fresh lexer.
pub fn tokenize_complete(src: &str) -> (r: Result<Vec<Token>, String>)
    requires
        !(lex_run(src@, initial_state()) is Panics),
    ensures
        r matches Ok(ts) ==> lex_run(src@, initial_state()) == LexOutcome::Done(token_views(ts@)),
        r matches Err(e) ==> lex_run(src@, initial_state()) == LexOutcome::Failed(e@),
{
    let mut lexer = CompleteLexer::new(src);
    lexer.tokenize()
}

} // verus!
