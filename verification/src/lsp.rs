//! Editor-service data: query results, symbols, inlay hints, completions and
//! borrow visualisations; converting positions to byte offsets; and the
//! protocol helpers of the language server.

use vstd::prelude::*;
use crate::async_effects::EffectSet;
use crate::diagnostics::Span;
use crate::text::{
    ascii_lowercase, chars_of, is_ascii_digit, is_prefix, push_str, str_eq, string_from_range, to_ascii_lowercase,
    trim, trim_end, trim_end_ws, trim_ws,
};

verus! {

#[derive(Debug, Clone)]
pub struct QueryResult {
    pub span: Span,
    pub text: String,
    pub contents: Vec<HoverContent>,
}

#[derive(Debug, Clone)]
pub enum HoverContent {
    Type(String),
    Effect(EffectSet),
    Definition(String),
    Documentation(String),
}

#[derive(Debug)]
pub struct SourceFile {
    pub path: String,
    pub text: String,
    pub version: usize,
}

#[derive(Debug, Clone)]
pub struct SymbolId {
    pub name: String,
    pub span: Span,
}

#[derive(Debug, Clone)]
pub struct SymbolInfo {
    pub id: SymbolId,
    pub kind: SymbolKind,
    pub definition_span: Span,
    pub resolved_name: Option<String>,
}

#[derive(Debug, Clone, Copy, PartialEq, Eq, Structural)]
pub enum SymbolKind {
    Function,
    Variable,
    Parameter,
    Struct,
    Field,
    Enum,
}

#[derive(Debug, Clone)]
pub struct TypeInfo {
    pub span: Span,
    pub type_string: String,
    pub effect: EffectSet,
}

#[derive(Debug, Clone)]
pub struct InlayHint {
    pub span: Span,
    pub text: String,
    pub kind: InlayHintKind,
}

#[derive(Debug, Clone)]
pub struct CompletionItem {
    pub label: String,
    pub detail: Option<String>,
    pub kind: CompletionKind,
}

#[derive(Debug, Clone, Copy, PartialEq, Eq, Structural)]
pub enum CompletionKind {
    Keyword,
    Function,
    Variable,
    Type,
    Field,
}

#[derive(Debug, Clone, Copy, PartialEq, Eq, Structural)]
pub enum InlayHintKind {
    Type,
    Effect,
    Parameter,
}

#[derive(Debug, Clone)]
pub struct BorrowInfo {
    pub variable: String,
    pub borrow_span: Span,
    pub kind: BorrowKind,
    pub lifetime_start: usize,
    pub lifetime_end: usize,
    pub is_valid: bool,
}

#[derive(Debug, Clone, Copy, PartialEq, Eq, Structural)]
pub enum BorrowKind {
    Shared,
    Mutable,
    Move,
}

#[derive(Debug, Clone)]
pub struct MoveInfo {
    pub variable: String,
    pub source_span: Span,
    pub dest_span: Span,
    pub is_valid: bool,
}

#[derive(Debug, Clone)]
pub struct BorrowVisualization {
    pub borrows: Vec<BorrowInfo>,
    pub moves: Vec<MoveInfo>,
    pub issues: Vec<BorrowIssue>,
}

#[derive(Debug, Clone)]
pub struct BorrowIssue {
    pub severity: BorrowIssueSeverity,
    pub message: String,
    pub spans: Vec<Span>,
}

#[derive(Debug, Clone, Copy, PartialEq, Eq, Structural)]
pub enum BorrowIssueSeverity {
    Error,
    Warning,
    Note,
}

// ---------------------------------------------------------------------------
// Positions
// ---------------------------------------------------------------------------

/// The number of bytes UTF-8 takes for `c`.
pub open spec fn utf8_len(c: char) -> nat {
    if (c as u32) < 0x80 {
        1
    } else if (c as u32) < 0x800 {
        2
    } else if (c as u32) < 0x10000 {
        3
    } else {
        4
    }
}

pub fn char_utf8_len(c: char) -> (n: usize)
    ensures
        n == utf8_len(c),
{
    let v = c as u32;
    if v < 0x80 {
        1
    } else if v < 0x800 {
        2
    } else if v < 0x10000 {
        3
    } else {
        4
    }
}

/// Scans `cs` from character `k` (at byte offset `off`, line `line`, column
/// `col`, columns counted from zero) for the position (`tl`, `tc`).
pub open spec fn position_scan(cs: Seq<char>, k: nat, line: nat, col: nat, off: nat, tl: nat, tc: nat) -> Option<nat>
    decreases cs.len() - k,
{
    if line == tl && col == tc {
        Some(off)
    } else if k >= cs.len() {
        None
    } else if cs[k as int] == '\n' {
        position_scan(cs, k + 1, line + 1, 0, off + utf8_len(cs[k as int]), tl, tc)
    } else {
        position_scan(cs, k + 1, line, col + 1, off + utf8_len(cs[k as int]), tl, tc)
    }
}

/// The byte offset of line `target_line` (from one), column `target_col`
/// (characters from zero) in `text`; the end of the text counts as a position.
pub fn char_pos_to_byte_index(text: &str, target_line: usize, target_col: usize) -> (r: Option<usize>)
    ensures
        r matches Some(b) ==> position_scan(text@, 0, 1, 0, 0, target_line as nat, target_col as nat) == Some(b as nat),
        r is None ==> position_scan(text@, 0, 1, 0, 0, target_line as nat, target_col as nat) is None,
{
    let cs = chars_of(text);
    let mut line: usize = 1;
    let mut col: usize = 0;
    let mut off: usize = 0;
    let mut k: usize = 0;
    while k < cs.len()
        invariant
            k <= cs@.len(),
            cs@ == text@,
            cs@.len() <= isize::MAX / 4,
            line <= k + 1,
            col <= k,
            off <= 4 * k,
            position_scan(text@, 0, 1, 0, 0, target_line as nat, target_col as nat)
                == position_scan(text@, k as nat, line as nat, col as nat, off as nat, target_line as nat, target_col as nat),
        decreases cs.len() - k,
    {
        if line == target_line && col == target_col {
            return Some(off);
        }
        let ch = cs[k];
        off = off + char_utf8_len(ch);
        if ch == '\n' {
            line = line + 1;
            col = 0;
        } else {
            col = col + 1;
        }
        k = k + 1;
    }
    if line == target_line && col == target_col {
        return Some(off);
    }
    None
}

// ---------------------------------------------------------------------------
// Protocol helpers of the language server
// ---------------------------------------------------------------------------

/// The path of a `file://` URI: the scheme is dropped (all leading copies of
/// it), and so is the slash before a drive letter (`/C:/...`). Any other text
/// is returned as it is.
pub open spec fn uri_path(uri: Seq<char>) -> Seq<char> {
    if is_prefix("file://"@, uri) {
        let s = strip_all_prefix("file://"@, uri);
        if s.len() > 0 && s[0] == '/' && s.len() > 2 && s[2] == ':' { strip_all_slashes(s) } else { s }
    } else {
        uri
    }
}

/// `s` with every leading repetition of `p` removed.
pub open spec fn strip_all_prefix(p: Seq<char>, s: Seq<char>) -> Seq<char>
    decreases s.len(),
{
    if p.len() > 0 && is_prefix(p, s) { strip_all_prefix(p, s.subrange(p.len() as int, s.len() as int)) } else { s }
}

/// `s` without its leading slashes.
pub open spec fn strip_all_slashes(s: Seq<char>) -> Seq<char>
    decreases s.len(),
{
    if s.len() > 0 && s[0] == '/' { strip_all_slashes(s.drop_first()) } else { s }
}

/// The path a `file://` URI names; other text is returned unchanged.
pub fn uri_to_path(uri: &str) -> (r: String)
    ensures
        r@ == uri_path(uri@),
{
    let cs = chars_of(uri);
    let p = chars_of("file://");
    proof {
        reveal_strlit("file://");
    }
    if !crate::text::chars_starts_with(cs.as_slice(), p.as_slice()) {
        return crate::text::string_from_chars(cs.as_slice());
    }
    let mut i: usize = 0;
    assert(cs@.subrange(0, cs@.len() as int) =~= cs@);
    while p.len() <= cs.len() - i && crate::text::occurs_at_exec(cs.as_slice(), p.as_slice(), i)
        invariant
            i <= cs@.len(),
            cs@ == uri@,
            p@ == "file://"@,
            p@.len() == 7,
            strip_all_prefix(p@, cs@) == strip_all_prefix(p@, cs@.subrange(i as int, cs@.len() as int)),
        decreases cs@.len() - i,
    {
        let ghost rest = cs@.subrange(i as int, cs@.len() as int);
        assert(rest.subrange(0, 7) =~= cs@.subrange(i as int, i + 7));
        assert(rest.subrange(7, rest.len() as int) =~= cs@.subrange(i + 7, cs@.len() as int));
        i = i + p.len();
    }
    proof {
        let rest = cs@.subrange(i as int, cs@.len() as int);
        if 7 <= rest.len() && is_prefix(p@, rest) {
            assert(rest.subrange(0, 7) =~= cs@.subrange(i as int, i + 7));
        }
    }
    let mut j = i;
    if j < cs.len() && cs[j] == '/' && cs.len() - j > 2 && cs[j + 2] == ':' {
        while j < cs.len() && cs[j] == '/'
            invariant
                i <= j <= cs@.len(),
                strip_all_slashes(cs@.subrange(i as int, cs@.len() as int)) == strip_all_slashes(cs@.subrange(j as int, cs@.len() as int)),
            decreases cs@.len() - j,
        {
            assert(cs@.subrange(j as int, cs@.len() as int).drop_first() =~= cs@.subrange(j + 1, cs@.len() as int));
            j = j + 1;
        }
    }
    crate::text::string_from_range(cs.as_slice(), j, cs.len())
}

// ---------------------------------------------------------------------------
// Message framing
// ---------------------------------------------------------------------------

/// The value of a string of ASCII digits.
pub open spec fn digits_value(d: Seq<char>) -> nat
    decreases d.len(),
{
    if d.len() == 0 { 0 } else { digits_value(d.drop_last()) * 10 + ((d.last() as int - '0' as int) as nat) }
}

/// What std's `str::parse::<usize>` gives: an optional `+` followed by at
/// least one ASCII digit, with a value that fits.
pub open spec fn parse_usize(s: Seq<char>) -> Option<nat> {
    let d = unsigned_digits(s);
    if d.len() > 0 && all_digits(d) && digits_value(d) <= usize::MAX {
        Some(digits_value(d))
    } else {
        None
    }
}

/// `s` without one leading `+`.
pub open spec fn unsigned_digits(s: Seq<char>) -> Seq<char> {
    if s.len() > 0 && s[0] == '+' { s.drop_first() } else { s }
}

pub open spec fn all_digits(d: Seq<char>) -> bool {
    forall|i: int| 0 <= i < d.len() ==> is_ascii_digit(#[trigger] d[i])
}

/// The position of the first `:` in `s`.
pub open spec fn first_colon(s: Seq<char>) -> Option<nat>
    decreases s.len(),
{
    if s.len() == 0 {
        None
    } else {
        match first_colon(s.drop_last()) {
            Some(i) => Some(i),
            None => if s.last() == ':' { Some((s.len() - 1) as nat) } else { None },
        }
    }
}

/// A header line of a protocol message.
#[derive(Debug, Clone, Copy, PartialEq, Eq, Structural)]
pub enum HeaderLine {
    /// The blank line that ends the headers.
    End,
    /// A `Content-Length` header with a valid length.
    ContentLength(usize),
    /// Any other line.
    Other,
}

/// How a header line is read: blank (after trailing whitespace) ends the
/// headers; `key: value` with the key `content-length` in any case and a
/// number as value gives the body length.
pub open spec fn header_line(line: Seq<char>) -> HeaderLine {
    let t = trim_end_ws(line);
    if t.len() == 0 {
        HeaderLine::End
    } else {
        match first_colon(t) {
            Some(c) => {
                let key = ascii_lowercase(t.take(c as int));
                match parse_usize(trim_ws(t.skip(c + 1int))) {
                    Some(n) if key == "content-length"@ => HeaderLine::ContentLength(n as usize),
                    _ => HeaderLine::Other,
                }
            },
            None => HeaderLine::Other,
        }
    }
}

proof fn lemma_first_colon_prefix(s: Seq<char>, k: nat)
    requires
        k <= s.len(),
        first_colon(s.take(k as int)) is Some,
    ensures
        first_colon(s) == first_colon(s.take(k as int)),
    decreases s.len() - k,
{
    if k < s.len() {
        assert(s.take(k + 1 as int).drop_last() =~= s.take(k as int));
        lemma_first_colon_prefix(s, (k + 1) as nat);
    } else {
        assert(s.take(k as int) =~= s);
    }
}

fn parse_usize_exec(s: &str) -> (r: Option<usize>)
    ensures
        match parse_usize(s@) {
            Some(n) => r == Some(n as usize),
            None => r is None,
        },
{
    let cs = chars_of(s);
    let start: usize = if cs.len() > 0 && cs[0] == '+' { 1 } else { 0 };
    let ghost d = unsigned_digits(s@);
    assert(cs@.subrange(start as int, cs@.len() as int) =~= d);
    if start >= cs.len() {
        return None;
    }
    let mut value: usize = 0;
    let mut i = start;
    while i < cs.len()
        invariant
            start <= i <= cs@.len(),
            cs@ == s@,
            d == cs@.subrange(start as int, cs@.len() as int),
            d == unsigned_digits(s@),
            d.len() > 0,
            forall|k: int| start <= k < i ==> is_ascii_digit(#[trigger] cs@[k]),
            value == digits_value(cs@.subrange(start as int, i as int)),
        decreases cs@.len() - i,
    {
        let c = cs[i];
        if !('0' <= c && c <= '9') {
            assert(d[i - start] == c);
            assert(!is_ascii_digit(d[i - start]));
            assert(!all_digits(d));
            return None;
        }
        assert(cs@.subrange(start as int, i + 1).drop_last() =~= cs@.subrange(start as int, i as int));
        let digit = (c as u32 - '0' as u32) as usize;
        assert(digits_value(cs@.subrange(start as int, i + 1)) == value * 10 + digit);
        if value > (usize::MAX - digit) / 10 {
            proof {
                assert(value * 10 + digit > usize::MAX) by (nonlinear_arith)
                    requires
                        value > (usize::MAX - digit) / 10,
                        digit <= 9,
                ;
                if all_digits(d) {
                    lemma_digits_grow(d, (i + 1 - start) as nat);
                    assert(d.take(i + 1 - start) =~= cs@.subrange(start as int, i + 1));
                }
            }
            return None;
        }
        value = value * 10 + digit;
        i = i + 1;
    }
    assert(forall|k: int| 0 <= k < d.len() ==> d[k] == cs@[start + k]);
    assert(cs@.subrange(start as int, i as int) =~= d);
    assert(all_digits(d));
    Some(value)
}

/// A number's digits are worth at least any prefix of them.
proof fn lemma_digits_grow(d: Seq<char>, k: nat)
    requires
        k <= d.len(),
        forall|i: int| 0 <= i < d.len() ==> is_ascii_digit(#[trigger] d[i]),
    ensures
        digits_value(d.take(k as int)) <= digits_value(d),
    decreases d.len() - k,
{
    if k < d.len() {
        lemma_digits_grow(d, k + 1);
        assert(d.take(k + 1 as int).drop_last() =~= d.take(k as int));
    } else {
        assert(d.take(k as int) =~= d);
    }
}

/// Reads one header line of a protocol message.
pub fn classify_header_line(line: &str) -> (r: HeaderLine)
    ensures
        r == header_line(line@),
{
    let t = trim_end(line);
    let cs = chars_of(t.as_str());
    if cs.len() == 0 {
        return HeaderLine::End;
    }
    let ghost ts = cs@;
    let mut c: usize = 0;
    assert(ts.take(0) =~= Seq::<char>::empty());
    while c < cs.len() && cs[c] != ':'
        invariant
            c <= cs@.len(),
            cs@ == ts,
            first_colon(ts.take(c as int)) is None,
        decreases cs@.len() - c,
    {
        assert(ts.take(c + 1 as int).drop_last() =~= ts.take(c as int));
        c = c + 1;
    }
    if c == cs.len() {
        assert(ts.take(c as int) =~= ts);
        return HeaderLine::Other;
    }
    proof {
        assert(ts.take(c + 1 as int).drop_last() =~= ts.take(c as int));
        lemma_first_colon_prefix(ts, (c + 1) as nat);
    }
    let key_text = string_from_range(cs.as_slice(), 0, c);
    let key = to_ascii_lowercase(key_text.as_str());
    let val_text = string_from_range(cs.as_slice(), c + 1, cs.len());
    let val = trim(val_text.as_str());
    assert(ts.subrange(0, c as int) =~= ts.take(c as int));
    assert(ts.subrange(c + 1, ts.len() as int) =~= ts.skip(c + 1));
    match parse_usize_exec(val.as_str()) {
        Some(n) => {
            if str_eq(key.as_str(), "content-length") {
                HeaderLine::ContentLength(n)
            } else {
                HeaderLine::Other
            }
        },
        None => HeaderLine::Other,
    }
}

/// The URI under which a definition's file is reported: an absolute path
/// (starting with `/`, or with a drive letter before `:`) becomes a
/// `file://` URI; anything else is reported as it is.
pub open spec fn location_uri(path: Seq<char>) -> Seq<char> {
    if (path.len() > 0 && path[0] == '/') || (path.len() > 1 && path[1] == ':') {
        "file://"@ + path
    } else {
        path
    }
}

pub fn definition_uri(def_path: &str) -> (r: String)
    ensures
        r@ == location_uri(def_path@),
{
    let cs = chars_of(def_path);
    if (cs.len() > 0 && cs[0] == '/') || (cs.len() > 1 && cs[1] == ':') {
        let mut u = String::from_str("file://");
        push_str(&mut u, def_path);
        u
    } else {
        String::from_str(def_path)
    }
}

/// The protocol's number for a completion kind.
pub open spec fn lsp_completion_kind(kind: CompletionKind) -> i64 {
    match kind {
        CompletionKind::Keyword => 14,
        CompletionKind::Function => 3,
        CompletionKind::Variable => 6,
        CompletionKind::Type => 7,
        CompletionKind::Field => 5,
    }
}

pub fn completion_kind_to_lsp_kind(kind: CompletionKind) -> (r: i64)
    ensures
        r == lsp_completion_kind(kind),
{
    match kind {
        CompletionKind::Keyword => 14,
        CompletionKind::Function => 3,
        CompletionKind::Variable => 6,
        CompletionKind::Type => 7,
        CompletionKind::Field => 5,
    }
}

} // verus!
