//! The source formatter. Over the concrete syntax tree it re-emits every
//! token with four spaces of indentation per block level, one space between
//! words, and comments in `//`, `///` and `/* */` form; over the syntax tree
//! (in `program`) it writes each statement and expression in canonical form.

use vstd::prelude::*;
use crate::cst::{
    build_cst, elem_view, elems_view, syntax_token_view, tree_of, tree_ok,
    ElemView, SyntaxElement, SyntaxKind, SyntaxNode, SyntaxToken, SyntaxTokenView,
};
use crate::complete_lexer::{initial_state, lex_run, tokenize_complete, LexOutcome};
use crate::complete_lexer::TokenKind as CK;
use crate::cst::law_balanced_tokens_build_a_tree;
use crate::lexer::{layout_depth, layout_prefix_ok, Token, TokenKind};
use crate::lexer::token_views as lexer_token_views;
use crate::text::{
    is_whitespace, join, lines, lines_of, push_char, push_join, push_str,
    string_from_chars, string_seq_view, trim_end, trim_end_ws, unicode_whitespace,
};

mod program;
pub use program::{float_literals, format_program, format_program_with_config};

verus! {

/// Formatting options.
#[derive(Debug, Clone)]
pub struct FormatterConfig {
    pub strict_mode: bool,
}

impl Default for FormatterConfig {
    fn default() -> (c: Self)
        ensures
            !c.strict_mode,
    {
        FormatterConfig { strict_mode: false }
    }
}

impl FormatterConfig {
    /// The default options: not strict.
    pub fn new() -> (c: Self)
        ensures
            !c.strict_mode,
    {
        Self::default()
    }

    pub fn with_strict_mode(self, strict: bool) -> (c: Self)
        ensures
            c.strict_mode == strict,
    {
        let mut s = self;
        s.strict_mode = strict;
        s
    }
}

/// How a character is written inside a double-quoted string literal.
pub open spec fn escape_in_string(c: char) -> Seq<char> {
    if c == '\0' {
        "\\0"@
    } else if c == '\t' {
        "\\t"@
    } else if c == '\n' {
        "\\n"@
    } else if c == '\r' {
        "\\r"@
    } else if c == '"' {
        "\\\""@
    } else if c == '\\' {
        "\\\\"@
    } else {
        seq![c]
    }
}

/// What the complete lexer reads an escape in a literal as, the formatter
/// writes back as that same escape: for `c` among `n`, `t`, `r` and `0`, the
/// character `\c` stands for is written `\c` in a string or character
/// literal.
pub proof fn law_escapes_round_trip(c: char)
    requires
        c == 'n' || c == 't' || c == 'r' || c == '0',
    ensures
        escape_in_string(crate::complete_lexer::unescape(c)) == seq!['\\', c],
        escape_in_char(crate::complete_lexer::unescape(c)) == seq!['\\', c],
{
    reveal_strlit("\\0");
    reveal_strlit("\\t");
    reveal_strlit("\\n");
    reveal_strlit("\\r");
    assert(escape_in_string(crate::complete_lexer::unescape(c)) =~= seq!['\\', c]);
    assert(escape_in_char(crate::complete_lexer::unescape(c)) =~= seq!['\\', c]);
}

/// The characters of `s`, each escaped for a string literal.
pub open spec fn escaped(s: Seq<char>) -> Seq<char>
    decreases s.len(),
{
    if s.len() == 0 {
        seq![]
    } else {
        escaped(s.drop_last()) + escape_in_string(s.last())
    }
}

/// How a character is written inside a single-quoted character literal.
pub open spec fn escape_in_char(c: char) -> Seq<char> {
    if c == '\0' {
        "\\0"@
    } else if c == '\t' {
        "\\t"@
    } else if c == '\n' {
        "\\n"@
    } else if c == '\r' {
        "\\r"@
    } else if c == '\'' {
        "\\'"@
    } else if c == '\\' {
        "\\\\"@
    } else {
        seq![c]
    }
}

fn push_escaped_char(out: &mut Vec<char>, c: char)
    ensures
        final(out)@ == old(out)@ + escape_in_string(c),
{
    let ghost start = out@;
    if c == '\0' {
        out.push('\\');
        out.push('0');
    } else if c == '\t' {
        out.push('\\');
        out.push('t');
    } else if c == '\n' {
        out.push('\\');
        out.push('n');
    } else if c == '\r' {
        out.push('\\');
        out.push('r');
    } else if c == '"' {
        out.push('\\');
        out.push('"');
    } else if c == '\\' {
        out.push('\\');
        out.push('\\');
    } else {
        out.push(c);
    }
    proof {
        reveal_strlit("\\0");
        reveal_strlit("\\t");
        reveal_strlit("\\n");
        reveal_strlit("\\r");
        reveal_strlit("\\\"");
        reveal_strlit("\\\\");
    }
    assert(out@ =~= start + escape_in_string(c));
}

/// `s` with each character escaped for a string literal.
fn escape_string(s: &str) -> (r: String)
    ensures
        r@ == escaped(s@),
{
    let cs = crate::text::chars_of(s);
    let mut out: Vec<char> = Vec::new();
    let mut i: usize = 0;
    assert(cs@.take(0) =~= Seq::<char>::empty());
    while i < cs.len()
        invariant
            i <= cs@.len(),
            cs@ == s@,
            out@ == escaped(cs@.take(i as int)),
        decreases cs.len() - i,
    {
        push_escaped_char(&mut out, cs[i]);
        assert(cs@.take(i + 1).drop_last() =~= cs@.take(i as int));
        i = i + 1;
    }
    assert(cs@.take(cs@.len() as int) =~= cs@);
    string_from_chars(out.as_slice())
}

/// `ch` escaped for a character literal.
fn escape_char(ch: char) -> (r: String)
    ensures
        r@ == escape_in_char(ch),
{
    let mut s = String::new();
    if ch == '\0' {
        push_str(&mut s, "\\0");
    } else if ch == '\t' {
        push_str(&mut s, "\\t");
    } else if ch == '\n' {
        push_str(&mut s, "\\n");
    } else if ch == '\r' {
        push_str(&mut s, "\\r");
    } else if ch == '\'' {
        push_str(&mut s, "\\'");
    } else if ch == '\\' {
        push_str(&mut s, "\\\\");
    } else {
        push_char(&mut s, ch);
        assert(s@ =~= seq![ch]);
    }
    s
}

// ---------------------------------------------------------------------------
// Formatting the tree
// ---------------------------------------------------------------------------

/// `n` spaces.
pub open spec fn spaces(n: nat) -> Seq<char> {
    Seq::new(n, |i: int| ' ')
}

/// `out` followed by a space, unless it is empty or already ends in a
/// newline or other whitespace.
pub open spec fn with_space(out: Seq<char>) -> Seq<char> {
    if out.len() == 0 || out.last() == '\n' || unicode_whitespace(out.last()) {
        out
    } else {
        out.push(' ')
    }
}

/// The output so far and whether it is at the start of a line.
pub type FormatState = (Seq<char>, bool);

/// Writes one token at block depth `level`: a line is first indented by four
/// spaces per level; words get a separating space; strings are quoted and
/// escaped; comments take a line of their own; layout tokens write nothing.
pub open spec fn fmt_token(t: SyntaxTokenView, level: nat, st: FormatState) -> FormatState {
    let out = if st.1 { st.0 + spaces(level * 4) } else { st.0 };
    let text = t.1;
    match t.0 {
        SyntaxKind::TokenString => (with_space(out) + "\""@ + escaped(text) + "\""@, false),
        SyntaxKind::TokenCommentLine => (out + "//"@ + text + "\n"@, true),
        SyntaxKind::TokenDocComment => (out + "///"@ + text + "\n"@, true),
        SyntaxKind::TokenCommentBlock => (out + "/*"@ + text + "*/"@ + "\n"@, true),
        SyntaxKind::TokenNewline => (out + "\n"@, true),
        SyntaxKind::TokenIndent | SyntaxKind::TokenDedent => (out, false),
        _ => (with_space(out) + text, false),
    }
}

/// Writes an element: a block's contents one level deeper, any other node's
/// contents at the same level.
pub open spec fn fmt_elem(e: SyntaxElement, level: nat, st: FormatState) -> FormatState
    decreases e,
{
    match e {
        SyntaxElement::Token(t) => fmt_token(syntax_token_view(t), level, st),
        SyntaxElement::Node(n) => fmt_elems(n.children@, if n.kind == SyntaxKind::Block { level + 1 } else { level }, st),
    }
}

pub open spec fn fmt_elems(es: Seq<SyntaxElement>, level: nat, st: FormatState) -> FormatState
    decreases es,
{
    if es.len() == 0 {
        st
    } else {
        fmt_elem(es.last(), level, fmt_elems(es.drop_last(), level, st))
    }
}

/// The nesting depth of an element's nodes.
pub open spec fn elem_height(e: SyntaxElement) -> nat
    decreases e,
{
    match e {
        SyntaxElement::Token(_) => 0,
        SyntaxElement::Node(n) => 1 + elems_height(n.children@),
    }
}

pub open spec fn elems_height(es: Seq<SyntaxElement>) -> nat
    decreases es,
{
    if es.len() == 0 {
        0
    } else {
        let a = elems_height(es.drop_last());
        let b = elem_height(es.last());
        if a >= b { a } else { b }
    }
}

pub(crate) proof fn lemma_elems_height(es: Seq<SyntaxElement>, i: int)
    requires
        0 <= i < es.len(),
    ensures
        elem_height(es[i]) <= elems_height(es),
    decreases es.len(),
{
    if i < es.len() - 1 {
        lemma_elems_height(es.drop_last(), i);
    }
}

/// The formatted text of a tree's children.
pub open spec fn formatted(node: SyntaxNode) -> Seq<char> {
    fmt_elems(node.children@, 0, (seq![], true)).0
}

fn ensure_space(out: &mut Vec<char>)
    ensures
        final(out)@ == with_space(old(out)@),
{
    if out.len() == 0 {
        return;
    }
    let c = out[out.len() - 1];
    if c == '\n' || is_whitespace(c) {
        return;
    }
    out.push(' ');
}

fn push_text(out: &mut Vec<char>, t: &str)
    ensures
        final(out)@ == old(out)@ + t@,
{
    let cs = crate::text::chars_of(t);
    let ghost start = out@;
    let mut i: usize = 0;
    while i < cs.len()
        invariant
            i <= cs@.len(),
            cs@ == t@,
            out@ == start + cs@.take(i as int),
        decreases cs.len() - i,
    {
        out.push(cs[i]);
        i = i + 1;
        assert(out@ =~= start + cs@.take(i as int));
    }
    assert(cs@.take(cs@.len() as int) =~= cs@);
}

fn write_token(t: &SyntaxToken, indent_level: usize, out: &mut Vec<char>, on_newline: &mut bool)
    requires
        indent_level <= usize::MAX / 4,
    ensures
        (final(out)@, *final(on_newline)) == fmt_token(syntax_token_view(*t), indent_level as nat, (old(out)@, *old(on_newline))),
{
    let ghost t_view = syntax_token_view(*t);
    if *on_newline {
        let n = indent_level * 4;
        let ghost start = out@;
        let mut k: usize = 0;
        while k < n
            invariant
                k <= n,
                out@ == start + spaces(k as nat),
            decreases n - k,
        {
            out.push(' ');
            k = k + 1;
            assert(out@ =~= start + spaces(k as nat));
        }
        *on_newline = false;
    }
    proof {
        reveal_strlit("\"");
        reveal_strlit("//");
        reveal_strlit("///");
        reveal_strlit("/*");
        reveal_strlit("*/");
        reveal_strlit("\n");
    }
    match t.kind {
        SyntaxKind::TokenString => {
            ensure_space(out);
            out.push('"');
            let esc = escape_string(t.text.as_str());
            push_text(out, esc.as_str());
            out.push('"');
        },
        SyntaxKind::TokenCommentLine => {
            push_text(out, "//");
            push_text(out, t.text.as_str());
            out.push('\n');
            *on_newline = true;
        },
        SyntaxKind::TokenDocComment => {
            push_text(out, "///");
            push_text(out, t.text.as_str());
            out.push('\n');
            *on_newline = true;
        },
        SyntaxKind::TokenCommentBlock => {
            push_text(out, "/*");
            push_text(out, t.text.as_str());
            push_text(out, "*/");
            out.push('\n');
            *on_newline = true;
        },
        SyntaxKind::TokenNewline => {
            out.push('\n');
            *on_newline = true;
        },
        SyntaxKind::TokenIndent | SyntaxKind::TokenDedent => {},
        _ => {
            ensure_space(out);
            push_text(out, t.text.as_str());
        },
    }
    assert(out@ =~= fmt_token(t_view, indent_level as nat, (old(out)@, *old(on_newline))).0);
}

fn format_element(elem: &SyntaxElement, indent_level: usize, out: &mut Vec<char>, on_newline: &mut bool)
    requires
        indent_level + elem_height(*elem) <= usize::MAX / 4,
    ensures
        (final(out)@, *final(on_newline)) == fmt_elem(*elem, indent_level as nat, (old(out)@, *old(on_newline))),
    decreases elem,
{
    match elem {
        SyntaxElement::Token(t) => write_token(t, indent_level, out, on_newline),
        SyntaxElement::Node(n) => {
            let level = if n.kind == SyntaxKind::Block { indent_level + 1 } else { indent_level };
            format_elements(&n.children, level, out, on_newline);
        },
    }
}

fn format_elements(children: &Vec<SyntaxElement>, indent_level: usize, out: &mut Vec<char>, on_newline: &mut bool)
    requires
        indent_level + elems_height(children@) <= usize::MAX / 4,
    ensures
        (final(out)@, *final(on_newline)) == fmt_elems(children@, indent_level as nat, (old(out)@, *old(on_newline))),
    decreases children,
{
    let ghost start = (out@, *on_newline);
    let mut i: usize = 0;
    assert(children@.take(0) =~= Seq::<SyntaxElement>::empty());
    while i < children.len()
        invariant
            i <= children@.len(),
            indent_level + elems_height(children@) <= usize::MAX / 4,
            (out@, *on_newline) == fmt_elems(children@.take(i as int), indent_level as nat, start),
        decreases children.len() - i,
    {
        proof {
            lemma_elems_height(children@, i as int);
            assert(children@.take(i + 1).drop_last() =~= children@.take(i as int));
        }
        format_element(&children[i], indent_level, out, on_newline);
        i = i + 1;
    }
    assert(children@.take(children@.len() as int) =~= children@);
}

/// Formats the children of `node` (its own kind does not matter).
pub fn format_cst_source(node: &SyntaxNode) -> (r: String)
    requires
        elems_height(node.children@) <= usize::MAX / 4,
    ensures
        r@ == formatted(*node),
{
    let mut out: Vec<char> = Vec::new();
    let mut on_newline = true;
    format_elements(&node.children, 0, &mut out, &mut on_newline);
    string_from_chars(out.as_slice())
}

/// Strict layout of a formatted text: every line without trailing
/// whitespace, joined by newlines, with one final newline.
pub open spec fn strict_text(base: Seq<char>) -> Seq<char> {
    let ls = lines_of(base);
    join(Seq::new(ls.len(), |i: int| trim_end_ws(ls[i])), "\n"@) + "\n"@
}

/// Formats the children of `node`, in strict layout when the options ask
/// for it.
pub fn format_cst_source_with_config(node: &SyntaxNode, config: &FormatterConfig) -> (r: String)
    requires
        elems_height(node.children@) <= usize::MAX / 4,
    ensures
        r@ == (if config.strict_mode { strict_text(formatted(*node)) } else { formatted(*node) }),
{
    let base = format_cst_source(node);
    if config.strict_mode {
        let ls = lines(base.as_str());
        let mut trimmed: Vec<String> = Vec::new();
        let mut i: usize = 0;
        while i < ls.len()
            invariant
                i <= ls@.len(),
                string_seq_view(ls@) == lines_of(base@),
                trimmed@.len() == i,
                forall|k: int| 0 <= k < i ==> (#[trigger] trimmed@[k])@ == trim_end_ws(ls@[k]@),
            decreases ls.len() - i,
        {
            trimmed.push(trim_end(ls[i].as_str()));
            i = i + 1;
        }
        let ghost lv = lines_of(base@);
        assert(string_seq_view(trimmed@) =~= Seq::new(lv.len(), |k: int| trim_end_ws(lv[k])));
        let mut out = String::new();
        push_join(&mut out, trimmed.as_slice(), "\n");
        push_str(&mut out, "\n");
        assert(out@ =~= strict_text(base@));
        out
    } else {
        base
    }
}


// ---------------------------------------------------------------------------
// Checking that a source is formatted
// ---------------------------------------------------------------------------

/// Writes an element view as `fmt_elem` writes the element.
pub open spec fn fmt_view(e: ElemView, level: nat, st: FormatState) -> FormatState
    decreases e,
{
    match e {
        ElemView::Tok(t) => fmt_token(t, level, st),
        ElemView::Node(k, kids) => fmt_views(kids, if k == SyntaxKind::Block { level + 1 } else { level }, st),
    }
}

pub open spec fn fmt_views(es: Seq<ElemView>, level: nat, st: FormatState) -> FormatState
    decreases es,
{
    if es.len() == 0 {
        st
    } else {
        fmt_view(es.last(), level, fmt_views(es.drop_last(), level, st))
    }
}

/// The nesting depth of an element view's nodes.
pub open spec fn view_height(e: ElemView) -> nat
    decreases e,
{
    match e {
        ElemView::Tok(_) => 0,
        ElemView::Node(_, kids) => 1 + views_height(kids),
    }
}

pub open spec fn views_height(es: Seq<ElemView>) -> nat
    decreases es,
{
    if es.len() == 0 {
        0
    } else {
        let a = views_height(es.drop_last());
        let b = view_height(es.last());
        if a >= b { a } else { b }
    }
}

/// Formatting and height of elements depend on their views alone.
proof fn lemma_elems_by_view(es: Seq<SyntaxElement>, level: nat, st: FormatState)
    ensures
        fmt_elems(es, level, st) == fmt_views(elems_view(es), level, st),
        elems_height(es) == views_height(elems_view(es)),
    decreases es,
{
    if es.len() > 0 {
        lemma_elems_by_view(es.drop_last(), level, st);
        lemma_elem_by_view(es.last(), level, fmt_elems(es.drop_last(), level, st));
        let vs = elems_view(es);
        assert(vs.drop_last() =~= elems_view(es.drop_last()));
        assert(vs.last() == elem_view(es.last()));
    }
}

proof fn lemma_elem_by_view(e: SyntaxElement, level: nat, st: FormatState)
    ensures
        fmt_elem(e, level, st) == fmt_view(elem_view(e), level, st),
        elem_height(e) == view_height(elem_view(e)),
    decreases e,
{
    match e {
        SyntaxElement::Token(_) => {},
        SyntaxElement::Node(n) => {
            lemma_elems_by_view(n.children@, if n.kind == SyntaxKind::Block { level + 1 } else { level }, st);
        },
    }
}

/// The height of a node's children, saturated at `usize::MAX`.
fn children_height(children: &Vec<SyntaxElement>) -> (h: usize)
    ensures
        h == (if elems_height(children@) > usize::MAX { usize::MAX as nat } else { elems_height(children@) }),
    decreases children,
{
    let mut h: usize = 0;
    let mut i: usize = 0;
    assert(children@.take(0) =~= Seq::<SyntaxElement>::empty());
    while i < children.len()
        invariant
            i <= children@.len(),
            h == (if elems_height(children@.take(i as int)) > usize::MAX { usize::MAX as nat } else { elems_height(children@.take(i as int)) }),
        decreases children.len() - i,
    {
        assert(children@.take(i + 1).drop_last() =~= children@.take(i as int));
        assert(children@.take(i + 1).last() == children@[i as int]);
        let e = match &children[i] {
            SyntaxElement::Token(_) => 0,
            SyntaxElement::Node(n) => {
                let k = children_height(&n.children);
                if k == usize::MAX { usize::MAX } else { k + 1 }
            },
        };
        assert(e == (if elem_height(children@[i as int]) > usize::MAX { usize::MAX as nat } else { elem_height(children@[i as int]) }));
        if e > h {
            h = e;
        }
        i = i + 1;
    }
    assert(children@.take(i as int) =~= children@);
    h
}

/// The report for a source that formatting would change: the header, then
/// for each line position where the source and the formatted text differ
/// (a missing line counting as empty), the source line after `- ` and the
/// formatted one after `+ `, each where it exists.
pub open spec fn diff_line(a: Seq<Seq<char>>, b: Seq<Seq<char>>, i: int) -> Seq<char> {
    let o = if i < a.len() { a[i] } else { seq![] };
    let f = if i < b.len() { b[i] } else { seq![] };
    if o == f {
        seq![]
    } else {
        (if i < a.len() { "- "@ + o + "\n"@ } else { seq![] }) + (if i < b.len() { "+ "@ + f + "\n"@ } else { seq![] })
    }
}

pub open spec fn diff_lines(a: Seq<Seq<char>>, b: Seq<Seq<char>>, n: nat) -> Seq<char>
    decreases n,
{
    if n == 0 { seq![] } else { diff_lines(a, b, (n - 1) as nat) + diff_line(a, b, n - 1) }
}

pub open spec fn format_report(src: Seq<char>, fmt: Seq<char>) -> Seq<char> {
    let a = lines_of(src);
    let b = lines_of(fmt);
    "Formatting would change the file:\n\n--- original\n+++ formatted\n"@ + diff_lines(a, b, if a.len() >= b.len() { a.len() } else { b.len() })
}

/// What checking `src` against its formatted text `fmt` gives.
pub open spec fn format_check(src: Seq<char>, fmt: Seq<char>) -> Result<(), Seq<char>> {
    if src == fmt { Ok(()) } else { Err(format_report(src, fmt)) }
}

/// The error when the blocks of a source nest deeper than the formatter
/// can count (more than `usize::MAX / 4` levels).
pub open spec fn nesting_error() -> Seq<char> {
    "Formatting would change the file: blocks nest too deeply to format"@
}

fn push_diff_line(out: &mut String, a: &Vec<String>, b: &Vec<String>, i: usize)
    ensures
        final(out)@ == old(out)@ + diff_line(string_seq_view(a@), string_seq_view(b@), i as int),
{
    let ghost av = string_seq_view(a@);
    let ghost bv = string_seq_view(b@);
    let empty = String::new();
    let o: &String = if i < a.len() { &a[i] } else { &empty };
    let f: &String = if i < b.len() { &b[i] } else { &empty };
    assert(o@ == (if i < av.len() { av[i as int] } else { seq![] }));
    assert(f@ == (if i < bv.len() { bv[i as int] } else { seq![] }));
    if crate::text::str_eq(o.as_str(), f.as_str()) {
        assert(out@ =~= old(out)@ + diff_line(av, bv, i as int));
        return;
    }
    let ghost start = out@;
    let ghost first: Seq<char> = if (i as int) < av.len() { "- "@ + o@ + "\n"@ } else { seq![] };
    if i < a.len() {
        push_str(out, "- ");
        push_str(out, o.as_str());
        push_str(out, "\n");
    }
    assert(out@ =~= start + first);
    let ghost mid = out@;
    let ghost second: Seq<char> = if (i as int) < bv.len() { "+ "@ + f@ + "\n"@ } else { seq![] };
    if i < b.len() {
        push_str(out, "+ ");
        push_str(out, f.as_str());
        push_str(out, "\n");
    }
    assert(out@ =~= mid + second);
    assert(out@ =~= old(out)@ + diff_line(av, bv, i as int));
}


/// The stage-0 token kind a complete-lexer kind is read as: the kind of the
/// same name, or `Ident` for a kind the stage-0 lexer does not have (the
/// tree and the formatter treat such tokens as they treat identifiers).
pub open spec fn stage0_kind(k: CK) -> TokenKind {
    match k {
        CK::Ident => TokenKind::Ident,
        CK::StringLiteral => TokenKind::StringLiteral,
        CK::InterpolatedString => TokenKind::InterpolatedString,
        CK::Number => TokenKind::Number,
        CK::Newline => TokenKind::Newline,
        CK::Indent => TokenKind::Indent,
        CK::Dedent => TokenKind::Dedent,
        CK::LineComment => TokenKind::LineComment,
        CK::BlockComment => TokenKind::BlockComment,
        CK::DocComment => TokenKind::DocComment,
        CK::Equals => TokenKind::Equals,
        CK::Plus => TokenKind::Plus,
        CK::Minus => TokenKind::Minus,
        CK::Star => TokenKind::Star,
        CK::Slash => TokenKind::Slash,
        CK::Percent => TokenKind::Percent,
        CK::EqEq => TokenKind::EqEq,
        CK::NotEq => TokenKind::NotEq,
        CK::Lt => TokenKind::Lt,
        CK::LtEq => TokenKind::LtEq,
        CK::Gt => TokenKind::Gt,
        CK::GtEq => TokenKind::GtEq,
        CK::AndAnd => TokenKind::AndAnd,
        CK::OrOr => TokenKind::OrOr,
        CK::Bang => TokenKind::Bang,
        CK::LParen => TokenKind::LParen,
        CK::RParen => TokenKind::RParen,
        CK::Arrow => TokenKind::Arrow,
        CK::FatArrow => TokenKind::FatArrow,
        CK::LBracket => TokenKind::LBracket,
        CK::RBracket => TokenKind::RBracket,
        CK::Comma => TokenKind::Comma,
        CK::Colon => TokenKind::Colon,
        CK::Dot => TokenKind::Dot,
        CK::DotDot => TokenKind::DotDot,
        CK::DotDotDot => TokenKind::DotDotDot,
        CK::True => TokenKind::True,
        CK::False => TokenKind::False,
        CK::Linear => TokenKind::Linear,
        CK::Unsafe => TokenKind::Unsafe,
        CK::Enum => TokenKind::Enum,
        CK::Variant => TokenKind::Variant,
        CK::Match => TokenKind::Match,
        CK::If => TokenKind::If,
        CK::Then => TokenKind::Then,
        CK::Else => TokenKind::Else,
        CK::Pipe => TokenKind::Pipe,
        CK::Eof => TokenKind::Eof,
        _ => TokenKind::Ident,
    }
}

fn stage0_kind_exec(k: CK) -> (r: TokenKind)
    ensures
        r == stage0_kind(k),
{
    match k {
        CK::Ident => TokenKind::Ident,
        CK::StringLiteral => TokenKind::StringLiteral,
        CK::InterpolatedString => TokenKind::InterpolatedString,
        CK::Number => TokenKind::Number,
        CK::Newline => TokenKind::Newline,
        CK::Indent => TokenKind::Indent,
        CK::Dedent => TokenKind::Dedent,
        CK::LineComment => TokenKind::LineComment,
        CK::BlockComment => TokenKind::BlockComment,
        CK::DocComment => TokenKind::DocComment,
        CK::Equals => TokenKind::Equals,
        CK::Plus => TokenKind::Plus,
        CK::Minus => TokenKind::Minus,
        CK::Star => TokenKind::Star,
        CK::Slash => TokenKind::Slash,
        CK::Percent => TokenKind::Percent,
        CK::EqEq => TokenKind::EqEq,
        CK::NotEq => TokenKind::NotEq,
        CK::Lt => TokenKind::Lt,
        CK::LtEq => TokenKind::LtEq,
        CK::Gt => TokenKind::Gt,
        CK::GtEq => TokenKind::GtEq,
        CK::AndAnd => TokenKind::AndAnd,
        CK::OrOr => TokenKind::OrOr,
        CK::Bang => TokenKind::Bang,
        CK::LParen => TokenKind::LParen,
        CK::RParen => TokenKind::RParen,
        CK::Arrow => TokenKind::Arrow,
        CK::FatArrow => TokenKind::FatArrow,
        CK::LBracket => TokenKind::LBracket,
        CK::RBracket => TokenKind::RBracket,
        CK::Comma => TokenKind::Comma,
        CK::Colon => TokenKind::Colon,
        CK::Dot => TokenKind::Dot,
        CK::DotDot => TokenKind::DotDot,
        CK::DotDotDot => TokenKind::DotDotDot,
        CK::True => TokenKind::True,
        CK::False => TokenKind::False,
        CK::Linear => TokenKind::Linear,
        CK::Unsafe => TokenKind::Unsafe,
        CK::Enum => TokenKind::Enum,
        CK::Variant => TokenKind::Variant,
        CK::Match => TokenKind::Match,
        CK::If => TokenKind::If,
        CK::Then => TokenKind::Then,
        CK::Else => TokenKind::Else,
        CK::Pipe => TokenKind::Pipe,
        CK::Eof => TokenKind::Eof,
        _ => TokenKind::Ident,
    }
}

/// Complete-lexer token views read as stage-0 token views.
pub open spec fn stage0_views(vs: Seq<crate::complete_lexer::TokenView>) -> Seq<crate::lexer::TokenView> {
    vs.map_values(|v: crate::complete_lexer::TokenView| (stage0_kind(v.0), v.1, v.2, v.3))
}

fn stage0_tokens(ts: &Vec<crate::complete_lexer::Token>) -> (r: Vec<Token>)
    ensures
        lexer_token_views(r@) == stage0_views(crate::complete_lexer::token_views(ts@)),
{
    let mut out: Vec<Token> = Vec::new();
    let mut i: usize = 0;
    while i < ts.len()
        invariant
            i <= ts@.len(),
            out@.len() == i,
            forall|q: int| 0 <= q < i ==> (#[trigger] out@[q])@ == (stage0_kind(ts@[q].kind), ts@[q].text@, ts@[q].line as nat, ts@[q].col as nat),
        decreases ts.len() - i,
    {
        let t = &ts[i];
        out.push(Token { kind: stage0_kind_exec(t.kind), text: t.text.clone(), line: t.line, col: t.col });
        i = i + 1;
    }
    assert(lexer_token_views(out@) =~= stage0_views(crate::complete_lexer::token_views(ts@)));
    out
}

proof fn lemma_stage0_layout(vs: Seq<crate::complete_lexer::TokenView>, s: Seq<Token>)
    requires
        lexer_token_views(s) == stage0_views(vs),
    ensures
        layout_depth(s) == crate::complete_lexer::view_depth(vs),
        layout_prefix_ok(s) == crate::complete_lexer::view_prefix_ok(vs, 0),
    decreases s.len(),
{
    assert(lexer_token_views(s).len() == s.len());
    assert(stage0_views(vs).len() == vs.len());
    if s.len() > 0 {
        assert forall|i: int| 0 <= i < s.len() - 1 implies #[trigger] lexer_token_views(s.drop_last())[i] == stage0_views(vs.drop_last())[i] by {
            assert(lexer_token_views(s)[i] == stage0_views(vs)[i]);
        }
        assert(lexer_token_views(s.drop_last()) =~= stage0_views(vs.drop_last()));
        lemma_stage0_layout(vs.drop_last(), s.drop_last());
        assert(lexer_token_views(s)[s.len() - 1] == stage0_views(vs)[s.len() - 1]);
    } else {
        assert(vs.len() == 0);
    }
}

/// Checks that `source` is already formatted: it is lexed by the complete
/// lexer, built into a tree and formatted; the result is `Ok` when the text
/// is unchanged, else a report of the lines that differ. A lexer error is
/// reported as such. (The inputs on which the lexer cannot run, which
/// `lex_panics` tells, are left out.)
pub fn check_format(source: &str) -> (r: Result<(), String>)
    requires
        !(lex_run(source@, initial_state()) is Panics),
    ensures
        match lex_run(source@, initial_state()) {
            LexOutcome::Failed(e) => r matches Err(m) && m@ == "Lexer error: "@ + e,
            LexOutcome::Done(vs) => exists|ts: Seq<Token>| {
                &&& #[trigger] lexer_token_views(ts) == stage0_views(vs)
                &&& tree_ok(ts, 0, ts.len() as int)
                &&& {
                    let t = tree_of(ts, 0, ts.len() as int);
                    if views_height(t) > usize::MAX / 4 {
                        r matches Err(m) && m@ == nesting_error()
                    } else {
                        match format_check(source@, fmt_views(t, 0, (seq![], true)).0) {
                            Ok(()) => r is Ok,
                            Err(d) => r matches Err(m) && m@ == d,
                        }
                    }
                }
            },
            LexOutcome::Panics => false,
        },
{
    let complete = match tokenize_complete(source) {
        Ok(ts) => ts,
        Err(e) => {
            let mut m = String::from_str("Lexer error: ");
            push_str(&mut m, e.as_str());
            return Err(m);
        },
    };
    let tokens = stage0_tokens(&complete);
    proof {
        let vs = crate::complete_lexer::token_views(complete@);
        crate::complete_lexer::law_complete_lexer_layout(source@);
        lemma_stage0_layout(vs, tokens@);
        law_balanced_tokens_build_a_tree(tokens@);
    }
    let root = build_cst(tokens.as_slice());
    proof {
        lemma_elems_by_view(root.children@, 0, (seq![], true));
    }
    let h = children_height(&root.children);
    if h > usize::MAX / 4 {
        return Err(String::from_str("Formatting would change the file: blocks nest too deeply to format"));
    }
    let formatted_text = format_cst_source(&root);
    if crate::text::str_eq(source, formatted_text.as_str()) {
        return Ok(());
    }
    let a = lines(source);
    let b = lines(formatted_text.as_str());
    let n: usize = if a.len() >= b.len() { a.len() } else { b.len() };
    let mut diff = String::from_str("Formatting would change the file:\n\n--- original\n+++ formatted\n");
    let ghost head = diff@;
    let mut i: usize = 0;
    while i < n
        invariant
            i <= n,
            n == (if a@.len() >= b@.len() { a@.len() } else { b@.len() }),
            diff@ == head + diff_lines(string_seq_view(a@), string_seq_view(b@), i as nat),
        decreases n - i,
    {
        push_diff_line(&mut diff, &a, &b, i);
        assert(diff@ =~= head + diff_lines(string_seq_view(a@), string_seq_view(b@), (i + 1) as nat));
        i = i + 1;
    }
    proof {
        reveal_strlit("Formatting would change the file:\n\n--- original\n+++ formatted\n");
    }
    Err(diff)
}

} // verus!
