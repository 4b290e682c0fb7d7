//! A lossless concrete syntax tree: tokens grouped into statements and blocks.

use vstd::prelude::*;
use crate::lexer::{
    initial_state, layout_balanced, layout_delta, layout_depth, layout_prefix_ok, lemma_run_layout, lex_run,
    view_depth, view_prefix_ok, LexOutcome, Token, TokenKind,
};
use crate::lexer::token_views as lexer_token_views;
use crate::formatter::{elem_height, elems_height, spaces};
use crate::text::{decimal, push_str, push_decimal};

verus! {

#[derive(Debug, Clone, Copy, PartialEq, Eq, Structural)]
pub enum SyntaxKind {
    Root,
    Block,
    Statement,
    TokenIdent,
    TokenNumber,
    TokenString,
    TokenEquals,
    TokenNewline,
    TokenIndent,
    TokenDedent,
    TokenCommentLine,
    TokenCommentBlock,
    TokenDocComment,
    TokenOther,
}

#[derive(Debug, Clone)]
pub struct SyntaxToken {
    pub kind: SyntaxKind,
    pub text: String,
    pub line: usize,
    pub col: usize,
}

#[derive(Debug)]
pub enum SyntaxElement {
    Node(SyntaxNode),
    Token(SyntaxToken),
}

#[derive(Debug)]
pub struct SyntaxNode {
    pub kind: SyntaxKind,
    pub children: Vec<SyntaxElement>,
}

impl SyntaxNode {
    pub fn new(kind: SyntaxKind) -> (n: Self)
        ensures
            n.kind == kind,
            n.children@.len() == 0,
    {
        SyntaxNode { kind, children: Vec::new() }
    }
}

/// The syntax kind of a token kind.
pub open spec fn syntax_kind_of(k: TokenKind) -> SyntaxKind {
    match k {
        TokenKind::Ident => SyntaxKind::TokenIdent,
        TokenKind::Number => SyntaxKind::TokenNumber,
        TokenKind::StringLiteral => SyntaxKind::TokenString,
        TokenKind::Equals => SyntaxKind::TokenEquals,
        TokenKind::Newline => SyntaxKind::TokenNewline,
        TokenKind::Indent => SyntaxKind::TokenIndent,
        TokenKind::Dedent => SyntaxKind::TokenDedent,
        TokenKind::LineComment => SyntaxKind::TokenCommentLine,
        TokenKind::BlockComment => SyntaxKind::TokenCommentBlock,
        TokenKind::DocComment => SyntaxKind::TokenDocComment,
        _ => SyntaxKind::TokenOther,
    }
}

/// The abstract content of a syntax token: kind, text, line and column.
pub type SyntaxTokenView = (SyntaxKind, Seq<char>, usize, usize);

/// The syntax token a lexer token becomes.
pub open spec fn token_view(t: Token) -> SyntaxTokenView {
    (syntax_kind_of(t.kind), t.text@, t.line, t.col)
}

pub open spec fn syntax_token_view(t: SyntaxToken) -> SyntaxTokenView {
    (t.kind, t.text@, t.line, t.col)
}

/// The tokens of an element, in order.
pub open spec fn flat_elem(e: SyntaxElement) -> Seq<SyntaxTokenView>
    decreases e,
{
    match e {
        SyntaxElement::Token(t) => seq![syntax_token_view(t)],
        SyntaxElement::Node(n) => flat_elems(n.children@),
    }
}

/// The tokens of a sequence of elements, in order.
pub open spec fn flat_elems(es: Seq<SyntaxElement>) -> Seq<SyntaxTokenView>
    decreases es,
{
    if es.len() == 0 {
        seq![]
    } else {
        flat_elems(es.drop_last()) + flat_elem(es.last())
    }
}

fn map_token_kind(t: &Token) -> (k: SyntaxKind)
    ensures
        k == syntax_kind_of(t.kind),
{
    match t.kind {
        TokenKind::Ident => SyntaxKind::TokenIdent,
        TokenKind::Number => SyntaxKind::TokenNumber,
        TokenKind::StringLiteral => SyntaxKind::TokenString,
        TokenKind::Equals => SyntaxKind::TokenEquals,
        TokenKind::Newline => SyntaxKind::TokenNewline,
        TokenKind::Indent => SyntaxKind::TokenIndent,
        TokenKind::Dedent => SyntaxKind::TokenDedent,
        TokenKind::LineComment => SyntaxKind::TokenCommentLine,
        TokenKind::BlockComment => SyntaxKind::TokenCommentBlock,
        TokenKind::DocComment => SyntaxKind::TokenDocComment,
        _ => SyntaxKind::TokenOther,
    }
}

fn token_to_element(t: &Token) -> (e: SyntaxElement)
    ensures
        flat_elem(e) == seq![token_view(*t)],
        elem_view(e) == ElemView::Tok(token_view(*t)),
        e is Token,
{
    SyntaxElement::Token(SyntaxToken { kind: map_token_kind(t), text: t.text.clone(), line: t.line, col: t.col })
}

/// The layout depth of `s[p..q]`.
pub open spec fn span_depth(s: Seq<Token>, p: int, q: int) -> int {
    layout_depth(s.subrange(p, q))
}

/// The indent at `p` is brought back to depth zero by the token at `q`.
pub open spec fn closes_at(s: Seq<Token>, p: int, q: int) -> bool {
    span_depth(s, p, q + 1) == 0
}

/// Every indent in `s[lo..hi]` is closed by a dedent within `s[lo..hi]`:
/// some later position brings the depth counted from the indent back to zero.
pub open spec fn blocks_closed(s: Seq<Token>, lo: int, hi: int) -> bool {
    forall|p: int| #![trigger s[p]] lo <= p < hi && s[p].kind == TokenKind::Indent
        ==> exists|q: int| p < q < hi && #[trigger] closes_at(s, p, q)
}

proof fn lemma_span_depth_step(s: Seq<Token>, p: int, q: int)
    requires
        0 <= p <= q < s.len(),
    ensures
        span_depth(s, p, q + 1) == span_depth(s, p, q) + layout_delta(s[q].kind),
{
    assert(s.subrange(p, q + 1).drop_last() =~= s.subrange(p, q));
}

proof fn lemma_span_depth_split(s: Seq<Token>, p: int, m: int, q: int)
    requires
        0 <= p <= m <= q <= s.len(),
    ensures
        span_depth(s, p, q) == span_depth(s, p, m) + span_depth(s, m, q),
    decreases q - m,
{
    if q > m {
        lemma_span_depth_split(s, p, m, q - 1);
        lemma_span_depth_step(s, p, q - 1);
        lemma_span_depth_step(s, m, q - 1);
    } else {
        assert(s.subrange(m, q) =~= Seq::<Token>::empty());
    }
}

/// Discrete intermediate value: a depth that starts at or above zero and ends
/// below zero passes through zero on the way.
proof fn lemma_depth_crosses_zero(s: Seq<Token>, p: int, a: int, b: int)
    requires
        0 <= p <= a <= b <= s.len(),
        span_depth(s, p, a) >= 0,
        span_depth(s, p, b) < 0,
    ensures
        exists|r: int| a <= r < b && span_depth(s, p, r) == 0,
    decreases b - a,
{
    if span_depth(s, p, a) == 0 {
    } else {
        lemma_span_depth_step(s, p, a);
        lemma_depth_crosses_zero(s, p, a + 1, b);
    }
}

proof fn lemma_prefix_depths(s: Seq<Token>, k: int)
    requires
        layout_prefix_ok(s),
        0 <= k <= s.len(),
    ensures
        layout_depth(s.take(k)) >= 0,
    decreases s.len(),
{
    if s.len() > 0 {
        if k == s.len() {
            assert(s.take(k) =~= s);
        } else {
            assert(s.drop_last().take(k) =~= s.take(k));
            lemma_prefix_depths(s.drop_last(), k);
        }
    } else {
        assert(s.take(k) =~= s);
    }
}

/// A balanced token stream has every block closed.
proof fn lemma_balanced_blocks_closed(s: Seq<Token>)
    requires
        layout_balanced(s),
    ensures
        blocks_closed(s, 0, s.len() as int),
{
    let n = s.len() as int;
    assert forall|p: int| #![trigger s[p]] 0 <= p < n && s[p].kind == TokenKind::Indent
        implies exists|q: int| p < q < n && #[trigger] closes_at(s, p, q) by {
        lemma_span_depth_split(s, 0, p, n);
        assert(s.subrange(0, n) =~= s);
        assert(s.subrange(0, p) =~= s.take(p));
        lemma_prefix_depths(s, p);
        assert(s.subrange(p, p) =~= Seq::<Token>::empty());
        lemma_span_depth_step(s, p, p);
        assert(span_depth(s, p, p + 1) == 1);
        if span_depth(s, p, n) == 0 {
            assert(closes_at(s, p, n - 1));
        } else {
            lemma_depth_crosses_zero(s, p, p + 1, n);
            let r = choose|r: int| p + 1 <= r < n && span_depth(s, p, r) == 0;
            assert(closes_at(s, p, r - 1));
        }
    }
}

proof fn lemma_views_layout(s: Seq<Token>)
    ensures
        layout_depth(s) == view_depth(lexer_token_views(s)),
        layout_prefix_ok(s) == view_prefix_ok(lexer_token_views(s), 0),
    decreases s.len(),
{
    if s.len() > 0 {
        lemma_views_layout(s.drop_last());
        assert(lexer_token_views(s).drop_last() =~= lexer_token_views(s.drop_last()));
    } else {
        assert(lexer_token_views(s) =~= Seq::<crate::lexer::TokenView>::empty());
    }
}

/// What the stage-0 lexer produces from a fresh start closes every block it
/// opens and never closes one it did not open, so every indent has its
/// matching dedent and the tokens can be built into a tree.
pub proof fn law_lexer_output_builds_a_tree(src: Seq<char>, tokens: Seq<Token>)
    requires
        lex_run(src, initial_state()) == LexOutcome::Done(lexer_token_views(tokens)),
    ensures
        layout_balanced(tokens),
        blocks_closed(tokens, 0, tokens.len() as int),
        tree_ok(tokens, 0, tokens.len() as int),
{
    lemma_run_layout(src, initial_state());
    lemma_views_layout(tokens);
    lemma_balanced_blocks_closed(tokens);
    lemma_closed_tree_ok(tokens, 0, tokens.len() as int);
}

/// Within a block closed at `end`, every inner indent is closed before `end`.
proof fn lemma_inner_closed(s: Seq<Token>, i: int, end: int, hi: int)
    requires
        0 <= i < end < hi <= s.len(),
        blocks_closed(s, i, hi),
        s[i].kind == TokenKind::Indent,
        span_depth(s, i, end + 1) == 0,
        forall|r: int| i < r <= end ==> span_depth(s, i, r) > 0,
    ensures
        blocks_closed(s, i + 1, end),
{
    assert forall|p: int| #![trigger s[p]] i + 1 <= p < end && s[p].kind == TokenKind::Indent
        implies exists|q: int| p < q < end && #[trigger] closes_at(s, p, q) by {
        lemma_span_depth_split(s, i, p, end + 1);
        assert(span_depth(s, i, p) > 0);
        assert(span_depth(s, p, end + 1) < 0);
        assert(s.subrange(p, p) =~= Seq::<Token>::empty());
        assert(span_depth(s, p, p) == 0);
        lemma_span_depth_step(s, p, p);
        assert(span_depth(s, p, p + 1) == 1);
        lemma_depth_crosses_zero(s, p, p + 1, end + 1);
        let r = choose|r: int| p + 1 <= r < end + 1 && span_depth(s, p, r) == 0;
        assert(closes_at(s, p, r - 1));
    }
}

pub open spec fn token_views(s: Seq<Token>) -> Seq<SyntaxTokenView> {
    s.map_values(|t: Token| token_view(t))
}

// ---------------------------------------------------------------------------
// The shape of the tree
// ---------------------------------------------------------------------------

/// The abstract content of a tree element.
pub enum ElemView {
    Node(SyntaxKind, Seq<ElemView>),
    Tok(SyntaxTokenView),
}

pub open spec fn elem_view(e: SyntaxElement) -> ElemView
    decreases e,
{
    match e {
        SyntaxElement::Token(t) => ElemView::Tok(syntax_token_view(t)),
        SyntaxElement::Node(n) => ElemView::Node(n.kind, elems_view(n.children@)),
    }
}

pub open spec fn elems_view(es: Seq<SyntaxElement>) -> Seq<ElemView>
    decreases es,
{
    if es.len() == 0 { seq![] } else { elems_view(es.drop_last()).push(elem_view(es.last())) }
}

/// The tokens of an element view, in order.
pub open spec fn flat_view(e: ElemView) -> Seq<SyntaxTokenView>
    decreases e,
{
    match e {
        ElemView::Tok(t) => seq![t],
        ElemView::Node(_, kids) => flat_views(kids),
    }
}

pub open spec fn flat_views(es: Seq<ElemView>) -> Seq<SyntaxTokenView>
    decreases es,
{
    if es.len() == 0 { seq![] } else { flat_views(es.drop_last()) + flat_view(es.last()) }
}

/// Searching from `q` for the dedent that closes the indent at `i`: the first
/// position where the depth counted from the indent returns to zero, or the
/// last position before `hi` when there is none.
pub open spec fn block_end_from(s: Seq<Token>, i: int, q: int, hi: int) -> int
    decreases hi - q,
{
    if q >= hi {
        hi - 1
    } else if span_depth(s, i, q + 1) == 0 {
        q
    } else {
        block_end_from(s, i, q + 1, hi)
    }
}

/// Where the block opened by the indent at `i` ends within `s[..hi]`.
pub open spec fn block_end(s: Seq<Token>, i: int, hi: int) -> int {
    block_end_from(s, i, i + 1, hi)
}

/// Whether a token ends a statement.
pub open spec fn breaks_statement(k: TokenKind) -> bool {
    k == TokenKind::Newline || k == TokenKind::Indent || k == TokenKind::Dedent
}

/// Where the statement starting at `i` ends: the first newline, indent or
/// dedent at or after `i`, or `hi`.
pub open spec fn stmt_end(s: Seq<Token>, i: int, hi: int) -> int
    decreases hi - i,
{
    if i >= hi || breaks_statement(s[i].kind) { i } else { stmt_end(s, i + 1, hi) }
}

/// The statement node of the tokens `s[a..b]`.
pub open spec fn statement_view(s: Seq<Token>, a: int, b: int) -> ElemView {
    ElemView::Node(SyntaxKind::Statement, Seq::new((b - a) as nat, |m: int| ElemView::Tok(token_view(s[a + m]))))
}

/// The elements built from `s[lo..hi]`: an indent opens a block that holds
/// the indent, the elements up to its closing position, and the token there;
/// a dedent or newline stands alone; anything else starts a statement that
/// runs up to the next newline, indent or dedent.
pub open spec fn tree_of(s: Seq<Token>, lo: int, hi: int) -> Seq<ElemView>
    decreases hi - lo,
{
    if lo >= hi {
        seq![]
    } else if s[lo].kind == TokenKind::Indent {
        let e = block_end(s, lo, hi);
        if lo + 1 <= e && e < hi {
            seq![ElemView::Node(
                SyntaxKind::Block,
                seq![ElemView::Tok(token_view(s[lo]))] + tree_of(s, lo + 1, e) + seq![ElemView::Tok(token_view(s[e]))],
            )] + tree_of(s, e + 1, hi)
        } else {
            seq![]
        }
    } else if s[lo].kind == TokenKind::Dedent || s[lo].kind == TokenKind::Newline {
        seq![ElemView::Tok(token_view(s[lo]))] + tree_of(s, lo + 1, hi)
    } else {
        let k = stmt_end(s, lo + 1, hi);
        if lo < k && k <= hi {
            seq![statement_view(s, lo, k)] + tree_of(s, k, hi)
        } else {
            seq![]
        }
    }
}

/// The tokens `s[lo..hi]` can be grouped without failing: no indent without
/// a closing dedent is the last token of the range it is grouped in.
pub open spec fn tree_ok(s: Seq<Token>, lo: int, hi: int) -> bool
    decreases hi - lo,
{
    if lo >= hi {
        true
    } else if s[lo].kind == TokenKind::Indent {
        let e = block_end(s, lo, hi);
        lo + 1 <= e && e < hi && tree_ok(s, lo + 1, e) && tree_ok(s, e + 1, hi)
    } else if s[lo].kind == TokenKind::Dedent || s[lo].kind == TokenKind::Newline {
        tree_ok(s, lo + 1, hi)
    } else {
        let k = stmt_end(s, lo + 1, hi);
        lo < k && k <= hi && tree_ok(s, k, hi)
    }
}

proof fn lemma_stmt_end_bounds(s: Seq<Token>, i: int, hi: int)
    requires
        i <= hi,
    ensures
        i <= stmt_end(s, i, hi) <= hi,
        forall|m: int| i <= m < stmt_end(s, i, hi) ==> !breaks_statement(#[trigger] s[m].kind),
        stmt_end(s, i, hi) < hi ==> breaks_statement(s[stmt_end(s, i, hi)].kind),
    decreases hi - i,
{
    if i < hi && !breaks_statement(s[i].kind) {
        lemma_stmt_end_bounds(s, i + 1, hi);
    }
}

proof fn lemma_elems_view_push(es: Seq<SyntaxElement>, e: SyntaxElement)
    ensures
        elems_view(es.push(e)) == elems_view(es).push(elem_view(e)),
{
    assert(es.push(e).drop_last() =~= es);
}

proof fn lemma_flat_views_concat(a: Seq<ElemView>, b: Seq<ElemView>)
    ensures
        flat_views(a + b) == flat_views(a) + flat_views(b),
    decreases b.len(),
{
    if b.len() == 0 {
        assert(a + b =~= a);
    } else {
        lemma_flat_views_concat(a, b.drop_last());
        assert((a + b).drop_last() =~= a + b.drop_last());
    }
}

proof fn lemma_flat_statement(s: Seq<Token>, a: int, b: int)
    requires
        0 <= a <= b <= s.len(),
    ensures
        flat_view(statement_view(s, a, b)) == token_views(s.subrange(a, b)),
    decreases b - a,
{
    let kids = Seq::new((b - a) as nat, |m: int| ElemView::Tok(token_view(s[a + m])));
    assert(flat_view(statement_view(s, a, b)) == flat_views(kids));
    if b > a {
        lemma_flat_statement(s, a, b - 1);
        let shorter = Seq::new((b - 1 - a) as nat, |m: int| ElemView::Tok(token_view(s[a + m])));
        assert(kids.drop_last() =~= shorter);
        assert(flat_view(statement_view(s, a, b - 1)) == flat_views(shorter));
        assert(kids.last() == ElemView::Tok(token_view(s[b - 1])));
        assert(flat_view(kids.last()) =~= seq![token_view(s[b - 1])]);
        assert(flat_views(kids) == flat_views(kids.drop_last()) + flat_view(kids.last()));
        assert(token_views(s.subrange(a, b)) =~= token_views(s.subrange(a, b - 1)) + seq![token_view(s[b - 1])]);
    } else {
        assert(kids =~= Seq::<ElemView>::empty());
        assert(flat_views(kids) =~= Seq::<SyntaxTokenView>::empty());
        assert(token_views(s.subrange(a, b)) =~= Seq::<SyntaxTokenView>::empty());
    }
}

proof fn lemma_flat_single(e: ElemView)
    ensures
        flat_views(seq![e]) == flat_view(e),
{
    let empty = Seq::<ElemView>::empty();
    assert(seq![e].drop_last() =~= empty);
    assert(flat_views(empty) =~= Seq::<SyntaxTokenView>::empty());
    assert(flat_views(empty) + flat_view(e) =~= flat_view(e));
}

/// The tree of a range holds every token of the range once, in order.
pub proof fn law_tree_keeps_tokens(s: Seq<Token>, lo: int, hi: int)
    requires
        0 <= lo <= hi <= s.len(),
        tree_ok(s, lo, hi),
    ensures
        flat_views(tree_of(s, lo, hi)) == token_views(s.subrange(lo, hi)),
    decreases hi - lo,
{
    if lo >= hi {
        assert(token_views(s.subrange(lo, hi)) =~= Seq::<SyntaxTokenView>::empty());
    } else if s[lo].kind == TokenKind::Indent {
        let e = block_end(s, lo, hi);
        law_tree_keeps_tokens(s, lo + 1, e);
        law_tree_keeps_tokens(s, e + 1, hi);
        let open = seq![ElemView::Tok(token_view(s[lo]))];
        let close = seq![ElemView::Tok(token_view(s[e]))];
        let mid = tree_of(s, lo + 1, e);
        lemma_flat_single(open[0]);
        lemma_flat_single(close[0]);
        lemma_flat_views_concat(open, mid);
        lemma_flat_views_concat(open + mid, close);
        let node = ElemView::Node(SyntaxKind::Block, open + mid + close);
        lemma_flat_single(node);
        lemma_flat_views_concat(seq![node], tree_of(s, e + 1, hi));
        assert(s.subrange(lo, hi) =~= seq![s[lo]] + s.subrange(lo + 1, e) + seq![s[e]] + s.subrange(e + 1, hi));
        assert(token_views(s.subrange(lo, hi)) =~= seq![token_view(s[lo])] + token_views(s.subrange(lo + 1, e))
            + seq![token_view(s[e])] + token_views(s.subrange(e + 1, hi)));
    } else if s[lo].kind == TokenKind::Dedent || s[lo].kind == TokenKind::Newline {
        law_tree_keeps_tokens(s, lo + 1, hi);
        let t = ElemView::Tok(token_view(s[lo]));
        lemma_flat_single(t);
        lemma_flat_views_concat(seq![t], tree_of(s, lo + 1, hi));
        assert(token_views(s.subrange(lo, hi)) =~= seq![token_view(s[lo])] + token_views(s.subrange(lo + 1, hi)));
    } else {
        let k = stmt_end(s, lo + 1, hi);
        law_tree_keeps_tokens(s, k, hi);
        lemma_flat_statement(s, lo, k);
        lemma_flat_single(statement_view(s, lo, k));
        lemma_flat_views_concat(seq![statement_view(s, lo, k)], tree_of(s, k, hi));
        assert(token_views(s.subrange(lo, hi)) =~= token_views(s.subrange(lo, k)) + token_views(s.subrange(k, hi)));
    }
}

proof fn lemma_flat_elems_views(es: Seq<SyntaxElement>)
    ensures
        flat_elems(es) == flat_views(elems_view(es)),
    decreases es,
{
    if es.len() > 0 {
        lemma_flat_elems_views(es.drop_last());
        lemma_flat_elem_view(es.last());
        assert(elems_view(es).drop_last() =~= elems_view(es.drop_last()));
        assert(elems_view(es).last() == elem_view(es.last()));
    } else {
        assert(elems_view(es) =~= Seq::<ElemView>::empty());
    }
}

proof fn lemma_flat_elem_view(e: SyntaxElement)
    ensures
        flat_elem(e) == flat_view(elem_view(e)),
    decreases e,
{
    match e {
        SyntaxElement::Node(n) => {
            lemma_flat_elems_views(n.children@);
        },
        _ => {},
    }
}

/// Where every indent of `s[lo..hi]` is closed within it, the tokens can be
/// grouped without failing.
/// A token list whose indents and dedents balance, with no prefix closing
/// more blocks than it opened, builds into a tree.
pub proof fn law_balanced_tokens_build_a_tree(s: Seq<Token>)
    requires
        layout_balanced(s),
    ensures
        blocks_closed(s, 0, s.len() as int),
        tree_ok(s, 0, s.len() as int),
{
    lemma_balanced_blocks_closed(s);
    lemma_closed_tree_ok(s, 0, s.len() as int);
}

/// Every token list in which each indent is brought back to its depth by a
/// later dedent builds into a tree, and the tree's tokens, read in order,
/// are the list's tokens.
pub proof fn law_matched_tokens_round_trip(s: Seq<Token>)
    requires
        blocks_closed(s, 0, s.len() as int),
    ensures
        tree_ok(s, 0, s.len() as int),
        flat_views(tree_of(s, 0, s.len() as int)) == token_views(s),
{
    lemma_closed_tree_ok(s, 0, s.len() as int);
    law_tree_keeps_tokens(s, 0, s.len() as int);
    assert(s.subrange(0, s.len() as int) =~= s);
}

proof fn lemma_closed_tree_ok(s: Seq<Token>, lo: int, hi: int)
    requires
        0 <= lo <= hi <= s.len(),
        blocks_closed(s, lo, hi),
    ensures
        tree_ok(s, lo, hi),
    decreases hi - lo,
{
    if lo >= hi {
    } else if s[lo].kind == TokenKind::Indent {
        let q = choose|q: int| lo < q < hi && #[trigger] closes_at(s, lo, q);
        assert(s.subrange(lo, lo) =~= Seq::<Token>::empty());
        lemma_span_depth_step(s, lo, lo);
        lemma_first_closing(s, lo, lo + 1, q, hi);
        let e = block_end(s, lo, hi);
        lemma_inner_closed(s, lo, e, hi);
        lemma_closed_tree_ok(s, lo + 1, e);
        assert(blocks_closed(s, e + 1, hi));
        lemma_closed_tree_ok(s, e + 1, hi);
    } else if s[lo].kind == TokenKind::Dedent || s[lo].kind == TokenKind::Newline {
        assert(blocks_closed(s, lo + 1, hi));
        lemma_closed_tree_ok(s, lo + 1, hi);
    } else {
        lemma_stmt_end_bounds(s, lo + 1, hi);
        let k = stmt_end(s, lo + 1, hi);
        assert(blocks_closed(s, k, hi));
        lemma_closed_tree_ok(s, k, hi);
    }
}

/// The search from `q` finds the first closing position, at or before a known
/// closing position `c`, and the depth stays positive before it.
proof fn lemma_first_closing(s: Seq<Token>, i: int, q: int, c: int, hi: int)
    requires
        0 <= i < q <= c < hi <= s.len(),
        closes_at(s, i, c),
        forall|r: int| i < r <= q ==> span_depth(s, i, r) > 0,
    ensures
        i < block_end_from(s, i, q, hi) <= c,
        span_depth(s, i, block_end_from(s, i, q, hi) + 1) == 0,
        forall|r: int| i < r <= block_end_from(s, i, q, hi) ==> span_depth(s, i, r) > 0,
    decreases c - q,
{
    if span_depth(s, i, q + 1) == 0 {
    } else {
        lemma_span_depth_step(s, i, q);
        assert(span_depth(s, i, q + 1) > 0);
        lemma_first_closing(s, i, q + 1, c, hi);
    }
}

fn is_statement_break(t: &Token) -> (b: bool)
    ensures
        b == breaks_statement(t.kind),
{
    match t.kind {
        TokenKind::Newline | TokenKind::Indent | TokenKind::Dedent => true,
        _ => false,
    }
}

/// Groups `tokens[lo..hi]` into statements and blocks, appended to `out`.
fn build_nodes(tokens: &[Token], lo: usize, hi: usize, out: &mut Vec<SyntaxElement>)
    requires
        lo <= hi <= tokens@.len(),
        tree_ok(tokens@, lo as int, hi as int),
    ensures
        elems_view(final(out)@) == elems_view(old(out)@) + tree_of(tokens@, lo as int, hi as int),
    decreases hi - lo,
{
    let ghost s = tokens@;
    let mut i = lo;
    assert(elems_view(out@) + tree_of(s, lo as int, hi as int) =~= elems_view(old(out)@) + tree_of(s, lo as int, hi as int));
    while i < hi
        invariant
            lo <= i <= hi,
            hi <= s.len(),
            s == tokens@,
            tree_ok(s, i as int, hi as int),
            elems_view(out@) + tree_of(s, i as int, hi as int) == elems_view(old(out)@) + tree_of(s, lo as int, hi as int),
        decreases hi - i,
    {
        let ghost before = out@;
        let ghost rest = tree_of(s, i as int, hi as int);
        match tokens[i].kind {
            TokenKind::Indent => {
                // find the matching dedent
                let mut depth: usize = 1;
                let mut j = i + 1;
                proof {
                    assert(s.subrange(i as int, i as int) =~= Seq::<Token>::empty());
                    lemma_span_depth_step(s, i as int, i as int);
                }
                while j < hi && depth > 0
                    invariant
                        i < j <= hi,
                        hi <= s.len(),
                        s == tokens@,
                        s[i as int].kind == TokenKind::Indent,
                        depth as int == span_depth(s, i as int, j as int),
                        depth as int <= j - i,
                        depth > 0 ==> block_end(s, i as int, hi as int) == block_end_from(s, i as int, j as int, hi as int),
                        depth == 0 ==> block_end(s, i as int, hi as int) == j - 1,
                    decreases hi - j,
                {
                    proof {
                        lemma_span_depth_step(s, i as int, j as int);
                    }
                    match tokens[j].kind {
                        TokenKind::Indent => depth = depth + 1,
                        TokenKind::Dedent => depth = depth - 1,
                        _ => {}
                    }
                    j = j + 1;
                }
                let end = j - 1;
                assert(end as int == block_end(s, i as int, hi as int));
                let mut node = SyntaxNode::new(SyntaxKind::Block);
                node.children.push(token_to_element(&tokens[i]));
                proof {
                    lemma_elems_view_push(Seq::<SyntaxElement>::empty(), node.children@[0]);
                    assert(node.children@ =~= Seq::<SyntaxElement>::empty().push(node.children@[0]));
                    assert(elems_view(Seq::<SyntaxElement>::empty()) =~= Seq::<ElemView>::empty());
                    assert(elems_view(node.children@) =~= seq![ElemView::Tok(token_view(s[i as int]))]);
                }
                build_nodes(tokens, i + 1, end, &mut node.children);
                let ghost mid = node.children@;
                node.children.push(token_to_element(&tokens[end]));
                proof {
                    lemma_elems_view_push(mid, node.children@.last());
                    assert(node.children@ =~= mid.push(node.children@.last()));
                    assert(elems_view(node.children@) =~= seq![ElemView::Tok(token_view(s[i as int]))]
                        + tree_of(s, (i + 1) as int, end as int) + seq![ElemView::Tok(token_view(s[end as int]))]);
                }
                out.push(SyntaxElement::Node(node));
                proof {
                    lemma_elems_view_push(before, out@.last());
                    assert(out@ =~= before.push(out@.last()));
                    assert(rest =~= seq![elem_view(out@.last())] + tree_of(s, j as int, hi as int));
                    assert(elems_view(out@) + tree_of(s, j as int, hi as int) =~= elems_view(before) + rest);
                }
                i = j;
            }
            TokenKind::Dedent | TokenKind::Newline => {
                out.push(token_to_element(&tokens[i]));
                proof {
                    lemma_elems_view_push(before, out@.last());
                    assert(out@ =~= before.push(out@.last()));
                    assert(rest =~= seq![elem_view(out@.last())] + tree_of(s, i + 1, hi as int));
                    assert(elems_view(out@) + tree_of(s, i + 1, hi as int) =~= elems_view(before) + rest);
                }
                i = i + 1;
            }
            _ => {
                // a statement runs until a newline, indent or dedent
                let start = i;
                let mut stmt = SyntaxNode::new(SyntaxKind::Statement);
                stmt.children.push(token_to_element(&tokens[i]));
                proof {
                    lemma_elems_view_push(Seq::<SyntaxElement>::empty(), stmt.children@[0]);
                    assert(stmt.children@ =~= Seq::<SyntaxElement>::empty().push(stmt.children@[0]));
                    assert(elems_view(Seq::<SyntaxElement>::empty()) =~= Seq::<ElemView>::empty());
                    assert(elems_view(stmt.children@) =~= Seq::new(1, |m: int| ElemView::Tok(token_view(s[start + m]))));
                    lemma_stmt_end_bounds(s, start + 1, hi as int);
                }
                i = i + 1;
                while i < hi && !is_statement_break(&tokens[i])
                    invariant
                        start < i <= hi,
                        hi <= s.len(),
                        s == tokens@,
                        stmt.kind == SyntaxKind::Statement,
                        stmt_end(s, start + 1, hi as int) == stmt_end(s, i as int, hi as int),
                        elems_view(stmt.children@) == Seq::new((i - start) as nat, |m: int| ElemView::Tok(token_view(s[start + m]))),
                    decreases hi - i,
                {
                    let ghost kids = stmt.children@;
                    stmt.children.push(token_to_element(&tokens[i]));
                    proof {
                        lemma_elems_view_push(kids, stmt.children@.last());
                        assert(stmt.children@ =~= kids.push(stmt.children@.last()));
                        assert(elems_view(stmt.children@) =~= Seq::new((i + 1 - start) as nat, |m: int| ElemView::Tok(token_view(s[start + m]))));
                    }
                    i = i + 1;
                }
                assert(i as int == stmt_end(s, start + 1, hi as int));
                let ghost st_view = elems_view(stmt.children@);
                out.push(SyntaxElement::Node(stmt));
                proof {
                    lemma_elems_view_push(before, out@.last());
                    assert(out@ =~= before.push(out@.last()));
                    assert(elem_view(out@.last()) == statement_view(s, start as int, i as int));
                    assert(rest =~= seq![elem_view(out@.last())] + tree_of(s, i as int, hi as int));
                    assert(elems_view(out@) + tree_of(s, i as int, hi as int) =~= elems_view(before) + rest);
                }
            }
        }
    }
    assert(tree_of(s, i as int, hi as int) =~= Seq::<ElemView>::empty());
    assert(elems_view(out@) =~= elems_view(out@) + tree_of(s, i as int, hi as int));
}

/// Groups a token stream into statements and blocks under a root node, as
/// `tree_of` describes; every token appears once, in order, as a leaf.
pub fn build_cst(tokens: &[Token]) -> (root: SyntaxNode)
    requires
        tree_ok(tokens@, 0, tokens@.len() as int),
    ensures
        root.kind == SyntaxKind::Root,
        elems_view(root.children@) == tree_of(tokens@, 0, tokens@.len() as int),
        flat_elems(root.children@) == token_views(tokens@),
{
    let mut root = SyntaxNode::new(SyntaxKind::Root);
    assert(elems_view(root.children@) =~= Seq::<ElemView>::empty());
    build_nodes(tokens, 0, tokens.len(), &mut root.children);
    proof {
        assert(elems_view(root.children@) =~= tree_of(tokens@, 0, tokens@.len() as int));
        law_tree_keeps_tokens(tokens@, 0, tokens@.len() as int);
        lemma_flat_elems_views(root.children@);
        assert(tokens@.subrange(0, tokens@.len() as int) =~= tokens@);
    }
    root
}

// ---------------------------------------------------------------------------
// Printing a tree
// ---------------------------------------------------------------------------

/// The name of a syntax kind, as its variant is spelled.
pub open spec fn kind_name(k: SyntaxKind) -> Seq<char> {
    match k {
        SyntaxKind::Root => "Root"@,
        SyntaxKind::Block => "Block"@,
        SyntaxKind::Statement => "Statement"@,
        SyntaxKind::TokenIdent => "TokenIdent"@,
        SyntaxKind::TokenNumber => "TokenNumber"@,
        SyntaxKind::TokenString => "TokenString"@,
        SyntaxKind::TokenEquals => "TokenEquals"@,
        SyntaxKind::TokenNewline => "TokenNewline"@,
        SyntaxKind::TokenIndent => "TokenIndent"@,
        SyntaxKind::TokenDedent => "TokenDedent"@,
        SyntaxKind::TokenCommentLine => "TokenCommentLine"@,
        SyntaxKind::TokenCommentBlock => "TokenCommentBlock"@,
        SyntaxKind::TokenDocComment => "TokenDocComment"@,
        SyntaxKind::TokenOther => "TokenOther"@,
    }
}

fn kind_name_str(k: SyntaxKind) -> (r: &'static str)
    ensures
        r@ == kind_name(k),
{
    match k {
        SyntaxKind::Root => "Root",
        SyntaxKind::Block => "Block",
        SyntaxKind::Statement => "Statement",
        SyntaxKind::TokenIdent => "TokenIdent",
        SyntaxKind::TokenNumber => "TokenNumber",
        SyntaxKind::TokenString => "TokenString",
        SyntaxKind::TokenEquals => "TokenEquals",
        SyntaxKind::TokenNewline => "TokenNewline",
        SyntaxKind::TokenIndent => "TokenIndent",
        SyntaxKind::TokenDedent => "TokenDedent",
        SyntaxKind::TokenCommentLine => "TokenCommentLine",
        SyntaxKind::TokenCommentBlock => "TokenCommentBlock",
        SyntaxKind::TokenDocComment => "TokenDocComment",
        SyntaxKind::TokenOther => "TokenOther",
    }
}

/// The line of a node: its kind, indented by `indent` spaces.
pub open spec fn node_line(k: SyntaxKind, indent: nat) -> Seq<char> {
    spaces(indent) + kind_name(k) + "\n"@
}

/// The line of a token under a node indented by `indent`: kind, text and
/// position.
pub open spec fn token_line(t: SyntaxToken, indent: nat) -> Seq<char> {
    spaces(indent) + "  TOKEN "@ + kind_name(t.kind) + " '"@ + t.text@ + "' ("@ + decimal(t.line as nat) + ":"@
        + decimal(t.col as nat) + ")\n"@
}

/// The printout of a child of a node indented by `indent`: a nested node two
/// spaces deeper, a token on a line of its own.
pub open spec fn tree_elem_text(e: SyntaxElement, indent: nat) -> Seq<char>
    decreases e,
{
    match e {
        SyntaxElement::Node(n) => node_line(n.kind, indent + 2) + tree_elems_text(n.children@, indent + 2),
        SyntaxElement::Token(t) => token_line(t, indent),
    }
}

pub open spec fn tree_elems_text(es: Seq<SyntaxElement>, indent: nat) -> Seq<char>
    decreases es,
{
    if es.len() == 0 {
        seq![]
    } else {
        tree_elems_text(es.drop_last(), indent) + tree_elem_text(es.last(), indent)
    }
}

/// The printout of a tree whose root is indented by `indent` spaces.
pub open spec fn tree_text(node: SyntaxNode, indent: nat) -> Seq<char> {
    node_line(node.kind, indent) + tree_elems_text(node.children@, indent)
}

fn push_spaces(out: &mut String, n: usize)
    ensures
        final(out)@ == old(out)@ + spaces(n as nat),
{
    let ghost start = out@;
    let mut k: usize = 0;
    while k < n
        invariant
            k <= n,
            out@ == start + spaces(k as nat),
        decreases n - k,
    {
        push_str(out, " ");
        proof {
            reveal_strlit(" ");
        }
        k = k + 1;
        assert(out@ =~= start + spaces(k as nat));
    }
}

/// Prints a tree for inspection: one line per node and per token, nested
/// nodes indented two spaces deeper than their parent.
pub fn format_cst(node: &SyntaxNode, indent: usize) -> (r: String)
    requires
        indent + 2 * elems_height(node.children@) <= usize::MAX,
    ensures
        r@ == tree_text(*node, indent as nat),
    decreases node,
{
    let mut out = String::new();
    push_spaces(&mut out, indent);
    push_str(&mut out, kind_name_str(node.kind));
    push_str(&mut out, "\n");
    let ghost es = node.children@;
    let mut i: usize = 0;
    assert(es.take(0) =~= Seq::<SyntaxElement>::empty());
    assert(out@ =~= node_line(node.kind, indent as nat) + tree_elems_text(es.take(0), indent as nat));
    while i < node.children.len()
        invariant
            i <= es.len(),
            es == node.children@,
            indent + 2 * elems_height(es) <= usize::MAX,
            out@ == node_line(node.kind, indent as nat) + tree_elems_text(es.take(i as int), indent as nat),
        decreases es.len() - i,
    {
        proof {
            crate::formatter::lemma_elems_height(es, i as int);
            assert(es.take(i + 1).drop_last() =~= es.take(i as int));
        }
        let ghost before = out@;
        match &node.children[i] {
            SyntaxElement::Node(n) => {
                assert(elem_height(es[i as int]) == 1 + elems_height(n.children@));
                let sub = format_cst(n, indent + 2);
                push_str(&mut out, sub.as_str());
            },
            SyntaxElement::Token(t) => {
                push_spaces(&mut out, indent);
                push_str(&mut out, "  TOKEN ");
                push_str(&mut out, kind_name_str(t.kind));
                push_str(&mut out, " '");
                push_str(&mut out, t.text.as_str());
                push_str(&mut out, "' (");
                push_decimal(&mut out, t.line);
                push_str(&mut out, ":");
                push_decimal(&mut out, t.col);
                push_str(&mut out, ")\n");
            },
        }
        assert(out@ =~= before + tree_elem_text(es[i as int], indent as nat));
        i = i + 1;
    }
    assert(es.take(es.len() as int) =~= es);
    out
}

} // verus!
