//! The formatter over the syntax tree: every statement and expression is
//! written back in canonical source form, four spaces of indentation per
//! level of nesting.
//!
//! A floating-point literal is written with the text that the caller gives
//! for its bit pattern in a table of `(bits, text)` entries: the first entry
//! with those bits, or nothing when the table has none. `float_literals`
//! lists, in the order the formatter reaches them, the literals it writes.

use vstd::prelude::*;
use crate::ast::{Expr, InterpolatedFragment, MatchArm, Pattern, Program, Stmt, Visibility};
use crate::complete_lexer::{keyword_table, operator_at, step_in_line, step_minus, CompleteLexer, LexState, Step, TokenKind};
use crate::text::{
    chars_of, decimal, is_empty_str, join, push_char, push_decimal_u64, push_join, push_str,
    replace_all, replace_chars, str_eq, string_from_chars, string_seq_view,
};
use super::{escape_char, escape_in_char, escape_string, escaped, FormatterConfig};

verus! {

// ---------------------------------------------------------------------------
// Names, visibilities and patterns
// ---------------------------------------------------------------------------

/// A name as written in source: reserved words are escaped as `r#name`.
pub open spec fn ident_text(name: Seq<char>) -> Seq<char> {
    if keyword_table().contains_key(name) { "r#"@ + name } else { name }
}

fn format_ident(name: &str) -> (r: String)
    ensures
        r@ == ident_text(name@),
{
    let mut s = String::new();
    if CompleteLexer::is_keyword(name) {
        push_str(&mut s, "r#");
    }
    push_str(&mut s, name);
    s
}

/// The visibility prefix of a declaration (empty for private ones).
pub open spec fn visibility_text(v: Visibility) -> Seq<char> {
    match v {
        Visibility::Private => seq![],
        Visibility::Pub => "pub "@,
        Visibility::PubMod => "pub(mod) "@,
        Visibility::PubPkg => "pub(pkg) "@,
        Visibility::PubCap(name) => "pub(cap: "@ + name@ + ") "@,
        Visibility::PubFriend(m) => "pub(friend: "@ + m@ + ") "@,
    }
}

fn format_visibility(visibility: &Visibility) -> (r: String)
    ensures
        r@ == visibility_text(*visibility),
{
    let mut s = String::new();
    match visibility {
        Visibility::Private => {},
        Visibility::Pub => push_str(&mut s, "pub "),
        Visibility::PubMod => push_str(&mut s, "pub(mod) "),
        Visibility::PubPkg => push_str(&mut s, "pub(pkg) "),
        Visibility::PubCap(name) => {
            push_str(&mut s, "pub(cap: ");
            push_str(&mut s, name.as_str());
            push_str(&mut s, ") ");
        },
        Visibility::PubFriend(m) => {
            push_str(&mut s, "pub(friend: ");
            push_str(&mut s, m.as_str());
            push_str(&mut s, ") ");
        },
    }
    s
}

/// One type parameter with its bounds: `T`, or `T: A + B`.
pub open spec fn type_param_text(name: Seq<char>, bounds: Seq<Seq<char>>) -> Seq<char> {
    if bounds.len() == 0 { ident_text(name) } else { ident_text(name) + ": "@ + join(bounds, " + "@) }
}

pub open spec fn type_params_texts(ps: Seq<(String, Vec<String>)>) -> Seq<Seq<char>> {
    Seq::new(ps.len(), |i: int| type_param_text(ps[i].0@, string_seq_view(ps[i].1@)))
}

fn format_type_params_list(type_params: &[(String, Vec<String>)]) -> (r: String)
    ensures
        r@ == join(type_params_texts(type_params@), ", "@),
{
    let mut parts: Vec<String> = Vec::new();
    let mut i: usize = 0;
    while i < type_params.len()
        invariant
            i <= type_params@.len(),
            parts@.len() == i,
            forall|q: int| 0 <= q < i ==> (#[trigger] parts@[q])@ == type_params_texts(type_params@)[q],
        decreases type_params.len() - i,
    {
        let (name, bounds) = &type_params[i];
        let mut t = format_ident(name.as_str());
        if bounds.len() > 0 {
            push_str(&mut t, ": ");
            push_join(&mut t, bounds.as_slice(), " + ");
        }
        parts.push(t);
        i = i + 1;
    }
    let mut s = String::new();
    push_join(&mut s, parts.as_slice(), ", ");
    assert(string_seq_view(parts@) =~= type_params_texts(type_params@));
    s
}

/// The decimal text of a signed integer.
pub open spec fn int_text(v: i64) -> Seq<char> {
    if v < 0 { "-"@ + decimal((-v) as nat) } else { decimal(v as nat) }
}

fn push_i64(s: &mut String, v: i64)
    ensures
        final(s)@ == old(s)@ + int_text(v),
{
    proof {
        reveal_strlit("-");
    }
    if v < 0 {
        push_str(s, "-");
        let m: u64 = if v == i64::MIN { 9223372036854775808u64 } else { (-v) as u64 };
        crate::text::push_decimal_u64(s, m);
    } else {
        crate::text::push_decimal_u64(s, v as u64);
    }
    assert(final(s)@ =~= old(s)@ + int_text(v));
}

/// A pattern as written in source.
pub open spec fn pattern_text(p: Pattern) -> Seq<char>
    decreases p,
{
    match p {
        Pattern::Wildcard => "_"@,
        Pattern::Literal(v) => int_text(v),
        Pattern::Var(name) => ident_text(name@),
        Pattern::Struct(name, fields) => {
            if fields@.len() == 0 {
                ident_text(name@) + "[]"@
            } else {
                ident_text(name@) + "["@ + join(field_pattern_texts(fields@), ", "@) + "]"@
            }
        },
        Pattern::Or(ps) => join(pattern_texts(ps@), " | "@),
    }
}

pub open spec fn field_pattern_texts(fs: Seq<(String, Pattern)>) -> Seq<Seq<char>>
    decreases fs,
{
    if fs.len() == 0 {
        seq![]
    } else {
        field_pattern_texts(fs.drop_last()).push(ident_text(fs.last().0@) + ": "@ + pattern_text(fs.last().1))
    }
}

pub open spec fn pattern_texts(ps: Seq<Pattern>) -> Seq<Seq<char>>
    decreases ps,
{
    if ps.len() == 0 {
        seq![]
    } else {
        pattern_texts(ps.drop_last()).push(pattern_text(ps.last()))
    }
}

fn format_pattern(pattern: &Pattern) -> (r: String)
    ensures
        r@ == pattern_text(*pattern),
    decreases pattern,
{
    match pattern {
        Pattern::Wildcard => String::from_str("_"),
        Pattern::Literal(v) => {
            let mut s = String::new();
            push_i64(&mut s, *v);
            s
        },
        Pattern::Var(name) => format_ident(name.as_str()),
        Pattern::Struct(name, fields) => {
            let mut s = format_ident(name.as_str());
            if fields.len() == 0 {
                push_str(&mut s, "[]");
                return s;
            }
            let inner = format_field_patterns(fields);
            push_str(&mut s, "[");
            push_join(&mut s, inner.as_slice(), ", ");
            push_str(&mut s, "]");
            s
        },
        Pattern::Or(ps) => {
            let parts = format_patterns(ps);
            let mut s = String::new();
            push_join(&mut s, parts.as_slice(), " | ");
            s
        },
    }
}

fn format_field_patterns(fields: &Vec<(String, Pattern)>) -> (r: Vec<String>)
    ensures
        string_seq_view(r@) == field_pattern_texts(fields@),
    decreases fields,
{
    let mut out: Vec<String> = Vec::new();
    let mut i: usize = 0;
    while i < fields.len()
        invariant
            i <= fields@.len(),
            string_seq_view(out@) == field_pattern_texts(fields@.take(i as int)),
        decreases fields.len() - i,
    {
        let (fname, fp) = &fields[i];
        let mut t = format_ident(fname.as_str());
        push_str(&mut t, ": ");
        let pt = format_pattern(fp);
        push_str(&mut t, pt.as_str());
        let ghost before = out@;
        out.push(t);
        proof {
            assert(fields@.take(i + 1).drop_last() =~= fields@.take(i as int));
            assert(string_seq_view(out@) =~= string_seq_view(before).push(out@.last()@));
        }
        i = i + 1;
    }
    assert(fields@.take(fields@.len() as int) =~= fields@);
    out
}

fn format_patterns(ps: &Vec<Pattern>) -> (r: Vec<String>)
    ensures
        string_seq_view(r@) == pattern_texts(ps@),
    decreases ps,
{
    let mut out: Vec<String> = Vec::new();
    let mut i: usize = 0;
    while i < ps.len()
        invariant
            i <= ps@.len(),
            string_seq_view(out@) == pattern_texts(ps@.take(i as int)),
        decreases ps.len() - i,
    {
        let t = format_pattern(&ps[i]);
        let ghost before = out@;
        out.push(t);
        proof {
            assert(ps@.take(i + 1).drop_last() =~= ps@.take(i as int));
            assert(string_seq_view(out@) =~= string_seq_view(before).push(out@.last()@));
        }
        i = i + 1;
    }
    assert(ps@.take(ps@.len() as int) =~= ps@);
    out
}


// ---------------------------------------------------------------------------
// The text of expressions and statements, in the abstract
// ---------------------------------------------------------------------------

/// The text given for a floating-point literal with bit pattern `bits`: that
/// of the first table entry with those bits, or nothing.
pub open spec fn float_text(table: Seq<(u64, String)>, bits: u64) -> Seq<char>
    decreases table.len(),
{
    if table.len() == 0 {
        seq![]
    } else if table[0].0 == bits {
        table[0].1@
    } else {
        float_text(table.drop_first(), bits)
    }
}

/// An upper-case hexadecimal digit.
pub open spec fn hex_digit(d: nat) -> char {
    if d < 10 { ((d + 48) as u32) as char } else { ((d + 55) as u32) as char }
}

/// `\x` and two upper-case hexadecimal digits.
pub open spec fn hex_escape(b: u8) -> Seq<char> {
    "\\x"@ + seq![hex_digit((b / 16) as nat), hex_digit((b % 16) as nat)]
}

/// Whether a byte is printable ASCII (a space up to `~`).
pub open spec fn printable(b: u8) -> bool {
    0x20 <= b <= 0x7e
}

/// How a byte is written inside a byte-string literal.
pub open spec fn byte_in_string(b: u8) -> Seq<char> {
    if b == 0 {
        "\\0"@
    } else if b == 9 {
        "\\t"@
    } else if b == 10 {
        "\\n"@
    } else if b == 13 {
        "\\r"@
    } else if b == 34 {
        "\\\""@
    } else if b == 92 {
        "\\\\"@
    } else if printable(b) {
        seq![(b as u32) as char]
    } else {
        hex_escape(b)
    }
}

/// The bytes of a byte string, each written for a byte-string literal.
pub open spec fn bytes_text(bs: Seq<u8>) -> Seq<char>
    decreases bs.len(),
{
    if bs.len() == 0 { seq![] } else { bytes_text(bs.drop_last()) + byte_in_string(bs.last()) }
}

/// A byte literal.
pub open spec fn byte_literal(b: u8) -> Seq<char> {
    if b == 0 {
        "b'\\0'"@
    } else if b == 9 {
        "b'\\t'"@
    } else if b == 10 {
        "b'\\n'"@
    } else if b == 13 {
        "b'\\r'"@
    } else if b == 39 {
        "b'\\''"@
    } else if b == 92 {
        "b'\\\\'"@
    } else if printable(b) {
        "b'"@ + seq![(b as u32) as char] + "'"@
    } else {
        "b'"@ + hex_escape(b) + "'"@
    }
}

/// The symbol of a binary operator.
pub open spec fn binop_text(op: TokenKind) -> Seq<char> {
    match op {
        TokenKind::Plus => "+"@,
        TokenKind::Minus => "-"@,
        TokenKind::Star => "*"@,
        TokenKind::Slash => "/"@,
        TokenKind::Percent => "%"@,
        TokenKind::EqEq => "=="@,
        TokenKind::NotEq => "!="@,
        TokenKind::Lt => "<"@,
        TokenKind::LtEq => "<="@,
        TokenKind::Gt => ">"@,
        TokenKind::GtEq => ">="@,
        TokenKind::AndAnd => "&&"@,
        TokenKind::OrOr => "||"@,
        _ => "???"@,
    }
}

/// The binary operators the formatter writes with a symbol of their own.
pub open spec fn is_binary_operator(k: TokenKind) -> bool {
    ||| k is Plus
    ||| k is Minus
    ||| k is Star
    ||| k is Slash
    ||| k is Percent
    ||| k is EqEq
    ||| k is NotEq
    ||| k is Lt
    ||| k is LtEq
    ||| k is Gt
    ||| k is GtEq
    ||| k is AndAnd
    ||| k is OrOr
}

/// The symbol written for a binary operator lexes back to that operator:
/// the complete lexer reads `/` as a slash and a lone `-` as a minus sign,
/// and reads each other symbol, whole, as its operator. Distinct operators
/// are written with distinct symbols.
pub proof fn law_binop_text_lexes_back(k: TokenKind, j: TokenKind, st: LexState)
    requires
        is_binary_operator(k),
        st.pos == 0,
    ensures
        k is Slash ==> (step_in_line(binop_text(k), st) matches Step::Next(_, ts) && ts.len() == 1 && ts[0].0 == k),
        k is Minus ==> (step_minus(binop_text(k), st) matches Step::Next(_, ts) && ts.len() == 1 && ts[0].0 == k),
        !(k is Slash) && !(k is Minus) ==> operator_at(binop_text(k), 0) == (k, binop_text(k).len()),
        is_binary_operator(j) && binop_text(k) == binop_text(j) ==> k == j,
{
    reveal_strlit("+");
    reveal_strlit("-");
    reveal_strlit("*");
    reveal_strlit("/");
    reveal_strlit("%");
    reveal_strlit("==");
    reveal_strlit("!=");
    reveal_strlit("<");
    reveal_strlit("<=");
    reveal_strlit(">");
    reveal_strlit(">=");
    reveal_strlit("&&");
    reveal_strlit("||");
}

/// The symbol written for a unary operator lexes back to that operator: a
/// lone `-` as a minus sign, `!` as a bang; the two symbols differ.
pub proof fn law_unop_text_lexes_back(k: TokenKind, st: LexState)
    requires
        k is Minus || k is Bang,
        st.pos == 0,
    ensures
        k is Minus ==> (step_minus(unop_text(k), st) matches Step::Next(_, ts) && ts.len() == 1 && ts[0].0 == k),
        k is Bang ==> operator_at(unop_text(k), 0) == (k, 1nat),
        unop_text(TokenKind::Minus) != unop_text(TokenKind::Bang),
{
    reveal_strlit("-");
    reveal_strlit("!");
}

/// The symbol of a unary operator.
pub open spec fn unop_text(op: TokenKind) -> Seq<char> {
    match op {
        TokenKind::Minus => "-"@,
        TokenKind::Bang => "!"@,
        _ => "???"@,
    }
}

/// `prefix` and the text, when there is one.
pub open spec fn opt_text(o: Option<String>, prefix: Seq<char>) -> Seq<char> {
    match o {
        Some(t) => prefix + t@,
        None => seq![],
    }
}

/// A parameter: its name, and its type when it has one.
pub open spec fn param_text(p: (String, Option<String>)) -> Seq<char> {
    ident_text(p.0@) + opt_text(p.1, ": "@)
}

pub open spec fn params_texts(ps: Seq<(String, Option<String>)>) -> Seq<Seq<char>> {
    Seq::new(ps.len(), |i: int| param_text(ps[i]))
}

/// A literal piece of an interpolated string: escaped, with `${` escaped too.
pub open spec fn interp_literal_text(s: Seq<char>) -> Seq<char> {
    replace_all(escaped(s), "${"@, "\\${"@)
}

/// The message part of a contract: empty, or `, "message"`.
pub open spec fn message_text(m: Seq<char>) -> Seq<char> {
    if m.len() == 0 { seq![] } else { ", \""@ + escaped(m) + "\""@ }
}

/// The inline form of a contract, given the text of its condition; none for
/// a statement that is not a contract.
pub open spec fn contract_form(c: Stmt, cond: Seq<char>) -> Option<Seq<char>> {
    match c {
        Stmt::ContractRequires { message, .. } => Some("@requires("@ + cond + message_text(message@) + ")"@),
        Stmt::ContractEnsures { message, .. } => Some("@ensures("@ + cond + message_text(message@) + ")"@),
        Stmt::ContractInvariant { message, .. } => Some("@invariant("@ + cond + message_text(message@) + ")"@),
        Stmt::ComptimeLimit { max_ops, .. } => Some("@comptime_limit(ops: "@ + decimal(max_ops as nat) + ")"@),
        _ => None,
    }
}

/// The bracketed type parameters of a declaration, or nothing.
pub open spec fn generics_text(tps: Seq<(String, Vec<String>)>) -> Seq<char> {
    if tps.len() == 0 { seq![] } else { "["@ + join(type_params_texts(tps), ", "@) + "]"@ }
}

/// The effects that a function's header shows: all but `async` on an async
/// function.
pub open spec fn visible_effects(effects: Seq<String>, is_async: bool) -> Seq<Seq<char>>
    decreases effects.len(),
{
    if effects.len() == 0 {
        seq![]
    } else {
        let rest = visible_effects(effects.drop_last(), is_async);
        if is_async && effects.last()@ == "async"@ { rest } else { rest.push(effects.last()@) }
    }
}

/// A statement that opens a block: `header`, the block's statements and the
/// closing brace at `pad`.
pub open spec fn block_text(header: Seq<char>, body: Seq<Seq<char>>, pad: Seq<char>) -> Seq<char> {
    header + join(body, seq![]) + pad + "}\n"@
}

/// One field of a struct declaration.
pub open spec fn struct_field_text(pad: Seq<char>, f: (String, String)) -> Seq<char> {
    pad + "    "@ + ident_text(f.0@) + ": "@ + f.1@ + "\n"@
}

/// One field of an enum variant: `name: type`.
pub open spec fn variant_field_text(f: (String, String)) -> Seq<char> {
    ident_text(f.0@) + ": "@ + f.1@
}

/// One variant of an enum declaration.
pub open spec fn enum_variant_text(pad: Seq<char>, v: crate::ast::EnumVariant) -> Seq<char> {
    pad + "    variant "@ + ident_text(v.name@) + (if v.fields@.len() == 0 {
        seq![]
    } else {
        " ["@ + join(Seq::new(v.fields@.len(), |i: int| variant_field_text(v.fields@[i])), ", "@) + "]"@
    }) + "\n"@
}

/// One diagnostic attribute of a trait.
pub open spec fn diagnostic_text(pad: Seq<char>, a: crate::ast::DiagnosticAttribute) -> Seq<char> {
    pad + "    @diagnostic::on_unimplemented(message = \""@ + escaped(a.message@) + "\""@ + (match a.label {
        Some(l) => ", label = \""@ + escaped(l@) + "\""@,
        None => seq![],
    }) + ")\n"@
}

/// One alias of a scoped `use`: the name, and ` as alias` when there is one.
pub open spec fn alias_text(a: (String, Option<String>)) -> Seq<char> {
    a.0@ + opt_text(a.1, " as "@)
}

/// The text of an expression.
pub open spec fn expr_text(e: Expr, ft: Seq<(u64, String)>) -> Seq<char>
    decreases e,
{
    match e {
        Expr::StringLit(s, _) => "\""@ + escaped(s@) + "\""@,
        Expr::ByteString(bs, _) => "b\""@ + bytes_text(bs@) + "\""@,
        Expr::Byte(b, _) => byte_literal(b),
        Expr::Number(n, _) => int_text(n),
        Expr::Float(b, _) => float_text(ft, b),
        Expr::Char(c, _) => "'"@ + escape_in_char(c) + "'"@,
        Expr::Bool(b, _) => if b { "true"@ } else { "false"@ },
        Expr::Var(name, _) => ident_text(name@),
        Expr::Call(name, args, _) => ident_text(name@) + "("@ + join(exprs_texts(args@, ft), ", "@) + ")"@,
        Expr::BinaryOp { op, left, right, .. } => expr_text(*left, ft) + " "@ + binop_text(op) + " "@ + expr_text(*right, ft),
        Expr::Borrow { mutable, inner, .. } => (if mutable { "&mut "@ } else { "&"@ }) + expr_text(*inner, ft),
        Expr::Deref { inner, .. } => "*"@ + expr_text(*inner, ft),
        Expr::UnaryOp { op, inner, .. } => unop_text(op) + expr_text(*inner, ft),
        Expr::FieldAccess { base, field, .. } => expr_text(*base, ft) + "."@ + ident_text(field@),
        Expr::IfExpr { cond, then, else_, .. } => "if "@ + expr_text(*cond, ft) + " "@ + expr_text(*then, ft) + " else "@ + expr_text(*else_, ft),
        Expr::Interpolated(frags, _) => "f\""@ + frags_text(frags@, ft) + "\""@,
        Expr::Block(stmts, _) => "{ "@ + join(stmts_texts(stmts@, "    "@, ft), " "@) + " }"@,
        Expr::Tuple(es, _) => "("@ + join(exprs_texts(es@, ft), ", "@) + ")"@,
        Expr::Array(es, _) => "["@ + join(exprs_texts(es@, ft), ", "@) + "]"@,
        Expr::Index(base, index, _) => expr_text(*base, ft) + "["@ + expr_text(*index, ft) + "]"@,
        Expr::Match { expr, arms, .. } => "match "@ + expr_text(*expr, ft) + " {\n"@ + arms_text(arms@, ft) + "}\n"@,
        Expr::Range { start, end, inclusive, .. } => expr_text(*start, ft) + (if inclusive { "..."@ } else { ".."@ }) + expr_text(*end, ft),
        Expr::Lambda { params, body, .. } => "fn("@ + join(params_texts(params@), ", "@) + ") "@ + expr_text(*body, ft),
        Expr::Await(inner, _) => "await "@ + expr_text(*inner, ft),
        Expr::Try(inner, _) => expr_text(*inner, ft) + "?"@,
        Expr::StructLit { name, fields, .. } => ident_text(name@) + " { "@ + join(field_inits_texts(fields@, ft), ", "@) + " }"@,
    }
}

/// The text of each expression.
pub open spec fn exprs_texts(es: Seq<Expr>, ft: Seq<(u64, String)>) -> Seq<Seq<char>>
    decreases es,
{
    if es.len() == 0 { seq![] } else { exprs_texts(es.drop_last(), ft).push(expr_text(es.last(), ft)) }
}

/// The text of the fields of a struct literal: `name: value` each.
pub open spec fn field_inits_texts(fs: Seq<(String, Expr)>, ft: Seq<(u64, String)>) -> Seq<Seq<char>>
    decreases fs,
{
    if fs.len() == 0 {
        seq![]
    } else {
        field_inits_texts(fs.drop_last(), ft).push(ident_text(fs.last().0@) + ": "@ + expr_text(fs.last().1, ft))
    }
}

/// The text inside the quotes of an interpolated string.
pub open spec fn frags_text(fs: Seq<InterpolatedFragment>, ft: Seq<(u64, String)>) -> Seq<char>
    decreases fs,
{
    if fs.len() == 0 {
        seq![]
    } else {
        frags_text(fs.drop_last(), ft) + match fs.last() {
            InterpolatedFragment::Literal(s, _) => interp_literal_text(s@),
            InterpolatedFragment::Expr(e) => "${"@ + expr_text(*e, ft) + "}"@,
        }
    }
}

/// The lines of the arms of a `match`.
pub open spec fn arms_text(arms: Seq<MatchArm>, ft: Seq<(u64, String)>) -> Seq<char>
    decreases arms,
{
    if arms.len() == 0 {
        seq![]
    } else {
        arms_text(arms.drop_last(), ft) + "  | "@ + pattern_text(arms.last().pattern) + match arms.last().guard {
            Some(g) => " if "@ + expr_text(*g, ft),
            None => seq![],
        } + " => "@ + expr_text(*arms.last().body, ft) + "\n"@
    }
}

/// The inline contracts of a function's header: a space and the form of
/// each contract among `cs`.
pub open spec fn contracts_text(cs: Seq<Stmt>, ft: Seq<(u64, String)>) -> Seq<char>
    decreases cs,
{
    if cs.len() == 0 {
        seq![]
    } else {
        contracts_text(cs.drop_last(), ft) + match contract_text(cs.last(), ft) {
            Some(t) => " "@ + t,
            None => seq![],
        }
    }
}

/// The inline form of a contract statement.
pub open spec fn contract_text(c: Stmt, ft: Seq<(u64, String)>) -> Option<Seq<char>>
    decreases c,
{
    match c {
        Stmt::ContractRequires { condition, .. } => contract_form(c, expr_text(condition, ft)),
        Stmt::ContractEnsures { condition, .. } => contract_form(c, expr_text(condition, ft)),
        Stmt::ContractInvariant { condition, .. } => contract_form(c, expr_text(condition, ft)),
        _ => contract_form(c, seq![]),
    }
}

/// The text of each statement, indented by `pad`.
pub open spec fn stmts_texts(ss: Seq<Stmt>, pad: Seq<char>, ft: Seq<(u64, String)>) -> Seq<Seq<char>>
    decreases ss,
{
    if ss.len() == 0 { seq![] } else { stmts_texts(ss.drop_last(), pad, ft).push(stmt_text(ss.last(), pad, ft)) }
}

/// The text of a statement, indented by `pad`; the statements of its blocks
/// are indented four spaces more.
pub open spec fn stmt_text(s: Stmt, pad: Seq<char>, ft: Seq<(u64, String)>) -> Seq<char>
    decreases s,
{
    let inner = pad + "    "@;
    match s {
        Stmt::Annotation(a, _) => pad + "@"@ + ident_text(a@) + "\n"@,
        Stmt::Mod(name, _) => pad + "mod "@ + ident_text(name@) + ";\n"@,
        Stmt::ModBlock(name, body, _) => block_text(pad + "mod "@ + ident_text(name@) + " {\n"@, stmts_texts(body@, inner, ft), pad),
        Stmt::Print(e, _) => pad + "print "@ + expr_text(e, ft) + ";\n"@,
        Stmt::Let(name, ty, e, _) => pad + "let "@ + ident_text(name@) + opt_text(ty, ": "@) + " = "@ + expr_text(e, ft) + ";\n"@,
        Stmt::LetMut(name, ty, e, _) => pad + "let mut "@ + ident_text(name@) + opt_text(ty, ": "@) + " = "@ + expr_text(e, ft) + ";\n"@,
        Stmt::LetLinear(name, ty, e, _) => pad + "linear "@ + ident_text(name@) + opt_text(ty, ": "@) + " = "@ + expr_text(e, ft) + ";\n"@,
        Stmt::Fn { name, visibility, is_async, type_params, params, ret_type, effects, contracts, body, .. } => {
            let effs = visible_effects(effects@, is_async);
            block_text(
                pad + visibility_text(visibility) + (if is_async { "async "@ } else { seq![] }) + "fn "@ + ident_text(name@)
                    + generics_text(type_params@) + "("@ + join(params_texts(params@), ", "@) + ")"@
                    + opt_text(ret_type, " -> "@)
                    + (if effs.len() == 0 { seq![] } else { " / "@ + join(effs, " + "@) })
                    + contracts_text(contracts@, ft) + " {\n"@,
                stmts_texts(body@, inner, ft),
                pad,
            )
        },
        Stmt::ExprStmt(e, _) => pad + expr_text(e, ft) + ";\n"@,
        Stmt::Block(body, _) => join(stmts_texts(body@, pad, ft), seq![]),
        Stmt::If { cond, then_body, else_body, .. } =>
            pad + "if "@ + expr_text(*cond, ft) + " {\n"@ + join(stmts_texts(then_body@, inner, ft), seq![])
                + pad + "} else {\n"@ + join(stmts_texts(else_body@, inner, ft), seq![]) + pad + "}\n"@,
        Stmt::Loop { body, .. } => block_text(pad + "loop {\n"@, stmts_texts(body@, inner, ft), pad),
        Stmt::For { var_name, iterable, body, .. } =>
            block_text(pad + "for "@ + ident_text(var_name@) + " in "@ + expr_text(*iterable, ft) + " {\n"@, stmts_texts(body@, inner, ft), pad),
        Stmt::While { cond, body, .. } => block_text(pad + "while "@ + expr_text(*cond, ft) + " {\n"@, stmts_texts(body@, inner, ft), pad),
        Stmt::Return(e, _) => pad + "return "@ + expr_text(e, ft) + ";\n"@,
        Stmt::Break(_) => pad + "break;\n"@,
        Stmt::Continue(_) => pad + "continue;\n"@,
        Stmt::Assign(name, e, _) => pad + ident_text(name@) + " = "@ + expr_text(e, ft) + ";\n"@,
        Stmt::ExprFieldAssign(base, field, e, _) => pad + expr_text(*base, ft) + "."@ + field@ + " = "@ + expr_text(e, ft) + ";\n"@,
        Stmt::DerefAssign(target, e, _) => pad + "*"@ + expr_text(*target, ft) + " = "@ + expr_text(e, ft) + ";\n"@,
        Stmt::WhileIn { var_name, iterable, body, .. } =>
            block_text(pad + "while "@ + ident_text(var_name@) + " in "@ + expr_text(*iterable, ft) + " {\n"@, stmts_texts(body@, inner, ft), pad),
        Stmt::Unsafe { body, .. } => block_text(pad + "unsafe {\n"@, stmts_texts(body@, inner, ft), pad),
        Stmt::Struct { name, visibility, fields, is_linear, .. } =>
            block_text(
                pad + visibility_text(visibility) + "struct "@ + ident_text(name@) + (if is_linear { " linear"@ } else { seq![] }) + " {\n"@,
                Seq::new(fields@.len(), |i: int| struct_field_text(pad, fields@[i])),
                pad,
            ),
        Stmt::ErrorSet { name, visibility, variants, .. } =>
            block_text(
                pad + visibility_text(visibility) + "error set "@ + ident_text(name@) + " {\n"@,
                Seq::new(variants@.len(), |i: int| pad + "    variant "@ + ident_text(variants@[i].name@) + "\n"@),
                pad,
            ),
        Stmt::Impl { target, visibility, type_params, for_type, methods, .. } =>
            block_text(
                pad + visibility_text(visibility) + "impl "@ + ident_text(target@) + generics_text(type_params@)
                    + (match for_type { Some(t) => " for "@ + ident_text(t@), None => seq![] }) + " {\n"@,
                stmts_texts(methods@, inner, ft),
                pad,
            ),
        Stmt::Trait { name, visibility, type_params, methods, diagnostic_attrs, .. } =>
            block_text(
                pad + visibility_text(visibility) + "trait "@ + ident_text(name@) + generics_text(type_params@) + " {\n"@
                    + join(Seq::new(diagnostic_attrs@.len(), |i: int| diagnostic_text(pad, diagnostic_attrs@[i])), seq![]),
                stmts_texts(methods@, inner, ft),
                pad,
            ),
        Stmt::TypeAlias { name, visibility, type_params, target, .. } =>
            pad + visibility_text(visibility) + "type "@ + ident_text(name@) + generics_text(type_params@) + " = "@ + target@ + ";\n"@,
        Stmt::Use { path, alias, .. } => pad + "use "@ + path@ + opt_text(alias, " as "@) + ";\n"@,
        Stmt::UseScoped { path, aliases, body, .. } =>
            pad + "use "@ + path@ + " in"@
                + (if aliases@.len() == 0 { seq![] } else { " ["@ + join(Seq::new(aliases@.len(), |i: int| alias_text(aliases@[i])), ", "@) + "]"@ })
                + ":\n"@ + join(stmts_texts(body@, inner, ft), seq![]),
        Stmt::GcMode { mode, .. } => pad + "@gc_mode("@ + mode@ + ")\n"@,
        Stmt::CancelToken { .. } => pad + "@cancel_token\n"@,
        Stmt::EffectHandler { effect, handler, .. } =>
            pad + "handle "@ + effect@ + " in {\n"@ + (match *handler {
                Expr::Block(body, _) => join(stmts_texts(body@, inner, ft), seq![]),
                h => inner + expr_text(h, ft) + "\n"@,
            }) + pad + "}\n"@,
        Stmt::Spawn { task, .. } => pad + "spawn "@ + expr_text(*task, ft) + "\n"@,
        Stmt::Channel { elem_type, capacity, .. } =>
            pad + "channel "@ + elem_type@ + (match capacity { Some(c) => "["@ + decimal(c as nat) + "]"@, None => seq![] }) + "\n"@,
        Stmt::Actor { name, state, .. } => pad + "actor "@ + ident_text(name@) + " "@ + state@ + "\n"@,
        Stmt::WorkStealingExecutor { num_threads, queue_type, .. } =>
            pad + "executor["@ + decimal(num_threads as nat) + "] "@ + queue_type@ + "\n"@,
        Stmt::DeterministicRuntime { max_tasks, .. } => pad + "deterministic["@ + decimal(max_tasks as nat) + "]\n"@,
        Stmt::Tensor { shape, dtype, .. } =>
            pad + "tensor["@ + join(Seq::new(shape@.len(), |i: int| decimal(shape@[i] as nat)), "x"@) + "] "@ + dtype@ + "\n"@,
        Stmt::Simd { width, elem_type, .. } => pad + "simd["@ + decimal(width as nat) + "] "@ + elem_type@ + "\n"@,
        Stmt::DocComment { target, content, .. } => pad + "doc "@ + target@ + " \""@ + content@ + "\"\n"@,
        Stmt::DebugSession { port, .. } => pad + "debug["@ + decimal(port as nat) + "]\n"@,
        Stmt::Capability { name, permissions, .. } =>
            pad + "capability "@ + ident_text(name@) + " ["@ + join(string_seq_view(permissions@), ", "@) + "]\n"@,
        Stmt::FfiSandbox { allow_list, .. } => pad + "sandbox ["@ + join(string_seq_view(allow_list@), ", "@) + "]\n"@,
        Stmt::Enum { name, visibility, variants, is_sealed, .. } =>
            block_text(
                pad + visibility_text(visibility) + "enum "@ + ident_text(name@) + (if is_sealed { " sealed"@ } else { seq![] }) + " {\n"@,
                Seq::new(variants@.len(), |i: int| enum_variant_text(pad, variants@[i])),
                pad,
            ),
        Stmt::ContractRequires { condition, .. } => pad + contract_form(s, expr_text(condition, ft)).unwrap() + "\n"@,
        Stmt::ContractEnsures { condition, .. } => pad + contract_form(s, expr_text(condition, ft)).unwrap() + "\n"@,
        Stmt::ContractInvariant { condition, .. } => pad + contract_form(s, expr_text(condition, ft)).unwrap() + "\n"@,
        Stmt::ComptimeLimit { .. } => pad + contract_form(s, seq![]).unwrap() + "\n"@,
        Stmt::Defer { .. } => pad + "defer { ... }\n"@,
        Stmt::AsyncDefer { .. } => pad + "defer { ... }\n"@,
    }
}

/// The text of a program: each top-level statement, unindented.
pub open spec fn program_text(prog: Program, ft: Seq<(u64, String)>) -> Seq<char> {
    join(stmts_texts(prog.stmts@, seq![], ft), seq![])
}


// ---------------------------------------------------------------------------
// Writing the text
// ---------------------------------------------------------------------------

fn lookup_float(table: &Vec<(u64, String)>, bits: u64) -> (r: String)
    ensures
        r@ == float_text(table@, bits),
{
    let mut i: usize = 0;
    assert(table@.skip(0) =~= table@);
    while i < table.len()
        invariant
            i <= table@.len(),
            float_text(table@, bits) == float_text(table@.skip(i as int), bits),
        decreases table.len() - i,
    {
        assert(table@.skip(i as int).drop_first() =~= table@.skip(i + 1));
        if table[i].0 == bits {
            return table[i].1.clone();
        }
        i = i + 1;
    }
    assert(table@.skip(i as int).len() == 0);
    String::new()
}

fn hex_char(d: u8) -> (c: char)
    requires
        d < 16,
    ensures
        c == hex_digit(d as nat),
{
    let v: u8 = if d < 10 { d + 48 } else { d + 55 };
    v as char
}

fn push_hex_escape(s: &mut String, b: u8)
    ensures
        final(s)@ == old(s)@ + hex_escape(b),
{
    push_str(s, "\\x");
    push_char(s, hex_char(b / 16));
    push_char(s, hex_char(b % 16));
    assert(final(s)@ =~= old(s)@ + hex_escape(b));
}

fn push_byte_in_string(s: &mut String, b: u8)
    ensures
        final(s)@ == old(s)@ + byte_in_string(b),
{
    if b == 0 {
        push_str(s, "\\0");
    } else if b == 9 {
        push_str(s, "\\t");
    } else if b == 10 {
        push_str(s, "\\n");
    } else if b == 13 {
        push_str(s, "\\r");
    } else if b == 34 {
        push_str(s, "\\\"");
    } else if b == 92 {
        push_str(s, "\\\\");
    } else if 0x20 <= b && b <= 0x7e {
        push_char(s, b as char);
        assert(final(s)@ =~= old(s)@ + byte_in_string(b));
    } else {
        push_hex_escape(s, b);
    }
}

fn format_byte_literal(b: u8) -> (r: String)
    ensures
        r@ == byte_literal(b),
{
    let mut s = String::new();
    if b == 0 {
        push_str(&mut s, "b'\\0'");
    } else if b == 9 {
        push_str(&mut s, "b'\\t'");
    } else if b == 10 {
        push_str(&mut s, "b'\\n'");
    } else if b == 13 {
        push_str(&mut s, "b'\\r'");
    } else if b == 39 {
        push_str(&mut s, "b'\\''");
    } else if b == 92 {
        push_str(&mut s, "b'\\\\'");
    } else if 0x20 <= b && b <= 0x7e {
        push_str(&mut s, "b'");
        push_char(&mut s, b as char);
        push_str(&mut s, "'");
    } else {
        push_str(&mut s, "b'");
        push_hex_escape(&mut s, b);
        push_str(&mut s, "'");
    }
    assert(s@ =~= byte_literal(b));
    s
}

fn push_bytes(s: &mut String, bs: &Vec<u8>)
    ensures
        final(s)@ == old(s)@ + bytes_text(bs@),
{
    let ghost start = s@;
    let mut i: usize = 0;
    assert(bs@.take(0) =~= Seq::<u8>::empty());
    assert(s@ =~= start + bytes_text(bs@.take(0)));
    while i < bs.len()
        invariant
            i <= bs@.len(),
            s@ == start + bytes_text(bs@.take(i as int)),
        decreases bs.len() - i,
    {
        assert(bs@.take(i + 1).drop_last() =~= bs@.take(i as int));
        push_byte_in_string(s, bs[i]);
        assert(s@ =~= start + bytes_text(bs@.take(i + 1)));
        i = i + 1;
    }
    assert(bs@.take(i as int) =~= bs@);
}

fn push_binop(s: &mut String, op: TokenKind)
    ensures
        final(s)@ == old(s)@ + binop_text(op),
{
    match op {
        TokenKind::Plus => push_str(s, "+"),
        TokenKind::Minus => push_str(s, "-"),
        TokenKind::Star => push_str(s, "*"),
        TokenKind::Slash => push_str(s, "/"),
        TokenKind::Percent => push_str(s, "%"),
        TokenKind::EqEq => push_str(s, "=="),
        TokenKind::NotEq => push_str(s, "!="),
        TokenKind::Lt => push_str(s, "<"),
        TokenKind::LtEq => push_str(s, "<="),
        TokenKind::Gt => push_str(s, ">"),
        TokenKind::GtEq => push_str(s, ">="),
        TokenKind::AndAnd => push_str(s, "&&"),
        TokenKind::OrOr => push_str(s, "||"),
        _ => push_str(s, "???"),
    }
}

fn push_unop(s: &mut String, op: TokenKind)
    ensures
        final(s)@ == old(s)@ + unop_text(op),
{
    match op {
        TokenKind::Minus => push_str(s, "-"),
        TokenKind::Bang => push_str(s, "!"),
        _ => push_str(s, "???"),
    }
}

fn push_opt(s: &mut String, o: &Option<String>, prefix: &str)
    ensures
        final(s)@ == old(s)@ + opt_text(*o, prefix@),
{
    match o {
        Some(t) => {
            push_str(s, prefix);
            push_str(s, t.as_str());
        },
        None => {
            assert(final(s)@ =~= old(s)@ + opt_text(*o, prefix@));
        },
    }
}

fn format_params(ps: &Vec<(String, Option<String>)>) -> (r: Vec<String>)
    ensures
        string_seq_view(r@) == params_texts(ps@),
{
    let mut out: Vec<String> = Vec::new();
    let mut i: usize = 0;
    while i < ps.len()
        invariant
            i <= ps@.len(),
            out@.len() == i,
            forall|q: int| 0 <= q < i ==> (#[trigger] out@[q])@ == param_text(ps@[q]),
        decreases ps.len() - i,
    {
        let mut t = format_ident(ps[i].0.as_str());
        push_opt(&mut t, &ps[i].1, ": ");
        out.push(t);
        i = i + 1;
    }
    assert(string_seq_view(out@) =~= params_texts(ps@));
    out
}

fn push_message(s: &mut String, m: &str)
    ensures
        final(s)@ == old(s)@ + message_text(m@),
{
    if is_empty_str(m) {
        assert(final(s)@ =~= old(s)@ + message_text(m@));
    } else {
        push_str(s, ", \"");
        let e = escape_string(m);
        push_str(s, e.as_str());
        push_str(s, "\"");
    }
}

fn push_generics(s: &mut String, tps: &Vec<(String, Vec<String>)>)
    ensures
        final(s)@ == old(s)@ + generics_text(tps@),
{
    if tps.len() == 0 {
        assert(final(s)@ =~= old(s)@ + generics_text(tps@));
    } else {
        push_str(s, "[");
        let t = format_type_params_list(tps.as_slice());
        push_str(s, t.as_str());
        push_str(s, "]");
    }
}

fn visible_effect_list(effects: &Vec<String>, is_async: bool) -> (r: Vec<String>)
    ensures
        string_seq_view(r@) == visible_effects(effects@, is_async),
{
    let mut out: Vec<String> = Vec::new();
    let mut i: usize = 0;
    assert(effects@.take(0) =~= Seq::<String>::empty());
    assert(string_seq_view(out@) =~= visible_effects(effects@.take(0), is_async));
    while i < effects.len()
        invariant
            i <= effects@.len(),
            string_seq_view(out@) == visible_effects(effects@.take(i as int), is_async),
        decreases effects.len() - i,
    {
        assert(effects@.take(i + 1).drop_last() =~= effects@.take(i as int));
        if !(is_async && str_eq(effects[i].as_str(), "async")) {
            let ghost before = out@;
            out.push(effects[i].clone());
            assert(string_seq_view(out@) =~= string_seq_view(before).push(effects@[i as int]@));
        }
        i = i + 1;
    }
    assert(effects@.take(i as int) =~= effects@);
    out
}

fn push_block_end(s: &mut String, texts: &Vec<String>, pad: &str)
    ensures
        final(s)@ == old(s)@ + join(string_seq_view(texts@), seq![]) + pad@ + "}\n"@,
{
    proof {
        reveal_strlit("");
        assert(""@ =~= Seq::<char>::empty());
    }
    push_join(s, texts.as_slice(), "");
    push_str(s, pad);
    push_str(s, "}\n");
}

fn push_concat(s: &mut String, texts: &Vec<String>)
    ensures
        final(s)@ == old(s)@ + join(string_seq_view(texts@), seq![]),
{
    proof {
        reveal_strlit("");
        assert(""@ =~= Seq::<char>::empty());
    }
    push_join(s, texts.as_slice(), "");
}

/// The text of an expression.
fn format_expr(e: &Expr, ft: &Vec<(u64, String)>) -> (r: String)
    ensures
        r@ == expr_text(*e, ft@),
    decreases e,
{
    match e {
        Expr::StringLit(t, _) => {
            let mut s = String::from_str("\"");
            let esc = escape_string(t.as_str());
            push_str(&mut s, esc.as_str());
            push_str(&mut s, "\"");
            s
        },
        Expr::ByteString(bs, _) => {
            let mut s = String::from_str("b\"");
            push_bytes(&mut s, bs);
            push_str(&mut s, "\"");
            s
        },
        Expr::Byte(b, _) => format_byte_literal(*b),
        Expr::Number(n, _) => {
            let mut s = String::new();
            push_i64(&mut s, *n);
            assert(s@ =~= int_text(*n));
            s
        },
        Expr::Float(b, _) => lookup_float(ft, *b),
        Expr::Char(c, _) => {
            let mut s = String::from_str("'");
            let esc = escape_char(*c);
            push_str(&mut s, esc.as_str());
            push_str(&mut s, "'");
            s
        },
        Expr::Bool(b, _) => if *b { String::from_str("true") } else { String::from_str("false") },
        Expr::Var(name, _) => format_ident(name.as_str()),
        Expr::Call(name, args, _) => {
            let mut s = format_ident(name.as_str());
            push_str(&mut s, "(");
            let parts = format_exprs(args, ft);
            push_join(&mut s, parts.as_slice(), ", ");
            push_str(&mut s, ")");
            s
        },
        Expr::BinaryOp { op, left, right, .. } => {
            let mut s = format_expr(left, ft);
            push_str(&mut s, " ");
            push_binop(&mut s, *op);
            push_str(&mut s, " ");
            let r = format_expr(right, ft);
            push_str(&mut s, r.as_str());
            s
        },
        Expr::Borrow { mutable, inner, .. } => {
            let mut s = if *mutable { String::from_str("&mut ") } else { String::from_str("&") };
            let i = format_expr(inner, ft);
            push_str(&mut s, i.as_str());
            s
        },
        Expr::Deref { inner, .. } => {
            let mut s = String::from_str("*");
            let i = format_expr(inner, ft);
            push_str(&mut s, i.as_str());
            s
        },
        Expr::UnaryOp { op, inner, .. } => {
            let mut s = String::new();
            push_unop(&mut s, *op);
            let i = format_expr(inner, ft);
            push_str(&mut s, i.as_str());
            assert(s@ =~= expr_text(*e, ft@));
            s
        },
        Expr::FieldAccess { base, field, .. } => {
            let mut s = format_expr(base, ft);
            push_str(&mut s, ".");
            let f = format_ident(field.as_str());
            push_str(&mut s, f.as_str());
            s
        },
        Expr::IfExpr { cond, then, else_, .. } => {
            let mut s = String::from_str("if ");
            let c = format_expr(cond, ft);
            push_str(&mut s, c.as_str());
            push_str(&mut s, " ");
            let t = format_expr(then, ft);
            push_str(&mut s, t.as_str());
            push_str(&mut s, " else ");
            let f = format_expr(else_, ft);
            push_str(&mut s, f.as_str());
            s
        },
        Expr::Interpolated(frags, _) => {
            let mut s = String::from_str("f\"");
            let inner = format_frags(frags, ft);
            push_str(&mut s, inner.as_str());
            push_str(&mut s, "\"");
            s
        },
        Expr::Block(stmts, _) => {
            let mut s = String::from_str("{ ");
            let parts = format_stmts(stmts, "    ", ft);
            push_join(&mut s, parts.as_slice(), " ");
            push_str(&mut s, " }");
            s
        },
        Expr::Tuple(es, _) => {
            let mut s = String::from_str("(");
            let parts = format_exprs(es, ft);
            push_join(&mut s, parts.as_slice(), ", ");
            push_str(&mut s, ")");
            s
        },
        Expr::Array(es, _) => {
            let mut s = String::from_str("[");
            let parts = format_exprs(es, ft);
            push_join(&mut s, parts.as_slice(), ", ");
            push_str(&mut s, "]");
            s
        },
        Expr::Index(base, index, _) => {
            let mut s = format_expr(base, ft);
            push_str(&mut s, "[");
            let i = format_expr(index, ft);
            push_str(&mut s, i.as_str());
            push_str(&mut s, "]");
            s
        },
        Expr::Match { expr, arms, .. } => {
            let mut s = String::from_str("match ");
            let x = format_expr(expr, ft);
            push_str(&mut s, x.as_str());
            push_str(&mut s, " {\n");
            let a = format_arms(arms, ft);
            push_str(&mut s, a.as_str());
            push_str(&mut s, "}\n");
            s
        },
        Expr::Range { start, end, inclusive, .. } => {
            let mut s = format_expr(start, ft);
            if *inclusive {
                push_str(&mut s, "...");
            } else {
                push_str(&mut s, "..");
            }
            let t = format_expr(end, ft);
            push_str(&mut s, t.as_str());
            s
        },
        Expr::Lambda { params, body, .. } => {
            let mut s = String::from_str("fn(");
            let ps = format_params(params);
            push_join(&mut s, ps.as_slice(), ", ");
            push_str(&mut s, ") ");
            let b = format_expr(body, ft);
            push_str(&mut s, b.as_str());
            s
        },
        Expr::Await(inner, _) => {
            let mut s = String::from_str("await ");
            let i = format_expr(inner, ft);
            push_str(&mut s, i.as_str());
            s
        },
        Expr::Try(inner, _) => {
            let mut s = format_expr(inner, ft);
            push_str(&mut s, "?");
            s
        },
        Expr::StructLit { name, fields, .. } => {
            let mut s = format_ident(name.as_str());
            push_str(&mut s, " { ");
            let parts = format_field_inits(fields, ft);
            push_join(&mut s, parts.as_slice(), ", ");
            push_str(&mut s, " }");
            s
        },
    }
}

fn format_exprs(es: &Vec<Expr>, ft: &Vec<(u64, String)>) -> (r: Vec<String>)
    ensures
        string_seq_view(r@) == exprs_texts(es@, ft@),
    decreases es,
{
    let mut out: Vec<String> = Vec::new();
    let mut i: usize = 0;
    assert(es@.take(0) =~= Seq::<Expr>::empty());
    assert(string_seq_view(out@) =~= exprs_texts(es@.take(0), ft@));
    while i < es.len()
        invariant
            i <= es@.len(),
            string_seq_view(out@) == exprs_texts(es@.take(i as int), ft@),
        decreases es.len() - i,
    {
        let t = format_expr(&es[i], ft);
        let ghost before = out@;
        out.push(t);
        proof {
            assert(es@.take(i + 1).drop_last() =~= es@.take(i as int));
            assert(string_seq_view(out@) =~= string_seq_view(before).push(out@.last()@));
        }
        i = i + 1;
    }
    assert(es@.take(i as int) =~= es@);
    out
}

fn format_field_inits(fs: &Vec<(String, Expr)>, ft: &Vec<(u64, String)>) -> (r: Vec<String>)
    ensures
        string_seq_view(r@) == field_inits_texts(fs@, ft@),
    decreases fs,
{
    let mut out: Vec<String> = Vec::new();
    let mut i: usize = 0;
    assert(fs@.take(0) =~= Seq::<(String, Expr)>::empty());
    assert(string_seq_view(out@) =~= field_inits_texts(fs@.take(0), ft@));
    while i < fs.len()
        invariant
            i <= fs@.len(),
            string_seq_view(out@) == field_inits_texts(fs@.take(i as int), ft@),
        decreases fs.len() - i,
    {
        let mut t = format_ident(fs[i].0.as_str());
        push_str(&mut t, ": ");
        let v = format_expr(&fs[i].1, ft);
        push_str(&mut t, v.as_str());
        let ghost before = out@;
        out.push(t);
        proof {
            assert(fs@.take(i + 1).drop_last() =~= fs@.take(i as int));
            assert(string_seq_view(out@) =~= string_seq_view(before).push(out@.last()@));
        }
        i = i + 1;
    }
    assert(fs@.take(i as int) =~= fs@);
    out
}

fn format_frags(fs: &Vec<InterpolatedFragment>, ft: &Vec<(u64, String)>) -> (r: String)
    ensures
        r@ == frags_text(fs@, ft@),
    decreases fs,
{
    let mut s = String::new();
    let mut i: usize = 0;
    assert(fs@.take(0) =~= Seq::<InterpolatedFragment>::empty());
    assert(s@ =~= frags_text(fs@.take(0), ft@));
    while i < fs.len()
        invariant
            i <= fs@.len(),
            s@ == frags_text(fs@.take(i as int), ft@),
        decreases fs.len() - i,
    {
        assert(fs@.take(i + 1).drop_last() =~= fs@.take(i as int));
        match &fs[i] {
            InterpolatedFragment::Literal(t, _) => {
                let esc = escape_string(t.as_str());
                let cs = chars_of(esc.as_str());
                let pat = chars_of("${");
                let rep = chars_of("\\${");
                let replaced = replace_chars(cs.as_slice(), pat.as_slice(), rep.as_slice());
                let piece = string_from_chars(replaced.as_slice());
                push_str(&mut s, piece.as_str());
            },
            InterpolatedFragment::Expr(x) => {
                push_str(&mut s, "${");
                let t = format_expr(x, ft);
                push_str(&mut s, t.as_str());
                push_str(&mut s, "}");
            },
        }
        assert(s@ =~= frags_text(fs@.take(i + 1), ft@));
        i = i + 1;
    }
    assert(fs@.take(i as int) =~= fs@);
    s
}

fn format_arms(arms: &Vec<MatchArm>, ft: &Vec<(u64, String)>) -> (r: String)
    ensures
        r@ == arms_text(arms@, ft@),
    decreases arms,
{
    let mut s = String::new();
    let mut i: usize = 0;
    assert(arms@.take(0) =~= Seq::<MatchArm>::empty());
    assert(s@ =~= arms_text(arms@.take(0), ft@));
    while i < arms.len()
        invariant
            i <= arms@.len(),
            s@ == arms_text(arms@.take(i as int), ft@),
        decreases arms.len() - i,
    {
        assert(arms@.take(i + 1).drop_last() =~= arms@.take(i as int));
        let ghost before = s@;
        push_str(&mut s, "  | ");
        let p = format_pattern(&arms[i].pattern);
        push_str(&mut s, p.as_str());
        match &arms[i].guard {
            Some(g) => {
                push_str(&mut s, " if ");
                let gt = format_expr(g, ft);
                push_str(&mut s, gt.as_str());
            },
            None => {},
        }
        push_str(&mut s, " => ");
        let b = format_expr(&arms[i].body, ft);
        push_str(&mut s, b.as_str());
        push_str(&mut s, "\n");
        assert(s@ =~= arms_text(arms@.take(i + 1), ft@));
        i = i + 1;
    }
    assert(arms@.take(i as int) =~= arms@);
    s
}

/// The characters of an optional string.
pub open spec fn opt_view(o: Option<String>) -> Option<Seq<char>> {
    match o {
        Some(t) => Some(t@),
        None => None,
    }
}


fn format_contract_inline(c: &Stmt, ft: &Vec<(u64, String)>) -> (r: Option<String>)
    ensures
        opt_view(r) == contract_text(*c, ft@),
    decreases c,
{
    match c {
        Stmt::ContractRequires { condition, message, .. } => {
            let mut s = String::from_str("@requires(");
            let t = format_expr(condition, ft);
            push_str(&mut s, t.as_str());
            push_message(&mut s, message.as_str());
            push_str(&mut s, ")");
            Some(s)
        },
        Stmt::ContractEnsures { condition, message, .. } => {
            let mut s = String::from_str("@ensures(");
            let t = format_expr(condition, ft);
            push_str(&mut s, t.as_str());
            push_message(&mut s, message.as_str());
            push_str(&mut s, ")");
            Some(s)
        },
        Stmt::ContractInvariant { condition, message, .. } => {
            let mut s = String::from_str("@invariant(");
            let t = format_expr(condition, ft);
            push_str(&mut s, t.as_str());
            push_message(&mut s, message.as_str());
            push_str(&mut s, ")");
            Some(s)
        },
        Stmt::ComptimeLimit { max_ops, .. } => {
            let mut s = String::from_str("@comptime_limit(ops: ");
            push_decimal_u64(&mut s, *max_ops);
            push_str(&mut s, ")");
            Some(s)
        },
        _ => None,
    }
}

fn format_contracts(cs: &Vec<Stmt>, ft: &Vec<(u64, String)>) -> (r: String)
    ensures
        r@ == contracts_text(cs@, ft@),
    decreases cs,
{
    let mut s = String::new();
    let mut i: usize = 0;
    assert(cs@.take(0) =~= Seq::<Stmt>::empty());
    assert(s@ =~= contracts_text(cs@.take(0), ft@));
    while i < cs.len()
        invariant
            i <= cs@.len(),
            s@ == contracts_text(cs@.take(i as int), ft@),
        decreases cs.len() - i,
    {
        assert(cs@.take(i + 1).drop_last() =~= cs@.take(i as int));
        match format_contract_inline(&cs[i], ft) {
            Some(t) => {
                push_str(&mut s, " ");
                push_str(&mut s, t.as_str());
            },
            None => {},
        }
        assert(s@ =~= contracts_text(cs@.take(i + 1), ft@));
        i = i + 1;
    }
    assert(cs@.take(i as int) =~= cs@);
    s
}

fn format_stmts(ss: &Vec<Stmt>, pad: &str, ft: &Vec<(u64, String)>) -> (r: Vec<String>)
    ensures
        string_seq_view(r@) == stmts_texts(ss@, pad@, ft@),
    decreases ss,
{
    let mut out: Vec<String> = Vec::new();
    let mut i: usize = 0;
    assert(ss@.take(0) =~= Seq::<Stmt>::empty());
    assert(string_seq_view(out@) =~= stmts_texts(ss@.take(0), pad@, ft@));
    while i < ss.len()
        invariant
            i <= ss@.len(),
            string_seq_view(out@) == stmts_texts(ss@.take(i as int), pad@, ft@),
        decreases ss.len() - i,
    {
        let t = format_stmt(&ss[i], pad, ft);
        let ghost before = out@;
        out.push(t);
        proof {
            assert(ss@.take(i + 1).drop_last() =~= ss@.take(i as int));
            assert(string_seq_view(out@) =~= string_seq_view(before).push(out@.last()@));
        }
        i = i + 1;
    }
    assert(ss@.take(i as int) =~= ss@);
    out
}

fn struct_fields_lines(pad: &str, fields: &Vec<(String, String)>) -> (r: Vec<String>)
    ensures
        string_seq_view(r@) == Seq::new(fields@.len(), |i: int| struct_field_text(pad@, fields@[i])),
{
    let mut out: Vec<String> = Vec::new();
    let mut i: usize = 0;
    while i < fields.len()
        invariant
            i <= fields@.len(),
            out@.len() == i,
            forall|q: int| 0 <= q < i ==> (#[trigger] out@[q])@ == struct_field_text(pad@, fields@[q]),
        decreases fields.len() - i,
    {
        let mut t = String::from_str(pad);
        push_str(&mut t, "    ");
        let n = format_ident(fields[i].0.as_str());
        push_str(&mut t, n.as_str());
        push_str(&mut t, ": ");
        push_str(&mut t, fields[i].1.as_str());
        push_str(&mut t, "\n");
        out.push(t);
        i = i + 1;
    }
    assert(string_seq_view(out@) =~= Seq::new(fields@.len(), |i: int| struct_field_text(pad@, fields@[i])));
    out
}

fn error_variant_lines(pad: &str, variants: &Vec<crate::ast::EnumVariant>) -> (r: Vec<String>)
    ensures
        string_seq_view(r@) == Seq::new(variants@.len(), |i: int| pad@ + "    variant "@ + ident_text(variants@[i].name@) + "\n"@),
{
    let mut out: Vec<String> = Vec::new();
    let mut i: usize = 0;
    while i < variants.len()
        invariant
            i <= variants@.len(),
            out@.len() == i,
            forall|q: int| 0 <= q < i ==> (#[trigger] out@[q])@ == pad@ + "    variant "@ + ident_text(variants@[q].name@) + "\n"@,
        decreases variants.len() - i,
    {
        let mut t = String::from_str(pad);
        push_str(&mut t, "    variant ");
        let n = format_ident(variants[i].name.as_str());
        push_str(&mut t, n.as_str());
        push_str(&mut t, "\n");
        out.push(t);
        i = i + 1;
    }
    assert(string_seq_view(out@) =~= Seq::new(variants@.len(), |i: int| pad@ + "    variant "@ + ident_text(variants@[i].name@) + "\n"@));
    out
}

fn format_variant_fields(fields: &Vec<(String, String)>) -> (r: Vec<String>)
    ensures
        string_seq_view(r@) == Seq::new(fields@.len(), |i: int| variant_field_text(fields@[i])),
{
    let mut out: Vec<String> = Vec::new();
    let mut i: usize = 0;
    while i < fields.len()
        invariant
            i <= fields@.len(),
            out@.len() == i,
            forall|q: int| 0 <= q < i ==> (#[trigger] out@[q])@ == variant_field_text(fields@[q]),
        decreases fields.len() - i,
    {
        let mut t = format_ident(fields[i].0.as_str());
        push_str(&mut t, ": ");
        push_str(&mut t, fields[i].1.as_str());
        out.push(t);
        i = i + 1;
    }
    assert(string_seq_view(out@) =~= Seq::new(fields@.len(), |i: int| variant_field_text(fields@[i])));
    out
}

fn enum_variant_lines(pad: &str, variants: &Vec<crate::ast::EnumVariant>) -> (r: Vec<String>)
    ensures
        string_seq_view(r@) == Seq::new(variants@.len(), |i: int| enum_variant_text(pad@, variants@[i])),
{
    let mut out: Vec<String> = Vec::new();
    let mut i: usize = 0;
    while i < variants.len()
        invariant
            i <= variants@.len(),
            out@.len() == i,
            forall|q: int| 0 <= q < i ==> (#[trigger] out@[q])@ == enum_variant_text(pad@, variants@[q]),
        decreases variants.len() - i,
    {
        let v = &variants[i];
        let mut t = String::from_str(pad);
        push_str(&mut t, "    variant ");
        let n = format_ident(v.name.as_str());
        push_str(&mut t, n.as_str());
        if v.fields.len() > 0 {
            push_str(&mut t, " [");
            let fs = format_variant_fields(&v.fields);
            push_join(&mut t, fs.as_slice(), ", ");
            push_str(&mut t, "]");
        }
        push_str(&mut t, "\n");
        assert(t@ =~= enum_variant_text(pad@, variants@[i as int]));
        out.push(t);
        i = i + 1;
    }
    assert(string_seq_view(out@) =~= Seq::new(variants@.len(), |i: int| enum_variant_text(pad@, variants@[i])));
    out
}

fn diagnostic_lines(pad: &str, attrs: &Vec<crate::ast::DiagnosticAttribute>) -> (r: Vec<String>)
    ensures
        string_seq_view(r@) == Seq::new(attrs@.len(), |i: int| diagnostic_text(pad@, attrs@[i])),
{
    let mut out: Vec<String> = Vec::new();
    let mut i: usize = 0;
    while i < attrs.len()
        invariant
            i <= attrs@.len(),
            out@.len() == i,
            forall|q: int| 0 <= q < i ==> (#[trigger] out@[q])@ == diagnostic_text(pad@, attrs@[q]),
        decreases attrs.len() - i,
    {
        let a = &attrs[i];
        let mut t = String::from_str(pad);
        push_str(&mut t, "    @diagnostic::on_unimplemented(message = \"");
        let m = escape_string(a.message.as_str());
        push_str(&mut t, m.as_str());
        push_str(&mut t, "\"");
        match &a.label {
            Some(l) => {
                push_str(&mut t, ", label = \"");
                let le = escape_string(l.as_str());
                push_str(&mut t, le.as_str());
                push_str(&mut t, "\"");
            },
            None => {},
        }
        push_str(&mut t, ")\n");
        assert(t@ =~= diagnostic_text(pad@, attrs@[i as int]));
        out.push(t);
        i = i + 1;
    }
    assert(string_seq_view(out@) =~= Seq::new(attrs@.len(), |i: int| diagnostic_text(pad@, attrs@[i])));
    out
}

fn alias_list(aliases: &Vec<(String, Option<String>)>) -> (r: Vec<String>)
    ensures
        string_seq_view(r@) == Seq::new(aliases@.len(), |i: int| alias_text(aliases@[i])),
{
    let mut out: Vec<String> = Vec::new();
    let mut i: usize = 0;
    while i < aliases.len()
        invariant
            i <= aliases@.len(),
            out@.len() == i,
            forall|q: int| 0 <= q < i ==> (#[trigger] out@[q])@ == alias_text(aliases@[q]),
        decreases aliases.len() - i,
    {
        let mut t = aliases[i].0.clone();
        push_opt(&mut t, &aliases[i].1, " as ");
        out.push(t);
        i = i + 1;
    }
    assert(string_seq_view(out@) =~= Seq::new(aliases@.len(), |i: int| alias_text(aliases@[i])));
    out
}

fn shape_list(shape: &Vec<u32>) -> (r: Vec<String>)
    ensures
        string_seq_view(r@) == Seq::new(shape@.len(), |i: int| decimal(shape@[i] as nat)),
{
    let mut out: Vec<String> = Vec::new();
    let mut i: usize = 0;
    while i < shape.len()
        invariant
            i <= shape@.len(),
            out@.len() == i,
            forall|q: int| 0 <= q < i ==> (#[trigger] out@[q])@ == decimal(shape@[q] as nat),
        decreases shape.len() - i,
    {
        let mut t = String::new();
        push_decimal_u64(&mut t, shape[i] as u64);
        assert(t@ =~= decimal(shape@[i as int] as nat));
        out.push(t);
        i = i + 1;
    }
    assert(string_seq_view(out@) =~= Seq::new(shape@.len(), |i: int| decimal(shape@[i] as nat)));
    out
}


/// The text of a statement, indented by `pad`.
#[verifier::rlimit(100)]
#[verifier::spinoff_prover]
fn format_stmt(st: &Stmt, pad: &str, ft: &Vec<(u64, String)>) -> (r: String)
    ensures
        r@ == stmt_text(*st, pad@, ft@),
    decreases st,
{
    let mut inner = String::from_str(pad);
    push_str(&mut inner, "    ");
    let mut s = String::from_str(pad);
    match st {
        Stmt::Annotation(a, _) => {
            push_str(&mut s, "@");
            let n = format_ident(a.as_str());
            push_str(&mut s, n.as_str());
            push_str(&mut s, "\n");
            assert(s@ =~= stmt_text(*st, pad@, ft@));
        },
        Stmt::Mod(name, _) => {
            push_str(&mut s, "mod ");
            let n = format_ident(name.as_str());
            push_str(&mut s, n.as_str());
            push_str(&mut s, ";\n");
            assert(s@ =~= stmt_text(*st, pad@, ft@));
        },
        Stmt::ModBlock(name, body, _) => {
            push_str(&mut s, "mod ");
            let n = format_ident(name.as_str());
            push_str(&mut s, n.as_str());
            push_str(&mut s, " {\n");
            let texts = format_stmts(body, inner.as_str(), ft);
            push_block_end(&mut s, &texts, pad);
            assert(s@ =~= stmt_text(*st, pad@, ft@));
        },
        Stmt::Print(x, _) => {
            push_str(&mut s, "print ");
            let t = format_expr(x, ft);
            push_str(&mut s, t.as_str());
            push_str(&mut s, ";\n");
            assert(s@ =~= stmt_text(*st, pad@, ft@));
        },
        Stmt::Let(name, ty, x, _) => {
            push_str(&mut s, "let ");
            let n = format_ident(name.as_str());
            push_str(&mut s, n.as_str());
            push_opt(&mut s, ty, ": ");
            push_str(&mut s, " = ");
            let t = format_expr(x, ft);
            push_str(&mut s, t.as_str());
            push_str(&mut s, ";\n");
            assert(s@ =~= stmt_text(*st, pad@, ft@));
        },
        Stmt::LetMut(name, ty, x, _) => {
            push_str(&mut s, "let mut ");
            let n = format_ident(name.as_str());
            push_str(&mut s, n.as_str());
            push_opt(&mut s, ty, ": ");
            push_str(&mut s, " = ");
            let t = format_expr(x, ft);
            push_str(&mut s, t.as_str());
            push_str(&mut s, ";\n");
            assert(s@ =~= stmt_text(*st, pad@, ft@));
        },
        Stmt::LetLinear(name, ty, x, _) => {
            push_str(&mut s, "linear ");
            let n = format_ident(name.as_str());
            push_str(&mut s, n.as_str());
            push_opt(&mut s, ty, ": ");
            push_str(&mut s, " = ");
            let t = format_expr(x, ft);
            push_str(&mut s, t.as_str());
            push_str(&mut s, ";\n");
            assert(s@ =~= stmt_text(*st, pad@, ft@));
        },
        Stmt::Fn { name, visibility, is_async, type_params, params, ret_type, effects, contracts, body, .. } => {
            let v = format_visibility(visibility);
            push_str(&mut s, v.as_str());
            if *is_async {
                push_str(&mut s, "async ");
            }
            push_str(&mut s, "fn ");
            let n = format_ident(name.as_str());
            push_str(&mut s, n.as_str());
            push_generics(&mut s, type_params);
            push_str(&mut s, "(");
            let ps = format_params(params);
            push_join(&mut s, ps.as_slice(), ", ");
            push_str(&mut s, ")");
            push_opt(&mut s, ret_type, " -> ");
            let effs = visible_effect_list(effects, *is_async);
            if effs.len() > 0 {
                push_str(&mut s, " / ");
                push_join(&mut s, effs.as_slice(), " + ");
            }
            let cs = format_contracts(contracts, ft);
            push_str(&mut s, cs.as_str());
            push_str(&mut s, " {\n");
            let texts = format_stmts(body, inner.as_str(), ft);
            push_block_end(&mut s, &texts, pad);
            assert(s@ =~= stmt_text(*st, pad@, ft@));
        },
        Stmt::ExprStmt(x, _) => {
            let t = format_expr(x, ft);
            push_str(&mut s, t.as_str());
            push_str(&mut s, ";\n");
            assert(s@ =~= stmt_text(*st, pad@, ft@));
        },
        Stmt::Block(body, _) => {
            let texts = format_stmts(body, pad, ft);
            s = String::new();
            push_concat(&mut s, &texts);
            assert(s@ =~= stmt_text(*st, pad@, ft@));
        },
        Stmt::If { cond, then_body, else_body, .. } => {
            push_str(&mut s, "if ");
            let c = format_expr(cond, ft);
            push_str(&mut s, c.as_str());
            push_str(&mut s, " {\n");
            let t1 = format_stmts(then_body, inner.as_str(), ft);
            push_concat(&mut s, &t1);
            push_str(&mut s, pad);
            push_str(&mut s, "} else {\n");
            let t2 = format_stmts(else_body, inner.as_str(), ft);
            push_block_end(&mut s, &t2, pad);
            assert(s@ =~= stmt_text(*st, pad@, ft@));
        },
        Stmt::Loop { body, .. } => {
            push_str(&mut s, "loop {\n");
            let texts = format_stmts(body, inner.as_str(), ft);
            push_block_end(&mut s, &texts, pad);
            assert(s@ =~= stmt_text(*st, pad@, ft@));
        },
        Stmt::For { var_name, iterable, body, .. } => {
            push_str(&mut s, "for ");
            let n = format_ident(var_name.as_str());
            push_str(&mut s, n.as_str());
            push_str(&mut s, " in ");
            let it = format_expr(iterable, ft);
            push_str(&mut s, it.as_str());
            push_str(&mut s, " {\n");
            let texts = format_stmts(body, inner.as_str(), ft);
            push_block_end(&mut s, &texts, pad);
            assert(s@ =~= stmt_text(*st, pad@, ft@));
        },
        Stmt::While { cond, body, .. } => {
            push_str(&mut s, "while ");
            let c = format_expr(cond, ft);
            push_str(&mut s, c.as_str());
            push_str(&mut s, " {\n");
            let texts = format_stmts(body, inner.as_str(), ft);
            push_block_end(&mut s, &texts, pad);
            assert(s@ =~= stmt_text(*st, pad@, ft@));
        },
        Stmt::Return(x, _) => {
            push_str(&mut s, "return ");
            let t = format_expr(x, ft);
            push_str(&mut s, t.as_str());
            push_str(&mut s, ";\n");
            assert(s@ =~= stmt_text(*st, pad@, ft@));
        },
        Stmt::Break(_) => {
            push_str(&mut s, "break;\n");
            assert(s@ =~= stmt_text(*st, pad@, ft@));
        },
        Stmt::Continue(_) => {
            push_str(&mut s, "continue;\n");
            assert(s@ =~= stmt_text(*st, pad@, ft@));
        },
        Stmt::Assign(name, x, _) => {
            let n = format_ident(name.as_str());
            push_str(&mut s, n.as_str());
            push_str(&mut s, " = ");
            let t = format_expr(x, ft);
            push_str(&mut s, t.as_str());
            push_str(&mut s, ";\n");
            assert(s@ =~= stmt_text(*st, pad@, ft@));
        },
        Stmt::ExprFieldAssign(base, field, x, _) => {
            let b = format_expr(base, ft);
            push_str(&mut s, b.as_str());
            push_str(&mut s, ".");
            push_str(&mut s, field.as_str());
            push_str(&mut s, " = ");
            let t = format_expr(x, ft);
            push_str(&mut s, t.as_str());
            push_str(&mut s, ";\n");
            assert(s@ =~= stmt_text(*st, pad@, ft@));
        },
        Stmt::DerefAssign(target, x, _) => {
            push_str(&mut s, "*");
            let b = format_expr(target, ft);
            push_str(&mut s, b.as_str());
            push_str(&mut s, " = ");
            let t = format_expr(x, ft);
            push_str(&mut s, t.as_str());
            push_str(&mut s, ";\n");
            assert(s@ =~= stmt_text(*st, pad@, ft@));
        },
        Stmt::WhileIn { var_name, iterable, body, .. } => {
            push_str(&mut s, "while ");
            let n = format_ident(var_name.as_str());
            push_str(&mut s, n.as_str());
            push_str(&mut s, " in ");
            let it = format_expr(iterable, ft);
            push_str(&mut s, it.as_str());
            push_str(&mut s, " {\n");
            let texts = format_stmts(body, inner.as_str(), ft);
            push_block_end(&mut s, &texts, pad);
            assert(s@ =~= stmt_text(*st, pad@, ft@));
        },
        Stmt::Unsafe { body, .. } => {
            push_str(&mut s, "unsafe {\n");
            let texts = format_stmts(body, inner.as_str(), ft);
            push_block_end(&mut s, &texts, pad);
            assert(s@ =~= stmt_text(*st, pad@, ft@));
        },
        Stmt::Struct { name, visibility, fields, is_linear, .. } => {
            let v = format_visibility(visibility);
            push_str(&mut s, v.as_str());
            push_str(&mut s, "struct ");
            let n = format_ident(name.as_str());
            push_str(&mut s, n.as_str());
            if *is_linear {
                push_str(&mut s, " linear");
            }
            push_str(&mut s, " {\n");
            let lines = struct_fields_lines(pad, fields);
            push_block_end(&mut s, &lines, pad);
            assert(s@ =~= stmt_text(*st, pad@, ft@));
        },
        Stmt::ErrorSet { name, visibility, variants, .. } => {
            let v = format_visibility(visibility);
            push_str(&mut s, v.as_str());
            push_str(&mut s, "error set ");
            let n = format_ident(name.as_str());
            push_str(&mut s, n.as_str());
            push_str(&mut s, " {\n");
            let lines = error_variant_lines(pad, variants);
            push_block_end(&mut s, &lines, pad);
            assert(s@ =~= stmt_text(*st, pad@, ft@));
        },
        Stmt::Impl { target, visibility, type_params, for_type, methods, .. } => {
            let v = format_visibility(visibility);
            push_str(&mut s, v.as_str());
            push_str(&mut s, "impl ");
            let n = format_ident(target.as_str());
            push_str(&mut s, n.as_str());
            push_generics(&mut s, type_params);
            match for_type {
                Some(t) => {
                    push_str(&mut s, " for ");
                    let tn = format_ident(t.as_str());
                    push_str(&mut s, tn.as_str());
                },
                None => {},
            }
            push_str(&mut s, " {\n");
            let texts = format_stmts(methods, inner.as_str(), ft);
            push_block_end(&mut s, &texts, pad);
            assert(s@ =~= stmt_text(*st, pad@, ft@));
        },
        Stmt::Trait { name, visibility, type_params, methods, diagnostic_attrs, .. } => {
            let v = format_visibility(visibility);
            push_str(&mut s, v.as_str());
            push_str(&mut s, "trait ");
            let n = format_ident(name.as_str());
            push_str(&mut s, n.as_str());
            push_generics(&mut s, type_params);
            push_str(&mut s, " {\n");
            let diags = diagnostic_lines(pad, diagnostic_attrs);
            push_concat(&mut s, &diags);
            let texts = format_stmts(methods, inner.as_str(), ft);
            push_block_end(&mut s, &texts, pad);
            assert(s@ =~= stmt_text(*st, pad@, ft@));
        },
        Stmt::TypeAlias { name, visibility, type_params, target, .. } => {
            let v = format_visibility(visibility);
            push_str(&mut s, v.as_str());
            push_str(&mut s, "type ");
            let n = format_ident(name.as_str());
            push_str(&mut s, n.as_str());
            push_generics(&mut s, type_params);
            push_str(&mut s, " = ");
            push_str(&mut s, target.as_str());
            push_str(&mut s, ";\n");
            assert(s@ =~= stmt_text(*st, pad@, ft@));
        },
        Stmt::Use { path, alias, .. } => {
            push_str(&mut s, "use ");
            push_str(&mut s, path.as_str());
            push_opt(&mut s, alias, " as ");
            push_str(&mut s, ";\n");
            assert(s@ =~= stmt_text(*st, pad@, ft@));
        },
        Stmt::UseScoped { path, aliases, body, .. } => {
            push_str(&mut s, "use ");
            push_str(&mut s, path.as_str());
            push_str(&mut s, " in");
            if aliases.len() > 0 {
                push_str(&mut s, " [");
                let al = alias_list(aliases);
                push_join(&mut s, al.as_slice(), ", ");
                push_str(&mut s, "]");
            }
            push_str(&mut s, ":\n");
            let texts = format_stmts(body, inner.as_str(), ft);
            push_concat(&mut s, &texts);
            assert(s@ =~= stmt_text(*st, pad@, ft@));
        },
        Stmt::GcMode { mode, .. } => {
            push_str(&mut s, "@gc_mode(");
            push_str(&mut s, mode.as_str());
            push_str(&mut s, ")\n");
            assert(s@ =~= stmt_text(*st, pad@, ft@));
        },
        Stmt::CancelToken { .. } => {
            push_str(&mut s, "@cancel_token\n");
            assert(s@ =~= stmt_text(*st, pad@, ft@));
        },
        Stmt::EffectHandler { effect, handler, .. } => {
            push_str(&mut s, "handle ");
            push_str(&mut s, effect.as_str());
            push_str(&mut s, " in {\n");
            match &**handler {
                Expr::Block(body, _) => {
                    let texts = format_stmts(body, inner.as_str(), ft);
                    push_concat(&mut s, &texts);
                },
                h => {
                    push_str(&mut s, inner.as_str());
                    let t = format_expr(h, ft);
                    push_str(&mut s, t.as_str());
                    push_str(&mut s, "\n");
                },
            }
            push_str(&mut s, pad);
            push_str(&mut s, "}\n");
            assert(s@ =~= stmt_text(*st, pad@, ft@));
        },
        Stmt::Spawn { task, .. } => {
            push_str(&mut s, "spawn ");
            let t = format_expr(task, ft);
            push_str(&mut s, t.as_str());
            push_str(&mut s, "\n");
            assert(s@ =~= stmt_text(*st, pad@, ft@));
        },
        Stmt::Channel { elem_type, capacity, .. } => {
            push_str(&mut s, "channel ");
            push_str(&mut s, elem_type.as_str());
            match capacity {
                Some(c) => {
                    push_str(&mut s, "[");
                    push_decimal_u64(&mut s, *c as u64);
                    push_str(&mut s, "]");
                },
                None => {},
            }
            push_str(&mut s, "\n");
            assert(s@ =~= stmt_text(*st, pad@, ft@));
        },
        Stmt::Actor { name, state, .. } => {
            push_str(&mut s, "actor ");
            let n = format_ident(name.as_str());
            push_str(&mut s, n.as_str());
            push_str(&mut s, " ");
            push_str(&mut s, state.as_str());
            push_str(&mut s, "\n");
            assert(s@ =~= stmt_text(*st, pad@, ft@));
        },
        Stmt::WorkStealingExecutor { num_threads, queue_type, .. } => {
            push_str(&mut s, "executor[");
            push_decimal_u64(&mut s, *num_threads as u64);
            push_str(&mut s, "] ");
            push_str(&mut s, queue_type.as_str());
            push_str(&mut s, "\n");
            assert(s@ =~= stmt_text(*st, pad@, ft@));
        },
        Stmt::DeterministicRuntime { max_tasks, .. } => {
            push_str(&mut s, "deterministic[");
            push_decimal_u64(&mut s, *max_tasks as u64);
            push_str(&mut s, "]\n");
            assert(s@ =~= stmt_text(*st, pad@, ft@));
        },
        Stmt::Tensor { shape, dtype, .. } => {
            push_str(&mut s, "tensor[");
            let dims = shape_list(shape);
            push_join(&mut s, dims.as_slice(), "x");
            push_str(&mut s, "] ");
            push_str(&mut s, dtype.as_str());
            push_str(&mut s, "\n");
            assert(s@ =~= stmt_text(*st, pad@, ft@));
        },
        Stmt::Simd { width, elem_type, .. } => {
            push_str(&mut s, "simd[");
            push_decimal_u64(&mut s, *width as u64);
            push_str(&mut s, "] ");
            push_str(&mut s, elem_type.as_str());
            push_str(&mut s, "\n");
            assert(s@ =~= stmt_text(*st, pad@, ft@));
        },
        Stmt::DocComment { target, content, .. } => {
            push_str(&mut s, "doc ");
            push_str(&mut s, target.as_str());
            push_str(&mut s, " \"");
            push_str(&mut s, content.as_str());
            push_str(&mut s, "\"\n");
            assert(s@ =~= stmt_text(*st, pad@, ft@));
        },
        Stmt::DebugSession { port, .. } => {
            push_str(&mut s, "debug[");
            push_decimal_u64(&mut s, *port as u64);
            push_str(&mut s, "]\n");
            assert(s@ =~= stmt_text(*st, pad@, ft@));
        },
        Stmt::Capability { name, permissions, .. } => {
            push_str(&mut s, "capability ");
            let n = format_ident(name.as_str());
            push_str(&mut s, n.as_str());
            push_str(&mut s, " [");
            push_join(&mut s, permissions.as_slice(), ", ");
            push_str(&mut s, "]\n");
            assert(s@ =~= stmt_text(*st, pad@, ft@));
        },
        Stmt::FfiSandbox { allow_list, .. } => {
            push_str(&mut s, "sandbox [");
            push_join(&mut s, allow_list.as_slice(), ", ");
            push_str(&mut s, "]\n");
            assert(s@ =~= stmt_text(*st, pad@, ft@));
        },
        Stmt::Enum { name, visibility, variants, is_sealed, .. } => {
            let v = format_visibility(visibility);
            push_str(&mut s, v.as_str());
            push_str(&mut s, "enum ");
            let n = format_ident(name.as_str());
            push_str(&mut s, n.as_str());
            if *is_sealed {
                push_str(&mut s, " sealed");
            }
            push_str(&mut s, " {\n");
            let lines = enum_variant_lines(pad, variants);
            push_block_end(&mut s, &lines, pad);
            assert(s@ =~= stmt_text(*st, pad@, ft@));
        },
        Stmt::ContractRequires { condition, message, .. } => {
            push_str(&mut s, "@requires(");
            let t = format_expr(condition, ft);
            push_str(&mut s, t.as_str());
            push_message(&mut s, message.as_str());
            push_str(&mut s, ")");
            push_str(&mut s, "\n");
            assert(s@ =~= stmt_text(*st, pad@, ft@));
        },
        Stmt::ContractEnsures { condition, message, .. } => {
            push_str(&mut s, "@ensures(");
            let t = format_expr(condition, ft);
            push_str(&mut s, t.as_str());
            push_message(&mut s, message.as_str());
            push_str(&mut s, ")");
            push_str(&mut s, "\n");
            assert(s@ =~= stmt_text(*st, pad@, ft@));
        },
        Stmt::ContractInvariant { condition, message, .. } => {
            push_str(&mut s, "@invariant(");
            let t = format_expr(condition, ft);
            push_str(&mut s, t.as_str());
            push_message(&mut s, message.as_str());
            push_str(&mut s, ")");
            push_str(&mut s, "\n");
            assert(s@ =~= stmt_text(*st, pad@, ft@));
        },
        Stmt::ComptimeLimit { max_ops, .. } => {
            push_str(&mut s, "@comptime_limit(ops: ");
            push_decimal_u64(&mut s, *max_ops);
            push_str(&mut s, ")");
            push_str(&mut s, "\n");
            assert(s@ =~= stmt_text(*st, pad@, ft@));
        },
        Stmt::Defer { .. } | Stmt::AsyncDefer { .. } => {
            push_str(&mut s, "defer { ... }\n");
            assert(s@ =~= stmt_text(*st, pad@, ft@));
        },
    }
    assert(s@ =~= stmt_text(*st, pad@, ft@));
    s
}


/// The program written in canonical source form: each top-level statement in
/// turn, unindented. Each floating-point literal is written with the text
/// that `floats` gives for its bit pattern (the first entry with those bits;
/// nothing when there is none).
pub fn format_program(prog: &Program, floats: &Vec<(u64, String)>) -> (r: String)
    ensures
        r@ == program_text(*prog, floats@),
{
    proof {
        reveal_strlit("");
        assert(""@ =~= Seq::<char>::empty());
    }
    let texts = format_stmts(&prog.stmts, "", floats);
    let mut s = String::new();
    push_concat(&mut s, &texts);
    assert(s@ =~= program_text(*prog, floats@));
    s
}


// ---------------------------------------------------------------------------
// Strict mode: doc comments first, then the imports by path, then the rest
// ---------------------------------------------------------------------------

/// The path a `use` statement imports; nothing for other statements.
pub open spec fn use_path(s: Stmt) -> Seq<char> {
    match s {
        Stmt::Use { path, .. } => path@,
        Stmt::UseScoped { path, .. } => path@,
        _ => seq![],
    }
}

/// Whether `a` comes no later than `b` in the lexicographic order of their
/// characters (the order in which `str` values compare).
pub open spec fn text_le(a: Seq<char>, b: Seq<char>) -> bool
    decreases a.len(),
{
    if a.len() == 0 {
        true
    } else if b.len() == 0 {
        false
    } else if a[0] != b[0] {
        (a[0] as u32) < (b[0] as u32)
    } else {
        text_le(a.drop_first(), b.drop_first())
    }
}

/// The group of a top-level statement in strict mode: doc comments (0),
/// imports (1) and everything else (2).
pub open spec fn strict_group(s: Stmt) -> nat {
    if s is DocComment {
        0
    } else if s is Use || s is UseScoped {
        1
    } else {
        2
    }
}

/// The statements of `ss` in group `g`, in their order.
pub open spec fn in_group(ss: Seq<Stmt>, g: nat) -> Seq<Stmt>
    decreases ss.len(),
{
    if ss.len() == 0 {
        ss
    } else if strict_group(ss.last()) == g {
        in_group(ss.drop_last(), g).push(ss.last())
    } else {
        in_group(ss.drop_last(), g)
    }
}

/// Inserts `x` after the trailing statements whose path does not come after
/// its own.
pub open spec fn insert_by_path(s: Seq<Stmt>, x: Stmt) -> Seq<Stmt>
    decreases s.len(),
{
    if s.len() == 0 {
        seq![x]
    } else if text_le(use_path(s.last()), use_path(x)) {
        s.push(x)
    } else {
        insert_by_path(s.drop_last(), x).push(s.last())
    }
}

/// `s` ordered by path, statements with equal paths keeping their order (a
/// stable sort).
pub open spec fn sort_by_path(s: Seq<Stmt>) -> Seq<Stmt>
    decreases s.len(),
{
    if s.len() == 0 {
        s
    } else {
        insert_by_path(sort_by_path(s.drop_last()), s.last())
    }
}

/// The unindented text of a sequence of top-level statements.
pub open spec fn top_level_text(ss: Seq<Stmt>, ft: Seq<(u64, String)>) -> Seq<char> {
    join(stmts_texts(ss, seq![], ft), seq![])
}

/// The program in strict form: its doc comments, then its imports ordered by
/// path, then the rest, each group in its original order and separated from
/// the next non-empty group by an empty line.
pub open spec fn strict_program_text(prog: Program, ft: Seq<(u64, String)>) -> Seq<char> {
    let docs = in_group(prog.stmts@, 0);
    let uses = sort_by_path(in_group(prog.stmts@, 1));
    let others = in_group(prog.stmts@, 2);
    top_level_text(docs, ft) + (if docs.len() > 0 && uses.len() > 0 { "\n"@ } else { seq![] })
        + top_level_text(uses, ft) + (if uses.len() > 0 && others.len() > 0 { "\n"@ } else { seq![] })
        + top_level_text(others, ft)
}

/// The program as the options ask: in strict form or as written.
pub open spec fn configured_program_text(prog: Program, config: FormatterConfig, ft: Seq<(u64, String)>) -> Seq<char> {
    if config.strict_mode { strict_program_text(prog, ft) } else { program_text(prog, ft) }
}

proof fn lemma_insert_by_path_at(s: Seq<Stmt>, x: Stmt, p: int)
    requires
        0 <= p <= s.len(),
        forall|q: int| p <= q < s.len() ==> !text_le(use_path(#[trigger] s[q]), use_path(x)),
        p == 0 || text_le(use_path(s[p - 1]), use_path(x)),
    ensures
        insert_by_path(s, x) == s.insert(p, x),
    decreases s.len(),
{
    if s.len() == 0 {
        assert(s.insert(p, x) =~= seq![x]);
    } else if text_le(use_path(s.last()), use_path(x)) {
        assert(p == s.len());
        assert(s.insert(p, x) =~= s.push(x));
    } else {
        lemma_insert_by_path_at(s.drop_last(), x, p);
        assert(s.insert(p, x) =~= s.drop_last().insert(p, x).push(s.last()));
    }
}

fn use_path_of(s: &Stmt) -> (r: &str)
    ensures
        r@ == use_path(*s),
{
    proof {
        reveal_strlit("");
        assert(""@ =~= Seq::<char>::empty());
    }
    match s {
        Stmt::Use { path, .. } => path.as_str(),
        Stmt::UseScoped { path, .. } => path.as_str(),
        _ => "",
    }
}

fn text_le_exec(a: &str, b: &str) -> (r: bool)
    ensures
        r == text_le(a@, b@),
{
    let x = chars_of(a);
    let y = chars_of(b);
    let mut i: usize = 0;
    assert(x@.skip(0) =~= x@);
    assert(y@.skip(0) =~= y@);
    while i < x.len() && i < y.len() && x[i] == y[i]
        invariant
            i <= x@.len(),
            i <= y@.len(),
            text_le(a@, b@) == text_le(x@.skip(i as int), y@.skip(i as int)),
        decreases x.len() - i,
    {
        assert(x@.skip(i as int).drop_first() =~= x@.skip(i + 1));
        assert(y@.skip(i as int).drop_first() =~= y@.skip(i + 1));
        i = i + 1;
    }
    if i == x.len() {
        true
    } else if i == y.len() {
        false
    } else {
        (x[i] as u32) < (y[i] as u32)
    }
}

/// The statements of `ss` at the positions `idx`.
pub open spec fn at_positions(ss: Seq<Stmt>, idx: Seq<usize>) -> Seq<Stmt> {
    Seq::new(idx.len(), |k: int| ss[idx[k] as int])
}

fn format_at_positions(ss: &Vec<Stmt>, idx: &Vec<usize>, ft: &Vec<(u64, String)>) -> (r: Vec<String>)
    requires
        forall|k: int| 0 <= k < idx@.len() ==> (#[trigger] idx@[k]) < ss@.len(),
    ensures
        string_seq_view(r@) == stmts_texts(at_positions(ss@, idx@), seq![], ft@),
{
    proof {
        reveal_strlit("");
        assert(""@ =~= Seq::<char>::empty());
    }
    let ghost sel = at_positions(ss@, idx@);
    let mut out: Vec<String> = Vec::new();
    let mut i: usize = 0;
    assert(sel.take(0) =~= Seq::<Stmt>::empty());
    assert(string_seq_view(out@) =~= stmts_texts(sel.take(0), seq![], ft@));
    while i < idx.len()
        invariant
            i <= idx@.len(),
            sel == at_positions(ss@, idx@),
            forall|k: int| 0 <= k < idx@.len() ==> (#[trigger] idx@[k]) < ss@.len(),
            string_seq_view(out@) == stmts_texts(sel.take(i as int), seq![], ft@),
        decreases idx.len() - i,
    {
        proof {
            reveal_strlit("");
            assert(""@ =~= Seq::<char>::empty());
        }
        let t = format_stmt(&ss[idx[i]], "", ft);
        let ghost before = out@;
        out.push(t);
        proof {
            assert(sel.take(i + 1).drop_last() =~= sel.take(i as int));
            assert(sel.take(i + 1).last() == ss@[idx@[i as int] as int]);
            assert(string_seq_view(out@) =~= string_seq_view(before).push(out@.last()@));
        }
        i = i + 1;
    }
    assert(sel.take(i as int) =~= sel);
    out
}

fn format_program_strict(prog: &Program, ft: &Vec<(u64, String)>) -> (r: String)
    ensures
        r@ == strict_program_text(*prog, ft@),
{
    let ghost ss = prog.stmts@;
    let mut docs: Vec<usize> = Vec::new();
    let mut uses: Vec<usize> = Vec::new();
    let mut others: Vec<usize> = Vec::new();
    let mut i: usize = 0;
    assert(ss.take(0) =~= Seq::<Stmt>::empty());
    assert(at_positions(ss, docs@) =~= in_group(ss.take(0), 0));
    assert(at_positions(ss, uses@) =~= sort_by_path(in_group(ss.take(0), 1)));
    assert(at_positions(ss, others@) =~= in_group(ss.take(0), 2));
    while i < prog.stmts.len()
        invariant
            i <= ss.len(),
            ss == prog.stmts@,
            forall|k: int| 0 <= k < docs@.len() ==> (#[trigger] docs@[k]) < i,
            forall|k: int| 0 <= k < uses@.len() ==> (#[trigger] uses@[k]) < i,
            forall|k: int| 0 <= k < others@.len() ==> (#[trigger] others@[k]) < i,
            at_positions(ss, docs@) == in_group(ss.take(i as int), 0),
            at_positions(ss, uses@) == sort_by_path(in_group(ss.take(i as int), 1)),
            at_positions(ss, others@) == in_group(ss.take(i as int), 2),
        decreases ss.len() - i,
    {
        let st = &prog.stmts[i];
        proof {
            assert(ss.take(i + 1).drop_last() =~= ss.take(i as int));
            assert(ss.take(i + 1).last() == ss[i as int]);
        }
        match st {
            Stmt::DocComment { .. } => {
                let ghost before = docs@;
                docs.push(i);
                assert(at_positions(ss, docs@) =~= at_positions(ss, before).push(ss[i as int]));
            },
            Stmt::Use { .. } | Stmt::UseScoped { .. } => {
                let ghost before = uses@;
                let key = use_path_of(st);
                let mut p: usize = uses.len();
                while p > 0 && !text_le_exec(use_path_of(&prog.stmts[uses[p - 1]]), key)
                    invariant
                        p <= uses@.len(),
                        uses@ == before,
                        ss == prog.stmts@,
                        i < ss.len(),
                        key@ == use_path(ss[i as int]),
                        forall|k: int| 0 <= k < uses@.len() ==> (#[trigger] uses@[k]) < i,
                        forall|q: int| p <= q < uses@.len() ==> !text_le(use_path(#[trigger] ss[uses@[q] as int]), use_path(ss[i as int])),
                    decreases p,
                {
                    p = p - 1;
                }
                proof {
                    let sorted = at_positions(ss, before);
                    assert forall|q: int| p <= q < sorted.len() implies !text_le(use_path(#[trigger] sorted[q]), use_path(ss[i as int])) by {
                        assert(sorted[q] == ss[before[q] as int]);
                    }
                    if p > 0 {
                        assert(sorted[p - 1] == ss[before[p - 1] as int]);
                    }
                    lemma_insert_by_path_at(sorted, ss[i as int], p as int);
                }
                uses.insert(p, i);
                assert(at_positions(ss, uses@) =~= at_positions(ss, before).insert(p as int, ss[i as int]));
                proof {
                    let g1 = in_group(ss.take(i as int), 1);
                    assert(in_group(ss.take(i + 1), 1) == g1.push(ss[i as int]));
                    assert(g1.push(ss[i as int]).drop_last() =~= g1);
                    assert(sort_by_path(g1.push(ss[i as int])) == insert_by_path(sort_by_path(g1), ss[i as int]));
                }
            },
            _ => {
                let ghost before = others@;
                others.push(i);
                assert(at_positions(ss, others@) =~= at_positions(ss, before).push(ss[i as int]));
            },
        }
        i = i + 1;
    }
    assert(ss.take(i as int) =~= ss);
    let dt = format_at_positions(&prog.stmts, &docs, ft);
    let ut = format_at_positions(&prog.stmts, &uses, ft);
    let ot = format_at_positions(&prog.stmts, &others, ft);
    let mut s = String::new();
    push_concat(&mut s, &dt);
    if docs.len() > 0 && uses.len() > 0 {
        push_str(&mut s, "\n");
    }
    push_concat(&mut s, &ut);
    if uses.len() > 0 && others.len() > 0 {
        push_str(&mut s, "\n");
    }
    push_concat(&mut s, &ot);
    assert(s@ =~= strict_program_text(*prog, ft@));
    s
}

/// The program as `config` asks: in strict form (doc comments first, then the
/// imports ordered by path, then the rest) or as written.
pub fn format_program_with_config(prog: &Program, config: &FormatterConfig, floats: &Vec<(u64, String)>) -> (r: String)
    ensures
        r@ == configured_program_text(*prog, *config, floats@),
{
    if config.strict_mode {
        format_program_strict(prog, floats)
    } else {
        format_program(prog, floats)
    }
}


// ---------------------------------------------------------------------------
// The floating-point literals the formatter writes
// ---------------------------------------------------------------------------

/// The bit patterns of the floating-point literals of an expression, in the
/// order in which its text shows them.
pub open spec fn expr_floats(e: Expr) -> Seq<u64>
    decreases e,
{
    match e {
        Expr::Float(b, _) => seq![b],
        Expr::Call(_, args, _) => exprs_floats(args@),
        Expr::BinaryOp { left, right, .. } => expr_floats(*left) + expr_floats(*right),
        Expr::Borrow { inner, .. } => expr_floats(*inner),
        Expr::Deref { inner, .. } => expr_floats(*inner),
        Expr::UnaryOp { inner, .. } => expr_floats(*inner),
        Expr::FieldAccess { base, .. } => expr_floats(*base),
        Expr::IfExpr { cond, then, else_, .. } => expr_floats(*cond) + expr_floats(*then) + expr_floats(*else_),
        Expr::Interpolated(frags, _) => frags_floats(frags@),
        Expr::Block(stmts, _) => stmts_floats(stmts@),
        Expr::Tuple(es, _) => exprs_floats(es@),
        Expr::Array(es, _) => exprs_floats(es@),
        Expr::Index(base, index, _) => expr_floats(*base) + expr_floats(*index),
        Expr::Match { expr, arms, .. } => expr_floats(*expr) + arms_floats(arms@),
        Expr::Range { start, end, .. } => expr_floats(*start) + expr_floats(*end),
        Expr::Lambda { body, .. } => expr_floats(*body),
        Expr::Await(inner, _) => expr_floats(*inner),
        Expr::Try(inner, _) => expr_floats(*inner),
        Expr::StructLit { fields, .. } => field_inits_floats(fields@),
        _ => seq![],
    }
}

pub open spec fn exprs_floats(es: Seq<Expr>) -> Seq<u64>
    decreases es,
{
    if es.len() == 0 { seq![] } else { exprs_floats(es.drop_last()) + expr_floats(es.last()) }
}

pub open spec fn field_inits_floats(fs: Seq<(String, Expr)>) -> Seq<u64>
    decreases fs,
{
    if fs.len() == 0 { seq![] } else { field_inits_floats(fs.drop_last()) + expr_floats(fs.last().1) }
}

pub open spec fn frags_floats(fs: Seq<InterpolatedFragment>) -> Seq<u64>
    decreases fs,
{
    if fs.len() == 0 {
        seq![]
    } else {
        frags_floats(fs.drop_last()) + match fs.last() {
            InterpolatedFragment::Expr(e) => expr_floats(*e),
            InterpolatedFragment::Literal(_, _) => seq![],
        }
    }
}

pub open spec fn arms_floats(arms: Seq<MatchArm>) -> Seq<u64>
    decreases arms,
{
    if arms.len() == 0 {
        seq![]
    } else {
        arms_floats(arms.drop_last()) + match arms.last().guard {
            Some(g) => expr_floats(*g),
            None => seq![],
        } + expr_floats(*arms.last().body)
    }
}

pub open spec fn contracts_floats(cs: Seq<Stmt>) -> Seq<u64>
    decreases cs,
{
    if cs.len() == 0 {
        seq![]
    } else {
        contracts_floats(cs.drop_last()) + match cs.last() {
            Stmt::ContractRequires { condition, .. } => expr_floats(condition),
            Stmt::ContractEnsures { condition, .. } => expr_floats(condition),
            Stmt::ContractInvariant { condition, .. } => expr_floats(condition),
            _ => seq![],
        }
    }
}

pub open spec fn stmts_floats(ss: Seq<Stmt>) -> Seq<u64>
    decreases ss,
{
    if ss.len() == 0 { seq![] } else { stmts_floats(ss.drop_last()) + stmt_floats(ss.last()) }
}

/// The bit patterns of the floating-point literals that a statement's text
/// shows, in order.
pub open spec fn stmt_floats(s: Stmt) -> Seq<u64>
    decreases s,
{
    match s {
        Stmt::ModBlock(_, body, _) => stmts_floats(body@),
        Stmt::Print(e, _) => expr_floats(e),
        Stmt::Let(_, _, e, _) => expr_floats(e),
        Stmt::LetMut(_, _, e, _) => expr_floats(e),
        Stmt::LetLinear(_, _, e, _) => expr_floats(e),
        Stmt::Fn { contracts, body, .. } => contracts_floats(contracts@) + stmts_floats(body@),
        Stmt::ExprStmt(e, _) => expr_floats(e),
        Stmt::Block(body, _) => stmts_floats(body@),
        Stmt::If { cond, then_body, else_body, .. } => expr_floats(*cond) + stmts_floats(then_body@) + stmts_floats(else_body@),
        Stmt::Loop { body, .. } => stmts_floats(body@),
        Stmt::For { iterable, body, .. } => expr_floats(*iterable) + stmts_floats(body@),
        Stmt::While { cond, body, .. } => expr_floats(*cond) + stmts_floats(body@),
        Stmt::Return(e, _) => expr_floats(e),
        Stmt::Assign(_, e, _) => expr_floats(e),
        Stmt::ExprFieldAssign(base, _, e, _) => expr_floats(*base) + expr_floats(e),
        Stmt::DerefAssign(target, e, _) => expr_floats(*target) + expr_floats(e),
        Stmt::WhileIn { iterable, body, .. } => expr_floats(*iterable) + stmts_floats(body@),
        Stmt::Unsafe { body, .. } => stmts_floats(body@),
        Stmt::Impl { methods, .. } => stmts_floats(methods@),
        Stmt::Trait { methods, .. } => stmts_floats(methods@),
        Stmt::UseScoped { body, .. } => stmts_floats(body@),
        Stmt::EffectHandler { handler, .. } => match *handler {
            Expr::Block(body, _) => stmts_floats(body@),
            h => expr_floats(h),
        },
        Stmt::Spawn { task, .. } => expr_floats(*task),
        Stmt::ContractRequires { condition, .. } => expr_floats(condition),
        Stmt::ContractEnsures { condition, .. } => expr_floats(condition),
        Stmt::ContractInvariant { condition, .. } => expr_floats(condition),
        _ => seq![],
    }
}

fn collect_expr_floats(e: &Expr, out: &mut Vec<u64>)
    ensures
        final(out)@ == old(out)@ + expr_floats(*e),
    decreases e,
{
    let ghost start = out@;
    match e {
        Expr::Float(b, _) => out.push(*b),
        Expr::Call(_, args, _) => collect_exprs_floats(args, out),
        Expr::BinaryOp { left, right, .. } => {
            collect_expr_floats(left, out);
            collect_expr_floats(right, out);
        },
        Expr::Borrow { inner, .. } => collect_expr_floats(inner, out),
        Expr::Deref { inner, .. } => collect_expr_floats(inner, out),
        Expr::UnaryOp { inner, .. } => collect_expr_floats(inner, out),
        Expr::FieldAccess { base, .. } => collect_expr_floats(base, out),
        Expr::IfExpr { cond, then, else_, .. } => {
            collect_expr_floats(cond, out);
            collect_expr_floats(then, out);
            collect_expr_floats(else_, out);
        },
        Expr::Interpolated(frags, _) => collect_frags_floats(frags, out),
        Expr::Block(stmts, _) => collect_stmts_floats(stmts, out),
        Expr::Tuple(es, _) => collect_exprs_floats(es, out),
        Expr::Array(es, _) => collect_exprs_floats(es, out),
        Expr::Index(base, index, _) => {
            collect_expr_floats(base, out);
            collect_expr_floats(index, out);
        },
        Expr::Match { expr, arms, .. } => {
            collect_expr_floats(expr, out);
            collect_arms_floats(arms, out);
        },
        Expr::Range { start, end, .. } => {
            collect_expr_floats(start, out);
            collect_expr_floats(end, out);
        },
        Expr::Lambda { body, .. } => collect_expr_floats(body, out),
        Expr::Await(inner, _) => collect_expr_floats(inner, out),
        Expr::Try(inner, _) => collect_expr_floats(inner, out),
        Expr::StructLit { fields, .. } => collect_field_inits_floats(fields, out),
        _ => {},
    }
    assert(out@ =~= start + expr_floats(*e));
}

fn collect_exprs_floats(es: &Vec<Expr>, out: &mut Vec<u64>)
    ensures
        final(out)@ == old(out)@ + exprs_floats(es@),
    decreases es,
{
    let ghost start = out@;
    let mut i: usize = 0;
    assert(es@.take(0) =~= Seq::<Expr>::empty());
    assert(out@ =~= start + exprs_floats(es@.take(0)));
    while i < es.len()
        invariant
            i <= es@.len(),
            out@ == start + exprs_floats(es@.take(i as int)),
        decreases es.len() - i,
    {
        assert(es@.take(i + 1).drop_last() =~= es@.take(i as int));
        collect_expr_floats(&es[i], out);
        assert(out@ =~= start + exprs_floats(es@.take(i + 1)));
        i = i + 1;
    }
    assert(es@.take(i as int) =~= es@);
}

fn collect_field_inits_floats(fs: &Vec<(String, Expr)>, out: &mut Vec<u64>)
    ensures
        final(out)@ == old(out)@ + field_inits_floats(fs@),
    decreases fs,
{
    let ghost start = out@;
    let mut i: usize = 0;
    assert(fs@.take(0) =~= Seq::<(String, Expr)>::empty());
    assert(out@ =~= start + field_inits_floats(fs@.take(0)));
    while i < fs.len()
        invariant
            i <= fs@.len(),
            out@ == start + field_inits_floats(fs@.take(i as int)),
        decreases fs.len() - i,
    {
        assert(fs@.take(i + 1).drop_last() =~= fs@.take(i as int));
        collect_expr_floats(&fs[i].1, out);
        assert(out@ =~= start + field_inits_floats(fs@.take(i + 1)));
        i = i + 1;
    }
    assert(fs@.take(i as int) =~= fs@);
}

fn collect_frags_floats(fs: &Vec<InterpolatedFragment>, out: &mut Vec<u64>)
    ensures
        final(out)@ == old(out)@ + frags_floats(fs@),
    decreases fs,
{
    let ghost start = out@;
    let mut i: usize = 0;
    assert(fs@.take(0) =~= Seq::<InterpolatedFragment>::empty());
    assert(out@ =~= start + frags_floats(fs@.take(0)));
    while i < fs.len()
        invariant
            i <= fs@.len(),
            out@ == start + frags_floats(fs@.take(i as int)),
        decreases fs.len() - i,
    {
        assert(fs@.take(i + 1).drop_last() =~= fs@.take(i as int));
        match &fs[i] {
            InterpolatedFragment::Expr(x) => collect_expr_floats(x, out),
            InterpolatedFragment::Literal(_, _) => {},
        }
        assert(out@ =~= start + frags_floats(fs@.take(i + 1)));
        i = i + 1;
    }
    assert(fs@.take(i as int) =~= fs@);
}

fn collect_arms_floats(arms: &Vec<MatchArm>, out: &mut Vec<u64>)
    ensures
        final(out)@ == old(out)@ + arms_floats(arms@),
    decreases arms,
{
    let ghost start = out@;
    let mut i: usize = 0;
    assert(arms@.take(0) =~= Seq::<MatchArm>::empty());
    assert(out@ =~= start + arms_floats(arms@.take(0)));
    while i < arms.len()
        invariant
            i <= arms@.len(),
            out@ == start + arms_floats(arms@.take(i as int)),
        decreases arms.len() - i,
    {
        assert(arms@.take(i + 1).drop_last() =~= arms@.take(i as int));
        match &arms[i].guard {
            Some(g) => collect_expr_floats(g, out),
            None => {},
        }
        collect_expr_floats(&arms[i].body, out);
        assert(out@ =~= start + arms_floats(arms@.take(i + 1)));
        i = i + 1;
    }
    assert(arms@.take(i as int) =~= arms@);
}

fn collect_contracts_floats(cs: &Vec<Stmt>, out: &mut Vec<u64>)
    ensures
        final(out)@ == old(out)@ + contracts_floats(cs@),
    decreases cs,
{
    let ghost start = out@;
    let mut i: usize = 0;
    assert(cs@.take(0) =~= Seq::<Stmt>::empty());
    assert(out@ =~= start + contracts_floats(cs@.take(0)));
    while i < cs.len()
        invariant
            i <= cs@.len(),
            out@ == start + contracts_floats(cs@.take(i as int)),
        decreases cs.len() - i,
    {
        assert(cs@.take(i + 1).drop_last() =~= cs@.take(i as int));
        match &cs[i] {
            Stmt::ContractRequires { condition, .. } => collect_expr_floats(condition, out),
            Stmt::ContractEnsures { condition, .. } => collect_expr_floats(condition, out),
            Stmt::ContractInvariant { condition, .. } => collect_expr_floats(condition, out),
            _ => {},
        }
        assert(out@ =~= start + contracts_floats(cs@.take(i + 1)));
        i = i + 1;
    }
    assert(cs@.take(i as int) =~= cs@);
}

fn collect_stmts_floats(ss: &Vec<Stmt>, out: &mut Vec<u64>)
    ensures
        final(out)@ == old(out)@ + stmts_floats(ss@),
    decreases ss,
{
    let ghost start = out@;
    let mut i: usize = 0;
    assert(ss@.take(0) =~= Seq::<Stmt>::empty());
    assert(out@ =~= start + stmts_floats(ss@.take(0)));
    while i < ss.len()
        invariant
            i <= ss@.len(),
            out@ == start + stmts_floats(ss@.take(i as int)),
        decreases ss.len() - i,
    {
        assert(ss@.take(i + 1).drop_last() =~= ss@.take(i as int));
        collect_stmt_floats(&ss[i], out);
        assert(out@ =~= start + stmts_floats(ss@.take(i + 1)));
        i = i + 1;
    }
    assert(ss@.take(i as int) =~= ss@);
}

fn collect_stmt_floats(st: &Stmt, out: &mut Vec<u64>)
    ensures
        final(out)@ == old(out)@ + stmt_floats(*st),
    decreases st,
{
    let ghost start = out@;
    match st {
        Stmt::ModBlock(_, body, _) => collect_stmts_floats(body, out),
        Stmt::Print(e, _) => collect_expr_floats(e, out),
        Stmt::Let(_, _, e, _) => collect_expr_floats(e, out),
        Stmt::LetMut(_, _, e, _) => collect_expr_floats(e, out),
        Stmt::LetLinear(_, _, e, _) => collect_expr_floats(e, out),
        Stmt::Fn { contracts, body, .. } => {
            collect_contracts_floats(contracts, out);
            collect_stmts_floats(body, out);
        },
        Stmt::ExprStmt(e, _) => collect_expr_floats(e, out),
        Stmt::Block(body, _) => collect_stmts_floats(body, out),
        Stmt::If { cond, then_body, else_body, .. } => {
            collect_expr_floats(cond, out);
            collect_stmts_floats(then_body, out);
            collect_stmts_floats(else_body, out);
        },
        Stmt::Loop { body, .. } => collect_stmts_floats(body, out),
        Stmt::For { iterable, body, .. } => {
            collect_expr_floats(iterable, out);
            collect_stmts_floats(body, out);
        },
        Stmt::While { cond, body, .. } => {
            collect_expr_floats(cond, out);
            collect_stmts_floats(body, out);
        },
        Stmt::Return(e, _) => collect_expr_floats(e, out),
        Stmt::Assign(_, e, _) => collect_expr_floats(e, out),
        Stmt::ExprFieldAssign(base, _, e, _) => {
            collect_expr_floats(base, out);
            collect_expr_floats(e, out);
        },
        Stmt::DerefAssign(target, e, _) => {
            collect_expr_floats(target, out);
            collect_expr_floats(e, out);
        },
        Stmt::WhileIn { iterable, body, .. } => {
            collect_expr_floats(iterable, out);
            collect_stmts_floats(body, out);
        },
        Stmt::Unsafe { body, .. } => collect_stmts_floats(body, out),
        Stmt::Impl { methods, .. } => collect_stmts_floats(methods, out),
        Stmt::Trait { methods, .. } => collect_stmts_floats(methods, out),
        Stmt::UseScoped { body, .. } => collect_stmts_floats(body, out),
        Stmt::EffectHandler { handler, .. } => match &**handler {
            Expr::Block(body, _) => collect_stmts_floats(body, out),
            h => collect_expr_floats(h, out),
        },
        Stmt::Spawn { task, .. } => collect_expr_floats(task, out),
        Stmt::ContractRequires { condition, .. } => collect_expr_floats(condition, out),
        Stmt::ContractEnsures { condition, .. } => collect_expr_floats(condition, out),
        Stmt::ContractInvariant { condition, .. } => collect_expr_floats(condition, out),
        _ => {},
    }
    assert(out@ =~= start + stmt_floats(*st));
}

/// The bit patterns of the floating-point literals that the program's text
/// shows, in program order: the entries that a table for `format_program`
/// needs.
pub fn float_literals(prog: &Program) -> (r: Vec<u64>)
    ensures
        r@ == stmts_floats(prog.stmts@),
{
    let mut out: Vec<u64> = Vec::new();
    collect_stmts_floats(&prog.stmts, &mut out);
    assert(out@ =~= stmts_floats(prog.stmts@));
    out
}


// ---------------------------------------------------------------------------
// What the text reads of the table
// ---------------------------------------------------------------------------

/// Two tables give the same text to every literal of `fs`.
pub open spec fn tables_agree(t1: Seq<(u64, String)>, t2: Seq<(u64, String)>, fs: Seq<u64>) -> bool {
    forall|i: int| 0 <= i < fs.len() ==> float_text(t1, #[trigger] fs[i]) == float_text(t2, fs[i])
}

proof fn lemma_agree_split(t1: Seq<(u64, String)>, t2: Seq<(u64, String)>, a: Seq<u64>, b: Seq<u64>)
    requires
        tables_agree(t1, t2, a + b),
    ensures
        tables_agree(t1, t2, a),
        tables_agree(t1, t2, b),
{
    assert forall|i: int| 0 <= i < a.len() implies float_text(t1, #[trigger] a[i]) == float_text(t2, a[i]) by {
        assert((a + b)[i] == a[i]);
    }
    assert forall|j: int| 0 <= j < b.len() implies float_text(t1, #[trigger] b[j]) == float_text(t2, b[j]) by {
        assert((a + b)[a.len() + j] == b[j]);
    }
}

proof fn lemma_agree_split3(t1: Seq<(u64, String)>, t2: Seq<(u64, String)>, a: Seq<u64>, b: Seq<u64>, c: Seq<u64>)
    requires
        tables_agree(t1, t2, a + b + c),
    ensures
        tables_agree(t1, t2, a),
        tables_agree(t1, t2, b),
        tables_agree(t1, t2, c),
{
    lemma_agree_split(t1, t2, a + b, c);
    lemma_agree_split(t1, t2, a, b);
}

proof fn lemma_expr_tables(e: Expr, t1: Seq<(u64, String)>, t2: Seq<(u64, String)>)
    requires
        tables_agree(t1, t2, expr_floats(e)),
    ensures
        expr_text(e, t1) == expr_text(e, t2),
    decreases e,
{
    match e {
        Expr::Float(b, _) => {
            assert(expr_floats(e)[0] == b);
        },
        Expr::Call(_, args, _) => lemma_exprs_tables(args@, t1, t2),
        Expr::BinaryOp { left, right, .. } => {
            lemma_agree_split(t1, t2, expr_floats(*left), expr_floats(*right));
            lemma_expr_tables(*left, t1, t2);
            lemma_expr_tables(*right, t1, t2);
        },
        Expr::Borrow { inner, .. } => lemma_expr_tables(*inner, t1, t2),
        Expr::Deref { inner, .. } => lemma_expr_tables(*inner, t1, t2),
        Expr::UnaryOp { inner, .. } => lemma_expr_tables(*inner, t1, t2),
        Expr::FieldAccess { base, .. } => lemma_expr_tables(*base, t1, t2),
        Expr::IfExpr { cond, then, else_, .. } => {
            lemma_agree_split3(t1, t2, expr_floats(*cond), expr_floats(*then), expr_floats(*else_));
            lemma_expr_tables(*cond, t1, t2);
            lemma_expr_tables(*then, t1, t2);
            lemma_expr_tables(*else_, t1, t2);
        },
        Expr::Interpolated(frags, _) => lemma_frags_tables(frags@, t1, t2),
        Expr::Block(stmts, _) => lemma_stmts_tables(stmts@, "    "@, t1, t2),
        Expr::Tuple(es, _) => lemma_exprs_tables(es@, t1, t2),
        Expr::Array(es, _) => lemma_exprs_tables(es@, t1, t2),
        Expr::Index(base, index, _) => {
            lemma_agree_split(t1, t2, expr_floats(*base), expr_floats(*index));
            lemma_expr_tables(*base, t1, t2);
            lemma_expr_tables(*index, t1, t2);
        },
        Expr::Match { expr, arms, .. } => {
            lemma_agree_split(t1, t2, expr_floats(*expr), arms_floats(arms@));
            lemma_expr_tables(*expr, t1, t2);
            lemma_arms_tables(arms@, t1, t2);
        },
        Expr::Range { start, end, .. } => {
            lemma_agree_split(t1, t2, expr_floats(*start), expr_floats(*end));
            lemma_expr_tables(*start, t1, t2);
            lemma_expr_tables(*end, t1, t2);
        },
        Expr::Lambda { body, .. } => lemma_expr_tables(*body, t1, t2),
        Expr::Await(inner, _) => lemma_expr_tables(*inner, t1, t2),
        Expr::Try(inner, _) => lemma_expr_tables(*inner, t1, t2),
        Expr::StructLit { fields, .. } => lemma_field_inits_tables(fields@, t1, t2),
        _ => {},
    }
}

proof fn lemma_exprs_tables(es: Seq<Expr>, t1: Seq<(u64, String)>, t2: Seq<(u64, String)>)
    requires
        tables_agree(t1, t2, exprs_floats(es)),
    ensures
        exprs_texts(es, t1) == exprs_texts(es, t2),
    decreases es,
{
    if es.len() > 0 {
        lemma_agree_split(t1, t2, exprs_floats(es.drop_last()), expr_floats(es.last()));
        lemma_exprs_tables(es.drop_last(), t1, t2);
        lemma_expr_tables(es.last(), t1, t2);
    }
}

proof fn lemma_field_inits_tables(fs: Seq<(String, Expr)>, t1: Seq<(u64, String)>, t2: Seq<(u64, String)>)
    requires
        tables_agree(t1, t2, field_inits_floats(fs)),
    ensures
        field_inits_texts(fs, t1) == field_inits_texts(fs, t2),
    decreases fs,
{
    if fs.len() > 0 {
        lemma_agree_split(t1, t2, field_inits_floats(fs.drop_last()), expr_floats(fs.last().1));
        lemma_field_inits_tables(fs.drop_last(), t1, t2);
        lemma_expr_tables(fs.last().1, t1, t2);
    }
}

proof fn lemma_frags_tables(fs: Seq<InterpolatedFragment>, t1: Seq<(u64, String)>, t2: Seq<(u64, String)>)
    requires
        tables_agree(t1, t2, frags_floats(fs)),
    ensures
        frags_text(fs, t1) == frags_text(fs, t2),
    decreases fs,
{
    if fs.len() > 0 {
        match fs.last() {
            InterpolatedFragment::Expr(x) => {
                lemma_agree_split(t1, t2, frags_floats(fs.drop_last()), expr_floats(*x));
                lemma_expr_tables(*x, t1, t2);
            },
            InterpolatedFragment::Literal(_, _) => {
                assert(frags_floats(fs.drop_last()) + Seq::<u64>::empty() =~= frags_floats(fs.drop_last()));
            },
        }
        lemma_frags_tables(fs.drop_last(), t1, t2);
    }
}

proof fn lemma_arms_tables(arms: Seq<MatchArm>, t1: Seq<(u64, String)>, t2: Seq<(u64, String)>)
    requires
        tables_agree(t1, t2, arms_floats(arms)),
    ensures
        arms_text(arms, t1) == arms_text(arms, t2),
    decreases arms,
{
    if arms.len() > 0 {
        let g = match arms.last().guard {
            Some(x) => expr_floats(*x),
            None => Seq::<u64>::empty(),
        };
        lemma_agree_split3(t1, t2, arms_floats(arms.drop_last()), g, expr_floats(*arms.last().body));
        lemma_arms_tables(arms.drop_last(), t1, t2);
        match arms.last().guard {
            Some(x) => lemma_expr_tables(*x, t1, t2),
            None => {},
        }
        lemma_expr_tables(*arms.last().body, t1, t2);
    }
}

proof fn lemma_contracts_tables(cs: Seq<Stmt>, t1: Seq<(u64, String)>, t2: Seq<(u64, String)>)
    requires
        tables_agree(t1, t2, contracts_floats(cs)),
    ensures
        contracts_text(cs, t1) == contracts_text(cs, t2),
    decreases cs,
{
    if cs.len() > 0 {
        let c = cs.last();
        let rest = contracts_floats(cs.drop_last());
        match c {
            Stmt::ContractRequires { condition, .. } => {
                lemma_agree_split(t1, t2, rest, expr_floats(condition));
                lemma_expr_tables(condition, t1, t2);
            },
            Stmt::ContractEnsures { condition, .. } => {
                lemma_agree_split(t1, t2, rest, expr_floats(condition));
                lemma_expr_tables(condition, t1, t2);
            },
            Stmt::ContractInvariant { condition, .. } => {
                lemma_agree_split(t1, t2, rest, expr_floats(condition));
                lemma_expr_tables(condition, t1, t2);
            },
            _ => {
                assert(contracts_floats(cs) =~= rest);
            },
        }
        assert(contract_text(c, t1) == contract_text(c, t2));
        lemma_contracts_tables(cs.drop_last(), t1, t2);
    }
}

proof fn lemma_stmts_tables(ss: Seq<Stmt>, pad: Seq<char>, t1: Seq<(u64, String)>, t2: Seq<(u64, String)>)
    requires
        tables_agree(t1, t2, stmts_floats(ss)),
    ensures
        stmts_texts(ss, pad, t1) == stmts_texts(ss, pad, t2),
    decreases ss,
{
    if ss.len() > 0 {
        lemma_agree_split(t1, t2, stmts_floats(ss.drop_last()), stmt_floats(ss.last()));
        lemma_stmts_tables(ss.drop_last(), pad, t1, t2);
        lemma_stmt_tables(ss.last(), pad, t1, t2);
    }
}

proof fn lemma_stmt_tables(st: Stmt, pad: Seq<char>, t1: Seq<(u64, String)>, t2: Seq<(u64, String)>)
    requires
        tables_agree(t1, t2, stmt_floats(st)),
    ensures
        stmt_text(st, pad, t1) == stmt_text(st, pad, t2),
    decreases st,
{
    let inner = pad + "    "@;
    match st {
        Stmt::ModBlock(_, body, _) => lemma_stmts_tables(body@, inner, t1, t2),
        Stmt::Print(e, _) => lemma_expr_tables(e, t1, t2),
        Stmt::Let(_, _, e, _) => lemma_expr_tables(e, t1, t2),
        Stmt::LetMut(_, _, e, _) => lemma_expr_tables(e, t1, t2),
        Stmt::LetLinear(_, _, e, _) => lemma_expr_tables(e, t1, t2),
        Stmt::Fn { contracts, body, .. } => {
            lemma_agree_split(t1, t2, contracts_floats(contracts@), stmts_floats(body@));
            lemma_contracts_tables(contracts@, t1, t2);
            lemma_stmts_tables(body@, inner, t1, t2);
        },
        Stmt::ExprStmt(e, _) => lemma_expr_tables(e, t1, t2),
        Stmt::Block(body, _) => lemma_stmts_tables(body@, pad, t1, t2),
        Stmt::If { cond, then_body, else_body, .. } => {
            lemma_agree_split3(t1, t2, expr_floats(*cond), stmts_floats(then_body@), stmts_floats(else_body@));
            lemma_expr_tables(*cond, t1, t2);
            lemma_stmts_tables(then_body@, inner, t1, t2);
            lemma_stmts_tables(else_body@, inner, t1, t2);
        },
        Stmt::Loop { body, .. } => lemma_stmts_tables(body@, inner, t1, t2),
        Stmt::For { iterable, body, .. } => {
            lemma_agree_split(t1, t2, expr_floats(*iterable), stmts_floats(body@));
            lemma_expr_tables(*iterable, t1, t2);
            lemma_stmts_tables(body@, inner, t1, t2);
        },
        Stmt::While { cond, body, .. } => {
            lemma_agree_split(t1, t2, expr_floats(*cond), stmts_floats(body@));
            lemma_expr_tables(*cond, t1, t2);
            lemma_stmts_tables(body@, inner, t1, t2);
        },
        Stmt::Return(e, _) => lemma_expr_tables(e, t1, t2),
        Stmt::Assign(_, e, _) => lemma_expr_tables(e, t1, t2),
        Stmt::ExprFieldAssign(base, _, e, _) => {
            lemma_agree_split(t1, t2, expr_floats(*base), expr_floats(e));
            lemma_expr_tables(*base, t1, t2);
            lemma_expr_tables(e, t1, t2);
        },
        Stmt::DerefAssign(target, e, _) => {
            lemma_agree_split(t1, t2, expr_floats(*target), expr_floats(e));
            lemma_expr_tables(*target, t1, t2);
            lemma_expr_tables(e, t1, t2);
        },
        Stmt::WhileIn { iterable, body, .. } => {
            lemma_agree_split(t1, t2, expr_floats(*iterable), stmts_floats(body@));
            lemma_expr_tables(*iterable, t1, t2);
            lemma_stmts_tables(body@, inner, t1, t2);
        },
        Stmt::Unsafe { body, .. } => lemma_stmts_tables(body@, inner, t1, t2),
        Stmt::Impl { methods, .. } => lemma_stmts_tables(methods@, inner, t1, t2),
        Stmt::Trait { methods, .. } => lemma_stmts_tables(methods@, inner, t1, t2),
        Stmt::UseScoped { body, .. } => lemma_stmts_tables(body@, inner, t1, t2),
        Stmt::EffectHandler { handler, .. } => match *handler {
            Expr::Block(body, _) => lemma_stmts_tables(body@, inner, t1, t2),
            h => lemma_expr_tables(h, t1, t2),
        },
        Stmt::Spawn { task, .. } => lemma_expr_tables(*task, t1, t2),
        Stmt::ContractRequires { condition, .. } => lemma_expr_tables(condition, t1, t2),
        Stmt::ContractEnsures { condition, .. } => lemma_expr_tables(condition, t1, t2),
        Stmt::ContractInvariant { condition, .. } => lemma_expr_tables(condition, t1, t2),
        _ => {},
    }
}

/// The formatter reads the table of literal texts only for the literals
/// that `float_literals` lists: two tables that agree on those give the same
/// text.
pub proof fn law_text_reads_only_listed_floats(prog: Program, t1: Seq<(u64, String)>, t2: Seq<(u64, String)>)
    requires
        tables_agree(t1, t2, stmts_floats(prog.stmts@)),
    ensures
        program_text(prog, t1) == program_text(prog, t2),
{
    lemma_stmts_tables(prog.stmts@, seq![], t1, t2);
}

} // verus!
