//! Compile-time evaluation of the syntax tree: integer, boolean and string
//! arithmetic, tuples, `match`, blocks, `let`, `if`, bounded `while` and
//! `for` loops and calls of the functions a program declares, all within an
//! operation budget and a recursion limit.
//!
//! A struct value holds its fields as a list of bindings; a name bound more
//! than once has its last binding. The lines that `print` statements write
//! are kept in order in the context.

use vstd::prelude::*;
use crate::ast::{Expr, MatchArm, Pattern, Program, Stmt};
use crate::complete_lexer::TokenKind;
use crate::strmap::{entries_map, StrMap};
use crate::text::{chars_of, push_str, str_eq};

verus! {

// ---------------------------------------------------------------------------
// Values and errors
// ---------------------------------------------------------------------------

/// A value computed at compile time.
#[derive(Debug)]
pub enum ComptimeValue {
    Int(i64),
    String(String),
    Bool(bool),
    Unit,
    Tuple(Vec<ComptimeValue>),
    Struct(String, Vec<(String, ComptimeValue)>),
}

/// Why compile-time evaluation failed.
#[derive(Debug)]
pub enum ComptimeError {
    TypeError(String),
    UndefinedVariable(String),
    DivisionByZero,
    InvalidOperation(String),
    Unsupported(String),
    Arity { name: String, expected: usize, actual: usize },
    ArithmeticOverflow(&'static str),
    OperationLimit,
    RecursionLimit,
}

/// A function the evaluated program declared: its parameters and body.
#[derive(Clone, Copy)]
pub struct ComptimeFunction<'a> {
    pub params: &'a Vec<(String, Option<String>)>,
    pub body: &'a Vec<Stmt>,
}

/// The abstract content of a value; a struct's fields in their order.
pub enum ValueView {
    Int(i64),
    Str(Seq<char>),
    Bool(bool),
    Unit,
    Tuple(Seq<ValueView>),
    Struct(Seq<char>, Seq<(Seq<char>, ValueView)>),
}

pub open spec fn value_view(v: ComptimeValue) -> ValueView
    decreases v,
{
    match v {
        ComptimeValue::Int(n) => ValueView::Int(n),
        ComptimeValue::String(s) => ValueView::Str(s@),
        ComptimeValue::Bool(b) => ValueView::Bool(b),
        ComptimeValue::Unit => ValueView::Unit,
        ComptimeValue::Tuple(vs) => ValueView::Tuple(values_view(vs@)),
        ComptimeValue::Struct(name, fs) => ValueView::Struct(name@, fields_view(fs@)),
    }
}

pub open spec fn values_view(s: Seq<ComptimeValue>) -> Seq<ValueView>
    decreases s,
{
    if s.len() == 0 { seq![] } else { values_view(s.drop_last()).push(value_view(s.last())) }
}

pub open spec fn fields_view(s: Seq<(String, ComptimeValue)>) -> Seq<(Seq<char>, ValueView)>
    decreases s,
{
    if s.len() == 0 { seq![] } else { fields_view(s.drop_last()).push((s.last().0@, value_view(s.last().1))) }
}

/// The value bound to `k` by its last binding in `fs`, if any.
pub open spec fn field_of(fs: Seq<(Seq<char>, ValueView)>, k: Seq<char>) -> Option<ValueView>
    decreases fs.len(),
{
    if fs.len() == 0 {
        None
    } else if fs.last().0 == k {
        Some(fs.last().1)
    } else {
        field_of(fs.drop_last(), k)
    }
}

/// Whether the binding at `j` is the last one of its name.
pub open spec fn last_binding(fs: Seq<(Seq<char>, ValueView)>, j: int) -> bool {
    forall|q: int| j < q < fs.len() ==> (#[trigger] fs[q]).0 != fs[j].0
}

/// Whether two values are equal: scalars and tuples part by part, structs by
/// name and by their fields as maps from names to values.
pub open spec fn same_value(a: ValueView, b: ValueView) -> bool
    decreases a,
{
    match (a, b) {
        (ValueView::Int(x), ValueView::Int(y)) => x == y,
        (ValueView::Str(x), ValueView::Str(y)) => x == y,
        (ValueView::Bool(x), ValueView::Bool(y)) => x == y,
        (ValueView::Unit, ValueView::Unit) => true,
        (ValueView::Tuple(xs), ValueView::Tuple(ys)) => same_values(xs, ys),
        (ValueView::Struct(n, fs), ValueView::Struct(m, gs)) =>
            n == m && same_fields(fs, fs, gs) && (forall|j: int| 0 <= j < gs.len() ==> field_of(fs, (#[trigger] gs[j]).0) is Some),
        _ => false,
    }
}

pub open spec fn same_values(xs: Seq<ValueView>, ys: Seq<ValueView>) -> bool
    decreases xs,
{
    if xs.len() != ys.len() {
        false
    } else if xs.len() == 0 {
        true
    } else {
        same_values(xs.drop_last(), ys.drop_last()) && same_value(xs.last(), ys.last())
    }
}

/// For each binding of the prefix `rest` of `all` that is the last of its
/// name in `all`: `gs` binds the name to an equal value.
pub open spec fn same_fields(all: Seq<(Seq<char>, ValueView)>, rest: Seq<(Seq<char>, ValueView)>, gs: Seq<(Seq<char>, ValueView)>) -> bool
    decreases rest,
{
    if rest.len() == 0 {
        true
    } else {
        same_fields(all, rest.drop_last(), gs) && (!last_binding(all, rest.len() - 1) || match field_of(gs, rest.last().0) {
            Some(g) => same_value(rest.last().1, g),
            None => false,
        })
    }
}

/// The abstract content of an error.
pub enum ErrorView {
    TypeError(Seq<char>),
    UndefinedVariable(Seq<char>),
    DivisionByZero,
    InvalidOperation(Seq<char>),
    Unsupported(Seq<char>),
    Arity(Seq<char>, nat, nat),
    ArithmeticOverflow(Seq<char>),
    OperationLimit,
    RecursionLimit,
}

pub open spec fn error_view(e: ComptimeError) -> ErrorView {
    match e {
        ComptimeError::TypeError(m) => ErrorView::TypeError(m@),
        ComptimeError::UndefinedVariable(m) => ErrorView::UndefinedVariable(m@),
        ComptimeError::DivisionByZero => ErrorView::DivisionByZero,
        ComptimeError::InvalidOperation(m) => ErrorView::InvalidOperation(m@),
        ComptimeError::Unsupported(m) => ErrorView::Unsupported(m@),
        ComptimeError::Arity { name, expected, actual } => ErrorView::Arity(name@, expected as nat, actual as nat),
        ComptimeError::ArithmeticOverflow(m) => ErrorView::ArithmeticOverflow(m@),
        ComptimeError::OperationLimit => ErrorView::OperationLimit,
        ComptimeError::RecursionLimit => ErrorView::RecursionLimit,
    }
}

pub proof fn lemma_values_view(s: Seq<ComptimeValue>)
    ensures
        values_view(s).len() == s.len(),
        forall|i: int| 0 <= i < s.len() ==> #[trigger] values_view(s)[i] == value_view(s[i]),
    decreases s.len(),
{
    if s.len() > 0 {
        lemma_values_view(s.drop_last());
    }
}

pub proof fn lemma_fields_view(s: Seq<(String, ComptimeValue)>)
    ensures
        fields_view(s).len() == s.len(),
        forall|i: int| 0 <= i < s.len() ==> #[trigger] fields_view(s)[i] == (s[i].0@, value_view(s[i].1)),
    decreases s.len(),
{
    if s.len() > 0 {
        lemma_fields_view(s.drop_last());
    }
}

// ---------------------------------------------------------------------------
// Copies, lookups and equality
// ---------------------------------------------------------------------------

/// A deep copy of a value.
pub fn copy_value(v: &ComptimeValue) -> (r: ComptimeValue)
    ensures
        value_view(r) == value_view(*v),
    decreases v,
{
    match v {
        ComptimeValue::Int(n) => ComptimeValue::Int(*n),
        ComptimeValue::String(s) => ComptimeValue::String(s.clone()),
        ComptimeValue::Bool(b) => ComptimeValue::Bool(*b),
        ComptimeValue::Unit => ComptimeValue::Unit,
        ComptimeValue::Tuple(vs) => ComptimeValue::Tuple(copy_values(vs)),
        ComptimeValue::Struct(name, fs) => ComptimeValue::Struct(name.clone(), copy_fields(fs)),
    }
}

fn copy_values(v: &Vec<ComptimeValue>) -> (r: Vec<ComptimeValue>)
    ensures
        values_view(r@) == values_view(v@),
    decreases v,
{
    let mut out: Vec<ComptimeValue> = Vec::new();
    let mut i: usize = 0;
    while i < v.len()
        invariant
            i <= v@.len(),
            out@.len() == i,
            forall|q: int| 0 <= q < i ==> value_view(#[trigger] out@[q]) == value_view(v@[q]),
        decreases v.len() - i,
    {
        let c = copy_value(&v[i]);
        out.push(c);
        i = i + 1;
    }
    proof {
        lemma_values_view(out@);
        lemma_values_view(v@);
        assert(values_view(out@) =~= values_view(v@));
    }
    out
}

fn copy_fields(v: &Vec<(String, ComptimeValue)>) -> (r: Vec<(String, ComptimeValue)>)
    ensures
        fields_view(r@) == fields_view(v@),
    decreases v,
{
    let mut out: Vec<(String, ComptimeValue)> = Vec::new();
    let mut i: usize = 0;
    while i < v.len()
        invariant
            i <= v@.len(),
            out@.len() == i,
            forall|q: int| 0 <= q < i ==> (#[trigger] out@[q]).0@ == v@[q].0@ && value_view(out@[q].1) == value_view(v@[q].1),
        decreases v.len() - i,
    {
        let c = copy_value(&v[i].1);
        let k = v[i].0.clone();
        out.push((k, c));
        i = i + 1;
    }
    proof {
        lemma_fields_view(out@);
        lemma_fields_view(v@);
        assert(fields_view(out@) =~= fields_view(v@));
    }
    out
}

/// The value bound to `key` by its last binding in `fs`, if any.
fn lookup_binding<'b>(fs: &'b Vec<(String, ComptimeValue)>, key: &str) -> (r: Option<&'b ComptimeValue>)
    ensures
        match field_of(fields_view(fs@), key@) {
            Some(v) => r matches Some(x) && value_view(*x) == v,
            None => r is None,
        },
{
    proof {
        lemma_fields_view(fs@);
    }
    let ghost fv = fields_view(fs@);
    let mut i: usize = fs.len();
    assert(fv.take(fs@.len() as int) =~= fv);
    while i > 0
        invariant
            i <= fs@.len(),
            fv == fields_view(fs@),
            fv.len() == fs@.len(),
            forall|q: int| 0 <= q < fs@.len() ==> #[trigger] fv[q] == (fs@[q].0@, value_view(fs@[q].1)),
            field_of(fv, key@) == field_of(fv.take(i as int), key@),
        decreases i,
    {
        assert(fv.take(i as int).drop_last() =~= fv.take(i - 1));
        assert(fv.take(i as int).last() == fv[i - 1]);
        if str_eq(fs[i - 1].0.as_str(), key) {
            return Some(&fs[i - 1].1);
        }
        i = i - 1;
    }
    None
}

/// Whether the binding at `i` is overridden by a later one.
fn bound_later(fs: &Vec<(String, ComptimeValue)>, i: usize) -> (r: bool)
    requires
        i < fs@.len(),
    ensures
        r == !last_binding(fields_view(fs@), i as int),
{
    proof {
        lemma_fields_view(fs@);
    }
    let n = fs.len();
    let mut j: usize = i + 1;
    while j < n
        invariant
            i < j <= fs@.len(),
            n == fs@.len(),
            fields_view(fs@).len() == fs@.len(),
            forall|q: int| 0 <= q < fs@.len() ==> #[trigger] fields_view(fs@)[q] == (fs@[q].0@, value_view(fs@[q].1)),
            forall|q: int| i < q < j ==> (#[trigger] fs@[q]).0@ != fs@[i as int].0@,
        decreases n - j,
    {
        if str_eq(fs[j].0.as_str(), fs[i].0.as_str()) {
            assert(fields_view(fs@)[j as int].0 == fields_view(fs@)[i as int].0);
            return true;
        }
        j = j + 1;
    }
    assert forall|q: int| i < q < fields_view(fs@).len() implies (#[trigger] fields_view(fs@)[q]).0 != fields_view(fs@)[i as int].0 by {
        assert(fs@[q].0@ != fs@[i as int].0@);
    }
    false
}

/// Whether two values are equal: scalars and tuples part by part, structs by
/// name and by their fields as maps from names to values.
pub fn values_equal(a: &ComptimeValue, b: &ComptimeValue) -> (r: bool)
    ensures
        r == same_value(value_view(*a), value_view(*b)),
    decreases a,
{
    match (a, b) {
        (ComptimeValue::Int(x), ComptimeValue::Int(y)) => *x == *y,
        (ComptimeValue::String(x), ComptimeValue::String(y)) => str_eq(x.as_str(), y.as_str()),
        (ComptimeValue::Bool(x), ComptimeValue::Bool(y)) => *x == *y,
        (ComptimeValue::Unit, ComptimeValue::Unit) => true,
        (ComptimeValue::Tuple(x), ComptimeValue::Tuple(y)) => value_lists_equal(x, y),
        (ComptimeValue::Struct(n, x), ComptimeValue::Struct(m, y)) => {
            if !str_eq(n.as_str(), m.as_str()) {
                false
            } else {
                field_lists_equal(x, y)
            }
        },
        _ => false,
    }
}

fn value_lists_equal(a: &Vec<ComptimeValue>, b: &Vec<ComptimeValue>) -> (r: bool)
    ensures
        r == same_values(values_view(a@), values_view(b@)),
    decreases a,
{
    proof {
        lemma_values_view(a@);
        lemma_values_view(b@);
    }
    let ghost xs = values_view(a@);
    let ghost ys = values_view(b@);
    if a.len() != b.len() {
        return false;
    }
    let mut i: usize = 0;
    assert(xs.take(0) =~= Seq::<ValueView>::empty());
    assert(ys.take(0) =~= Seq::<ValueView>::empty());
    while i < a.len()
        invariant
            i <= a@.len(),
            a@.len() == b@.len(),
            xs == values_view(a@),
            ys == values_view(b@),
            xs.len() == a@.len(),
            ys.len() == b@.len(),
            forall|q: int| 0 <= q < a@.len() ==> #[trigger] xs[q] == value_view(a@[q]),
            forall|q: int| 0 <= q < b@.len() ==> #[trigger] ys[q] == value_view(b@[q]),
            same_values(xs.take(i as int), ys.take(i as int)),
        decreases a.len() - i,
    {
        assert(xs.take(i + 1).drop_last() =~= xs.take(i as int));
        assert(ys.take(i + 1).drop_last() =~= ys.take(i as int));
        if !values_equal(&a[i], &b[i]) {
            proof {
                if same_values(xs, ys) {
                    lemma_same_values_prefix(xs, ys, i + 1);
                }
            }
            return false;
        }
        i = i + 1;
    }
    assert(xs.take(i as int) =~= xs);
    assert(ys.take(i as int) =~= ys);
    true
}

/// Values equal everywhere are equal on every prefix.
proof fn lemma_same_values_prefix(xs: Seq<ValueView>, ys: Seq<ValueView>, n: int)
    requires
        0 <= n <= xs.len(),
        xs.len() == ys.len(),
        same_values(xs, ys),
    ensures
        same_values(xs.take(n), ys.take(n)),
    decreases xs.len(),
{
    if n < xs.len() {
        assert(xs.drop_last().take(n) =~= xs.take(n));
        assert(ys.drop_last().take(n) =~= ys.take(n));
        lemma_same_values_prefix(xs.drop_last(), ys.drop_last(), n);
    } else {
        assert(xs.take(n) =~= xs);
        assert(ys.take(n) =~= ys);
    }
}

fn field_lists_equal(a: &Vec<(String, ComptimeValue)>, b: &Vec<(String, ComptimeValue)>) -> (r: bool)
    ensures
        r == (same_fields(fields_view(a@), fields_view(a@), fields_view(b@))
            && (forall|j: int| 0 <= j < fields_view(b@).len() ==> field_of(fields_view(a@), (#[trigger] fields_view(b@)[j]).0) is Some)),
    decreases a,
{
    proof {
        lemma_fields_view(a@);
        lemma_fields_view(b@);
    }
    let ghost fa = fields_view(a@);
    let ghost fb = fields_view(b@);
    let mut i: usize = 0;
    assert(fa.take(0) =~= Seq::<(Seq<char>, ValueView)>::empty());
    while i < a.len()
        invariant
            i <= a@.len(),
            fa == fields_view(a@),
            fb == fields_view(b@),
            fa.len() == a@.len(),
            forall|q: int| 0 <= q < a@.len() ==> #[trigger] fa[q] == (a@[q].0@, value_view(a@[q].1)),
            same_fields(fa, fa.take(i as int), fb),
        decreases a.len() - i,
    {
        assert(fa.take(i + 1).drop_last() =~= fa.take(i as int));
        assert(fa.take(i + 1).last() == fa[i as int]);
        if !bound_later(a, i) {
            match lookup_binding(b, a[i].0.as_str()) {
                None => {
                    proof {
                        if same_fields(fa, fa, fb) {
                            lemma_same_fields_prefix(fa, fa, fb, i + 1);
                        }
                    }
                    return false;
                },
                Some(vb) => {
                    if !values_equal(&a[i].1, vb) {
                        proof {
                            if same_fields(fa, fa, fb) {
                                lemma_same_fields_prefix(fa, fa, fb, i + 1);
                            }
                        }
                        return false;
                    }
                },
            }
        }
        i = i + 1;
    }
    assert(fa.take(i as int) =~= fa);
    let mut j: usize = 0;
    while j < b.len()
        invariant
            j <= b@.len(),
            fa == fields_view(a@),
            fb == fields_view(b@),
            fb.len() == b@.len(),
            forall|q: int| 0 <= q < b@.len() ==> #[trigger] fb[q] == (b@[q].0@, value_view(b@[q].1)),
            same_fields(fa, fa, fb),
            forall|q: int| 0 <= q < j ==> field_of(fa, (#[trigger] fb[q]).0) is Some,
        decreases b.len() - j,
    {
        if lookup_binding(a, b[j].0.as_str()).is_none() {
            assert(field_of(fa, fb[j as int].0) is None);
            return false;
        }
        j = j + 1;
    }
    true
}

/// The test on every prefix of the bindings holds where it holds on all.
proof fn lemma_same_fields_prefix(all: Seq<(Seq<char>, ValueView)>, rest: Seq<(Seq<char>, ValueView)>, gs: Seq<(Seq<char>, ValueView)>, n: int)
    requires
        0 <= n <= rest.len(),
        same_fields(all, rest, gs),
    ensures
        same_fields(all, rest.take(n), gs),
    decreases rest.len(),
{
    if n < rest.len() {
        assert(rest.drop_last().take(n) =~= rest.take(n));
        lemma_same_fields_prefix(all, rest.drop_last(), gs, n);
    } else {
        assert(rest.take(n) =~= rest);
    }
}


// ---------------------------------------------------------------------------
// Debug renderings
// ---------------------------------------------------------------------------

/// What std's `format!("{:?}", v)` writes for a value (its derived `Debug`).
pub uninterp spec fn value_debug(v: ValueView) -> Seq<char>;

/// What std's `format!("{:?}", s)` writes for a statement.
pub uninterp spec fn stmt_debug(s: Stmt) -> Seq<char>;

/// What std's `format!("{:?}", e)` writes for an expression.
pub uninterp spec fn expr_debug(e: Expr) -> Seq<char>;

/// What std's `format!("{:?}", k)` writes for a token kind.
pub uninterp spec fn token_debug(k: TokenKind) -> Seq<char>;

/// std's `format!("{:?}", v)` for a value. Claimed: a function of the
/// value's content alone, named `value_debug`; its text is not stated.
#[verifier::external_body]
fn debug_value(v: &ComptimeValue) -> (r: String)
    ensures
        r@ == value_debug(value_view(*v)),
{
    format!("{:?}", v)
}

/// std's `format!("{:?}", s)` for a statement. Claimed: a function of the
/// statement alone, named `stmt_debug`; its text is not stated.
#[verifier::external_body]
fn debug_stmt(s: &Stmt) -> (r: String)
    ensures
        r@ == stmt_debug(*s),
{
    format!("{:?}", s)
}

/// std's `format!("{:?}", e)` for an expression. Claimed: a function of the
/// expression alone, named `expr_debug`; its text is not stated.
#[verifier::external_body]
fn debug_expr(e: &Expr) -> (r: String)
    ensures
        r@ == expr_debug(*e),
{
    format!("{:?}", e)
}

/// std's `format!("{:?}", k)` for a token kind. Claimed: a function of the
/// kind alone, named `token_debug`; its text is not stated.
#[verifier::external_body]
fn debug_token(k: TokenKind) -> (r: String)
    ensures
        r@ == token_debug(k),
{
    format!("{:?}", k)
}

// ---------------------------------------------------------------------------
// Patterns and truth
// ---------------------------------------------------------------------------

/// The bindings a pattern makes when it matches a value, in the order they
/// are made; none when it does not match. A struct pattern looks up each of
/// its fields (its own name is not compared); an or-pattern takes the first
/// alternative that matches.
pub open spec fn pattern_bindings(p: Pattern, v: ValueView) -> Option<Seq<(Seq<char>, ValueView)>>
    decreases p,
{
    match p {
        Pattern::Wildcard => Some(seq![]),
        Pattern::Literal(e) => match v {
            ValueView::Int(a) => if a == e { Some(seq![]) } else { None },
            _ => None,
        },
        Pattern::Var(name) => Some(seq![(name@, v)]),
        Pattern::Struct(_, fields) => match v {
            ValueView::Struct(_, fs) => field_pattern_bindings(fields@, fs),
            _ => None,
        },
        Pattern::Or(ps) => first_pattern_bindings(ps@, v),
    }
}

pub open spec fn field_pattern_bindings(pfs: Seq<(String, Pattern)>, fs: Seq<(Seq<char>, ValueView)>) -> Option<Seq<(Seq<char>, ValueView)>>
    decreases pfs,
{
    if pfs.len() == 0 {
        Some(seq![])
    } else {
        match field_pattern_bindings(pfs.drop_last(), fs) {
            None => None,
            Some(b) => match field_of(fs, pfs.last().0@) {
                None => None,
                Some(fv) => match pattern_bindings(pfs.last().1, fv) {
                    None => None,
                    Some(nb) => Some(b + nb),
                },
            },
        }
    }
}

pub open spec fn first_pattern_bindings(ps: Seq<Pattern>, v: ValueView) -> Option<Seq<(Seq<char>, ValueView)>>
    decreases ps,
{
    if ps.len() == 0 {
        None
    } else {
        match pattern_bindings(ps[0], v) {
            Some(b) => Some(b),
            None => first_pattern_bindings(ps.subrange(1, ps.len() as int), v),
        }
    }
}

/// The map a binding list makes: a later binding of a name wins.
pub open spec fn binds_map(bs: Seq<(Seq<char>, ValueView)>) -> Map<Seq<char>, ValueView>
    decreases bs.len(),
{
    if bs.len() == 0 { Map::empty() } else { binds_map(bs.drop_last()).insert(bs.last().0, bs.last().1) }
}

/// Whether a value counts as true: a true boolean, a non-zero integer, and a
/// non-empty string, tuple or struct.
pub open spec fn truthy(v: ValueView) -> bool {
    match v {
        ValueView::Bool(b) => b,
        ValueView::Int(n) => n != 0,
        ValueView::Str(s) => s.len() > 0,
        ValueView::Unit => false,
        ValueView::Tuple(vs) => vs.len() > 0,
        ValueView::Struct(_, fs) => fs.len() > 0,
    }
}

proof fn lemma_field_patterns_prefix(pfs: Seq<(String, Pattern)>, fs: Seq<(Seq<char>, ValueView)>, n: int)
    requires
        0 <= n <= pfs.len(),
        field_pattern_bindings(pfs.take(n), fs) is None,
    ensures
        field_pattern_bindings(pfs, fs) is None,
    decreases pfs.len(),
{
    if n < pfs.len() {
        assert(pfs.drop_last().take(n) =~= pfs.take(n));
        lemma_field_patterns_prefix(pfs.drop_last(), fs, n);
    } else {
        assert(pfs.take(n) =~= pfs);
    }
}

fn match_pattern(p: &Pattern, v: &ComptimeValue) -> (r: Option<Vec<(String, ComptimeValue)>>)
    ensures
        match pattern_bindings(*p, value_view(*v)) {
            Some(b) => r matches Some(x) && fields_view(x@) == b,
            None => r is None,
        },
    decreases p,
{
    match p {
        Pattern::Wildcard => {
            let out: Vec<(String, ComptimeValue)> = Vec::new();
            assert(fields_view(out@) =~= Seq::<(Seq<char>, ValueView)>::empty());
            Some(out)
        },
        Pattern::Literal(expected) => match v {
            ComptimeValue::Int(actual) => {
                if *actual == *expected {
                    let out: Vec<(String, ComptimeValue)> = Vec::new();
                    assert(fields_view(out@) =~= Seq::<(Seq<char>, ValueView)>::empty());
                    Some(out)
                } else {
                    None
                }
            },
            _ => None,
        },
        Pattern::Var(name) => {
            let mut out: Vec<(String, ComptimeValue)> = Vec::new();
            out.push((name.clone(), copy_value(v)));
            proof {
                lemma_fields_view(out@);
                assert(fields_view(out@) =~= seq![(name@, value_view(*v))]);
            }
            Some(out)
        },
        Pattern::Struct(_, fields) => match v {
            ComptimeValue::Struct(_, values) => match_field_patterns(fields, values),
            _ => None,
        },
        Pattern::Or(ps) => match_first_pattern(ps, v),
    }
}

fn match_field_patterns(fields: &Vec<(String, Pattern)>, values: &Vec<(String, ComptimeValue)>) -> (r: Option<Vec<(String, ComptimeValue)>>)
    ensures
        match field_pattern_bindings(fields@, fields_view(values@)) {
            Some(b) => r matches Some(x) && fields_view(x@) == b,
            None => r is None,
        },
    decreases fields,
{
    let ghost fs = fields_view(values@);
    let mut out: Vec<(String, ComptimeValue)> = Vec::new();
    let mut i: usize = 0;
    assert(fields@.take(0) =~= Seq::<(String, Pattern)>::empty());
    assert(fields_view(out@) =~= Seq::<(Seq<char>, ValueView)>::empty());
    while i < fields.len()
        invariant
            i <= fields@.len(),
            fs == fields_view(values@),
            field_pattern_bindings(fields@.take(i as int), fs) == Some(fields_view(out@)),
        decreases fields.len() - i,
    {
        assert(fields@.take(i + 1).drop_last() =~= fields@.take(i as int));
        assert(fields@.take(i + 1).last() == fields@[i as int]);
        let fv = match lookup_binding(values, fields[i].0.as_str()) {
            Some(x) => x,
            None => {
                proof {
                    lemma_field_patterns_prefix(fields@, fs, i + 1);
                }
                return None;
            },
        };
        let nested = match match_pattern(&fields[i].1, fv) {
            Some(b) => b,
            None => {
                proof {
                    lemma_field_patterns_prefix(fields@, fs, i + 1);
                }
                return None;
            },
        };
        let ghost before = fields_view(out@);
        let mut k: usize = 0;
        assert(nested@.take(0) =~= Seq::<(String, ComptimeValue)>::empty());
        assert(fields_view(out@) =~= before + fields_view(nested@.take(0)));
        while k < nested.len()
            invariant
                k <= nested@.len(),
                fields_view(out@) == before + fields_view(nested@.take(k as int)),
            decreases nested.len() - k,
        {
            let c = copy_value(&nested[k].1);
            let ghost prev = out@;
            out.push((nested[k].0.clone(), c));
            proof {
                assert(out@.drop_last() =~= prev);
                assert(nested@.take(k + 1).drop_last() =~= nested@.take(k as int));
                assert(fields_view(out@) =~= before + fields_view(nested@.take(k + 1)));
            }
            k = k + 1;
        }
        assert(nested@.take(k as int) =~= nested@);
        i = i + 1;
    }
    assert(fields@.take(i as int) =~= fields@);
    Some(out)
}

fn match_first_pattern(ps: &Vec<Pattern>, v: &ComptimeValue) -> (r: Option<Vec<(String, ComptimeValue)>>)
    ensures
        match first_pattern_bindings(ps@, value_view(*v)) {
            Some(b) => r matches Some(x) && fields_view(x@) == b,
            None => r is None,
        },
    decreases ps,
{
    let mut i: usize = 0;
    assert(ps@.subrange(0, ps@.len() as int) =~= ps@);
    while i < ps.len()
        invariant
            i <= ps@.len(),
            first_pattern_bindings(ps@, value_view(*v)) == first_pattern_bindings(ps@.subrange(i as int, ps@.len() as int), value_view(*v)),
        decreases ps.len() - i,
    {
        let ghost rest = ps@.subrange(i as int, ps@.len() as int);
        assert(rest[0] == ps@[i as int]);
        assert(rest.subrange(1, rest.len() as int) =~= ps@.subrange(i + 1, ps@.len() as int));
        match match_pattern(&ps[i], v) {
            Some(b) => {
                return Some(b);
            },
            None => {},
        }
        i = i + 1;
    }
    None
}

fn is_truthy(v: &ComptimeValue) -> (b: bool)
    ensures
        b == truthy(value_view(*v)),
{
    match v {
        ComptimeValue::Bool(b) => *b,
        ComptimeValue::Int(n) => *n != 0,
        ComptimeValue::String(s) => chars_of(s.as_str()).len() > 0,
        ComptimeValue::Unit => false,
        ComptimeValue::Tuple(vs) => {
            proof {
                lemma_values_view(vs@);
            }
            vs.len() > 0
        },
        ComptimeValue::Struct(_, fs) => {
            proof {
                lemma_fields_view(fs@);
            }
            fs.len() > 0
        },
    }
}


// ---------------------------------------------------------------------------
// Evaluation, in the abstract
// ---------------------------------------------------------------------------

/// The state of an evaluation: the variables and functions in scope, the
/// call depth, the operations counted so far and the lines printed.
pub struct CtxView {
    pub vars: Map<Seq<char>, ValueView>,
    pub funs: Map<Seq<char>, (Seq<(String, Option<String>)>, Seq<Stmt>)>,
    pub depth: nat,
    pub ops: nat,
    pub printed: Seq<Seq<char>>,
}

/// The fixed bounds of an evaluation.
pub struct Limits {
    pub recursion_limit: nat,
    pub max_ops: nat,
}

/// The state after an evaluation, and its value or error.
pub type Outcome = (CtxView, Result<ValueView, ErrorView>);

/// Counting one operation: the new state, and whether it is within the
/// budget (the counter saturates at `usize::MAX`).
pub open spec fn tick(lim: Limits, st: CtxView) -> (CtxView, bool) {
    let next = if st.ops < usize::MAX { st.ops + 1 } else { st.ops };
    (CtxView { ops: next, ..st }, st.ops < usize::MAX && st.ops + 1 <= lim.max_ops)
}

/// `b` came from `a` without going back on the counter, within the budget.
pub open spec fn within(lim: Limits, a: CtxView, b: CtxView) -> bool {
    a.ops <= b.ops <= lim.max_ops
}

/// `st` with the counter and the printed lines of `after` (what an
/// evaluation in a nested scope shares with the scope it came from).
pub open spec fn shared(st: CtxView, after: CtxView) -> CtxView {
    CtxView { ops: after.ops, printed: after.printed, ..st }
}

/// The built-in arithmetic function a name calls: 1 to 5 for addition,
/// subtraction, multiplication, division and remainder, 0 for none.
pub open spec fn builtin_kind(name: Seq<char>) -> nat {
    if name == "+"@ || name == "add"@ {
        1
    } else if name == "-"@ || name == "sub"@ {
        2
    } else if name == "*"@ || name == "mul"@ {
        3
    } else if name == "/"@ || name == "div"@ {
        4
    } else if name == "%"@ || name == "mod"@ {
        5
    } else {
        0
    }
}

/// Checked 64-bit arithmetic, with the error for an overflow.
pub open spec fn arith(kind: nat, x: i64, y: i64) -> Result<ValueView, ErrorView> {
    if kind == 1 {
        match x.checked_add(y) { Some(r) => Ok(ValueView::Int(r)), None => Err(ErrorView::ArithmeticOverflow("add"@)) }
    } else if kind == 2 {
        match x.checked_sub(y) { Some(r) => Ok(ValueView::Int(r)), None => Err(ErrorView::ArithmeticOverflow("sub"@)) }
    } else if kind == 3 {
        match x.checked_mul(y) { Some(r) => Ok(ValueView::Int(r)), None => Err(ErrorView::ArithmeticOverflow("mul"@)) }
    } else if kind == 4 {
        if y == 0 {
            Err(ErrorView::DivisionByZero)
        } else {
            match x.checked_div(y) { Some(r) => Ok(ValueView::Int(r)), None => Err(ErrorView::ArithmeticOverflow("div"@)) }
        }
    } else {
        if y == 0 {
            Err(ErrorView::DivisionByZero)
        } else {
            match x.checked_rem(y) { Some(r) => Ok(ValueView::Int(r)), None => Err(ErrorView::ArithmeticOverflow("mod"@)) }
        }
    }
}

/// A binary operator applied to two values.
pub open spec fn binary_result(op: TokenKind, a: ValueView, b: ValueView) -> Result<ValueView, ErrorView> {
    let invalid = Err(ErrorView::InvalidOperation(token_debug(op)));
    match op {
        TokenKind::Plus => match (a, b) {
            (ValueView::Int(x), ValueView::Int(y)) => arith(1, x, y),
            (ValueView::Str(x), ValueView::Str(y)) => Ok(ValueView::Str(x + y)),
            _ => invalid,
        },
        TokenKind::Minus => match (a, b) {
            (ValueView::Int(x), ValueView::Int(y)) => arith(2, x, y),
            _ => invalid,
        },
        TokenKind::Star => match (a, b) {
            (ValueView::Int(x), ValueView::Int(y)) => arith(3, x, y),
            _ => invalid,
        },
        TokenKind::Slash => match (a, b) {
            (ValueView::Int(x), ValueView::Int(y)) => arith(4, x, y),
            (ValueView::Str(x), ValueView::Str(y)) => Ok(ValueView::Str(x + y)),
            _ => invalid,
        },
        TokenKind::Percent => match (a, b) {
            (ValueView::Int(x), ValueView::Int(y)) => arith(5, x, y),
            _ => invalid,
        },
        TokenKind::EqEq => Ok(ValueView::Bool(same_value(a, b))),
        TokenKind::NotEq => Ok(ValueView::Bool(!same_value(a, b))),
        TokenKind::Lt => match (a, b) {
            (ValueView::Int(x), ValueView::Int(y)) => Ok(ValueView::Bool(x < y)),
            _ => invalid,
        },
        TokenKind::LtEq => match (a, b) {
            (ValueView::Int(x), ValueView::Int(y)) => Ok(ValueView::Bool(x <= y)),
            _ => invalid,
        },
        TokenKind::Gt => match (a, b) {
            (ValueView::Int(x), ValueView::Int(y)) => Ok(ValueView::Bool(x > y)),
            _ => invalid,
        },
        TokenKind::GtEq => match (a, b) {
            (ValueView::Int(x), ValueView::Int(y)) => Ok(ValueView::Bool(x >= y)),
            _ => invalid,
        },
        TokenKind::AndAnd => match (a, b) {
            (ValueView::Bool(x), ValueView::Bool(y)) => Ok(ValueView::Bool(x && y)),
            _ => invalid,
        },
        TokenKind::OrOr => match (a, b) {
            (ValueView::Bool(x), ValueView::Bool(y)) => Ok(ValueView::Bool(x || y)),
            _ => invalid,
        },
        _ => invalid,
    }
}

/// `&&` and `||` on booleans: `x || y` is true exactly when either operand
/// is (so whenever one is), `x && y` exactly when both are, and `x || y` is
/// the negation of `!x && !y`. The comparisons of integers give `true`
/// exactly when the relation holds; `<=` holds of equal integers.
pub proof fn law_boolean_and_comparison_operators(x: bool, y: bool, a: i64, b: i64)
    ensures
        binary_result(TokenKind::OrOr, ValueView::Bool(x), ValueView::Bool(y)) == Ok::<ValueView, ErrorView>(ValueView::Bool(x || y)),
        binary_result(TokenKind::AndAnd, ValueView::Bool(x), ValueView::Bool(y)) == Ok::<ValueView, ErrorView>(ValueView::Bool(x && y)),
        x || y ==> binary_result(TokenKind::OrOr, ValueView::Bool(x), ValueView::Bool(y)) == Ok::<ValueView, ErrorView>(ValueView::Bool(true)),
        !x || !y ==> binary_result(TokenKind::AndAnd, ValueView::Bool(x), ValueView::Bool(y)) == Ok::<ValueView, ErrorView>(ValueView::Bool(false)),
        match (binary_result(TokenKind::OrOr, ValueView::Bool(x), ValueView::Bool(y)), binary_result(TokenKind::AndAnd, ValueView::Bool(!x), ValueView::Bool(!y))) {
            (Ok(ValueView::Bool(p)), Ok(ValueView::Bool(q))) => p == !q,
            _ => false,
        },
        binary_result(TokenKind::Lt, ValueView::Int(a), ValueView::Int(b)) == Ok::<ValueView, ErrorView>(ValueView::Bool(a < b)),
        binary_result(TokenKind::LtEq, ValueView::Int(a), ValueView::Int(b)) == Ok::<ValueView, ErrorView>(ValueView::Bool(a <= b)),
        binary_result(TokenKind::Gt, ValueView::Int(a), ValueView::Int(b)) == Ok::<ValueView, ErrorView>(ValueView::Bool(a > b)),
        binary_result(TokenKind::GtEq, ValueView::Int(a), ValueView::Int(b)) == Ok::<ValueView, ErrorView>(ValueView::Bool(a >= b)),
        binary_result(TokenKind::LtEq, ValueView::Int(a), ValueView::Int(a)) == Ok::<ValueView, ErrorView>(ValueView::Bool(true)),
        binary_result(TokenKind::GtEq, ValueView::Int(a), ValueView::Int(b)) == binary_result(TokenKind::LtEq, ValueView::Int(b), ValueView::Int(a)),
        i64::MIN <= a + b <= i64::MAX ==> binary_result(TokenKind::Plus, ValueView::Int(a), ValueView::Int(b)) == Ok::<ValueView, ErrorView>(ValueView::Int((a + b) as i64)),
        i64::MIN <= a - b <= i64::MAX ==> binary_result(TokenKind::Minus, ValueView::Int(a), ValueView::Int(b)) == Ok::<ValueView, ErrorView>(ValueView::Int((a - b) as i64)),
        i64::MIN <= a * b <= i64::MAX ==> binary_result(TokenKind::Star, ValueView::Int(a), ValueView::Int(b)) == Ok::<ValueView, ErrorView>(ValueView::Int((a * b) as i64)),
{
}

/// A unary operator applied to a value.
pub open spec fn unary_result(op: TokenKind, v: ValueView) -> Result<ValueView, ErrorView> {
    match (op, v) {
        (TokenKind::Minus, ValueView::Int(n)) =>
            if n == i64::MIN { Err(ErrorView::ArithmeticOverflow("neg"@)) } else { Ok(ValueView::Int((-n) as i64)) },
        (TokenKind::Bang, ValueView::Bool(b)) => Ok(ValueView::Bool(!b)),
        _ => Err(ErrorView::InvalidOperation("unary "@ + token_debug(op))),
    }
}

/// A field of a value: `len` of a string (its characters) or tuple, a field
/// of a struct.
pub open spec fn field_result(v: ValueView, field: Seq<char>) -> Result<ValueView, ErrorView> {
    let other = Err(ErrorView::InvalidOperation("field access "@ + value_debug(v) + "."@ + field));
    match v {
        ValueView::Str(s) => if field == "len"@ { Ok(ValueView::Int(s.len() as i64)) } else { other },
        ValueView::Tuple(vs) => if field == "len"@ { Ok(ValueView::Int(vs.len() as i64)) } else { other },
        ValueView::Struct(_, fs) => match field_of(fs, field) {
            Some(x) => Ok(x),
            None => Err(ErrorView::InvalidOperation("unknown field "@ + field)),
        },
        _ => other,
    }
}

/// The parameters bound to the argument values, later ones winning.
pub open spec fn params_map(ps: Seq<(String, Option<String>)>, vals: Seq<ValueView>) -> Map<Seq<char>, ValueView>
    decreases ps.len(),
{
    if ps.len() == 0 {
        Map::empty()
    } else {
        params_map(ps.drop_last(), vals).insert(ps.last().0@, vals[ps.len() - 1])
    }
}

/// Evaluating an expression: it counts one operation, then computes.
pub open spec fn eval_expr(lim: Limits, e: Expr, st: CtxView) -> Outcome
    decreases lim.max_ops - st.ops, 0nat, 0nat,
{
    let t = tick(lim, st);
    let st1 = t.0;
    if !t.1 {
        (st1, Err(ErrorView::OperationLimit))
    } else {
        match e {
            Expr::Number(n, _) => (st1, Ok(ValueView::Int(n))),
            Expr::StringLit(s, _) => (st1, Ok(ValueView::Str(s@))),
            Expr::Bool(b, _) => (st1, Ok(ValueView::Bool(b))),
            Expr::Var(name, _) =>
                if st1.vars.contains_key(name@) {
                    (st1, Ok(st1.vars[name@]))
                } else {
                    (st1, Err(ErrorView::UndefinedVariable(name@)))
                },
            Expr::Call(name, args, _) => eval_call(lim, name@, args@, st1),
            Expr::BinaryOp { op, left, right, .. } => eval_binary(lim, op, *left, *right, st1),
            Expr::UnaryOp { op, inner, .. } => {
                let r = eval_expr(lim, *inner, st1);
                match r.1 {
                    Ok(v) => (r.0, unary_result(op, v)),
                    Err(x) => (r.0, Err(x)),
                }
            },
            Expr::FieldAccess { base, field, .. } => {
                let r = eval_expr(lim, *base, st1);
                match r.1 {
                    Ok(v) => (r.0, field_result(v, field@)),
                    Err(x) => (r.0, Err(x)),
                }
            },
            Expr::Tuple(es, _) => {
                let r = eval_list(lim, es@, st1, seq![]);
                match r.1 {
                    Ok(vs) => (r.0, Ok(ValueView::Tuple(vs))),
                    Err(x) => (r.0, Err(x)),
                }
            },
            Expr::Match { expr, arms, .. } => {
                let r = eval_expr(lim, *expr, st1);
                match r.1 {
                    Err(x) => (r.0, Err(x)),
                    Ok(v) => if within(lim, st1, r.0) { eval_arms(lim, arms@, v, r.0) } else { (r.0, Err(ErrorView::OperationLimit)) },
                }
            },
            Expr::Block(stmts, _) => eval_block(lim, stmts@, st1, ValueView::Unit),
            _ => (st1, Err(ErrorView::Unsupported("expression "@ + expr_debug(e) + " is not supported by the compile-time evaluator"@))),
        }
    }
}

/// Evaluating expressions in order, their values following `acc`; the first
/// error stops.
pub open spec fn eval_list(lim: Limits, es: Seq<Expr>, st: CtxView, acc: Seq<ValueView>) -> (CtxView, Result<Seq<ValueView>, ErrorView>)
    decreases lim.max_ops - st.ops, 1nat, es.len(),
{
    if es.len() == 0 {
        (st, Ok(acc))
    } else {
        let r = eval_expr(lim, es[0], st);
        match r.1 {
            Err(x) => (r.0, Err(x)),
            Ok(v) => if within(lim, st, r.0) {
                eval_list(lim, es.subrange(1, es.len() as int), r.0, acc.push(v))
            } else {
                (r.0, Err(ErrorView::OperationLimit))
            },
        }
    }
}

/// A binary operation: both sides in order, then the operator.
pub open spec fn eval_binary(lim: Limits, op: TokenKind, left: Expr, right: Expr, st: CtxView) -> Outcome
    decreases lim.max_ops - st.ops, 1nat, 0nat,
{
    let ra = eval_expr(lim, left, st);
    match ra.1 {
        Err(x) => (ra.0, Err(x)),
        Ok(a) => if within(lim, st, ra.0) {
            let rb = eval_expr(lim, right, ra.0);
            match rb.1 {
                Err(x) => (rb.0, Err(x)),
                Ok(b) => (rb.0, binary_result(op, a, b)),
            }
        } else {
            (ra.0, Err(ErrorView::OperationLimit))
        },
    }
}

/// A call: a built-in arithmetic function of two integer arguments, or else
/// a function the program declared.
pub open spec fn eval_call(lim: Limits, name: Seq<char>, args: Seq<Expr>, st: CtxView) -> Outcome
    decreases lim.max_ops - st.ops, 3nat, 0nat,
{
    let kind = builtin_kind(name);
    if kind == 0 {
        user_call(lim, name, args, st)
    } else if args.len() != 2 {
        (st, Err(ErrorView::Arity(name, 2, args.len())))
    } else {
        let ra = eval_expr(lim, args[0], st);
        match ra.1 {
            Err(x) => (ra.0, Err(x)),
            Ok(a) => if within(lim, st, ra.0) {
                let rb = eval_expr(lim, args[1], ra.0);
                match rb.1 {
                    Err(x) => (rb.0, Err(x)),
                    Ok(b) => if within(lim, st, rb.0) {
                        match (a, b) {
                            (ValueView::Int(x), ValueView::Int(y)) => (rb.0, arith(kind, x, y)),
                            _ => user_call(lim, name, args, rb.0),
                        }
                    } else {
                        (rb.0, Err(ErrorView::OperationLimit))
                    },
                }
            } else {
                (ra.0, Err(ErrorView::OperationLimit))
            },
        }
    }
}

/// A call of a declared function: the arguments in order, then the body in
/// a scope of its own, one level deeper, that sees the caller's variables
/// and binds the parameters.
pub open spec fn user_call(lim: Limits, name: Seq<char>, args: Seq<Expr>, st: CtxView) -> Outcome
    decreases lim.max_ops - st.ops, 2nat, 0nat,
{
    if !st.funs.contains_key(name) {
        (st, Err(ErrorView::UndefinedVariable("function '"@ + name + "'"@)))
    } else {
        let f = st.funs[name];
        if args.len() != f.0.len() {
            (st, Err(ErrorView::Arity(name, f.0.len(), args.len())))
        } else {
            let ra = eval_list(lim, args, st, seq![]);
            match ra.1 {
                Err(x) => (ra.0, Err(x)),
                Ok(vals) => if !within(lim, st, ra.0) {
                    (ra.0, Err(ErrorView::OperationLimit))
                } else if ra.0.depth + 1 > lim.recursion_limit {
                    (ra.0, Err(ErrorView::RecursionLimit))
                } else {
                    let local = CtxView {
                        vars: ra.0.vars.union_prefer_right(params_map(f.0, vals)),
                        depth: ra.0.depth + 1,
                        ..ra.0
                    };
                    let rb = eval_block(lim, f.1, local, ValueView::Unit);
                    (shared(ra.0, rb.0), rb.1)
                },
            }
        }
    }
}

/// The arms of a `match` in order: the first whose pattern matches and whose
/// guard holds gives the value of its body; guard and body are evaluated in
/// a scope of their own with the pattern's bindings.
pub open spec fn eval_arms(lim: Limits, arms: Seq<MatchArm>, v: ValueView, st: CtxView) -> Outcome
    decreases lim.max_ops - st.ops, 1nat, arms.len(),
{
    if arms.len() == 0 {
        (st, Err(ErrorView::InvalidOperation("non-exhaustive match expression"@)))
    } else {
        let arm = arms[0];
        let rest = arms.subrange(1, arms.len() as int);
        match pattern_bindings(arm.pattern, v) {
            None => eval_arms(lim, rest, v, st),
            Some(bs) => {
                let local = CtxView { vars: st.vars.union_prefer_right(binds_map(bs)), ..st };
                match arm.guard {
                    None => {
                        let rb = eval_expr(lim, *arm.body, local);
                        (shared(st, rb.0), rb.1)
                    },
                    Some(g) => {
                        let rg = eval_expr(lim, *g, local);
                        match rg.1 {
                            Err(x) => (shared(st, rg.0), Err(x)),
                            Ok(gv) => if !within(lim, st, rg.0) {
                                (shared(st, rg.0), Err(ErrorView::OperationLimit))
                            } else if truthy(gv) {
                                let rb = eval_expr(lim, *arm.body, rg.0);
                                (shared(st, rb.0), rb.1)
                            } else {
                                eval_arms(lim, rest, v, shared(st, rg.0))
                            },
                        }
                    },
                }
            },
        }
    }
}

/// Statements in order; the value is that of the last one, `last` when there
/// is none, and the first error stops.
pub open spec fn eval_block(lim: Limits, ss: Seq<Stmt>, st: CtxView, last: ValueView) -> Outcome
    decreases lim.max_ops - st.ops, 1nat, ss.len(),
{
    if ss.len() == 0 {
        (st, Ok(last))
    } else {
        let r = eval_stmt(lim, ss[0], st);
        match r.1 {
            Err(x) => (r.0, Err(x)),
            Ok(v) => if within(lim, st, r.0) {
                eval_block(lim, ss.subrange(1, ss.len() as int), r.0, v)
            } else {
                (r.0, Err(ErrorView::OperationLimit))
            },
        }
    }
}

/// A `while` loop: the condition, then the body while it holds.
pub open spec fn eval_while(lim: Limits, cond: Expr, body: Seq<Stmt>, st: CtxView) -> Outcome
    decreases lim.max_ops - st.ops, 2nat, 0nat,
{
    let rc = eval_expr(lim, cond, st);
    match rc.1 {
        Err(x) => (rc.0, Err(x)),
        Ok(c) => if !truthy(c) {
            (rc.0, Ok(ValueView::Unit))
        } else if !(st.ops < rc.0.ops && rc.0.ops <= lim.max_ops) {
            (rc.0, Err(ErrorView::OperationLimit))
        } else {
            let rb = eval_block(lim, body, rc.0, ValueView::Unit);
            match rb.1 {
                Err(x) => (rb.0, Err(x)),
                Ok(_) => if within(lim, rc.0, rb.0) {
                    eval_while(lim, cond, body, rb.0)
                } else {
                    (rb.0, Err(ErrorView::OperationLimit))
                },
            }
        },
    }
}

/// A `for` loop over the values of a tuple: each bound in turn, then the body.
pub open spec fn eval_for(lim: Limits, var: Seq<char>, vals: Seq<ValueView>, body: Seq<Stmt>, st: CtxView) -> Outcome
    decreases lim.max_ops - st.ops, 2nat, vals.len(),
{
    if vals.len() == 0 {
        (st, Ok(ValueView::Unit))
    } else {
        let st1 = CtxView { vars: st.vars.insert(var, vals[0]), ..st };
        let rb = eval_block(lim, body, st1, ValueView::Unit);
        match rb.1 {
            Err(x) => (rb.0, Err(x)),
            Ok(_) => if within(lim, st, rb.0) {
                eval_for(lim, var, vals.subrange(1, vals.len() as int), body, rb.0)
            } else {
                (rb.0, Err(ErrorView::OperationLimit))
            },
        }
    }
}

/// Evaluating a statement: it counts one operation, then acts.
pub open spec fn eval_stmt(lim: Limits, s: Stmt, st: CtxView) -> Outcome
    decreases lim.max_ops - st.ops, 0nat, 0nat,
{
    let t = tick(lim, st);
    let st1 = t.0;
    if !t.1 {
        (st1, Err(ErrorView::OperationLimit))
    } else {
        match s {
            Stmt::Let(name, _, e, _) => {
                let r = eval_expr(lim, e, st1);
                match r.1 {
                    Ok(v) => (CtxView { vars: r.0.vars.insert(name@, v), ..r.0 }, Ok(ValueView::Unit)),
                    Err(x) => (r.0, Err(x)),
                }
            },
            Stmt::ExprStmt(e, _) => eval_expr(lim, e, st1),
            Stmt::Print(e, _) => {
                let r = eval_expr(lim, e, st1);
                match r.1 {
                    Ok(v) => (CtxView { printed: r.0.printed.push(value_debug(v)), ..r.0 }, Ok(ValueView::Unit)),
                    Err(x) => (r.0, Err(x)),
                }
            },
            Stmt::Return(e, _) => eval_expr(lim, e, st1),
            Stmt::Fn { name, params, body, .. } =>
                (CtxView { funs: st1.funs.insert(name@, (params@, body@)), ..st1 }, Ok(ValueView::Unit)),
            Stmt::If { cond, then_body, else_body, .. } => {
                let rc = eval_expr(lim, *cond, st1);
                match rc.1 {
                    Err(x) => (rc.0, Err(x)),
                    Ok(c) => if within(lim, st1, rc.0) {
                        let rb = eval_block(lim, if truthy(c) { then_body@ } else { else_body@ }, rc.0, ValueView::Unit);
                        match rb.1 {
                            Ok(_) => (rb.0, Ok(ValueView::Unit)),
                            Err(x) => (rb.0, Err(x)),
                        }
                    } else {
                        (rc.0, Err(ErrorView::OperationLimit))
                    },
                }
            },
            Stmt::Loop { .. } => (st1, Err(ErrorView::Unsupported(
                "unbounded comptime loop; use a bounded while/for form until loop control is qualified"@))),
            Stmt::While { cond, body, .. } => eval_while(lim, *cond, body@, st1),
            Stmt::For { var_name, iterable, body, .. } => {
                let r = eval_expr(lim, *iterable, st1);
                match r.1 {
                    Err(x) => (r.0, Err(x)),
                    Ok(ValueView::Tuple(vals)) => if within(lim, st1, r.0) {
                        eval_for(lim, var_name@, vals, body@, r.0)
                    } else {
                        (r.0, Err(ErrorView::OperationLimit))
                    },
                    Ok(_) => (r.0, Err(ErrorView::TypeError("comptime for currently requires a tuple iterable"@))),
                }
            },
            Stmt::Break(_) => (st1, Err(ErrorView::Unsupported("comptime break is not yet supported"@))),
            Stmt::Continue(_) => (st1, Err(ErrorView::Unsupported("comptime continue is not yet supported"@))),
            _ => (st1, Err(ErrorView::Unsupported("statement "@ + stmt_debug(s) + " is not supported by the compile-time evaluator"@))),
        }
    }
}


// ---------------------------------------------------------------------------
// The evaluator
// ---------------------------------------------------------------------------

/// The evaluation context: the variables and declared functions in scope,
/// the recursion limit and current call depth, the operation budget and the
/// operations counted so far, and the lines that `print` wrote.
pub struct ComptimeContext<'a> {
    pub variables: StrMap<ComptimeValue>,
    pub functions: StrMap<ComptimeFunction<'a>>,
    pub recursion_limit: usize,
    pub current_depth: usize,
    pub max_operations: usize,
    pub operations: usize,
    pub printed: Vec<String>,
}

pub open spec fn env_view(m: Map<Seq<char>, ComptimeValue>) -> Map<Seq<char>, ValueView> {
    m.map_values(|v: ComptimeValue| value_view(v))
}

pub open spec fn funs_view<'a>(m: Map<Seq<char>, ComptimeFunction<'a>>) -> Map<Seq<char>, (Seq<(String, Option<String>)>, Seq<Stmt>)> {
    m.map_values(|f: ComptimeFunction<'a>| (f.params@, f.body@))
}

pub open spec fn result_view(r: Result<ComptimeValue, ComptimeError>) -> Result<ValueView, ErrorView> {
    match r {
        Ok(v) => Ok(value_view(v)),
        Err(e) => Err(error_view(e)),
    }
}

/// `r`, with the context `ctx` left behind, is the outcome `o` describes.
pub open spec fn outcome_is<'a>(o: Outcome, ctx: ComptimeContext<'a>, r: Result<ComptimeValue, ComptimeError>) -> bool {
    ctx.state() == o.0 && result_view(r) == o.1
}

/// The limits of a new context.
pub open spec fn default_limits() -> Limits {
    Limits { recursion_limit: 1000, max_ops: 100000 }
}

/// The state of a new context.
pub open spec fn fresh_state() -> CtxView {
    CtxView { vars: Map::empty(), funs: Map::empty(), depth: 0, ops: 0, printed: seq![] }
}

impl<'a> ComptimeContext<'a> {
    /// The part of the context that evaluation reads and changes.
    pub open spec fn state(&self) -> CtxView {
        CtxView {
            vars: env_view(self.variables@),
            funs: funs_view(self.functions@),
            depth: self.current_depth as nat,
            ops: self.operations as nat,
            printed: self.printed@.map_values(|t: String| t@),
        }
    }

    /// The bounds of an evaluation in this context.
    pub open spec fn limits(&self) -> Limits {
        Limits { recursion_limit: self.recursion_limit as nat, max_ops: self.max_operations as nat }
    }

    /// A context with nothing in scope, a recursion limit of 1000 and a
    /// budget of 100000 operations.
    pub fn new() -> (c: Self)
        ensures
            c.state() == fresh_state(),
            c.limits() == default_limits(),
    {
        let c = ComptimeContext {
            variables: StrMap::new(),
            functions: StrMap::new(),
            recursion_limit: 1000,
            current_depth: 0,
            max_operations: 100000,
            operations: 0,
            printed: Vec::new(),
        };
        assert(c.state().vars =~= Map::<Seq<char>, ValueView>::empty());
        assert(c.state().funs =~= Map::<Seq<char>, (Seq<(String, Option<String>)>, Seq<Stmt>)>::empty());
        assert(c.state().printed =~= Seq::<Seq<char>>::empty());
        c
    }

    /// The operations counted so far.
    pub fn operations_used(&self) -> (n: usize)
        ensures
            n == self.state().ops,
    {
        self.operations
    }

    /// Counts one operation against the budget.
    fn tick_op(&mut self) -> (r: Result<(), ComptimeError>)
        requires
            old(self).max_operations < usize::MAX,
        ensures
            final(self).state() == tick(old(self).limits(), old(self).state()).0,
            final(self).limits() == old(self).limits(),
            r is Ok <==> tick(old(self).limits(), old(self).state()).1,
            r matches Err(e) ==> error_view(e) == ErrorView::OperationLimit,
    {
        let next: usize = if self.operations < usize::MAX { self.operations + 1 } else { usize::MAX };
        self.operations = next;
        if next > self.max_operations {
            Err(ComptimeError::OperationLimit)
        } else {
            Ok(())
        }
    }
}

impl<'a> Default for ComptimeContext<'a> {
    fn default() -> (c: Self)
        ensures
            c.state() == fresh_state(),
            c.limits() == default_limits(),
    {
        Self::new()
    }
}

/// A deep copy of a set of variables.
fn copy_vars(m: &StrMap<ComptimeValue>) -> (r: StrMap<ComptimeValue>)
    ensures
        env_view(r@) == env_view(m@),
{
    let es = m.entries();
    let mut out: StrMap<ComptimeValue> = StrMap::new();
    let mut i: usize = 0;
    assert(es@.take(0) =~= Seq::<(String, ComptimeValue)>::empty());
    assert(env_view(out@) =~= env_view(entries_map(es@.take(0))));
    while i < es.len()
        invariant
            i <= es@.len(),
            env_view(out@) == env_view(entries_map(es@.take(i as int))),
        decreases es.len() - i,
    {
        let c = copy_value(&es[i].1);
        let ghost before = out@;
        let ghost cv = value_view(c);
        let k = es[i].0.clone();
        out.insert(k, c);
        proof {
            assert(es@.take(i + 1).drop_last() =~= es@.take(i as int));
            assert(es@.take(i + 1).last() == es@[i as int]);
            assert(entries_map(es@.take(i + 1)) == entries_map(es@.take(i as int)).insert(es@[i as int].0@, es@[i as int].1));
            assert(env_view(out@) =~= env_view(before).insert(es@[i as int].0@, cv));
            assert(env_view(entries_map(es@.take(i + 1))) =~= env_view(entries_map(es@.take(i as int))).insert(es@[i as int].0@, value_view(es@[i as int].1)));
        }
        i = i + 1;
    }
    assert(es@.take(i as int) =~= es@);
    out
}

fn builtin_kind_exec(name: &str) -> (k: u8)
    ensures
        k as nat == builtin_kind(name@),
{
    if str_eq(name, "+") || str_eq(name, "add") {
        1
    } else if str_eq(name, "-") || str_eq(name, "sub") {
        2
    } else if str_eq(name, "*") || str_eq(name, "mul") {
        3
    } else if str_eq(name, "/") || str_eq(name, "div") {
        4
    } else if str_eq(name, "%") || str_eq(name, "mod") {
        5
    } else {
        0
    }
}

fn arith_exec(kind: u8, x: i64, y: i64) -> (r: Result<ComptimeValue, ComptimeError>)
    requires
        1 <= kind <= 5,
    ensures
        result_view(r) == arith(kind as nat, x, y),
{
    if kind == 1 {
        match x.checked_add(y) { Some(v) => Ok(ComptimeValue::Int(v)), None => Err(ComptimeError::ArithmeticOverflow("add")) }
    } else if kind == 2 {
        match x.checked_sub(y) { Some(v) => Ok(ComptimeValue::Int(v)), None => Err(ComptimeError::ArithmeticOverflow("sub")) }
    } else if kind == 3 {
        match x.checked_mul(y) { Some(v) => Ok(ComptimeValue::Int(v)), None => Err(ComptimeError::ArithmeticOverflow("mul")) }
    } else if kind == 4 {
        if y == 0 {
            Err(ComptimeError::DivisionByZero)
        } else {
            match x.checked_div(y) { Some(v) => Ok(ComptimeValue::Int(v)), None => Err(ComptimeError::ArithmeticOverflow("div")) }
        }
    } else {
        if y == 0 {
            Err(ComptimeError::DivisionByZero)
        } else {
            match x.checked_rem(y) { Some(v) => Ok(ComptimeValue::Int(v)), None => Err(ComptimeError::ArithmeticOverflow("mod")) }
        }
    }
}

fn concat_exec(x: &String, y: &String) -> (r: ComptimeValue)
    ensures
        value_view(r) == ValueView::Str(x@ + y@),
{
    let mut t = x.clone();
    push_str(&mut t, y.as_str());
    ComptimeValue::String(t)
}

fn binary_exec(op: TokenKind, a: &ComptimeValue, b: &ComptimeValue) -> (r: Result<ComptimeValue, ComptimeError>)
    ensures
        result_view(r) == binary_result(op, value_view(*a), value_view(*b)),
{
    match op {
        TokenKind::Plus => match (a, b) {
            (ComptimeValue::Int(x), ComptimeValue::Int(y)) => return arith_exec(1, *x, *y),
            (ComptimeValue::String(x), ComptimeValue::String(y)) => return Ok(concat_exec(x, y)),
            _ => {},
        },
        TokenKind::Minus => match (a, b) {
            (ComptimeValue::Int(x), ComptimeValue::Int(y)) => return arith_exec(2, *x, *y),
            _ => {},
        },
        TokenKind::Star => match (a, b) {
            (ComptimeValue::Int(x), ComptimeValue::Int(y)) => return arith_exec(3, *x, *y),
            _ => {},
        },
        TokenKind::Slash => match (a, b) {
            (ComptimeValue::Int(x), ComptimeValue::Int(y)) => return arith_exec(4, *x, *y),
            (ComptimeValue::String(x), ComptimeValue::String(y)) => return Ok(concat_exec(x, y)),
            _ => {},
        },
        TokenKind::Percent => match (a, b) {
            (ComptimeValue::Int(x), ComptimeValue::Int(y)) => return arith_exec(5, *x, *y),
            _ => {},
        },
        TokenKind::EqEq => return Ok(ComptimeValue::Bool(values_equal(a, b))),
        TokenKind::NotEq => return Ok(ComptimeValue::Bool(!values_equal(a, b))),
        TokenKind::Lt => match (a, b) {
            (ComptimeValue::Int(x), ComptimeValue::Int(y)) => return Ok(ComptimeValue::Bool(*x < *y)),
            _ => {},
        },
        TokenKind::LtEq => match (a, b) {
            (ComptimeValue::Int(x), ComptimeValue::Int(y)) => return Ok(ComptimeValue::Bool(*x <= *y)),
            _ => {},
        },
        TokenKind::Gt => match (a, b) {
            (ComptimeValue::Int(x), ComptimeValue::Int(y)) => return Ok(ComptimeValue::Bool(*x > *y)),
            _ => {},
        },
        TokenKind::GtEq => match (a, b) {
            (ComptimeValue::Int(x), ComptimeValue::Int(y)) => return Ok(ComptimeValue::Bool(*x >= *y)),
            _ => {},
        },
        TokenKind::AndAnd => match (a, b) {
            (ComptimeValue::Bool(x), ComptimeValue::Bool(y)) => return Ok(ComptimeValue::Bool(*x && *y)),
            _ => {},
        },
        TokenKind::OrOr => match (a, b) {
            (ComptimeValue::Bool(x), ComptimeValue::Bool(y)) => return Ok(ComptimeValue::Bool(*x || *y)),
            _ => {},
        },
        _ => {},
    }
    Err(ComptimeError::InvalidOperation(debug_token(op)))
}

fn field_exec(v: &ComptimeValue, field: &str) -> (r: Result<ComptimeValue, ComptimeError>)
    ensures
        result_view(r) == field_result(value_view(*v), field@),
{
    match v {
        ComptimeValue::String(s) => {
            if str_eq(field, "len") {
                return Ok(ComptimeValue::Int(chars_of(s.as_str()).len() as i64));
            }
        },
        ComptimeValue::Tuple(vs) => {
            if str_eq(field, "len") {
                proof {
                    lemma_values_view(vs@);
                }
                return Ok(ComptimeValue::Int(vs.len() as i64));
            }
        },
        ComptimeValue::Struct(_, fs) => {
            return match lookup_binding(fs, field) {
                Some(x) => Ok(copy_value(x)),
                None => {
                    let mut m = String::from_str("unknown field ");
                    push_str(&mut m, field);
                    Err(ComptimeError::InvalidOperation(m))
                },
            };
        },
        _ => {},
    }
    let mut m = String::from_str("field access ");
    let d = debug_value(v);
    push_str(&mut m, d.as_str());
    push_str(&mut m, ".");
    push_str(&mut m, field);
    Err(ComptimeError::InvalidOperation(m))
}



/// A list that evaluates gives one value for each expression.
pub proof fn lemma_eval_list_len(lim: Limits, es: Seq<Expr>, st: CtxView, acc: Seq<ValueView>)
    ensures
        eval_list(lim, es, st, acc).1 matches Ok(vs) ==> vs.len() == acc.len() + es.len(),
    decreases lim.max_ops - st.ops, 1nat, es.len(),
{
    if es.len() > 0 {
        let r = eval_expr(lim, es[0], st);
        if r.1 is Ok && within(lim, st, r.0) {
            lemma_eval_list_len(lim, es.subrange(1, es.len() as int), r.0, acc.push(r.1->Ok_0));
        }
    }
}

impl<'a> ComptimeContext<'a> {
    /// A scope of its own for a call or a `match` arm: a copy of the
    /// variables with `binds` bound over them, the functions, the depth
    /// `depth`; the counter and the printed lines move into it.
    fn nested_scope(&mut self, binds: Vec<(String, ComptimeValue)>, depth: usize) -> (local: Self)
        ensures
            local.state() == (CtxView {
                vars: old(self).state().vars.union_prefer_right(binds_map(fields_view(binds@))),
                depth: depth as nat,
                ..old(self).state()
            }),
            local.limits() == old(self).limits(),
            final(self).state() == (CtxView { printed: seq![], ..old(self).state() }),
            final(self).limits() == old(self).limits(),
    {
        let ghost base = env_view(self.variables@);
        let mut vars = copy_vars(&self.variables);
        let mut j: usize = 0;
        assert(binds@.take(0) =~= Seq::<(String, ComptimeValue)>::empty());
        assert(env_view(vars@) =~= base.union_prefer_right(binds_map(fields_view(binds@.take(0)))));
        while j < binds.len()
            invariant
                j <= binds@.len(),
                env_view(vars@) == base.union_prefer_right(binds_map(fields_view(binds@.take(j as int)))),
            decreases binds.len() - j,
        {
            let ghost before = vars@;
            let c = copy_value(&binds[j].1);
            let ghost cv = value_view(c);
            let k = binds[j].0.clone();
            vars.insert(k, c);
            proof {
                assert(binds@.take(j + 1).drop_last() =~= binds@.take(j as int));
                assert(binds@.take(j + 1).last() == binds@[j as int]);
                let fv = fields_view(binds@.take(j + 1));
                assert(fv.drop_last() =~= fields_view(binds@.take(j as int)));
                assert(binds_map(fv) == binds_map(fv.drop_last()).insert(binds@[j as int].0@, cv));
                assert(env_view(vars@) =~= env_view(before).insert(binds@[j as int].0@, cv));
                assert(env_view(vars@) =~= base.union_prefer_right(binds_map(fv)));
            }
            j = j + 1;
        }
        assert(binds@.take(j as int) =~= binds@);
        let mut printed: Vec<String> = Vec::new();
        std::mem::swap(&mut printed, &mut self.printed);
        assert(self.printed@.map_values(|t: String| t@) =~= Seq::<Seq<char>>::empty());
        ComptimeContext {
            variables: vars,
            functions: self.functions.copy(),
            recursion_limit: self.recursion_limit,
            current_depth: depth,
            max_operations: self.max_operations,
            operations: self.operations,
            printed,
        }
    }

    /// Takes back the counter and the printed lines from a nested scope.
    fn leave_scope(&mut self, local: Self)
        ensures
            final(self).state() == shared(old(self).state(), local.state()),
            final(self).limits() == old(self).limits(),
    {
        self.operations = local.operations;
        self.printed = local.printed;
    }

    /// Evaluates a program's statements in order: the value is that of the
    /// last (`Unit` for none), and the first error stops.
    pub fn eval_program(&mut self, prog: &'a Program) -> (r: Result<ComptimeValue, ComptimeError>)
        requires
            old(self).max_operations < usize::MAX,
        ensures
            outcome_is(eval_block(old(self).limits(), prog.stmts@, old(self).state(), ValueView::Unit), *final(self), r),
            final(self).limits() == old(self).limits(),
    {
        self.eval_block(&prog.stmts)
    }

    fn eval_block(&mut self, ss: &'a Vec<Stmt>) -> (r: Result<ComptimeValue, ComptimeError>)
        requires
            old(self).max_operations < usize::MAX,
        ensures
            outcome_is(eval_block(old(self).limits(), ss@, old(self).state(), ValueView::Unit), *final(self), r),
            final(self).limits() == old(self).limits(),
            old(self).operations <= final(self).operations,
            r is Ok && old(self).operations <= old(self).max_operations ==> final(self).operations <= final(self).max_operations,
        decreases old(self).max_operations - old(self).operations, 1nat,
    {
        let ghost lim = self.limits();
        let ghost st0 = self.state();
        let ghost ops0 = self.operations;
        let mut last = ComptimeValue::Unit;
        let mut i: usize = 0;
        assert(ss@.subrange(0, ss@.len() as int) =~= ss@);
        while i < ss.len()
            invariant
                i <= ss@.len(),
                lim == self.limits(),
                lim == old(self).limits(),
                st0 == old(self).state(),
                self.max_operations < usize::MAX,
                self.max_operations == old(self).max_operations,
                ops0 == old(self).operations,
                ops0 <= self.operations,
                i > 0 ==> self.operations <= self.max_operations,
                i == 0 ==> self.operations == ops0,
                eval_block(lim, ss@, st0, ValueView::Unit) == eval_block(lim, ss@.subrange(i as int, ss@.len() as int), self.state(), value_view(last)),
            decreases ss.len() - i,
        {
            let ghost rest = ss@.subrange(i as int, ss@.len() as int);
            let ghost sti = self.state();
            assert(rest[0] == ss@[i as int]);
            assert(rest.subrange(1, rest.len() as int) =~= ss@.subrange(i + 1, ss@.len() as int));
            match self.eval_stmt(&ss[i]) {
                Ok(v) => {
                    last = v;
                },
                Err(x) => {
                    return Err(x);
                },
            }
            i = i + 1;
        }
        Ok(last)
    }


    /// Evaluates a statement: it counts one operation, then acts. `print`
    /// adds the value's debug rendering to the printed lines.
    pub fn eval_stmt(&mut self, stmt: &'a Stmt) -> (r: Result<ComptimeValue, ComptimeError>)
        requires
            old(self).max_operations < usize::MAX,
        ensures
            outcome_is(eval_stmt(old(self).limits(), *stmt, old(self).state()), *final(self), r),
            final(self).limits() == old(self).limits(),
            old(self).operations <= final(self).operations,
            r is Ok ==> old(self).operations < final(self).operations <= final(self).max_operations,
        decreases old(self).max_operations - old(self).operations, 0nat,
    {
        match self.tick_op() {
            Ok(()) => {},
            Err(e) => {
                return Err(e);
            },
        }
        let ghost lim = self.limits();
        let ghost st1 = self.state();
        match stmt {
            Stmt::Let(name, _, e, _) => match self.eval_expr(e) {
                Ok(v) => {
                    let ghost before = self.state();
                    let ghost vv = value_view(v);
                    self.variables.insert(name.clone(), v);
                    assert(self.state().vars =~= before.vars.insert(name@, vv));
                    Ok(ComptimeValue::Unit)
                },
                Err(x) => Err(x),
            },
            Stmt::ExprStmt(e, _) => self.eval_expr(e),
            Stmt::Print(e, _) => match self.eval_expr(e) {
                Ok(v) => {
                    let ghost before = self.state();
                    let d = debug_value(&v);
                    self.printed.push(d);
                    assert(self.state().printed =~= before.printed.push(value_debug(value_view(v))));
                    Ok(ComptimeValue::Unit)
                },
                Err(x) => Err(x),
            },
            Stmt::Return(e, _) => self.eval_expr(e),
            Stmt::Fn { name, params, body, .. } => {
                let f = ComptimeFunction { params, body };
                self.functions.insert(name.clone(), f);
                assert(self.state().funs =~= st1.funs.insert(name@, (params@, body@)));
                Ok(ComptimeValue::Unit)
            },
            Stmt::If { cond, then_body, else_body, .. } => {
                let c = match self.eval_expr(cond) {
                    Ok(c) => c,
                    Err(x) => {
                        return Err(x);
                    },
                };
                let r = if is_truthy(&c) {
                    self.eval_block(then_body)
                } else {
                    self.eval_block(else_body)
                };
                match r {
                    Ok(_) => Ok(ComptimeValue::Unit),
                    Err(x) => Err(x),
                }
            },
            Stmt::Loop { .. } => Err(ComptimeError::Unsupported(String::from_str(
                "unbounded comptime loop; use a bounded while/for form until loop control is qualified"))),
            Stmt::While { cond, body, .. } => self.eval_while(cond, body),
            Stmt::For { var_name, iterable, body, .. } => {
                let it = match self.eval_expr(iterable) {
                    Ok(v) => v,
                    Err(x) => {
                        return Err(x);
                    },
                };
                match it {
                    ComptimeValue::Tuple(vals) => self.eval_for(var_name, &vals, body),
                    _ => Err(ComptimeError::TypeError(String::from_str("comptime for currently requires a tuple iterable"))),
                }
            },
            Stmt::Break(_) => Err(ComptimeError::Unsupported(String::from_str("comptime break is not yet supported"))),
            Stmt::Continue(_) => Err(ComptimeError::Unsupported(String::from_str("comptime continue is not yet supported"))),
            _ => {
                let mut m = String::from_str("statement ");
                let d = debug_stmt(stmt);
                push_str(&mut m, d.as_str());
                push_str(&mut m, " is not supported by the compile-time evaluator");
                Err(ComptimeError::Unsupported(m))
            },
        }
    }

    /// Evaluates an expression: it counts one operation, then computes.
    pub fn eval_expr(&mut self, expr: &'a Expr) -> (r: Result<ComptimeValue, ComptimeError>)
        requires
            old(self).max_operations < usize::MAX,
        ensures
            outcome_is(eval_expr(old(self).limits(), *expr, old(self).state()), *final(self), r),
            final(self).limits() == old(self).limits(),
            old(self).operations <= final(self).operations,
            r is Ok ==> old(self).operations < final(self).operations <= final(self).max_operations,
        decreases old(self).max_operations - old(self).operations, 0nat,
    {
        match self.tick_op() {
            Ok(()) => {},
            Err(e) => {
                return Err(e);
            },
        }
        match expr {
            Expr::Number(n, _) => Ok(ComptimeValue::Int(*n)),
            Expr::StringLit(t, _) => Ok(ComptimeValue::String(t.clone())),
            Expr::Bool(b, _) => Ok(ComptimeValue::Bool(*b)),
            Expr::Var(name, _) => match self.variables.get(name.as_str()) {
                Some(v) => Ok(copy_value(v)),
                None => Err(ComptimeError::UndefinedVariable(name.clone())),
            },
            Expr::Call(name, args, _) => self.eval_call(name.as_str(), args),
            Expr::BinaryOp { op, left, right, .. } => self.eval_binary_op(*op, left, right),
            Expr::UnaryOp { op, inner, .. } => match self.eval_expr(inner) {
                Ok(v) => self.eval_unary_op(*op, &v),
                Err(x) => Err(x),
            },
            Expr::FieldAccess { base, field, .. } => match self.eval_expr(base) {
                Ok(v) => field_exec(&v, field.as_str()),
                Err(x) => Err(x),
            },
            Expr::Tuple(es, _) => match self.eval_list(es) {
                Ok(vs) => Ok(ComptimeValue::Tuple(vs)),
                Err(x) => Err(x),
            },
            Expr::Match { expr: scrutinee, arms, .. } => match self.eval_expr(scrutinee) {
                Ok(v) => self.eval_arms(arms, &v),
                Err(x) => Err(x),
            },
            Expr::Block(stmts, _) => self.eval_block(stmts),
            _ => {
                let mut m = String::from_str("expression ");
                let d = debug_expr(expr);
                push_str(&mut m, d.as_str());
                push_str(&mut m, " is not supported by the compile-time evaluator");
                Err(ComptimeError::Unsupported(m))
            },
        }
    }

    fn eval_unary_op(&self, op: TokenKind, v: &ComptimeValue) -> (r: Result<ComptimeValue, ComptimeError>)
        ensures
            result_view(r) == unary_result(op, value_view(*v)),
    {
        match (op, v) {
            (TokenKind::Minus, ComptimeValue::Int(n)) => {
                if *n == i64::MIN {
                    Err(ComptimeError::ArithmeticOverflow("neg"))
                } else {
                    Ok(ComptimeValue::Int(-*n))
                }
            },
            (TokenKind::Bang, ComptimeValue::Bool(b)) => Ok(ComptimeValue::Bool(!*b)),
            _ => {
                let mut m = String::from_str("unary ");
                let d = debug_token(op);
                push_str(&mut m, d.as_str());
                Err(ComptimeError::InvalidOperation(m))
            },
        }
    }

    fn eval_list(&mut self, es: &'a Vec<Expr>) -> (r: Result<Vec<ComptimeValue>, ComptimeError>)
        requires
            old(self).max_operations < usize::MAX,
            old(self).operations <= old(self).max_operations,
        ensures
            final(self).state() == eval_list(old(self).limits(), es@, old(self).state(), seq![]).0,
            match eval_list(old(self).limits(), es@, old(self).state(), seq![]).1 {
                Ok(vs) => r matches Ok(x) && values_view(x@) == vs,
                Err(e) => r matches Err(x) && error_view(x) == e,
            },
            final(self).limits() == old(self).limits(),
            old(self).operations <= final(self).operations,
            r is Ok ==> final(self).operations <= final(self).max_operations,
        decreases old(self).max_operations - old(self).operations, 1nat,
    {
        let ghost lim = self.limits();
        let ghost st0 = self.state();
        let ghost ops0 = self.operations;
        let mut out: Vec<ComptimeValue> = Vec::new();
        let mut i: usize = 0;
        assert(es@.subrange(0, es@.len() as int) =~= es@);
        assert(values_view(out@) =~= Seq::<ValueView>::empty());
        while i < es.len()
            invariant
                i <= es@.len(),
                lim == self.limits(),
                lim == old(self).limits(),
                st0 == old(self).state(),
                self.max_operations < usize::MAX,
                self.max_operations == old(self).max_operations,
                ops0 == old(self).operations,
                ops0 <= self.operations <= self.max_operations,
                eval_list(lim, es@, st0, seq![]) == eval_list(lim, es@.subrange(i as int, es@.len() as int), self.state(), values_view(out@)),
            decreases es.len() - i,
        {
            let ghost rest = es@.subrange(i as int, es@.len() as int);
            assert(rest[0] == es@[i as int]);
            assert(rest.subrange(1, rest.len() as int) =~= es@.subrange(i + 1, es@.len() as int));
            match self.eval_expr(&es[i]) {
                Ok(v) => {
                    let ghost before = out@;
                    out.push(v);
                    assert(out@.drop_last() =~= before);
                },
                Err(x) => {
                    return Err(x);
                },
            }
            i = i + 1;
        }
        Ok(out)
    }

    fn eval_binary_op(&mut self, op: TokenKind, left: &'a Expr, right: &'a Expr) -> (r: Result<ComptimeValue, ComptimeError>)
        requires
            old(self).max_operations < usize::MAX,
            old(self).operations <= old(self).max_operations,
        ensures
            outcome_is(eval_binary(old(self).limits(), op, *left, *right, old(self).state()), *final(self), r),
            final(self).limits() == old(self).limits(),
            old(self).operations <= final(self).operations,
            r is Ok ==> final(self).operations <= final(self).max_operations,
        decreases old(self).max_operations - old(self).operations, 1nat,
    {
        let a = match self.eval_expr(left) {
            Ok(v) => v,
            Err(x) => {
                return Err(x);
            },
        };
        let b = match self.eval_expr(right) {
            Ok(v) => v,
            Err(x) => {
                return Err(x);
            },
        };
        binary_exec(op, &a, &b)
    }

    fn eval_call(&mut self, name: &str, args: &'a Vec<Expr>) -> (r: Result<ComptimeValue, ComptimeError>)
        requires
            old(self).max_operations < usize::MAX,
            old(self).operations <= old(self).max_operations,
        ensures
            outcome_is(eval_call(old(self).limits(), name@, args@, old(self).state()), *final(self), r),
            final(self).limits() == old(self).limits(),
            old(self).operations <= final(self).operations,
            r is Ok ==> final(self).operations <= final(self).max_operations,
        decreases old(self).max_operations - old(self).operations, 3nat,
    {
        let kind = builtin_kind_exec(name);
        if kind == 0 {
            return self.user_call(name, args);
        }
        if args.len() != 2 {
            return Err(ComptimeError::Arity { name: String::from_str(name), expected: 2, actual: args.len() });
        }
        let a = match self.eval_expr(&args[0]) {
            Ok(v) => v,
            Err(x) => {
                return Err(x);
            },
        };
        let b = match self.eval_expr(&args[1]) {
            Ok(v) => v,
            Err(x) => {
                return Err(x);
            },
        };
        match (&a, &b) {
            (ComptimeValue::Int(x), ComptimeValue::Int(y)) => arith_exec(kind, *x, *y),
            _ => self.user_call(name, args),
        }
    }

    fn user_call(&mut self, name: &str, args: &'a Vec<Expr>) -> (r: Result<ComptimeValue, ComptimeError>)
        requires
            old(self).max_operations < usize::MAX,
            old(self).operations <= old(self).max_operations,
        ensures
            outcome_is(user_call(old(self).limits(), name@, args@, old(self).state()), *final(self), r),
            final(self).limits() == old(self).limits(),
            old(self).operations <= final(self).operations,
            r is Ok ==> final(self).operations <= final(self).max_operations,
        decreases old(self).max_operations - old(self).operations, 2nat,
    {
        let f: ComptimeFunction<'a> = match self.functions.get(name) {
            Some(f) => *f,
            None => {
                let mut m = String::from_str("function '");
                push_str(&mut m, name);
                push_str(&mut m, "'");
                return Err(ComptimeError::UndefinedVariable(m));
            },
        };
        if args.len() != f.params.len() {
            return Err(ComptimeError::Arity { name: String::from_str(name), expected: f.params.len(), actual: args.len() });
        }
        let vals = match self.eval_list(args) {
            Ok(v) => v,
            Err(x) => {
                return Err(x);
            },
        };
        if self.current_depth >= self.recursion_limit {
            return Err(ComptimeError::RecursionLimit);
        }
        let ghost valsv = values_view(vals@);
        proof {
            lemma_values_view(vals@);
            lemma_eval_list_len(self.limits(), args@, old(self).state(), seq![]);
        }
        let mut binds: Vec<(String, ComptimeValue)> = Vec::new();
        let mut j: usize = 0;
        assert(f.params@.take(0) =~= Seq::<(String, Option<String>)>::empty());
        assert(binds_map(fields_view(binds@)) =~= params_map(f.params@.take(0), valsv));
        while j < f.params.len()
            invariant
                j <= f.params@.len(),
                f.params@.len() == vals@.len(),
                valsv == values_view(vals@),
                valsv.len() == vals@.len(),
                forall|q: int| 0 <= q < vals@.len() ==> #[trigger] valsv[q] == value_view(vals@[q]),
                binds_map(fields_view(binds@)) == params_map(f.params@.take(j as int), valsv),
            decreases f.params.len() - j,
        {
            let c = copy_value(&vals[j]);
            let ghost before = binds@;
            binds.push((f.params[j].0.clone(), c));
            proof {
                assert(binds@.drop_last() =~= before);
                assert(fields_view(binds@) == fields_view(before).push((f.params@[j as int].0@, valsv[j as int])));
                assert(fields_view(binds@).drop_last() =~= fields_view(before));
                assert(binds_map(fields_view(binds@)) == binds_map(fields_view(before)).insert(f.params@[j as int].0@, valsv[j as int]));
                let pt = f.params@.take(j + 1);
                assert(pt.drop_last() =~= f.params@.take(j as int));
                assert(pt.last() == f.params@[j as int]);
                assert(params_map(pt, valsv) == params_map(pt.drop_last(), valsv).insert(pt.last().0@, valsv[pt.len() - 1]));
                assert(binds_map(fields_view(binds@)) =~= params_map(f.params@.take(j + 1), valsv));
            }
            j = j + 1;
        }
        assert(f.params@.take(j as int) =~= f.params@);
        let mut local = self.nested_scope(binds, self.current_depth + 1);
        let r = local.eval_block(f.body);
        self.leave_scope(local);
        r
    }

    fn eval_arms(&mut self, arms: &'a Vec<MatchArm>, v: &ComptimeValue) -> (r: Result<ComptimeValue, ComptimeError>)
        requires
            old(self).max_operations < usize::MAX,
            old(self).operations <= old(self).max_operations,
        ensures
            outcome_is(eval_arms(old(self).limits(), arms@, value_view(*v), old(self).state()), *final(self), r),
            final(self).limits() == old(self).limits(),
            old(self).operations <= final(self).operations,
            r is Ok ==> final(self).operations <= final(self).max_operations,
        decreases old(self).max_operations - old(self).operations, 1nat,
    {
        let ghost lim = self.limits();
        let ghost st0 = self.state();
        let ghost ops0 = self.operations;
        let mut i: usize = 0;
        assert(arms@.subrange(0, arms@.len() as int) =~= arms@);
        while i < arms.len()
            invariant
                i <= arms@.len(),
                lim == self.limits(),
                lim == old(self).limits(),
                st0 == old(self).state(),
                self.max_operations < usize::MAX,
                self.max_operations == old(self).max_operations,
                ops0 == old(self).operations,
                ops0 <= self.operations <= self.max_operations,
                eval_arms(lim, arms@, value_view(*v), st0) == eval_arms(lim, arms@.subrange(i as int, arms@.len() as int), value_view(*v), self.state()),
            decreases arms.len() - i,
        {
            let ghost rest = arms@.subrange(i as int, arms@.len() as int);
            assert(rest[0] == arms@[i as int]);
            assert(rest.subrange(1, rest.len() as int) =~= arms@.subrange(i + 1, arms@.len() as int));
            let arm = &arms[i];
            match match_pattern(&arm.pattern, v) {
                None => {},
                Some(binds) => {
                    let mut local = self.nested_scope(binds, self.current_depth);
                    match &arm.guard {
                        None => {
                            let r = local.eval_expr(&arm.body);
                            self.leave_scope(local);
                            return r;
                        },
                        Some(g) => match local.eval_expr(g) {
                            Err(x) => {
                                self.leave_scope(local);
                                return Err(x);
                            },
                            Ok(gv) => {
                                if is_truthy(&gv) {
                                    let r = local.eval_expr(&arm.body);
                                    self.leave_scope(local);
                                    return r;
                                }
                                self.leave_scope(local);
                            },
                        },
                    }
                },
            }
            i = i + 1;
        }
        Err(ComptimeError::InvalidOperation(String::from_str("non-exhaustive match expression")))
    }

    fn eval_while(&mut self, cond: &'a Expr, body: &'a Vec<Stmt>) -> (r: Result<ComptimeValue, ComptimeError>)
        requires
            old(self).max_operations < usize::MAX,
            old(self).operations <= old(self).max_operations,
        ensures
            outcome_is(eval_while(old(self).limits(), *cond, body@, old(self).state()), *final(self), r),
            final(self).limits() == old(self).limits(),
            old(self).operations <= final(self).operations,
            r is Ok ==> final(self).operations <= final(self).max_operations,
        decreases old(self).max_operations - old(self).operations, 2nat,
    {
        let ghost lim = self.limits();
        let ghost st0 = self.state();
        let ghost ops0 = self.operations;
        loop
            invariant
                lim == self.limits(),
                lim == old(self).limits(),
                st0 == old(self).state(),
                self.max_operations < usize::MAX,
                self.max_operations == old(self).max_operations,
                ops0 == old(self).operations,
                ops0 <= self.operations <= self.max_operations,
                eval_while(lim, *cond, body@, st0) == eval_while(lim, *cond, body@, self.state()),
            decreases self.max_operations - self.operations,
        {
            let c = match self.eval_expr(cond) {
                Ok(c) => c,
                Err(x) => {
                    return Err(x);
                },
            };
            if !is_truthy(&c) {
                return Ok(ComptimeValue::Unit);
            }
            match self.eval_block(body) {
                Ok(_) => {},
                Err(x) => {
                    return Err(x);
                },
            }
        }
    }

    fn eval_for(&mut self, var: &String, vals: &Vec<ComptimeValue>, body: &'a Vec<Stmt>) -> (r: Result<ComptimeValue, ComptimeError>)
        requires
            old(self).max_operations < usize::MAX,
            old(self).operations <= old(self).max_operations,
        ensures
            outcome_is(eval_for(old(self).limits(), var@, values_view(vals@), body@, old(self).state()), *final(self), r),
            final(self).limits() == old(self).limits(),
            old(self).operations <= final(self).operations,
            r is Ok ==> final(self).operations <= final(self).max_operations,
        decreases old(self).max_operations - old(self).operations, 2nat,
    {
        let ghost lim = self.limits();
        let ghost st0 = self.state();
        let ghost ops0 = self.operations;
        let ghost vv = values_view(vals@);
        proof {
            lemma_values_view(vals@);
        }
        let mut i: usize = 0;
        assert(vv.subrange(0, vv.len() as int) =~= vv);
        while i < vals.len()
            invariant
                i <= vals@.len(),
                vv == values_view(vals@),
                vv.len() == vals@.len(),
                forall|q: int| 0 <= q < vals@.len() ==> #[trigger] vv[q] == value_view(vals@[q]),
                lim == self.limits(),
                lim == old(self).limits(),
                st0 == old(self).state(),
                self.max_operations < usize::MAX,
                self.max_operations == old(self).max_operations,
                ops0 == old(self).operations,
                ops0 <= self.operations <= self.max_operations,
                eval_for(lim, var@, vv, body@, st0) == eval_for(lim, var@, vv.subrange(i as int, vv.len() as int), body@, self.state()),
            decreases vals.len() - i,
        {
            let ghost rest = vv.subrange(i as int, vv.len() as int);
            assert(rest[0] == vv[i as int]);
            assert(rest.subrange(1, rest.len() as int) =~= vv.subrange(i + 1, vv.len() as int));
            let ghost before = self.state();
            let c = copy_value(&vals[i]);
            self.variables.insert(var.clone(), c);
            assert(self.state().vars =~= before.vars.insert(var@, vv[i as int]));
            match self.eval_block(body) {
                Ok(_) => {},
                Err(x) => {
                    return Err(x);
                },
            }
            i = i + 1;
        }
        Ok(ComptimeValue::Unit)
    }
}


/// Evaluates an expression in a new context (recursion limit 1000, budget
/// 100000 operations).
pub fn eval_comptime(expr: &Expr) -> (r: Result<ComptimeValue, ComptimeError>)
    ensures
        result_view(r) == eval_expr(default_limits(), *expr, fresh_state()).1,
{
    let mut ctx = ComptimeContext::new();
    ctx.eval_expr(expr)
}

/// Whether an expression evaluates without error in a new context.
pub fn is_comptime_known(expr: &Expr) -> (b: bool)
    ensures
        b == (eval_expr(default_limits(), *expr, fresh_state()).1 is Ok),
{
    eval_comptime(expr).is_ok()
}

} // verus!
