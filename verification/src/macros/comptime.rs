//! Compile-time evaluation of small expressions: integer and boolean
//! arithmetic, a few built-in functions, and blocks with `let`, all within an
//! operation budget.

use vstd::prelude::*;
use crate::strmap::StrMap;
use crate::text::{push_str, str_eq};

verus! {

// ---------------------------------------------------------------------------
// Types, values and expressions
// ---------------------------------------------------------------------------

/// A type as compile-time code sees it: a name, type parameters and fields.
#[derive(Debug)]
pub struct TypeInfo {
    pub name: String,
    pub params: Vec<TypeInfo>,
    pub fields: Vec<(String, TypeInfo)>,
}

/// A compile-time value.
#[derive(Debug)]
pub enum ComptimeValue {
    Unit,
    Int(i64),
    String(String),
    Bool(bool),
    List(Vec<ComptimeValue>),
    Tuple(Vec<ComptimeValue>),
    Type(TypeInfo),
}

/// A compile-time expression.
#[derive(Debug)]
pub enum ComptimeExpr {
    Int(i64),
    String(String),
    Bool(bool),
    BinOp(String, Box<ComptimeExpr>, Box<ComptimeExpr>),
    UnaryOp(String, Box<ComptimeExpr>),
    Call(String, Vec<ComptimeExpr>),
    Block(Vec<ComptimeStmt>),
    TypeOf(TypeInfo),
}

/// A statement of a compile-time block.
#[derive(Debug)]
pub enum ComptimeStmt {
    Let(String, ComptimeExpr),
    Expr(ComptimeExpr),
}

/// The abstract content of a `TypeInfo`.
pub enum TypeView {
    Info(Seq<char>, Seq<TypeView>, Seq<(Seq<char>, TypeView)>),
}

pub open spec fn type_view(t: TypeInfo) -> TypeView
    decreases t,
{
    TypeView::Info(t.name@, types_view(t.params@), fields_view(t.fields@))
}

pub open spec fn types_view(s: Seq<TypeInfo>) -> Seq<TypeView>
    decreases s,
{
    if s.len() == 0 { seq![] } else { types_view(s.drop_last()).push(type_view(s.last())) }
}

pub open spec fn fields_view(s: Seq<(String, TypeInfo)>) -> Seq<(Seq<char>, TypeView)>
    decreases s,
{
    if s.len() == 0 { seq![] } else { fields_view(s.drop_last()).push((s.last().0@, type_view(s.last().1))) }
}

/// The abstract content of a `ComptimeValue`.
pub enum ValueView {
    Unit,
    Int(i64),
    Str(Seq<char>),
    Bool(bool),
    List(Seq<ValueView>),
    Tuple(Seq<ValueView>),
    Type(TypeView),
}

pub open spec fn value_view(v: ComptimeValue) -> ValueView
    decreases v,
{
    match v {
        ComptimeValue::Unit => ValueView::Unit,
        ComptimeValue::Int(n) => ValueView::Int(n),
        ComptimeValue::String(s) => ValueView::Str(s@),
        ComptimeValue::Bool(b) => ValueView::Bool(b),
        ComptimeValue::List(vs) => ValueView::List(values_view(vs@)),
        ComptimeValue::Tuple(vs) => ValueView::Tuple(values_view(vs@)),
        ComptimeValue::Type(t) => ValueView::Type(type_view(t)),
    }
}

pub open spec fn values_view(s: Seq<ComptimeValue>) -> Seq<ValueView>
    decreases s,
{
    if s.len() == 0 { seq![] } else { values_view(s.drop_last()).push(value_view(s.last())) }
}

pub proof fn lemma_types_view(s: Seq<TypeInfo>)
    ensures
        types_view(s).len() == s.len(),
        forall|i: int| 0 <= i < s.len() ==> #[trigger] types_view(s)[i] == type_view(s[i]),
    decreases s.len(),
{
    if s.len() > 0 {
        lemma_types_view(s.drop_last());
    }
}

pub proof fn lemma_fields_view(s: Seq<(String, TypeInfo)>)
    ensures
        fields_view(s).len() == s.len(),
        forall|i: int| 0 <= i < s.len() ==> #[trigger] fields_view(s)[i] == (s[i].0@, type_view(s[i].1)),
    decreases s.len(),
{
    if s.len() > 0 {
        lemma_fields_view(s.drop_last());
    }
}

pub proof fn lemma_values_view(s: Seq<ComptimeValue>)
    ensures
        values_view(s).len() == s.len(),
        forall|i: int| 0 <= i < s.len() ==> #[trigger] values_view(s)[i] == value_view(s[i]),
    decreases s.len(),
{
    if s.len() > 0 {
        lemma_values_view(s.drop_last());
    }
}

// ---------------------------------------------------------------------------
// Copies and equality
// ---------------------------------------------------------------------------

/// A deep copy of a type.
pub fn copy_type(t: &TypeInfo) -> (r: TypeInfo)
    ensures
        type_view(r) == type_view(*t),
    decreases t,
{
    TypeInfo { name: t.name.clone(), params: copy_types(&t.params), fields: copy_type_fields(&t.fields) }
}

fn copy_types(v: &Vec<TypeInfo>) -> (r: Vec<TypeInfo>)
    ensures
        types_view(r@) == types_view(v@),
    decreases v,
{
    let mut out: Vec<TypeInfo> = Vec::new();
    let mut i: usize = 0;
    while i < v.len()
        invariant
            i <= v@.len(),
            out@.len() == i,
            forall|q: int| 0 <= q < i ==> type_view(#[trigger] out@[q]) == type_view(v@[q]),
        decreases v.len() - i,
    {
        let c = copy_type(&v[i]);
        out.push(c);
        i = i + 1;
    }
    proof {
        lemma_types_view(out@);
        lemma_types_view(v@);
        assert(types_view(out@) =~= types_view(v@));
    }
    out
}

fn copy_type_fields(v: &Vec<(String, TypeInfo)>) -> (r: Vec<(String, TypeInfo)>)
    ensures
        fields_view(r@) == fields_view(v@),
    decreases v,
{
    let mut out: Vec<(String, TypeInfo)> = Vec::new();
    let mut i: usize = 0;
    while i < v.len()
        invariant
            i <= v@.len(),
            out@.len() == i,
            forall|q: int| 0 <= q < i ==> (#[trigger] out@[q]).0@ == v@[q].0@ && type_view(out@[q].1) == type_view(v@[q].1),
        decreases v.len() - i,
    {
        let c = copy_type(&v[i].1);
        out.push((v[i].0.clone(), c));
        i = i + 1;
    }
    proof {
        lemma_fields_view(out@);
        lemma_fields_view(v@);
        assert(fields_view(out@) =~= fields_view(v@));
    }
    out
}

/// A deep copy of a value.
pub fn copy_value(v: &ComptimeValue) -> (r: ComptimeValue)
    ensures
        value_view(r) == value_view(*v),
    decreases v,
{
    match v {
        ComptimeValue::Unit => ComptimeValue::Unit,
        ComptimeValue::Int(n) => ComptimeValue::Int(*n),
        ComptimeValue::String(s) => ComptimeValue::String(s.clone()),
        ComptimeValue::Bool(b) => ComptimeValue::Bool(*b),
        ComptimeValue::List(vs) => ComptimeValue::List(copy_values(vs)),
        ComptimeValue::Tuple(vs) => ComptimeValue::Tuple(copy_values(vs)),
        ComptimeValue::Type(t) => ComptimeValue::Type(copy_type(t)),
    }
}

fn copy_values(v: &Vec<ComptimeValue>) -> (r: Vec<ComptimeValue>)
    ensures
        values_view(r@) == values_view(v@),
    decreases v,
{
    let mut out: Vec<ComptimeValue> = Vec::new();
    let mut i: usize = 0;
    while i < v.len()
        invariant
            i <= v@.len(),
            out@.len() == i,
            forall|q: int| 0 <= q < i ==> value_view(#[trigger] out@[q]) == value_view(v@[q]),
        decreases v.len() - i,
    {
        let c = copy_value(&v[i]);
        out.push(c);
        i = i + 1;
    }
    proof {
        lemma_values_view(out@);
        lemma_values_view(v@);
        assert(values_view(out@) =~= values_view(v@));
    }
    out
}

/// Whether two types are equal in every part.
pub fn types_equal(a: &TypeInfo, b: &TypeInfo) -> (r: bool)
    ensures
        r == (type_view(*a) == type_view(*b)),
    decreases a,
{
    if !str_eq(a.name.as_str(), b.name.as_str()) {
        return false;
    }
    if !type_lists_equal(&a.params, &b.params) {
        return false;
    }
    type_fields_equal(&a.fields, &b.fields)
}

fn type_lists_equal(a: &Vec<TypeInfo>, b: &Vec<TypeInfo>) -> (r: bool)
    ensures
        r == (types_view(a@) == types_view(b@)),
    decreases a,
{
    proof {
        lemma_types_view(a@);
        lemma_types_view(b@);
    }
    if a.len() != b.len() {
        return false;
    }
    let mut i: usize = 0;
    while i < a.len()
        invariant
            i <= a@.len(),
            a@.len() == b@.len(),
            types_view(a@).len() == a@.len(),
            types_view(b@).len() == b@.len(),
            forall|q: int| 0 <= q < a@.len() ==> #[trigger] types_view(a@)[q] == type_view(a@[q]),
            forall|q: int| 0 <= q < b@.len() ==> #[trigger] types_view(b@)[q] == type_view(b@[q]),
            forall|q: int| 0 <= q < i ==> type_view(#[trigger] a@[q]) == type_view(b@[q]),
        decreases a.len() - i,
    {
        if !types_equal(&a[i], &b[i]) {
            assert(types_view(a@)[i as int] != types_view(b@)[i as int]);
            return false;
        }
        i = i + 1;
    }
    assert(types_view(a@) =~= types_view(b@));
    true
}

fn type_fields_equal(a: &Vec<(String, TypeInfo)>, b: &Vec<(String, TypeInfo)>) -> (r: bool)
    ensures
        r == (fields_view(a@) == fields_view(b@)),
    decreases a,
{
    proof {
        lemma_fields_view(a@);
        lemma_fields_view(b@);
    }
    if a.len() != b.len() {
        return false;
    }
    let mut i: usize = 0;
    while i < a.len()
        invariant
            i <= a@.len(),
            a@.len() == b@.len(),
            fields_view(a@).len() == a@.len(),
            fields_view(b@).len() == b@.len(),
            forall|q: int| 0 <= q < a@.len() ==> #[trigger] fields_view(a@)[q] == (a@[q].0@, type_view(a@[q].1)),
            forall|q: int| 0 <= q < b@.len() ==> #[trigger] fields_view(b@)[q] == (b@[q].0@, type_view(b@[q].1)),
            forall|q: int| 0 <= q < i ==> (#[trigger] a@[q]).0@ == b@[q].0@ && type_view(a@[q].1) == type_view(b@[q].1),
        decreases a.len() - i,
    {
        if !str_eq(a[i].0.as_str(), b[i].0.as_str()) || !types_equal(&a[i].1, &b[i].1) {
            assert(fields_view(a@)[i as int] != fields_view(b@)[i as int]);
            return false;
        }
        i = i + 1;
    }
    assert(fields_view(a@) =~= fields_view(b@));
    true
}

/// Whether two values are equal in every part.
pub fn values_equal(a: &ComptimeValue, b: &ComptimeValue) -> (r: bool)
    ensures
        r == (value_view(*a) == value_view(*b)),
    decreases a,
{
    match (a, b) {
        (ComptimeValue::Unit, ComptimeValue::Unit) => true,
        (ComptimeValue::Int(x), ComptimeValue::Int(y)) => *x == *y,
        (ComptimeValue::String(x), ComptimeValue::String(y)) => str_eq(x.as_str(), y.as_str()),
        (ComptimeValue::Bool(x), ComptimeValue::Bool(y)) => *x == *y,
        (ComptimeValue::List(x), ComptimeValue::List(y)) => value_lists_equal(x, y),
        (ComptimeValue::Tuple(x), ComptimeValue::Tuple(y)) => value_lists_equal(x, y),
        (ComptimeValue::Type(x), ComptimeValue::Type(y)) => types_equal(x, y),
        _ => false,
    }
}

fn value_lists_equal(a: &Vec<ComptimeValue>, b: &Vec<ComptimeValue>) -> (r: bool)
    ensures
        r == (values_view(a@) == values_view(b@)),
    decreases a,
{
    proof {
        lemma_values_view(a@);
        lemma_values_view(b@);
    }
    if a.len() != b.len() {
        return false;
    }
    let mut i: usize = 0;
    while i < a.len()
        invariant
            i <= a@.len(),
            a@.len() == b@.len(),
            values_view(a@).len() == a@.len(),
            values_view(b@).len() == b@.len(),
            forall|q: int| 0 <= q < a@.len() ==> #[trigger] values_view(a@)[q] == value_view(a@[q]),
            forall|q: int| 0 <= q < b@.len() ==> #[trigger] values_view(b@)[q] == value_view(b@[q]),
            forall|q: int| 0 <= q < i ==> value_view(#[trigger] a@[q]) == value_view(b@[q]),
        decreases a.len() - i,
    {
        if !values_equal(&a[i], &b[i]) {
            assert(values_view(a@)[i as int] != values_view(b@)[i as int]);
            return false;
        }
        i = i + 1;
    }
    assert(values_view(a@) =~= values_view(b@));
    true
}

/// What std's `format!("{:?}", v)` writes for a value (its derived `Debug`).
pub uninterp spec fn value_debug(v: ValueView) -> Seq<char>;

/// std's `format!("{:?}", v)` for a compile-time value. Claimed: a function
/// of the value's content alone, named `value_debug`; its text is not stated.
#[verifier::external_body]
fn debug_value(v: &ComptimeValue) -> (r: String)
    ensures
        r@ == value_debug(value_view(*v)),
{
    format!("{:?}", v)
}


// ---------------------------------------------------------------------------
// Evaluation, in the abstract
// ---------------------------------------------------------------------------

/// What evaluation changes: the operations used so far and the bindings made
/// by `let`.
pub struct EvalState {
    pub ops: nat,
    pub env: Map<Seq<char>, ValueView>,
}

/// The state after an evaluation and its value or error.
pub type Outcome = (EvalState, Result<ValueView, Seq<char>>);

/// Counting one operation against `budget`: the new state, and the error
/// when the counter would overflow (nothing counted) or the budget is
/// exceeded (the operation counted).
pub open spec fn tick(budget: nat, st: EvalState) -> (EvalState, Option<Seq<char>>) {
    if st.ops + 1 > usize::MAX {
        (st, Some("Comptime operation counter overflow"@))
    } else {
        let s2 = EvalState { ops: st.ops + 1, env: st.env };
        if st.ops + 1 > budget { (s2, Some("Comptime operation budget exceeded"@)) } else { (s2, None) }
    }
}

/// A binary operator applied to two values.
pub open spec fn bin_op_result(op: Seq<char>, a: ValueView, b: ValueView) -> Result<ValueView, Seq<char>> {
    let invalid = Err("Invalid binary operation: "@ + op + " "@ + value_debug(a) + " "@ + value_debug(b));
    if op == "=="@ {
        Ok(ValueView::Bool(a == b))
    } else if op == "!="@ {
        Ok(ValueView::Bool(a != b))
    } else {
        match (a, b) {
            (ValueView::Int(x), ValueView::Int(y)) => {
                if op == "+"@ {
                    match x.checked_add(y) { Some(r) => Ok(ValueView::Int(r)), None => Err("comptime integer addition overflow"@) }
                } else if op == "-"@ {
                    match x.checked_sub(y) { Some(r) => Ok(ValueView::Int(r)), None => Err("comptime integer subtraction overflow"@) }
                } else if op == "*"@ {
                    match x.checked_mul(y) { Some(r) => Ok(ValueView::Int(r)), None => Err("comptime integer multiplication overflow"@) }
                } else if op == "/"@ {
                    match x.checked_div(y) { Some(r) => Ok(ValueView::Int(r)), None => Err("comptime integer division fault"@) }
                } else if op == "%"@ {
                    match x.checked_rem(y) { Some(r) => Ok(ValueView::Int(r)), None => Err("comptime integer remainder fault"@) }
                } else if op == "<"@ {
                    Ok(ValueView::Bool(x < y))
                } else if op == ">"@ {
                    Ok(ValueView::Bool(x > y))
                } else if op == "<="@ {
                    Ok(ValueView::Bool(x <= y))
                } else if op == ">="@ {
                    Ok(ValueView::Bool(x >= y))
                } else {
                    invalid
                }
            },
            (ValueView::Bool(x), ValueView::Bool(y)) => {
                if op == "&&"@ {
                    Ok(ValueView::Bool(x && y))
                } else if op == "||"@ {
                    Ok(ValueView::Bool(x || y))
                } else {
                    invalid
                }
            },
            _ => invalid,
        }
    }
}

/// The operators of macro-time evaluation: `&&` is true exactly when both
/// booleans are, `||` exactly when either is; the comparisons of integers
/// are true exactly when the relation holds, `<=` of equal integers
/// included; `==` and `!=` tell whether two values are the same; `+`, `-`
/// and `*` give the exact result whenever it fits in 64 bits.
pub proof fn law_macro_operators(x: bool, y: bool, a: i64, b: i64, u: ValueView, v: ValueView)
    ensures
        bin_op_result("&&"@, ValueView::Bool(x), ValueView::Bool(y)) == Ok::<ValueView, Seq<char>>(ValueView::Bool(x && y)),
        bin_op_result("||"@, ValueView::Bool(x), ValueView::Bool(y)) == Ok::<ValueView, Seq<char>>(ValueView::Bool(x || y)),
        bin_op_result("<"@, ValueView::Int(a), ValueView::Int(b)) == Ok::<ValueView, Seq<char>>(ValueView::Bool(a < b)),
        bin_op_result("<="@, ValueView::Int(a), ValueView::Int(b)) == Ok::<ValueView, Seq<char>>(ValueView::Bool(a <= b)),
        bin_op_result(">"@, ValueView::Int(a), ValueView::Int(b)) == Ok::<ValueView, Seq<char>>(ValueView::Bool(a > b)),
        bin_op_result(">="@, ValueView::Int(a), ValueView::Int(b)) == Ok::<ValueView, Seq<char>>(ValueView::Bool(a >= b)),
        bin_op_result("=="@, u, v) == Ok::<ValueView, Seq<char>>(ValueView::Bool(u == v)),
        bin_op_result("!="@, u, v) == Ok::<ValueView, Seq<char>>(ValueView::Bool(u != v)),
        i64::MIN <= a + b <= i64::MAX ==> bin_op_result("+"@, ValueView::Int(a), ValueView::Int(b)) == Ok::<ValueView, Seq<char>>(ValueView::Int((a + b) as i64)),
        i64::MIN <= a - b <= i64::MAX ==> bin_op_result("-"@, ValueView::Int(a), ValueView::Int(b)) == Ok::<ValueView, Seq<char>>(ValueView::Int((a - b) as i64)),
        i64::MIN <= a * b <= i64::MAX ==> bin_op_result("*"@, ValueView::Int(a), ValueView::Int(b)) == Ok::<ValueView, Seq<char>>(ValueView::Int((a * b) as i64)),
{
    reveal_strlit("==");
    reveal_strlit("!=");
    reveal_strlit("+");
    reveal_strlit("-");
    reveal_strlit("*");
    reveal_strlit("/");
    reveal_strlit("%");
    reveal_strlit("<");
    reveal_strlit(">");
    reveal_strlit("<=");
    reveal_strlit(">=");
    reveal_strlit("&&");
    reveal_strlit("||");
    assert("&&"@[0] != "=="@[0]);
    assert("&&"@[0] != "!="@[0]);
    assert("&&"@.len() != "+"@.len());
    assert("&&"@.len() != "-"@.len());
    assert("&&"@.len() != "*"@.len());
    assert("&&"@.len() != "/"@.len());
    assert("&&"@.len() != "%"@.len());
    assert("&&"@.len() != "<"@.len());
    assert("&&"@.len() != ">"@.len());
    assert("&&"@[0] != "<="@[0]);
    assert("&&"@[0] != ">="@[0]);
    assert("||"@[0] != "=="@[0]);
    assert("||"@[0] != "!="@[0]);
    assert("||"@.len() != "+"@.len());
    assert("||"@.len() != "-"@.len());
    assert("||"@.len() != "*"@.len());
    assert("||"@.len() != "/"@.len());
    assert("||"@.len() != "%"@.len());
    assert("||"@.len() != "<"@.len());
    assert("||"@.len() != ">"@.len());
    assert("||"@[0] != "<="@[0]);
    assert("||"@[0] != ">="@[0]);
    assert("||"@[0] != "&&"@[0]);
    assert("<"@.len() != "=="@.len());
    assert("<"@.len() != "!="@.len());
    assert("<"@[0] != "+"@[0]);
    assert("<"@[0] != "-"@[0]);
    assert("<"@[0] != "*"@[0]);
    assert("<"@[0] != "/"@[0]);
    assert("<"@[0] != "%"@[0]);
    assert("<="@[0] != "=="@[0]);
    assert("<="@[0] != "!="@[0]);
    assert("<="@.len() != "+"@.len());
    assert("<="@.len() != "-"@.len());
    assert("<="@.len() != "*"@.len());
    assert("<="@.len() != "/"@.len());
    assert("<="@.len() != "%"@.len());
    assert("<="@.len() != "<"@.len());
    assert("<="@.len() != ">"@.len());
    assert(">"@.len() != "=="@.len());
    assert(">"@.len() != "!="@.len());
    assert(">"@[0] != "+"@[0]);
    assert(">"@[0] != "-"@[0]);
    assert(">"@[0] != "*"@[0]);
    assert(">"@[0] != "/"@[0]);
    assert(">"@[0] != "%"@[0]);
    assert(">"@[0] != "<"@[0]);
    assert(">="@[0] != "=="@[0]);
    assert(">="@[0] != "!="@[0]);
    assert(">="@.len() != "+"@.len());
    assert(">="@.len() != "-"@.len());
    assert(">="@.len() != "*"@.len());
    assert(">="@.len() != "/"@.len());
    assert(">="@.len() != "%"@.len());
    assert(">="@.len() != "<"@.len());
    assert(">="@.len() != ">"@.len());
    assert(">="@[0] != "<="@[0]);
    assert("+"@.len() != "=="@.len());
    assert("+"@.len() != "!="@.len());
    assert("-"@.len() != "=="@.len());
    assert("-"@.len() != "!="@.len());
    assert("-"@[0] != "+"@[0]);
    assert("*"@.len() != "=="@.len());
    assert("*"@.len() != "!="@.len());
    assert("*"@[0] != "+"@[0]);
    assert("*"@[0] != "-"@[0]);
}

/// A unary operator applied to a value.
pub open spec fn unary_op_result(op: Seq<char>, a: ValueView) -> Result<ValueView, Seq<char>> {
    match a {
        ValueView::Int(n) if op == "-"@ => {
            if n == i64::MIN { Err("comptime integer negation overflow"@) } else { Ok(ValueView::Int((-n) as i64)) }
        },
        ValueView::Bool(b) if op == "!"@ => Ok(ValueView::Bool(!b)),
        _ => Err("Invalid unary operation: "@ + op + " "@ + value_debug(a)),
    }
}

/// The size in bytes of a scalar type, by name.
pub open spec fn size_of_type(name: Seq<char>) -> Result<nat, Seq<char>> {
    if name == "i8"@ || name == "u8"@ {
        Ok(1)
    } else if name == "i16"@ || name == "u16"@ {
        Ok(2)
    } else if name == "i32"@ || name == "u32"@ || name == "f32"@ {
        Ok(4)
    } else if name == "i64"@ || name == "u64"@ || name == "f64"@ {
        Ok(8)
    } else {
        Err("sizeof is not qualified for type '"@ + name + "' before the aggregate/layout milestone"@)
    }
}

pub open spec fn named_type(name: Seq<char>) -> TypeView {
    TypeView::Info(name, seq![], seq![])
}

/// The type of a value.
pub open spec fn type_of(v: ValueView) -> TypeView {
    match v {
        ValueView::Unit => named_type("Unit"@),
        ValueView::Int(_) => named_type("i64"@),
        ValueView::Str(_) => named_type("String"@),
        ValueView::Bool(_) => named_type("bool"@),
        ValueView::List(_) => named_type("Vec"@),
        ValueView::Tuple(_) => named_type("Tuple"@),
        ValueView::Type(t) => t,
    }
}

/// Evaluating `e` from `st` with an operation budget of `budget`: every
/// expression counts one operation before it is evaluated.
pub open spec fn eval_expr(budget: nat, e: ComptimeExpr, st: EvalState) -> Outcome
    decreases e,
{
    let t = tick(budget, st);
    match t.1 {
        Some(m) => (t.0, Err(m)),
        None => {
            let s1 = t.0;
            match e {
                ComptimeExpr::Int(n) => (s1, Ok(ValueView::Int(n))),
                ComptimeExpr::String(s) => (s1, Ok(ValueView::Str(s@))),
                ComptimeExpr::Bool(b) => (s1, Ok(ValueView::Bool(b))),
                ComptimeExpr::BinOp(op, a, b) => {
                    let ra = eval_expr(budget, *a, s1);
                    match ra.1 {
                        Err(m) => (ra.0, Err(m)),
                        Ok(av) => {
                            let rb = eval_expr(budget, *b, ra.0);
                            match rb.1 {
                                Err(m) => (rb.0, Err(m)),
                                Ok(bv) => (rb.0, bin_op_result(op@, av, bv)),
                            }
                        },
                    }
                },
                ComptimeExpr::UnaryOp(op, a) => {
                    let ra = eval_expr(budget, *a, s1);
                    match ra.1 {
                        Err(m) => (ra.0, Err(m)),
                        Ok(av) => (ra.0, unary_op_result(op@, av)),
                    }
                },
                ComptimeExpr::Call(name, args) => eval_call(budget, name@, args@, s1),
                ComptimeExpr::Block(stmts) => eval_stmts(budget, stmts@, s1, ValueView::Unit),
                ComptimeExpr::TypeOf(t) => (s1, Ok(ValueView::Type(type_view(t)))),
            }
        },
    }
}

/// A call of a built-in function, after its own operation was counted:
/// `sizeof` of a type (its argument is not evaluated), `typeof` and
/// `stringify` of the value of their first argument.
pub open spec fn eval_call(budget: nat, name: Seq<char>, args: Seq<ComptimeExpr>, s1: EvalState) -> Outcome
    decreases args,
{
    if name == "sizeof"@ {
        if args.len() > 0 && args[0] is TypeOf {
            match size_of_type(args[0]->TypeOf_0.name@) {
                Ok(n) => (s1, Ok(ValueView::Int(n as i64))),
                Err(m) => (s1, Err(m)),
            }
        } else {
            (s1, Err("sizeof requires a type"@))
        }
    } else if name == "typeof"@ || name == "stringify"@ {
        if args.len() > 0 {
            let r = eval_expr(budget, args[0], s1);
            match r.1 {
                Err(m) => (r.0, Err(m)),
                Ok(v) => (r.0, Ok(if name == "typeof"@ { ValueView::Type(type_of(v)) } else { ValueView::Str(value_debug(v)) })),
            }
        } else {
            (s1, Err(if name == "typeof"@ { "typeof requires an expression"@ } else { "stringify requires an expression"@ }))
        }
    } else {
        (s1, Err("Unknown comptime function: "@ + name))
    }
}

/// Evaluating statements in order; the value of a block is that of its last
/// statement (`Unit` for none), and the first error stops it.
pub open spec fn eval_stmts(budget: nat, ss: Seq<ComptimeStmt>, st: EvalState, last: ValueView) -> Outcome
    decreases ss,
{
    if ss.len() == 0 {
        (st, Ok(last))
    } else {
        let r = eval_stmt(budget, ss[0], st);
        match r.1 {
            Err(m) => (r.0, Err(m)),
            Ok(v) => eval_stmts(budget, ss.subrange(1, ss.len() as int), r.0, v),
        }
    }
}

/// A `let` binds its value and is worth `Unit`; an expression statement is
/// worth its value.
pub open spec fn eval_stmt(budget: nat, s: ComptimeStmt, st: EvalState) -> Outcome
    decreases s,
{
    match s {
        ComptimeStmt::Let(name, ex) => {
            let r = eval_expr(budget, ex, st);
            match r.1 {
                Ok(v) => (EvalState { ops: r.0.ops, env: r.0.env.insert(name@, v) }, Ok(ValueView::Unit)),
                Err(m) => (r.0, Err(m)),
            }
        },
        ComptimeStmt::Expr(ex) => eval_expr(budget, ex, st),
    }
}

// ---------------------------------------------------------------------------
// The evaluator
// ---------------------------------------------------------------------------

/// The evaluation context: the operation budget and how much of it is used,
/// the bindings made so far, and the nesting depth.
pub struct ComptimeContext {
    pub ops_budget: usize,
    pub ops_used: usize,
    pub env: StrMap<ComptimeValue>,
    pub depth: usize,
}

pub open spec fn env_view(m: Map<Seq<char>, ComptimeValue>) -> Map<Seq<char>, ValueView> {
    m.map_values(|v: ComptimeValue| value_view(v))
}

/// The outcome `r` of a call that left `ctx` behind, as `o` describes it.
pub open spec fn outcome_is(o: Outcome, ctx: ComptimeContext, r: Result<ComptimeValue, String>) -> bool {
    &&& ctx.state() == o.0
    &&& match o.1 {
        Ok(v) => r matches Ok(x) && value_view(x) == v,
        Err(m) => r matches Err(e) && e@ == m,
    }
}

impl ComptimeContext {
    /// The part of the context that evaluation changes.
    pub open spec fn state(&self) -> EvalState {
        EvalState { ops: self.ops_used as nat, env: env_view(self.env@) }
    }

    /// A context with no bindings and nothing used of `ops_budget`.
    pub fn new(ops_budget: usize) -> (c: Self)
        ensures
            c.ops_budget == ops_budget,
            c.ops_used == 0,
            c.env@ == Map::<Seq<char>, ComptimeValue>::empty(),
            c.depth == 0,
    {
        ComptimeContext { depth: 0, ops_budget, ops_used: 0, env: StrMap::new() }
    }

    /// Counts one operation.
    pub fn alloc_op(&mut self) -> (r: Result<(), String>)
        ensures
            final(self).state() == tick(old(self).ops_budget as nat, old(self).state()).0,
            final(self).ops_budget == old(self).ops_budget,
            final(self).depth == old(self).depth,
            match tick(old(self).ops_budget as nat, old(self).state()).1 {
                Some(m) => r matches Err(e) && e@ == m,
                None => r is Ok,
            },
    {
        if self.ops_used == usize::MAX {
            return Err(String::from_str("Comptime operation counter overflow"));
        }
        self.ops_used = self.ops_used + 1;
        if self.ops_used > self.ops_budget {
            Err(String::from_str("Comptime operation budget exceeded"))
        } else {
            Ok(())
        }
    }

    /// Evaluates `expr`.
    pub fn eval(&mut self, expr: &ComptimeExpr) -> (r: Result<ComptimeValue, String>)
        ensures
            outcome_is(eval_expr(old(self).ops_budget as nat, *expr, old(self).state()), *final(self), r),
            final(self).ops_budget == old(self).ops_budget,
            final(self).depth == old(self).depth,
        decreases expr,
    {
        let ghost budget = self.ops_budget as nat;
        match self.alloc_op() {
            Err(e) => return Err(e),
            Ok(()) => {},
        }
        match expr {
            ComptimeExpr::Int(n) => Ok(ComptimeValue::Int(*n)),
            ComptimeExpr::String(s) => Ok(ComptimeValue::String(s.clone())),
            ComptimeExpr::Bool(b) => Ok(ComptimeValue::Bool(*b)),
            ComptimeExpr::BinOp(op, a, b) => {
                let av = match self.eval(a) {
                    Ok(v) => v,
                    Err(e) => return Err(e),
                };
                let bv = match self.eval(b) {
                    Ok(v) => v,
                    Err(e) => return Err(e),
                };
                self.bin_op(op.as_str(), &av, &bv)
            },
            ComptimeExpr::UnaryOp(op, a) => {
                let av = match self.eval(a) {
                    Ok(v) => v,
                    Err(e) => return Err(e),
                };
                self.unary_op(op.as_str(), &av)
            },
            ComptimeExpr::Call(name, args) => self.call(name.as_str(), args),
            ComptimeExpr::Block(stmts) => self.eval_block(stmts),
            ComptimeExpr::TypeOf(t) => Ok(ComptimeValue::Type(copy_type(t))),
        }
    }

    fn bin_op(&mut self, op: &str, a: &ComptimeValue, b: &ComptimeValue) -> (r: Result<ComptimeValue, String>)
        ensures
            *final(self) == *old(self),
            match bin_op_result(op@, value_view(*a), value_view(*b)) {
                Ok(v) => r matches Ok(x) && value_view(x) == v,
                Err(m) => r matches Err(e) && e@ == m,
            },
    {
        if str_eq(op, "==") {
            return Ok(ComptimeValue::Bool(values_equal(a, b)));
        }
        if str_eq(op, "!=") {
            return Ok(ComptimeValue::Bool(!values_equal(a, b)));
        }
        match (a, b) {
            (ComptimeValue::Int(x), ComptimeValue::Int(y)) => {
                if str_eq(op, "+") {
                    return match x.checked_add(*y) {
                        Some(r) => Ok(ComptimeValue::Int(r)),
                        None => Err(String::from_str("comptime integer addition overflow")),
                    };
                } else if str_eq(op, "-") {
                    return match x.checked_sub(*y) {
                        Some(r) => Ok(ComptimeValue::Int(r)),
                        None => Err(String::from_str("comptime integer subtraction overflow")),
                    };
                } else if str_eq(op, "*") {
                    return match x.checked_mul(*y) {
                        Some(r) => Ok(ComptimeValue::Int(r)),
                        None => Err(String::from_str("comptime integer multiplication overflow")),
                    };
                } else if str_eq(op, "/") {
                    return match x.checked_div(*y) {
                        Some(r) => Ok(ComptimeValue::Int(r)),
                        None => Err(String::from_str("comptime integer division fault")),
                    };
                } else if str_eq(op, "%") {
                    return match x.checked_rem(*y) {
                        Some(r) => Ok(ComptimeValue::Int(r)),
                        None => Err(String::from_str("comptime integer remainder fault")),
                    };
                } else if str_eq(op, "<") {
                    return Ok(ComptimeValue::Bool(*x < *y));
                } else if str_eq(op, ">") {
                    return Ok(ComptimeValue::Bool(*x > *y));
                } else if str_eq(op, "<=") {
                    return Ok(ComptimeValue::Bool(*x <= *y));
                } else if str_eq(op, ">=") {
                    return Ok(ComptimeValue::Bool(*x >= *y));
                }
            },
            (ComptimeValue::Bool(x), ComptimeValue::Bool(y)) => {
                if str_eq(op, "&&") {
                    return Ok(ComptimeValue::Bool(*x && *y));
                } else if str_eq(op, "||") {
                    return Ok(ComptimeValue::Bool(*x || *y));
                }
            },
            _ => {},
        }
        let mut msg = String::from_str("Invalid binary operation: ");
        push_str(&mut msg, op);
        push_str(&mut msg, " ");
        let da = debug_value(a);
        push_str(&mut msg, da.as_str());
        push_str(&mut msg, " ");
        let db = debug_value(b);
        push_str(&mut msg, db.as_str());
        Err(msg)
    }

    fn unary_op(&mut self, op: &str, a: &ComptimeValue) -> (r: Result<ComptimeValue, String>)
        ensures
            *final(self) == *old(self),
            match unary_op_result(op@, value_view(*a)) {
                Ok(v) => r matches Ok(x) && value_view(x) == v,
                Err(m) => r matches Err(e) && e@ == m,
            },
    {
        match a {
            ComptimeValue::Int(n) => {
                if str_eq(op, "-") {
                    if *n == i64::MIN {
                        return Err(String::from_str("comptime integer negation overflow"));
                    }
                    return Ok(ComptimeValue::Int(-*n));
                }
            },
            ComptimeValue::Bool(b) => {
                if str_eq(op, "!") {
                    return Ok(ComptimeValue::Bool(!*b));
                }
            },
            _ => {},
        }
        let mut msg = String::from_str("Invalid unary operation: ");
        push_str(&mut msg, op);
        push_str(&mut msg, " ");
        let da = debug_value(a);
        push_str(&mut msg, da.as_str());
        Err(msg)
    }

    fn call(&mut self, name: &str, args: &Vec<ComptimeExpr>) -> (r: Result<ComptimeValue, String>)
        ensures
            outcome_is(eval_call(old(self).ops_budget as nat, name@, args@, old(self).state()), *final(self), r),
            final(self).ops_budget == old(self).ops_budget,
            final(self).depth == old(self).depth,
        decreases args,
    {
        if str_eq(name, "sizeof") {
            if args.len() > 0 {
                match &args[0] {
                    ComptimeExpr::TypeOf(t) => {
                        return match self.sizeof_type(t) {
                            Ok(size) => Ok(ComptimeValue::Int(size as i64)),
                            Err(e) => Err(e),
                        };
                    },
                    _ => {},
                }
            }
            return Err(String::from_str("sizeof requires a type"));
        }
        if str_eq(name, "typeof") || str_eq(name, "stringify") {
            if args.len() > 0 {
                let val = match self.eval(&args[0]) {
                    Ok(v) => v,
                    Err(e) => return Err(e),
                };
                if str_eq(name, "typeof") {
                    return Ok(ComptimeValue::Type(self.type_of_value(&val)));
                } else {
                    return Ok(ComptimeValue::String(debug_value(&val)));
                }
            }
            if str_eq(name, "typeof") {
                return Err(String::from_str("typeof requires an expression"));
            } else {
                return Err(String::from_str("stringify requires an expression"));
            }
        }
        let mut msg = String::from_str("Unknown comptime function: ");
        push_str(&mut msg, name);
        Err(msg)
    }

    fn sizeof_type(&self, t: &TypeInfo) -> (r: Result<usize, String>)
        ensures
            match size_of_type(t.name@) {
                Ok(n) => r matches Ok(x) && x == n,
                Err(m) => r matches Err(e) && e@ == m,
            },
    {
        let n = t.name.as_str();
        if str_eq(n, "i8") || str_eq(n, "u8") {
            Ok(1)
        } else if str_eq(n, "i16") || str_eq(n, "u16") {
            Ok(2)
        } else if str_eq(n, "i32") || str_eq(n, "u32") || str_eq(n, "f32") {
            Ok(4)
        } else if str_eq(n, "i64") || str_eq(n, "u64") || str_eq(n, "f64") {
            Ok(8)
        } else {
            let mut msg = String::from_str("sizeof is not qualified for type '");
            push_str(&mut msg, n);
            push_str(&mut msg, "' before the aggregate/layout milestone");
            Err(msg)
        }
    }

    fn type_of_value(&self, v: &ComptimeValue) -> (t: TypeInfo)
        ensures
            type_view(t) == type_of(value_view(*v)),
    {
        let name = match v {
            ComptimeValue::Unit => "Unit",
            ComptimeValue::Int(_) => "i64",
            ComptimeValue::String(_) => "String",
            ComptimeValue::Bool(_) => "bool",
            ComptimeValue::List(_) => "Vec",
            ComptimeValue::Tuple(_) => "Tuple",
            ComptimeValue::Type(t) => {
                return copy_type(t);
            },
        };
        let t = TypeInfo { name: String::from_str(name), params: Vec::new(), fields: Vec::new() };
        assert(types_view(t.params@) =~= Seq::<TypeView>::empty());
        assert(fields_view(t.fields@) =~= Seq::<(Seq<char>, TypeView)>::empty());
        t
    }

    fn eval_block(&mut self, stmts: &Vec<ComptimeStmt>) -> (r: Result<ComptimeValue, String>)
        ensures
            outcome_is(eval_stmts(old(self).ops_budget as nat, stmts@, old(self).state(), ValueView::Unit), *final(self), r),
            final(self).ops_budget == old(self).ops_budget,
            final(self).depth == old(self).depth,
        decreases stmts,
    {
        let ghost budget = self.ops_budget as nat;
        let ghost ss = stmts@;
        let ghost st0 = self.state();
        let mut result = ComptimeValue::Unit;
        let mut i: usize = 0;
        assert(ss.subrange(0, ss.len() as int) =~= ss);
        while i < stmts.len()
            invariant
                i <= ss.len(),
                ss == stmts@,
                budget == self.ops_budget,
                self.ops_budget == old(self).ops_budget,
                self.depth == old(self).depth,
                st0 == old(self).state(),
                eval_stmts(budget, ss, st0, ValueView::Unit)
                    == eval_stmts(budget, ss.subrange(i as int, ss.len() as int), self.state(), value_view(result)),
            decreases ss.len() - i,
        {
            let ghost rest = ss.subrange(i as int, ss.len() as int);
            assert(rest[0] == ss[i as int]);
            assert(rest.subrange(1, rest.len() as int) =~= ss.subrange(i + 1, ss.len() as int));
            match self.eval_stmt(&stmts[i]) {
                Ok(v) => {
                    result = v;
                },
                Err(e) => {
                    return Err(e);
                },
            }
            i = i + 1;
        }
        Ok(result)
    }

    fn eval_stmt(&mut self, stmt: &ComptimeStmt) -> (r: Result<ComptimeValue, String>)
        ensures
            outcome_is(eval_stmt(old(self).ops_budget as nat, *stmt, old(self).state()), *final(self), r),
            final(self).ops_budget == old(self).ops_budget,
            final(self).depth == old(self).depth,
        decreases stmt,
    {
        match stmt {
            ComptimeStmt::Let(name, expr) => {
                let val = match self.eval(expr) {
                    Ok(v) => v,
                    Err(e) => return Err(e),
                };
                let ghost vv = value_view(val);
                let ghost before = self.env@;
                self.env.insert(name.clone(), val);
                assert(env_view(self.env@) =~= env_view(before).insert(name@, vv));
                Ok(ComptimeValue::Unit)
            },
            ComptimeStmt::Expr(expr) => self.eval(expr),
        }
    }
}
} // verus!
