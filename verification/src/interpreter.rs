//! The reference interpreter: it runs a program's statements over an
//! environment of variables, calling the functions the program declares.
//!
//! Integers are checked 64-bit values; comparisons give `1` or `0`.
//! Variables are scoped dynamically: a called function sees its caller's
//! variables with its parameters bound over them, and what it assigns is
//! dropped when it returns. `break` and `continue` raise a signal that the
//! nearest loop takes once its body has finished. The lines that `print`
//! writes are kept in order; a floating-point value prints as the text the
//! interpreter's table gives for its bit pattern. Every block keeps the
//! cleanups its `defer` statements register and runs them, last first, when
//! its statements succeed. Every expression, every statement and every loop
//! turn counts against a step budget.
//!
//! Values are the unit, integers, floating-point bit patterns, characters,
//! bytes, strings, byte strings, booleans, vectors, maps (a key's entry
//! stays where it was first inserted), closures and records. A closure is
//! a number: the position of the lambda's parameters, body and captured
//! variables in the run's table of closures. An effect handler statement
//! registers a value for a name until its block ends; a call of that name
//! runs the innermost such closure. Built-ins that change a vector or map
//! write it back to the variable their first argument names. A channel
//! statement is an error.

use vstd::prelude::*;
use crate::ast::{Expr, InterpolatedFragment, MatchArm, Pattern, Program, Stmt};
use crate::complete_lexer::TokenKind;
use crate::strmap::{entries_map, StrMap};
use builtins::{builtin_more, builtin_more_exec, builtin_mut, builtin_mut_exec, fn_builtin, fn_builtin_exec, map_get, map_keys, opt_view, plan_view, post_exec, post_result, FnPlan, FnPlanExec, FnStep, FnStepExec};
use crate::text::{chars_of, decimal, is_prefix, push_char, push_decimal_u64, push_str, str_eq, str_starts_with, trim, trim_ws};

pub mod builtins;

verus! {

/// `index` as a `usize` when it is non-negative and fits; otherwise an error
/// naming `operation`.
pub fn checked_index(index: i64, operation: &str) -> (r: Result<usize, String>)
    ensures
        r is Ok <==> (0 <= index && index <= usize::MAX),
        r matches Ok(v) ==> v == index,
        r matches Err(e) ==> e@ == operation@ + ": index/length must be non-negative and representable"@,
{
    if index < 0 || (index as u64) > (usize::MAX as u64) {
        let mut msg = String::new();
        push_str(&mut msg, operation);
        push_str(&mut msg, ": index/length must be non-negative and representable");
        Err(msg)
    } else {
        Ok(index as usize)
    }
}

// ---------------------------------------------------------------------------
// Values
// ---------------------------------------------------------------------------

/// A run-time value; a floating-point value is held as its bit pattern.
#[derive(Debug, PartialEq)]
pub enum Value {
    Unit,
    Int(i64),
    Float(u64),
    Char(char),
    Byte(u8),
    Str(String),
    Bytes(Vec<u8>),
    Bool(bool),
    Vector(Vec<Value>),
    Dict(Vec<(String, Value)>),
    Closure(usize),
    Record(String, Vec<(String, Value)>),
}

/// The abstract content of a value; a map's entries and a record's fields
/// in order.
pub enum ValueView {
    Unit,
    Int(i64),
    Float(u64),
    Char(char),
    Byte(u8),
    Str(Seq<char>),
    Bytes(Seq<u8>),
    Bool(bool),
    Vector(Seq<ValueView>),
    Dict(Seq<(Seq<char>, ValueView)>),
    Closure(nat),
    Record(Seq<char>, Seq<(Seq<char>, ValueView)>),
}

pub open spec fn value_view(v: Value) -> ValueView
    decreases v,
{
    match v {
        Value::Unit => ValueView::Unit,
        Value::Int(n) => ValueView::Int(n),
        Value::Float(b) => ValueView::Float(b),
        Value::Char(c) => ValueView::Char(c),
        Value::Byte(b) => ValueView::Byte(b),
        Value::Str(s) => ValueView::Str(s@),
        Value::Bytes(bs) => ValueView::Bytes(bs@),
        Value::Bool(b) => ValueView::Bool(b),
        Value::Vector(vs) => ValueView::Vector(values_view(vs@)),
        Value::Dict(es) => ValueView::Dict(fields_view(es@)),
        Value::Closure(i) => ValueView::Closure(i as nat),
        Value::Record(name, fs) => ValueView::Record(name@, fields_view(fs@)),
    }
}

pub open spec fn fields_view(s: Seq<(String, Value)>) -> Seq<(Seq<char>, ValueView)>
    decreases s,
{
    if s.len() == 0 { seq![] } else { fields_view(s.drop_last()).push((s.last().0@, value_view(s.last().1))) }
}

pub proof fn lemma_fields_view(s: Seq<(String, Value)>)
    ensures
        fields_view(s).len() == s.len(),
        forall|i: int| 0 <= i < s.len() ==> #[trigger] fields_view(s)[i] == (s[i].0@, value_view(s[i].1)),
    decreases s.len(),
{
    if s.len() > 0 {
        lemma_fields_view(s.drop_last());
    }
}

pub open spec fn values_view(s: Seq<Value>) -> Seq<ValueView>
    decreases s,
{
    if s.len() == 0 { seq![] } else { values_view(s.drop_last()).push(value_view(s.last())) }
}

pub proof fn lemma_values_view(s: Seq<Value>)
    ensures
        values_view(s).len() == s.len(),
        forall|i: int| 0 <= i < s.len() ==> #[trigger] values_view(s)[i] == value_view(s[i]),
    decreases s.len(),
{
    if s.len() > 0 {
        lemma_values_view(s.drop_last());
    }
}

/// Whether a value counts as true: a non-zero number, character or byte, a
/// non-empty string, byte string, vector or map, `true`, a closure, a record.
pub open spec fn truthy(v: ValueView) -> bool {
    match v {
        ValueView::Unit => false,
        ValueView::Int(n) => n != 0,
        ValueView::Float(b) => b != 0 && b != 0x8000_0000_0000_0000u64,
        ValueView::Char(c) => c != '\0',
        ValueView::Byte(b) => b != 0,
        ValueView::Str(s) => s.len() > 0,
        ValueView::Bytes(bs) => bs.len() > 0,
        ValueView::Bool(b) => b,
        ValueView::Vector(vs) => vs.len() > 0,
        ValueView::Dict(m) => m.len() > 0,
        ValueView::Closure(_) => true,
        ValueView::Record(..) => true,
    }
}

/// The decimal text of a signed integer.
pub open spec fn int_text(n: i64) -> Seq<char> {
    if n < 0 { "-"@ + decimal((-n) as nat) } else { decimal(n as nat) }
}

/// The text given for a floating-point value with bit pattern `bits`: that
/// of the first table entry with those bits, or nothing.
pub open spec fn float_text(table: Seq<(u64, Seq<char>)>, bits: u64) -> Seq<char>
    decreases table.len(),
{
    if table.len() == 0 {
        seq![]
    } else if table[0].0 == bits {
        table[0].1
    } else {
        float_text(table.drop_first(), bits)
    }
}

/// The decimal texts of bytes, separated by `, `.
pub open spec fn bytes_items(bs: Seq<u8>) -> Seq<char>
    decreases bs.len(),
{
    if bs.len() == 0 {
        seq![]
    } else if bs.len() == 1 {
        decimal(bs[0] as nat)
    } else {
        bytes_items(bs.drop_last()) + ", "@ + decimal(bs.last() as nat)
    }
}

/// How `print` writes a value.
pub open spec fn value_text(table: Seq<(u64, Seq<char>)>, v: ValueView) -> Seq<char> {
    match v {
        ValueView::Unit => "()"@,
        ValueView::Int(n) => int_text(n),
        ValueView::Float(b) => float_text(table, b),
        ValueView::Char(c) => seq![c],
        ValueView::Byte(b) => decimal(b as nat),
        ValueView::Str(s) => s,
        ValueView::Bytes(bs) => "["@ + bytes_items(bs) + "]"@,
        ValueView::Bool(b) => if b { "true"@ } else { "false"@ },
        ValueView::Vector(vs) => "<vector len="@ + decimal(vs.len()) + ">"@,
        ValueView::Dict(m) => "<map len="@ + decimal(m.len()) + ">"@,
        ValueView::Closure(_) => "<fn>"@,
        ValueView::Record(name, _) => name + " { ... }"@,
    }
}

// ---------------------------------------------------------------------------
// Running a program, in the abstract
// ---------------------------------------------------------------------------

/// The signal that `break` and `continue` leave for the nearest loop.
#[derive(Clone, Copy, PartialEq, Eq, Structural)]
pub enum ControlFlow {
    Break,
    Continue,
}

/// What a run keeps across scopes: the steps counted so far, the lines
/// printed, the pending loop signal, for each open block the cleanups its
/// `defer` statements registered, and the closures made so far (each a
/// lambda's parameters and body with the variables it captured).
pub struct Shared {
    pub ops: nat,
    pub printed: Seq<Seq<char>>,
    pub flow: Option<ControlFlow>,
    pub defers: Seq<Seq<Stmt>>,
    pub closures: Seq<(Seq<(String, Option<String>)>, Expr, Vars)>,
    pub handlers: Seq<(Seq<char>, ValueView)>,
}

/// What stays fixed during a run: the declared functions, the step budget
/// and the texts of floating-point values.
pub struct Setup {
    pub funs: Map<Seq<char>, (Seq<(String, Option<String>)>, Seq<Stmt>)>,
    pub max_ops: nat,
    pub floats: Seq<(u64, Seq<char>)>,
}

pub type Vars = Map<Seq<char>, ValueView>;

/// The variables and state after an expression, and its value or error.
pub type ExprOutcome = (Vars, Shared, Result<ValueView, Seq<char>>);

/// The variables and state after statements, and whether they returned a
/// value, or the error.
pub type StmtOutcome = (Vars, Shared, Result<Option<ValueView>, Seq<char>>);

/// The error when the step budget is spent.
pub open spec fn limit_error() -> Seq<char> {
    "step limit exceeded"@
}

/// Counting one step: the new state, and whether it is within the budget
/// (the counter saturates at `usize::MAX`).
pub open spec fn tick(fx: Setup, sh: Shared) -> (Shared, bool) {
    let next = if sh.ops < usize::MAX { sh.ops + 1 } else { sh.ops };
    (Shared { ops: next, ..sh }, sh.ops < usize::MAX && sh.ops + 1 <= fx.max_ops)
}

/// `b` came from `a` without going back on the counter, within the budget.
pub open spec fn within(fx: Setup, a: Shared, b: Shared) -> bool {
    a.ops <= b.ops <= fx.max_ops
}

/// Checked arithmetic on two integers for `+ - * / %`, and the comparisons,
/// which give `1` or `0`.
pub open spec fn int_binary(op: TokenKind, a: i64, b: i64) -> Result<ValueView, Seq<char>> {
    let flag = |c: bool| Ok(ValueView::Int(if c { 1i64 } else { 0i64 }));
    match op {
        TokenKind::Plus => match a.checked_add(b) {
            Some(r) => Ok(ValueView::Int(r)),
            None => Err("integer addition overflow"@),
        },
        TokenKind::Minus => match a.checked_sub(b) {
            Some(r) => Ok(ValueView::Int(r)),
            None => Err("integer subtraction overflow"@),
        },
        TokenKind::Star => match a.checked_mul(b) {
            Some(r) => Ok(ValueView::Int(r)),
            None => Err("integer multiplication overflow"@),
        },
        TokenKind::Slash => match a.checked_div(b) {
            Some(r) => Ok(ValueView::Int(r)),
            None => Err("integer division by zero or overflow"@),
        },
        TokenKind::Percent => match a.checked_rem(b) {
            Some(r) => Ok(ValueView::Int(r)),
            None => Err("integer remainder by zero or overflow"@),
        },
        TokenKind::EqEq => flag(a == b),
        TokenKind::NotEq => flag(a != b),
        TokenKind::Lt => flag(a < b),
        TokenKind::LtEq => flag(a <= b),
        TokenKind::Gt => flag(a > b),
        TokenKind::GtEq => flag(a >= b),
        _ => Err("Unsupported binary op for ints"@),
    }
}

/// The comparisons of two integers give `1` when the relation holds and `0`
/// when it does not: `<=` holds of equal integers and is `<` or `==`, `>=`
/// is `<=` with the operands swapped, `!=` is the opposite of `==`, and
/// exactly one of `<`, `==`, `>` holds. `+`, `-` and `*` give the exact
/// result whenever it fits in 64 bits.
pub proof fn law_integer_operators(a: i64, b: i64)
    ensures
        int_binary(TokenKind::Lt, a, b) == Ok::<ValueView, Seq<char>>(ValueView::Int(if a < b { 1i64 } else { 0i64 })),
        int_binary(TokenKind::LtEq, a, b) == Ok::<ValueView, Seq<char>>(ValueView::Int(if a <= b { 1i64 } else { 0i64 })),
        int_binary(TokenKind::Gt, a, b) == Ok::<ValueView, Seq<char>>(ValueView::Int(if a > b { 1i64 } else { 0i64 })),
        int_binary(TokenKind::GtEq, a, b) == Ok::<ValueView, Seq<char>>(ValueView::Int(if a >= b { 1i64 } else { 0i64 })),
        int_binary(TokenKind::EqEq, a, b) == Ok::<ValueView, Seq<char>>(ValueView::Int(if a == b { 1i64 } else { 0i64 })),
        int_binary(TokenKind::NotEq, a, b) == Ok::<ValueView, Seq<char>>(ValueView::Int(if a != b { 1i64 } else { 0i64 })),
        int_binary(TokenKind::LtEq, a, a) == Ok::<ValueView, Seq<char>>(ValueView::Int(1)),
        (int_binary(TokenKind::LtEq, a, b) == Ok::<ValueView, Seq<char>>(ValueView::Int(1)))
            <==> (int_binary(TokenKind::Lt, a, b) == Ok::<ValueView, Seq<char>>(ValueView::Int(1))
                || int_binary(TokenKind::EqEq, a, b) == Ok::<ValueView, Seq<char>>(ValueView::Int(1))),
        int_binary(TokenKind::GtEq, a, b) == int_binary(TokenKind::LtEq, b, a),
        int_binary(TokenKind::Gt, a, b) == int_binary(TokenKind::Lt, b, a),
        (int_binary(TokenKind::NotEq, a, b) == Ok::<ValueView, Seq<char>>(ValueView::Int(1)))
            <==> (int_binary(TokenKind::EqEq, a, b) == Ok::<ValueView, Seq<char>>(ValueView::Int(0))),
        (int_binary(TokenKind::Lt, a, b) == Ok::<ValueView, Seq<char>>(ValueView::Int(1)))
            || (int_binary(TokenKind::EqEq, a, b) == Ok::<ValueView, Seq<char>>(ValueView::Int(1)))
            || (int_binary(TokenKind::Gt, a, b) == Ok::<ValueView, Seq<char>>(ValueView::Int(1))),
        i64::MIN <= a + b <= i64::MAX ==> int_binary(TokenKind::Plus, a, b) == Ok::<ValueView, Seq<char>>(ValueView::Int((a + b) as i64)),
        i64::MIN <= a - b <= i64::MAX ==> int_binary(TokenKind::Minus, a, b) == Ok::<ValueView, Seq<char>>(ValueView::Int((a - b) as i64)),
        i64::MIN <= a * b <= i64::MAX ==> int_binary(TokenKind::Star, a, b) == Ok::<ValueView, Seq<char>>(ValueView::Int((a * b) as i64)),
        !(i64::MIN <= a + b <= i64::MAX) ==> int_binary(TokenKind::Plus, a, b) is Err,
{
}

/// A binary operator on two values: integers, or two strings for `+`
/// (concatenation), `==` and `!=`.
pub open spec fn binary_result(op: TokenKind, a: ValueView, b: ValueView) -> Result<ValueView, Seq<char>> {
    match (a, b) {
        (ValueView::Int(x), ValueView::Int(y)) => int_binary(op, x, y),
        (ValueView::Str(x), ValueView::Str(y)) => match op {
            TokenKind::Plus => Ok(ValueView::Str(x + y)),
            TokenKind::EqEq => Ok(ValueView::Int(if x == y { 1i64 } else { 0i64 })),
            TokenKind::NotEq => Ok(ValueView::Int(if x != y { 1i64 } else { 0i64 })),
            _ => Err("Unsupported binary op for strings"@),
        },
        _ => Err("Unsupported binary op types"@),
    }
}

/// A unary operator on a value: checked negation of an integer, `!` of a
/// boolean.
pub open spec fn unary_result(op: TokenKind, v: ValueView) -> Result<ValueView, Seq<char>> {
    match op {
        TokenKind::Minus => match v {
            ValueView::Int(n) => if n == i64::MIN { Err("integer negation overflow"@) } else { Ok(ValueView::Int((-n) as i64)) },
            _ => Err("Unary - requires int"@),
        },
        TokenKind::Bang => match v {
            ValueView::Bool(b) => Ok(ValueView::Bool(!b)),
            _ => Err("Unary ! requires bool"@),
        },
        _ => Err("Unsupported unary op"@),
    }
}

/// Indexing a vector by an integer.
pub open spec fn index_result(base: ValueView, idx: ValueView) -> Result<ValueView, Seq<char>> {
    match (base, idx) {
        (ValueView::Vector(vs), ValueView::Int(i)) =>
            if i < 0 || i > usize::MAX {
                Err("vector index"@ + ": index/length must be non-negative and representable"@)
            } else if i >= vs.len() {
                Err("Index out of bounds"@)
            } else {
                Ok(vs[i as int])
            },
        (ValueView::Str(s), ValueView::Int(i)) =>
            if i < 0 || i > usize::MAX {
                Err("string index"@ + ": index/length must be non-negative and representable"@)
            } else if i >= s.len() {
                Err("Index out of bounds"@)
            } else {
                Ok(ValueView::Str(seq![s[i as int]]))
            },
        _ => Err("Index evaluation not implemented for these operands"@),
    }
}

/// The built-in functions a call reaches before the declared ones, applied
/// to the argument values; `None` for a name that is no built-in.
pub open spec fn builtin_result(name: Seq<char>, args: Seq<ValueView>) -> Option<Result<ValueView, Seq<char>>> {
    if name == "panic"@ {
        Some(if args.len() != 1 {
            Err("panic requires one argument"@)
        } else {
            match args[0] {
                ValueView::Str(s) => Err("panic: "@ + s),
                _ => Err("panic requires string"@),
            }
        })
    } else if name == "vector_new"@ {
        Some(Ok(ValueView::Vector(seq![])))
    } else if name == "vector_len"@ {
        Some(if args.len() != 1 {
            Err("vector_len requires one argument"@)
        } else {
            match args[0] {
                ValueView::Vector(vs) => Ok(ValueView::Int(vs.len() as i64)),
                _ => Err("vector_len requires vector"@),
            }
        })
    } else if name == "string_concat"@ {
        Some(if args.len() != 2 {
            Err("string_concat requires two arguments"@)
        } else {
            match (args[0], args[1]) {
                (ValueView::Str(a), ValueView::Str(b)) => Ok(ValueView::Str(a + b)),
                _ => Err("string_concat requires two strings"@),
            }
        })
    } else if name == "string_eq"@ {
        Some(if args.len() != 2 {
            Err("string_eq requires two arguments"@)
        } else {
            match (args[0], args[1]) {
                (ValueView::Str(a), ValueView::Str(b)) => Ok(ValueView::Bool(a == b)),
                _ => Err("string_eq requires two strings"@),
            }
        })
    } else if name == "int_to_string"@ {
        Some(if args.len() != 1 {
            Err("int_to_string requires one argument"@)
        } else {
            match args[0] {
                ValueView::Int(n) => Ok(ValueView::Str(int_text(n))),
                _ => Err("int_to_string requires int"@),
            }
        })
    } else if name == "string_push_char"@ {
        Some(if args.len() != 2 {
            Err("string_push_char requires two arguments"@)
        } else {
            match (args[0], args[1]) {
                (ValueView::Str(a), ValueView::Str(b)) => Ok(ValueView::Str(a + b)),
                _ => Err("string_push_char requires (string,char)"@),
            }
        })
    } else if name == "string_starts_with"@ {
        Some(if args.len() != 2 {
            Err("string_starts_with requires two arguments"@)
        } else {
            match (args[0], args[1]) {
                (ValueView::Str(a), ValueView::Str(b)) => Ok(ValueView::Bool(is_prefix(b, a))),
                _ => Err("string_starts_with requires two strings"@),
            }
        })
    } else if name == "string_substr"@ {
        Some(if args.len() != 3 {
            Err("string_substr requires three arguments"@)
        } else {
            match (args[0], args[1], args[2]) {
                (ValueView::Str(t), ValueView::Int(a), ValueView::Int(n)) =>
                    if a < 0 || a > usize::MAX || n < 0 || n > usize::MAX {
                        Err("string_substr"@ + ": index/length must be non-negative and representable"@)
                    } else {
                        Ok(ValueView::Str(substring(t, a as nat, n as nat)))
                    },
                _ => Err("string_substr requires (string,int,int)"@),
            }
        })
    } else if name == "string_ends_with"@ {
        Some(if args.len() != 2 {
            Err("string_ends_with requires two arguments"@)
        } else {
            match (args[0], args[1]) {
                (ValueView::Str(a), ValueView::Str(b)) => Ok(ValueView::Bool(is_suffix(b, a))),
                _ => Err("string_ends_with requires two strings"@),
            }
        })
    } else if name == "string_trim"@ {
        Some(if args.len() != 1 {
            Err("string_trim requires one argument"@)
        } else {
            match args[0] {
                ValueView::Str(a) => Ok(ValueView::Str(trim_ws(a))),
                _ => Err("string_trim requires a string"@),
            }
        })
    } else if name == "int_abs"@ {
        Some(if args.len() != 1 {
            Err("int_abs requires one argument"@)
        } else {
            match args[0] {
                ValueView::Int(n) => if n == i64::MIN {
                    Err("int_abs: arithmetic overflow"@)
                } else {
                    Ok(ValueView::Int(if n < 0 { (-n) as i64 } else { n }))
                },
                _ => Err("int_abs requires int"@),
            }
        })
    } else if name == "int_div"@ {
        Some(if args.len() != 2 {
            Err("int_div requires two arguments"@)
        } else {
            match (args[0], args[1]) {
                (ValueView::Int(a), ValueView::Int(b)) => match a.checked_div(b) {
                    Some(q) => Ok(ValueView::Int(q)),
                    None => Err("int_div: divide by zero or arithmetic overflow"@),
                },
                _ => Err("int_div requires two ints"@),
            }
        })
    } else if name == "vector_get"@ {
        Some(if args.len() != 2 {
            Err("vector_get requires two arguments"@)
        } else {
            match (args[0], args[1]) {
                (ValueView::Vector(vs), ValueView::Int(i)) =>
                    if i < 0 || i > usize::MAX {
                        Err("vector_get"@ + ": index/length must be non-negative and representable"@)
                    } else if i >= vs.len() {
                        Err("vector_get: index out of bounds"@)
                    } else {
                        Ok(vs[i as int])
                    },
                _ => Err("vector_get requires (vector,int)"@),
            }
        })
    } else {
        builtin_more(name, args)
    }
}

/// The characters of `t` from `a` on, at most `n` of them (as
/// `chars().skip(a).take(n)`).
pub open spec fn substring(t: Seq<char>, a: nat, n: nat) -> Seq<char> {
    let rest = if a <= t.len() { t.skip(a as int) } else { seq![] };
    if n <= rest.len() { rest.take(n as int) } else { rest }
}

/// Whether `t` ends with `p`.
pub open spec fn is_suffix(p: Seq<char>, t: Seq<char>) -> bool {
    p.len() <= t.len() && t.skip(t.len() - p.len()) == p
}

/// What a pattern does with a value: `None` when it does not match, else
/// the bindings it makes, in order. An integer literal matches that
/// integer; a struct pattern, a map that has every field it names, each
/// value matching the field's pattern; an alternative, its first matching
/// pattern.
pub open spec fn pattern_binds(p: Pattern, v: ValueView) -> Option<Seq<(Seq<char>, ValueView)>>
    decreases p,
{
    match p {
        Pattern::Wildcard => Some(seq![]),
        Pattern::Literal(e) => match v {
            ValueView::Int(a) => if a == e { Some(seq![]) } else { None },
            _ => None,
        },
        Pattern::Var(name) => Some(seq![(name@, v)]),
        Pattern::Struct(_, fs) => match v {
            ValueView::Dict(m) => struct_binds(fs@, m),
            _ => None,
        },
        Pattern::Or(ps) => first_pattern_binds(ps@, v),
    }
}

/// The bindings of a struct pattern's fields against a map, field by field.
pub open spec fn struct_binds(fs: Seq<(String, Pattern)>, m: Seq<(Seq<char>, ValueView)>) -> Option<Seq<(Seq<char>, ValueView)>>
    decreases fs,
{
    if fs.len() == 0 {
        Some(seq![])
    } else {
        match map_get(m, fs[0].0@) {
            None => None,
            Some(fv) => match pattern_binds(fs[0].1, fv) {
                None => None,
                Some(b) => match struct_binds(fs.subrange(1, fs.len() as int), m) {
                    None => None,
                    Some(rest) => Some(b + rest),
                },
            },
        }
    }
}

pub open spec fn first_pattern_binds(ps: Seq<Pattern>, v: ValueView) -> Option<Seq<(Seq<char>, ValueView)>>
    decreases ps,
{
    if ps.len() == 0 {
        None
    } else {
        match pattern_binds(ps[0], v) {
            Some(b) => Some(b),
            None => first_pattern_binds(ps.subrange(1, ps.len() as int), v),
        }
    }
}

/// The variables with bindings added in order, a later one winning.
pub open spec fn bind_all(vars: Vars, bs: Seq<(Seq<char>, ValueView)>) -> Vars
    decreases bs.len(),
{
    if bs.len() == 0 {
        vars
    } else {
        bind_all(vars, bs.drop_last()).insert(bs.last().0, bs.last().1)
    }
}

/// The debug rendering of a value (as `{:?}` writes it).
pub uninterp spec fn value_debug(v: ValueView) -> Seq<char>;

/// A field of a value: `len`, `is_empty` and `clone` of a string or vector,
/// `first` and `last` of a vector, the entry of a map under that key.
pub open spec fn field_result(v: ValueView, field: Seq<char>) -> Result<ValueView, Seq<char>> {
    let other = Err("FieldAccess not implemented for "@ + value_debug(v) + " on field '"@ + field + "'"@);
    match v {
        ValueView::Str(t) =>
            if field == "len"@ {
                Ok(ValueView::Int(t.len() as i64))
            } else if field == "is_empty"@ {
                Ok(ValueView::Bool(t.len() == 0))
            } else if field == "clone"@ {
                Ok(ValueView::Str(t))
            } else {
                other
            },
        ValueView::Vector(vs) =>
            if field == "len"@ {
                Ok(ValueView::Int(vs.len() as i64))
            } else if field == "is_empty"@ {
                Ok(ValueView::Bool(vs.len() == 0))
            } else if field == "first"@ {
                if vs.len() == 0 { Err("Vector is empty"@) } else { Ok(vs[0]) }
            } else if field == "last"@ {
                if vs.len() == 0 { Err("Vector is empty"@) } else { Ok(vs.last()) }
            } else if field == "clone"@ {
                Ok(ValueView::Vector(vs))
            } else {
                other
            },
        ValueView::Dict(m) => match map_get(m, field) {
            Some(x) => Ok(x),
            None => Err("Unknown field '"@ + field + "'"@),
        },
        _ => other,
    }
}

/// The values of a range: the integers from `a` up to (not including) `b`.
pub open spec fn range_values(a: i64, b: int) -> Seq<ValueView> {
    Seq::new(if b > a { (b - a) as nat } else { 0 }, |i: int| ValueView::Int((a + i) as i64))
}

/// The parameters bound to the argument values, later ones winning.
pub open spec fn params_map(ps: Seq<(String, Option<String>)>, vals: Seq<ValueView>) -> Vars
    decreases ps.len(),
{
    if ps.len() == 0 {
        Map::empty()
    } else {
        params_map(ps.drop_last(), vals).insert(ps.last().0@, vals[ps.len() - 1])
    }
}

/// The name of the variable a call's first argument is, if it is one.
pub open spec fn first_var(args: Seq<Expr>) -> Option<Seq<char>> {
    if args.len() > 0 {
        match args[0] {
            Expr::Var(n, _) => Some(n@),
            _ => None,
        }
    } else {
        None
    }
}

/// The variables after a built-in that writes its first argument back.
pub open spec fn write_back(vars: Vars, fv: Option<Seq<char>>, w: Option<ValueView>) -> Vars {
    match (fv, w) {
        (Some(n), Some(v)) => vars.insert(n, v),
        _ => vars,
    }
}

/// The innermost handler registered for an effect.
pub open spec fn resolve_handler(hs: Seq<(Seq<char>, ValueView)>, name: Seq<char>) -> Option<ValueView>
    decreases hs.len(),
{
    if hs.len() == 0 {
        None
    } else if hs.last().0 == name {
        Some(hs.last().1)
    } else {
        resolve_handler(hs.drop_last(), name)
    }
}

/// Evaluating an expression: it counts one step, then computes. Only a
/// call of a built-in that changes its first argument in place changes the
/// variables.
pub open spec fn ev_expr(fx: Setup, e: Expr, vars: Vars, sh: Shared) -> ExprOutcome
    decreases fx.max_ops - sh.ops, 0nat, 0nat,
{
    let t = tick(fx, sh);
    let sh1 = t.0;
    if !t.1 {
        (vars, sh1, Err(limit_error()))
    } else {
        match e {
            Expr::StringLit(s, _) => (vars, sh1, Ok(ValueView::Str(s@))),
            Expr::ByteString(bs, _) => (vars, sh1, Ok(ValueView::Bytes(bs@))),
            Expr::Byte(b, _) => (vars, sh1, Ok(ValueView::Byte(b))),
            Expr::Number(n, _) => (vars, sh1, Ok(ValueView::Int(n))),
            Expr::Float(b, _) => (vars, sh1, Ok(ValueView::Float(b))),
            Expr::Char(c, _) => (vars, sh1, Ok(ValueView::Char(c))),
            Expr::Bool(b, _) => (vars, sh1, Ok(ValueView::Bool(b))),
            Expr::Var(name, _) =>
                if vars.contains_key(name@) {
                    (vars, sh1, Ok(vars[name@]))
                } else {
                    (vars, sh1, Err("Undefined var "@ + name@))
                },
            Expr::Call(name, args, _) => {
                let r = ev_list(fx, args@, vars, sh1, seq![]);
                match r.2 {
                    Err(x) => (r.0, r.1, Err(x)),
                    Ok(vals) => if within(fx, sh1, r.1) { ev_call(fx, name@, first_var(args@), vals, r.0, r.1) } else { (r.0, r.1, Err(limit_error())) },
                }
            },
            Expr::BinaryOp { op, left, right, .. } => {
                let ra = ev_expr(fx, *left, vars, sh1);
                match ra.2 {
                    Err(x) => (ra.0, ra.1, Err(x)),
                    Ok(a) => if within(fx, sh1, ra.1) {
                        let rb = ev_expr(fx, *right, ra.0, ra.1);
                        match rb.2 {
                            Err(x) => (rb.0, rb.1, Err(x)),
                            Ok(b) => (rb.0, rb.1, binary_result(op, a, b)),
                        }
                    } else {
                        (ra.0, ra.1, Err(limit_error()))
                    },
                }
            },
            Expr::Borrow { .. } | Expr::Deref { .. } =>
                (vars, sh1, Err("safe reference execution is not qualified in the bootstrap reference interpreter"@)),
            Expr::UnaryOp { op, inner, .. } => {
                let r = ev_expr(fx, *inner, vars, sh1);
                match r.2 {
                    Ok(v) => (r.0, r.1, unary_result(op, v)),
                    Err(x) => (r.0, r.1, Err(x)),
                }
            },
            Expr::IfExpr { cond, then, else_, .. } => {
                let rc = ev_expr(fx, *cond, vars, sh1);
                match rc.2 {
                    Err(x) => (rc.0, rc.1, Err(x)),
                    Ok(c) => if within(fx, sh1, rc.1) {
                        ev_expr(fx, if truthy(c) { *then } else { *else_ }, rc.0, rc.1)
                    } else {
                        (rc.0, rc.1, Err(limit_error()))
                    },
                }
            },
            Expr::Block(stmts, _) => {
                let r = ev_block(fx, stmts@, vars, sh1);
                match r.2 {
                    Err(x) => (vars, r.1, Err(x)),
                    Ok(_) => (vars, r.1, Ok(ValueView::Unit)),
                }
            },
            Expr::Tuple(es, _) | Expr::Array(es, _) => {
                let r = ev_list(fx, es@, vars, sh1, seq![]);
                match r.2 {
                    Ok(vs) => (r.0, r.1, Ok(ValueView::Vector(vs))),
                    Err(x) => (r.0, r.1, Err(x)),
                }
            },
            Expr::Index(base, index, _) => {
                let ra = ev_expr(fx, *base, vars, sh1);
                match ra.2 {
                    Err(x) => (ra.0, ra.1, Err(x)),
                    Ok(a) => if within(fx, sh1, ra.1) {
                        let rb = ev_expr(fx, *index, ra.0, ra.1);
                        match rb.2 {
                            Err(x) => (rb.0, rb.1, Err(x)),
                            Ok(b) => (rb.0, rb.1, index_result(a, b)),
                        }
                    } else {
                        (ra.0, ra.1, Err(limit_error()))
                    },
                }
            },
            Expr::Await(inner, _) | Expr::Try(inner, _) => ev_expr(fx, *inner, vars, sh1),
            Expr::StructLit { name, fields, .. } => {
                let r = ev_fields(fx, fields@, vars, sh1, seq![]);
                match r.2 {
                    Ok(fs) => (r.0, r.1, Ok(ValueView::Record(name@, fs))),
                    Err(x) => (r.0, r.1, Err(x)),
                }
            },
            Expr::FieldAccess { base, field, .. } => {
                let r = ev_expr(fx, *base, vars, sh1);
                match r.2 {
                    Ok(v) => (r.0, r.1, field_result(v, field@)),
                    Err(x) => (r.0, r.1, Err(x)),
                }
            },
            Expr::Match { expr, arms, .. } => {
                let r = ev_expr(fx, *expr, vars, sh1);
                match r.2 {
                    Err(x) => (r.0, r.1, Err(x)),
                    Ok(v) => if within(fx, sh1, r.1) {
                        let ra = ev_arms(fx, arms@, v, r.0, r.1);
                        (r.0, ra.0, ra.1)
                    } else {
                        (r.0, r.1, Err(limit_error()))
                    },
                }
            },
            Expr::Interpolated(frags, _) => {
                let r = ev_interp(fx, frags@, vars, sh1, seq![]);
                match r.2 {
                    Ok(t) => (r.0, r.1, Ok(ValueView::Str(t))),
                    Err(x) => (r.0, r.1, Err(x)),
                }
            },
            Expr::Range { start, end, inclusive, .. } => {
                let ra = ev_expr(fx, *start, vars, sh1);
                match ra.2 {
                    Err(x) => (ra.0, ra.1, Err(x)),
                    Ok(a) => if within(fx, sh1, ra.1) {
                        let rb = ev_expr(fx, *end, ra.0, ra.1);
                        match rb.2 {
                            Err(x) => (rb.0, rb.1, Err(x)),
                            Ok(b) => match (a, b) {
                                (ValueView::Int(x), ValueView::Int(y)) =>
                                    (rb.0, rb.1, Ok(ValueView::Vector(range_values(x, if inclusive { y + 1 } else { y as int })))),
                                _ => (rb.0, rb.1, Err("Range only supports integer bounds"@)),
                            },
                        }
                    } else {
                        (ra.0, ra.1, Err(limit_error()))
                    },
                }
            },
            Expr::Lambda { params, body, .. } =>
                (vars, Shared { closures: sh1.closures.push((params@, *body, vars)), ..sh1 }, Ok(ValueView::Closure(sh1.closures.len()))),
        }
    }
}

/// Evaluating expressions in order, their values following `acc`; the first
/// error stops.
pub open spec fn ev_list(fx: Setup, es: Seq<Expr>, vars: Vars, sh: Shared, acc: Seq<ValueView>) -> (Vars, Shared, Result<Seq<ValueView>, Seq<char>>)
    decreases fx.max_ops - sh.ops, 1nat, es.len(),
{
    if es.len() == 0 {
        (vars, sh, Ok(acc))
    } else {
        let r = ev_expr(fx, es[0], vars, sh);
        match r.2 {
            Err(x) => (r.0, r.1, Err(x)),
            Ok(v) => if within(fx, sh, r.1) {
                ev_list(fx, es.subrange(1, es.len() as int), r.0, r.1, acc.push(v))
            } else {
                (r.0, r.1, Err(limit_error()))
            },
        }
    }
}

/// The fields of a struct literal in order, their values following `acc`;
/// the first error stops.
pub open spec fn ev_fields(fx: Setup, fs: Seq<(String, Expr)>, vars: Vars, sh: Shared, acc: Seq<(Seq<char>, ValueView)>) -> (Vars, Shared, Result<Seq<(Seq<char>, ValueView)>, Seq<char>>)
    decreases fx.max_ops - sh.ops, 1nat, fs.len(),
{
    if fs.len() == 0 {
        (vars, sh, Ok(acc))
    } else {
        let r = ev_expr(fx, fs[0].1, vars, sh);
        match r.2 {
            Err(x) => (r.0, r.1, Err(x)),
            Ok(v) => if within(fx, sh, r.1) {
                ev_fields(fx, fs.subrange(1, fs.len() as int), r.0, r.1, acc.push((fs[0].0@, v)))
            } else {
                (r.0, r.1, Err(limit_error()))
            },
        }
    }
}

/// The arms of a `match` in order: the first whose pattern matches and whose
/// guard holds gives the value of its body, both evaluated over a copy of
/// the variables with the pattern's bindings added.
pub open spec fn ev_arms(fx: Setup, arms: Seq<MatchArm>, v: ValueView, vars: Vars, sh: Shared) -> (Shared, Result<ValueView, Seq<char>>)
    decreases fx.max_ops - sh.ops, 1nat, arms.len(),
{
    if arms.len() == 0 {
        (sh, Err("Non-exhaustive match expression"@))
    } else {
        let arm = arms[0];
        let rest = arms.subrange(1, arms.len() as int);
        match pattern_binds(arm.pattern, v) {
            None => ev_arms(fx, rest, v, vars, sh),
            Some(b) => {
                let local = bind_all(vars, b);
                match arm.guard {
                    None => {
                        let r = ev_expr(fx, *arm.body, local, sh);
                        (r.1, r.2)
                    },
                    Some(g) => {
                        let rg = ev_expr(fx, *g, local, sh);
                        match rg.2 {
                            Err(x) => (rg.1, Err(x)),
                            Ok(gv) => if !within(fx, sh, rg.1) {
                                (rg.1, Err(limit_error()))
                            } else if truthy(gv) {
                                let r = ev_expr(fx, *arm.body, rg.0, rg.1);
                                (r.1, r.2)
                            } else {
                                ev_arms(fx, rest, v, vars, rg.1)
                            },
                        }
                    },
                }
            },
        }
    }
}

/// The text of an interpolated string, its pieces following `acc`: literal
/// text as it is, an embedded expression as `print` would write its value.
pub open spec fn ev_interp(fx: Setup, frags: Seq<InterpolatedFragment>, vars: Vars, sh: Shared, acc: Seq<char>) -> (Vars, Shared, Result<Seq<char>, Seq<char>>)
    decreases fx.max_ops - sh.ops, 1nat, frags.len(),
{
    if frags.len() == 0 {
        (vars, sh, Ok(acc))
    } else {
        let rest = frags.subrange(1, frags.len() as int);
        match frags[0] {
            InterpolatedFragment::Literal(t, _) => ev_interp(fx, rest, vars, sh, acc + t@),
            InterpolatedFragment::Expr(e) => {
                let r = ev_expr(fx, *e, vars, sh);
                match r.2 {
                    Err(x) => (r.0, r.1, Err(x)),
                    Ok(v) => if within(fx, sh, r.1) {
                        ev_interp(fx, rest, r.0, r.1, acc + value_text(fx.floats, v))
                    } else {
                        (r.0, r.1, Err(limit_error()))
                    },
                }
            },
        }
    }
}

/// A declared function called with argument values: its body runs over a
/// copy of the caller's variables with the parameters bound; its returned
/// value, `Unit` when it returns none.
pub open spec fn ev_declared(fx: Setup, name: Seq<char>, vals: Seq<ValueView>, vars: Vars, sh: Shared) -> (Shared, Result<ValueView, Seq<char>>)
    decreases fx.max_ops - sh.ops, 3nat, 0nat,
{
    if !fx.funs.contains_key(name) {
        (sh, Err("Undefined function: "@ + name))
    } else {
        let f = fx.funs[name];
        if vals.len() != f.0.len() {
            (sh, Err("Expected "@ + decimal(f.0.len()) + " args for function "@ + name))
        } else {
            let r = ev_block(fx, f.1, vars.union_prefer_right(params_map(f.0, vals)), sh);
            match r.2 {
                Err(x) => (r.1, Err(x)),
                Ok(Some(v)) => (r.1, Ok(v)),
                Ok(None) => (r.1, Ok(ValueView::Unit)),
            }
        }
    }
}

/// A built-in that calls a declared function: that function, which must
/// take one parameter (bound to `arg`, or failing with its error) or none,
/// runs over a copy of the caller's variables, and `post` makes the result.
pub open spec fn ev_fn_builtin(fx: Setup, p: FnPlan, vars: Vars, sh: Shared) -> (Shared, Result<ValueView, Seq<char>>)
    decreases fx.max_ops - sh.ops, 3nat, 0nat,
{
    if !fx.funs.contains_key(p.fname) {
        (sh, Err(p.label + ": function not found"@))
    } else {
        let f = fx.funs[p.fname];
        if f.0.len() != (if p.one_param { 1nat } else { 0nat }) {
            (sh, Err(p.arity_error))
        } else if p.one_param && p.arg is Err {
            (sh, Err(p.arg->Err_0))
        } else {
            let local = if p.one_param { vars.insert(f.0[0].0@, p.arg->Ok_0) } else { vars };
            let r = ev_block(fx, f.1, local, sh);
            match r.2 {
                Err(x) => (r.1, Err(x)),
                Ok(res) => (r.1, post_result(p.post, res, p.map)),
            }
        }
    }
}

/// A call with its argument values: a built-in; else the innermost handler
/// registered for the name, when it is a closure, run over the variables it
/// captured with its parameters bound; else a declared function.
pub open spec fn ev_call(fx: Setup, name: Seq<char>, fv: Option<Seq<char>>, vals: Seq<ValueView>, vars: Vars, sh: Shared) -> ExprOutcome
    decreases fx.max_ops - sh.ops, 4nat, 0nat,
{
    match builtin_result(name, vals) {
        Some(r) => (vars, sh, r),
        None => match builtin_mut(name, vals, fv is Some) {
            Some(Ok((v, w))) => (write_back(vars, fv, w), sh, Ok(v)),
            Some(Err(x)) => (vars, sh, Err(x)),
            None => match fn_builtin(name, vals) {
                Some(FnStep::Done(r)) => (vars, sh, r),
                Some(FnStep::Call(p)) => {
                    let r = ev_fn_builtin(fx, p, vars, sh);
                    (vars, r.0, r.1)
                },
                None => {
                    let r = ev_dispatch(fx, name, vals, vars, sh);
                    (vars, r.0, r.1)
                },
            },
        },
    }
}

/// A call that no built-in takes: the innermost handler registered for the
/// name, when it is a closure, runs over the variables it captured with its
/// parameters bound; else the declared function runs.
pub open spec fn ev_dispatch(fx: Setup, name: Seq<char>, vals: Seq<ValueView>, vars: Vars, sh: Shared) -> (Shared, Result<ValueView, Seq<char>>)
    decreases fx.max_ops - sh.ops, 3nat, 1nat,
{
    match resolve_handler(sh.handlers, name) {
        Some(ValueView::Closure(id)) => if id < sh.closures.len() {
            let c = sh.closures[id as int];
            if c.0.len() != vals.len() {
                (sh, Err("Effect handler '"@ + name + "' expected "@ + decimal(c.0.len()) + " args, got "@ + decimal(vals.len())))
            } else {
                let r = ev_expr(fx, c.1, c.2.union_prefer_right(params_map(c.0, vals)), sh);
                (r.1, r.2)
            }
        } else {
            ev_declared(fx, name, vals, vars, sh)
        },
        _ => ev_declared(fx, name, vals, vars, sh),
    }
}

/// Statements in order; the first that returns a value or fails stops, and
/// so does a `break` or `continue`, leaving its signal.
pub open spec fn ev_stmts(fx: Setup, ss: Seq<Stmt>, vars: Vars, sh: Shared) -> StmtOutcome
    decreases fx.max_ops - sh.ops, 0nat, ss.len(),
{
    if ss.len() == 0 {
        (vars, sh, Ok(None))
    } else {
        let r = ev_stmt(fx, ss[0], vars, sh);
        match r.2 {
            Ok(None) => if ss[0] is Break || ss[0] is Continue {
                r
            } else if within(fx, sh, r.1) {
                ev_stmts(fx, ss.subrange(1, ss.len() as int), r.0, r.1)
            } else {
                (r.0, r.1, Err(limit_error()))
            },
            _ => r,
        }
    }
}

/// The cleanups of the innermost block, and the pending cleanups once that
/// block's frame is closed and any frame above `depth` dropped.
pub open spec fn close_frame(defers: Seq<Seq<Stmt>>, depth: nat) -> (Seq<Stmt>, Seq<Seq<Stmt>>) {
    let popped = if defers.len() > 0 { defers.last() } else { seq![] };
    let rest = if defers.len() > 0 { defers.drop_last() } else { defers };
    (popped, if rest.len() > depth { rest.take(depth as int) } else { rest })
}

/// The handlers once those registered above `depth` are dropped.
pub open spec fn drop_handlers(hs: Seq<(Seq<char>, ValueView)>, depth: nat) -> Seq<(Seq<char>, ValueView)> {
    if hs.len() > depth { hs.take(depth as int) } else { hs }
}

/// A block: its statements run with a frame of their own for cleanups; the
/// effect handlers they registered are dropped when they end; when they
/// succeed, the cleanups their `defer` statements registered run, last
/// registered first, and the block's outcome stands unless a cleanup fails.
pub open spec fn ev_block(fx: Setup, ss: Seq<Stmt>, vars: Vars, sh: Shared) -> StmtOutcome
    decreases fx.max_ops - sh.ops, 1nat, 0nat,
{
    let r = ev_stmts(fx, ss, vars, Shared { defers: sh.defers.push(seq![]), ..sh });
    let c = close_frame(r.1.defers, sh.defers.len());
    let sh2 = Shared { defers: c.1, handlers: drop_handlers(r.1.handlers, sh.handlers.len()), ..r.1 };
    match r.2 {
        Err(x) => (r.0, sh2, Err(x)),
        Ok(v) => if c.0.len() == 0 {
            (r.0, sh2, Ok(v))
        } else if !(sh.ops < sh2.ops && sh2.ops <= fx.max_ops) {
            (r.0, sh2, Err(limit_error()))
        } else {
            let rc = ev_cleanups(fx, c.0, r.0, sh2);
            match rc.2 {
                Err(x) => rc,
                Ok(_) => (rc.0, rc.1, Ok(v)),
            }
        },
    }
}

/// Runs cleanups, the last one first: a block cleanup as a block, any other
/// statement as a block of its own; the first that fails stops.
pub open spec fn ev_cleanups(fx: Setup, cs: Seq<Stmt>, vars: Vars, sh: Shared) -> StmtOutcome
    decreases fx.max_ops - sh.ops, 2nat, cs.len(),
{
    if cs.len() == 0 {
        (vars, sh, Ok(None))
    } else {
        let c = cs.last();
        let r = match c {
            Stmt::Block(body, _) => ev_block(fx, body@, vars, sh),
            _ => ev_block(fx, seq![c], vars, sh),
        };
        match r.2 {
            Err(x) => (r.0, r.1, Err(x)),
            Ok(_) => if within(fx, sh, r.1) {
                ev_cleanups(fx, cs.drop_last(), r.0, r.1)
            } else {
                (r.0, r.1, Err(limit_error()))
            },
        }
    }
}

/// A block of one statement does what that statement does, when the
/// statement stays within the budget.
pub proof fn lemma_stmts_single(fx: Setup, s: Stmt, vars: Vars, sh: Shared)
    requires
        ev_stmt(fx, s, vars, sh).2 is Ok ==> within(fx, sh, ev_stmt(fx, s, vars, sh).1),
    ensures
        ev_stmts(fx, seq![s], vars, sh) == ev_stmt(fx, s, vars, sh),
{
    let ss = seq![s];
    assert(ss[0] == s);
    assert(ss.subrange(1, ss.len() as int) =~= Seq::<Stmt>::empty());
    let r = ev_stmt(fx, s, vars, sh);
    assert(ev_stmts(fx, Seq::<Stmt>::empty(), r.0, r.1) == (r.0, r.1, Ok::<Option<ValueView>, Seq<char>>(None)));
}

/// What a loop does with the signal its body left: stop on `break`, and
/// clear it either way.
pub open spec fn take_flow(sh: Shared) -> (Shared, bool) {
    (Shared { flow: None, ..sh }, sh.flow == Some(ControlFlow::Break))
}

/// A `loop` (no condition) or `while` loop: each turn counts one step, tests
/// the condition, runs the body; a returned value or an error stops, and so
/// does `break`.
pub open spec fn ev_loop(fx: Setup, cond: Option<Expr>, body: Seq<Stmt>, vars: Vars, sh: Shared) -> StmtOutcome
    decreases fx.max_ops - sh.ops, 2nat, 0nat,
{
    let t = tick(fx, sh);
    let sh1 = t.0;
    if !t.1 {
        (vars, sh1, Err(limit_error()))
    } else {
        let rc: ExprOutcome = match cond {
            None => (vars, sh1, Ok(ValueView::Bool(true))),
            Some(c) => ev_expr(fx, c, vars, sh1),
        };
        match rc.2 {
            Err(x) => (rc.0, rc.1, Err(x)),
            Ok(c) => if !truthy(c) {
                (rc.0, rc.1, Ok(None))
            } else if !within(fx, sh1, rc.1) {
                (rc.0, rc.1, Err(limit_error()))
            } else {
                let rb = ev_block(fx, body, rc.0, rc.1);
                match rb.2 {
                    Ok(None) => {
                        let f = take_flow(rb.1);
                        if f.1 {
                            (rb.0, f.0, Ok(None))
                        } else if within(fx, sh1, rb.1) {
                            ev_loop(fx, cond, body, rb.0, f.0)
                        } else {
                            (rb.0, rb.1, Err(limit_error()))
                        }
                    },
                    _ => rb,
                }
            },
        }
    }
}

/// A `for` loop over values: each bound to the variable in turn, then the
/// body; a returned value or an error stops, and so does `break`.
pub open spec fn ev_for(fx: Setup, var: Seq<char>, vals: Seq<ValueView>, body: Seq<Stmt>, vars: Vars, sh: Shared) -> StmtOutcome
    decreases fx.max_ops - sh.ops, 2nat, vals.len(),
{
    if vals.len() == 0 {
        (vars, sh, Ok(None))
    } else {
        let rb = ev_block(fx, body, vars.insert(var, vals[0]), sh);
        match rb.2 {
            Ok(None) => {
                let f = take_flow(rb.1);
                if f.1 {
                    (rb.0, f.0, Ok(None))
                } else if within(fx, sh, rb.1) {
                    ev_for(fx, var, vals.subrange(1, vals.len() as int), body, rb.0, f.0)
                } else {
                    (rb.0, rb.1, Err(limit_error()))
                }
            },
            _ => rb,
        }
    }
}

/// A `for` loop over the integers from `i` up to (not including) `n`.
pub open spec fn ev_for_int(fx: Setup, var: Seq<char>, i: i64, n: i64, body: Seq<Stmt>, vars: Vars, sh: Shared) -> StmtOutcome
    decreases fx.max_ops - sh.ops, 2nat, n - i,
{
    if i >= n {
        (vars, sh, Ok(None))
    } else {
        let rb = ev_block(fx, body, vars.insert(var, ValueView::Int(i)), sh);
        match rb.2 {
            Ok(None) => {
                let f = take_flow(rb.1);
                if f.1 {
                    (rb.0, f.0, Ok(None))
                } else if within(fx, sh, rb.1) {
                    ev_for_int(fx, var, (i + 1) as i64, n, body, rb.0, f.0)
                } else {
                    (rb.0, rb.1, Err(limit_error()))
                }
            },
            _ => rb,
        }
    }
}

/// The characters of a string, each as a string of its own.
pub open spec fn char_strings(s: Seq<char>) -> Seq<ValueView> {
    Seq::new(s.len(), |i: int| ValueView::Str(seq![s[i]]))
}

/// Running a statement: it counts one step, then acts.
pub open spec fn ev_stmt(fx: Setup, s: Stmt, vars: Vars, sh: Shared) -> StmtOutcome
    decreases fx.max_ops - sh.ops, 0nat, 0nat,
{
    let t = tick(fx, sh);
    let sh1 = t.0;
    if !t.1 {
        (vars, sh1, Err(limit_error()))
    } else {
        match s {
            Stmt::Let(name, _, e, _) | Stmt::LetMut(name, _, e, _) | Stmt::LetLinear(name, _, e, _) | Stmt::Assign(name, e, _) => {
                let r = ev_expr(fx, e, vars, sh1);
                match r.2 {
                    Ok(v) => (r.0.insert(name@, v), r.1, Ok(None)),
                    Err(x) => (r.0, r.1, Err(x)),
                }
            },
            Stmt::Print(e, _) => {
                let r = ev_expr(fx, e, vars, sh1);
                match r.2 {
                    Ok(v) => (r.0, Shared { printed: r.1.printed.push(value_text(fx.floats, v)), ..r.1 }, Ok(None)),
                    Err(x) => (r.0, r.1, Err(x)),
                }
            },
            Stmt::ExprStmt(e, _) => {
                let r = ev_expr(fx, e, vars, sh1);
                match r.2 {
                    Ok(_) => (r.0, r.1, Ok(None)),
                    Err(x) => (r.0, r.1, Err(x)),
                }
            },
            Stmt::Spawn { task, .. } => {
                let r = ev_expr(fx, *task, vars, sh1);
                match r.2 {
                    Ok(_) => (r.0, r.1, Ok(None)),
                    Err(x) => (r.0, r.1, Err(x)),
                }
            },
            Stmt::Block(body, _) | Stmt::Unsafe { body, .. } => ev_block(fx, body@, vars, sh1),
            Stmt::If { cond, then_body, else_body, .. } => {
                let rc = ev_expr(fx, *cond, vars, sh1);
                match rc.2 {
                    Err(x) => (rc.0, rc.1, Err(x)),
                    Ok(c) => if within(fx, sh1, rc.1) {
                        ev_block(fx, if truthy(c) { then_body@ } else { else_body@ }, rc.0, rc.1)
                    } else {
                        (rc.0, rc.1, Err(limit_error()))
                    },
                }
            },
            Stmt::Loop { body, .. } => ev_loop(fx, None, body@, vars, sh1),
            Stmt::While { cond, body, .. } => ev_loop(fx, Some(*cond), body@, vars, sh1),
            Stmt::For { var_name, iterable, body, .. } => {
                let r = ev_expr(fx, *iterable, vars, sh1);
                match r.2 {
                    Err(x) => (r.0, r.1, Err(x)),
                    Ok(it) => if !within(fx, sh1, r.1) {
                        (r.0, r.1, Err(limit_error()))
                    } else {
                        match it {
                            ValueView::Int(n) => ev_for_int(fx, var_name@, 0, n, body@, r.0, r.1),
                            ValueView::Str(t) => ev_for(fx, var_name@, char_strings(t), body@, r.0, r.1),
                            ValueView::Vector(vs) => ev_for(fx, var_name@, vs, body@, r.0, r.1),
                            ValueView::Dict(m) => ev_for(fx, var_name@, map_keys(m), body@, r.0, r.1),
                            _ => (r.0, r.1, Err("For loop requires int, string, vector, or map iterable"@)),
                        }
                    },
                }
            },
            Stmt::WhileIn { var_name, iterable, body, .. } => {
                let r = ev_expr(fx, *iterable, vars, sh1);
                match r.2 {
                    Err(x) => (r.0, r.1, Err(x)),
                    Ok(it) => if !within(fx, sh1, r.1) {
                        (r.0, r.1, Err(limit_error()))
                    } else {
                        match it {
                            ValueView::Int(n) => ev_for_int(fx, var_name@, 0, n, body@, r.0, r.1),
                            _ => (r.0, r.1, Err("WhileIn requires int iterable"@)),
                        }
                    },
                }
            },
            Stmt::Return(e, _) => {
                let r = ev_expr(fx, e, vars, sh1);
                match r.2 {
                    Ok(v) => (r.0, r.1, Ok(Some(v))),
                    Err(x) => (r.0, r.1, Err(x)),
                }
            },
            Stmt::Break(_) => (vars, Shared { flow: Some(ControlFlow::Break), ..sh1 }, Ok(None)),
            Stmt::Continue(_) => (vars, Shared { flow: Some(ControlFlow::Continue), ..sh1 }, Ok(None)),
            Stmt::DerefAssign(..) => (vars, sh1, Err("reference assignment is available only in the qualified MIR/native path"@)),
            Stmt::Defer { cleanup, .. } | Stmt::AsyncDefer { cleanup, .. } =>
                (vars, Shared {
                    defers: if sh1.defers.len() > 0 {
                        sh1.defers.update(sh1.defers.len() - 1, sh1.defers.last().push(*cleanup))
                    } else {
                        sh1.defers
                    },
                    ..sh1
                }, Ok(None)),
            Stmt::EffectHandler { effect, handler, .. } => {
                let r = ev_expr(fx, *handler, vars, sh1);
                match r.2 {
                    Ok(v) => (r.0, Shared { handlers: r.1.handlers.push((effect@, v)), ..r.1 }, Ok(None)),
                    Err(x) => (r.0, r.1, Err(x)),
                }
            },
            Stmt::Channel { .. } => (vars, sh1, Err("statement form is not supported by this interpreter"@)),
            _ => (vars, sh1, Ok(None)),
        }
    }
}

// ---------------------------------------------------------------------------
// What a run keeps
// ---------------------------------------------------------------------------

/// `b` starts with the handlers of `a`.
pub open spec fn hkeeps(a: Seq<(Seq<char>, ValueView)>, b: Seq<(Seq<char>, ValueView)>) -> bool {
    a.len() <= b.len() && forall|i: int| 0 <= i < a.len() ==> #[trigger] b[i] == a[i]
}

/// `b` starts with the lines of `a`.
pub open spec fn keeps(a: Seq<Seq<char>>, b: Seq<Seq<char>>) -> bool {
    a.len() <= b.len() && forall|i: int| 0 <= i < a.len() ==> #[trigger] b[i] == a[i]
}

proof fn lemma_expr_keeps(fx: Setup, e: Expr, vars: Vars, sh: Shared)
    ensures
        keeps(sh.printed, ev_expr(fx, e, vars, sh).1.printed),
        ev_expr(fx, e, vars, sh).1.handlers == sh.handlers,
    decreases fx.max_ops - sh.ops, 0nat, 0nat,
{
    let t = tick(fx, sh);
    let sh1 = t.0;
    if t.1 {
        match e {
            Expr::Call(name, args, _) => {
                lemma_list_keeps(fx, args@, vars, sh1, seq![]);
                let r = ev_list(fx, args@, vars, sh1, seq![]);
                if r.2 is Ok && within(fx, sh1, r.1) {
                    lemma_call_keeps(fx, name@, first_var(args@), r.2->Ok_0, r.0, r.1);
                }
            },
            Expr::BinaryOp { left, right, .. } => {
                lemma_expr_keeps(fx, *left, vars, sh1);
                let ra = ev_expr(fx, *left, vars, sh1);
                if ra.2 is Ok && within(fx, sh1, ra.1) {
                    lemma_expr_keeps(fx, *right, ra.0, ra.1);
                }
            },
            Expr::UnaryOp { inner, .. } => {
                lemma_expr_keeps(fx, *inner, vars, sh1);
            },
            Expr::IfExpr { cond, then, else_, .. } => {
                lemma_expr_keeps(fx, *cond, vars, sh1);
                let rc = ev_expr(fx, *cond, vars, sh1);
                if rc.2 is Ok && within(fx, sh1, rc.1) {
                    lemma_expr_keeps(fx, if truthy(rc.2->Ok_0) { *then } else { *else_ }, rc.0, rc.1);
                }
            },
            Expr::Block(stmts, _) => {
                lemma_block_keeps(fx, stmts@, vars, sh1);
            },
            Expr::Tuple(es, _) | Expr::Array(es, _) => {
                lemma_list_keeps(fx, es@, vars, sh1, seq![]);
            },
            Expr::Index(base, index, _) => {
                lemma_expr_keeps(fx, *base, vars, sh1);
                let ra = ev_expr(fx, *base, vars, sh1);
                if ra.2 is Ok && within(fx, sh1, ra.1) {
                    lemma_expr_keeps(fx, *index, ra.0, ra.1);
                }
            },
            Expr::Await(inner, _) | Expr::Try(inner, _) => {
                lemma_expr_keeps(fx, *inner, vars, sh1);
            },
            Expr::StructLit { fields, .. } => {
                lemma_fields_keeps(fx, fields@, vars, sh1, seq![]);
            },
            Expr::FieldAccess { base, .. } => {
                lemma_expr_keeps(fx, *base, vars, sh1);
            },
            Expr::Match { expr, arms, .. } => {
                lemma_expr_keeps(fx, *expr, vars, sh1);
                let r = ev_expr(fx, *expr, vars, sh1);
                if r.2 is Ok && within(fx, sh1, r.1) {
                    lemma_arms_keeps(fx, arms@, r.2->Ok_0, r.0, r.1);
                }
            },
            Expr::Interpolated(frags, _) => {
                lemma_interp_keeps(fx, frags@, vars, sh1, seq![]);
            },
            Expr::Range { start, end, .. } => {
                lemma_expr_keeps(fx, *start, vars, sh1);
                let ra = ev_expr(fx, *start, vars, sh1);
                if ra.2 is Ok && within(fx, sh1, ra.1) {
                    lemma_expr_keeps(fx, *end, ra.0, ra.1);
                }
            },
            _ => {},
        }
    }
}

proof fn lemma_list_keeps(fx: Setup, es: Seq<Expr>, vars: Vars, sh: Shared, acc: Seq<ValueView>)
    ensures
        keeps(sh.printed, ev_list(fx, es, vars, sh, acc).1.printed),
        ev_list(fx, es, vars, sh, acc).1.handlers == sh.handlers,
    decreases fx.max_ops - sh.ops, 1nat, es.len(),
{
    if es.len() > 0 {
        lemma_expr_keeps(fx, es[0], vars, sh);
        let r = ev_expr(fx, es[0], vars, sh);
        if r.2 is Ok && within(fx, sh, r.1) {
            lemma_list_keeps(fx, es.subrange(1, es.len() as int), r.0, r.1, acc.push(r.2->Ok_0));
        }
    }
}

proof fn lemma_fields_keeps(fx: Setup, fs: Seq<(String, Expr)>, vars: Vars, sh: Shared, acc: Seq<(Seq<char>, ValueView)>)
    ensures
        keeps(sh.printed, ev_fields(fx, fs, vars, sh, acc).1.printed),
        ev_fields(fx, fs, vars, sh, acc).1.handlers == sh.handlers,
    decreases fx.max_ops - sh.ops, 1nat, fs.len(),
{
    if fs.len() > 0 {
        lemma_expr_keeps(fx, fs[0].1, vars, sh);
        let r = ev_expr(fx, fs[0].1, vars, sh);
        if r.2 is Ok && within(fx, sh, r.1) {
            lemma_fields_keeps(fx, fs.subrange(1, fs.len() as int), r.0, r.1, acc.push((fs[0].0@, r.2->Ok_0)));
        }
    }
}

proof fn lemma_arms_keeps(fx: Setup, arms: Seq<MatchArm>, v: ValueView, vars: Vars, sh: Shared)
    ensures
        keeps(sh.printed, ev_arms(fx, arms, v, vars, sh).0.printed),
        ev_arms(fx, arms, v, vars, sh).0.handlers == sh.handlers,
    decreases fx.max_ops - sh.ops, 1nat, arms.len(),
{
    if arms.len() > 0 {
        let arm = arms[0];
        let rest = arms.subrange(1, arms.len() as int);
        match pattern_binds(arm.pattern, v) {
            None => {
                lemma_arms_keeps(fx, rest, v, vars, sh);
            },
            Some(b) => {
                let local = bind_all(vars, b);
                match arm.guard {
                    None => {
                        lemma_expr_keeps(fx, *arm.body, local, sh);
                    },
                    Some(g) => {
                        lemma_expr_keeps(fx, *g, local, sh);
                        let rg = ev_expr(fx, *g, local, sh);
                        if rg.2 is Ok && within(fx, sh, rg.1) {
                            if truthy(rg.2->Ok_0) {
                                lemma_expr_keeps(fx, *arm.body, rg.0, rg.1);
                            } else {
                                lemma_arms_keeps(fx, rest, v, vars, rg.1);
                            }
                        }
                    },
                }
            },
        }
    }
}

proof fn lemma_interp_keeps(fx: Setup, frags: Seq<InterpolatedFragment>, vars: Vars, sh: Shared, acc: Seq<char>)
    ensures
        keeps(sh.printed, ev_interp(fx, frags, vars, sh, acc).1.printed),
        ev_interp(fx, frags, vars, sh, acc).1.handlers == sh.handlers,
    decreases fx.max_ops - sh.ops, 1nat, frags.len(),
{
    if frags.len() > 0 {
        let rest = frags.subrange(1, frags.len() as int);
        match frags[0] {
            InterpolatedFragment::Literal(t, _) => {
                lemma_interp_keeps(fx, rest, vars, sh, acc + t@);
            },
            InterpolatedFragment::Expr(e) => {
                lemma_expr_keeps(fx, *e, vars, sh);
                let r = ev_expr(fx, *e, vars, sh);
                if r.2 is Ok && within(fx, sh, r.1) {
                    lemma_interp_keeps(fx, rest, r.0, r.1, acc + value_text(fx.floats, r.2->Ok_0));
                }
            },
        }
    }
}

proof fn lemma_declared_keeps(fx: Setup, name: Seq<char>, vals: Seq<ValueView>, vars: Vars, sh: Shared)
    ensures
        keeps(sh.printed, ev_declared(fx, name, vals, vars, sh).0.printed),
        ev_declared(fx, name, vals, vars, sh).0.handlers == sh.handlers,
    decreases fx.max_ops - sh.ops, 3nat, 0nat,
{
    if fx.funs.contains_key(name) {
        let f = fx.funs[name];
        if vals.len() == f.0.len() {
            lemma_block_keeps(fx, f.1, vars.union_prefer_right(params_map(f.0, vals)), sh);
        }
    }
}

proof fn lemma_fn_builtin_keeps(fx: Setup, p: FnPlan, vars: Vars, sh: Shared)
    ensures
        keeps(sh.printed, ev_fn_builtin(fx, p, vars, sh).0.printed),
        ev_fn_builtin(fx, p, vars, sh).0.handlers == sh.handlers,
    decreases fx.max_ops - sh.ops, 3nat, 0nat,
{
    if fx.funs.contains_key(p.fname) {
        let f = fx.funs[p.fname];
        if f.0.len() == (if p.one_param { 1nat } else { 0nat }) && !(p.one_param && p.arg is Err) {
            let local = if p.one_param { vars.insert(f.0[0].0@, p.arg->Ok_0) } else { vars };
            lemma_block_keeps(fx, f.1, local, sh);
        }
    }
}

proof fn lemma_call_keeps(fx: Setup, name: Seq<char>, fv: Option<Seq<char>>, vals: Seq<ValueView>, vars: Vars, sh: Shared)
    ensures
        keeps(sh.printed, ev_call(fx, name, fv, vals, vars, sh).1.printed),
        ev_call(fx, name, fv, vals, vars, sh).1.handlers == sh.handlers,
    decreases fx.max_ops - sh.ops, 4nat, 0nat,
{
    if builtin_result(name, vals) is None && builtin_mut(name, vals, fv is Some) is None {
        match fn_builtin(name, vals) {
            Some(FnStep::Call(p)) => {
                lemma_fn_builtin_keeps(fx, p, vars, sh);
            },
            Some(FnStep::Done(_)) => {},
            None => {
                lemma_dispatch_keeps(fx, name, vals, vars, sh);
            },
        }
    }
}

proof fn lemma_dispatch_keeps(fx: Setup, name: Seq<char>, vals: Seq<ValueView>, vars: Vars, sh: Shared)
    ensures
        keeps(sh.printed, ev_dispatch(fx, name, vals, vars, sh).0.printed),
        ev_dispatch(fx, name, vals, vars, sh).0.handlers == sh.handlers,
    decreases fx.max_ops - sh.ops, 3nat, 1nat,
{
    match resolve_handler(sh.handlers, name) {
        Some(ValueView::Closure(id)) => {
            if id < sh.closures.len() {
                let c = sh.closures[id as int];
                if c.0.len() == vals.len() {
                    lemma_expr_keeps(fx, c.1, c.2.union_prefer_right(params_map(c.0, vals)), sh);
                }
            } else {
                lemma_declared_keeps(fx, name, vals, vars, sh);
            }
        },
        _ => {
            lemma_declared_keeps(fx, name, vals, vars, sh);
        },
    }
}

proof fn lemma_stmts_keeps(fx: Setup, ss: Seq<Stmt>, vars: Vars, sh: Shared)
    ensures
        keeps(sh.printed, ev_stmts(fx, ss, vars, sh).1.printed),
        hkeeps(sh.handlers, ev_stmts(fx, ss, vars, sh).1.handlers),
    decreases fx.max_ops - sh.ops, 0nat, ss.len(),
{
    if ss.len() > 0 {
        lemma_stmt_keeps(fx, ss[0], vars, sh);
        let r = ev_stmt(fx, ss[0], vars, sh);
        if r.2 == Ok::<Option<ValueView>, Seq<char>>(None) && !(ss[0] is Break || ss[0] is Continue) && within(fx, sh, r.1) {
            lemma_stmts_keeps(fx, ss.subrange(1, ss.len() as int), r.0, r.1);
        }
    }
}

proof fn lemma_block_keeps(fx: Setup, ss: Seq<Stmt>, vars: Vars, sh: Shared)
    ensures
        keeps(sh.printed, ev_block(fx, ss, vars, sh).1.printed),
        ev_block(fx, ss, vars, sh).1.handlers == sh.handlers,
    decreases fx.max_ops - sh.ops, 1nat, 0nat,
{
    let sh_in = Shared { defers: sh.defers.push(seq![]), ..sh };
    lemma_stmts_keeps(fx, ss, vars, sh_in);
    let r = ev_stmts(fx, ss, vars, sh_in);
    let c = close_frame(r.1.defers, sh.defers.len());
    let sh2 = Shared { defers: c.1, handlers: drop_handlers(r.1.handlers, sh.handlers.len()), ..r.1 };
    assert(sh2.handlers =~= sh.handlers);
    if r.2 is Ok && c.0.len() > 0 && sh.ops < sh2.ops && sh2.ops <= fx.max_ops {
        lemma_cleanups_keeps(fx, c.0, r.0, sh2);
    }
}

proof fn lemma_cleanups_keeps(fx: Setup, cs: Seq<Stmt>, vars: Vars, sh: Shared)
    ensures
        keeps(sh.printed, ev_cleanups(fx, cs, vars, sh).1.printed),
        ev_cleanups(fx, cs, vars, sh).1.handlers == sh.handlers,
    decreases fx.max_ops - sh.ops, 2nat, cs.len(),
{
    if cs.len() > 0 {
        let c = cs.last();
        match c {
            Stmt::Block(body, _) => lemma_block_keeps(fx, body@, vars, sh),
            _ => lemma_block_keeps(fx, seq![c], vars, sh),
        }
        let r = match c {
            Stmt::Block(body, _) => ev_block(fx, body@, vars, sh),
            _ => ev_block(fx, seq![c], vars, sh),
        };
        if r.2 is Ok && within(fx, sh, r.1) {
            lemma_cleanups_keeps(fx, cs.drop_last(), r.0, r.1);
        }
    }
}

proof fn lemma_loop_keeps(fx: Setup, cond: Option<Expr>, body: Seq<Stmt>, vars: Vars, sh: Shared)
    ensures
        keeps(sh.printed, ev_loop(fx, cond, body, vars, sh).1.printed),
        ev_loop(fx, cond, body, vars, sh).1.handlers == sh.handlers,
    decreases fx.max_ops - sh.ops, 2nat, 0nat,
{
    let t = tick(fx, sh);
    let sh1 = t.0;
    if t.1 {
        let rc: ExprOutcome = match cond {
            None => (vars, sh1, Ok(ValueView::Bool(true))),
            Some(c) => ev_expr(fx, c, vars, sh1),
        };
        match cond {
            Some(c) => lemma_expr_keeps(fx, c, vars, sh1),
            None => {},
        }
        if rc.2 is Ok && truthy(rc.2->Ok_0) && within(fx, sh1, rc.1) {
            lemma_block_keeps(fx, body, rc.0, rc.1);
            let rb = ev_block(fx, body, rc.0, rc.1);
            let f = take_flow(rb.1);
            if rb.2 == Ok::<Option<ValueView>, Seq<char>>(None) && !f.1 && within(fx, sh1, rb.1) {
                lemma_loop_keeps(fx, cond, body, rb.0, f.0);
            }
        }
    }
}

proof fn lemma_for_keeps(fx: Setup, var: Seq<char>, vals: Seq<ValueView>, body: Seq<Stmt>, vars: Vars, sh: Shared)
    ensures
        keeps(sh.printed, ev_for(fx, var, vals, body, vars, sh).1.printed),
        ev_for(fx, var, vals, body, vars, sh).1.handlers == sh.handlers,
    decreases fx.max_ops - sh.ops, 2nat, vals.len(),
{
    if vals.len() > 0 {
        lemma_block_keeps(fx, body, vars.insert(var, vals[0]), sh);
        let rb = ev_block(fx, body, vars.insert(var, vals[0]), sh);
        let f = take_flow(rb.1);
        if rb.2 == Ok::<Option<ValueView>, Seq<char>>(None) && !f.1 && within(fx, sh, rb.1) {
            lemma_for_keeps(fx, var, vals.subrange(1, vals.len() as int), body, rb.0, f.0);
        }
    }
}

proof fn lemma_for_int_keeps(fx: Setup, var: Seq<char>, i: i64, n: i64, body: Seq<Stmt>, vars: Vars, sh: Shared)
    ensures
        keeps(sh.printed, ev_for_int(fx, var, i, n, body, vars, sh).1.printed),
        ev_for_int(fx, var, i, n, body, vars, sh).1.handlers == sh.handlers,
    decreases fx.max_ops - sh.ops, 2nat, n - i,
{
    if i < n {
        lemma_block_keeps(fx, body, vars.insert(var, ValueView::Int(i)), sh);
        let rb = ev_block(fx, body, vars.insert(var, ValueView::Int(i)), sh);
        let f = take_flow(rb.1);
        if rb.2 == Ok::<Option<ValueView>, Seq<char>>(None) && !f.1 && within(fx, sh, rb.1) {
            lemma_for_int_keeps(fx, var, (i + 1) as i64, n, body, rb.0, f.0);
        }
    }
}

#[verifier::rlimit(30)]
proof fn lemma_stmt_keeps(fx: Setup, s: Stmt, vars: Vars, sh: Shared)
    ensures
        keeps(sh.printed, ev_stmt(fx, s, vars, sh).1.printed),
        hkeeps(sh.handlers, ev_stmt(fx, s, vars, sh).1.handlers),
    decreases fx.max_ops - sh.ops, 0nat, 0nat,
{
    let t = tick(fx, sh);
    let sh1 = t.0;
    if t.1 {
        match s {
            Stmt::Let(_, _, e, _) | Stmt::LetMut(_, _, e, _) | Stmt::LetLinear(_, _, e, _) | Stmt::Assign(_, e, _)
            | Stmt::Print(e, _) | Stmt::ExprStmt(e, _) | Stmt::Return(e, _) => {
                lemma_expr_keeps(fx, e, vars, sh1);
            },
            Stmt::Spawn { task, .. } | Stmt::EffectHandler { handler: task, .. } => {
                lemma_expr_keeps(fx, *task, vars, sh1);
            },
            Stmt::Block(body, _) | Stmt::Unsafe { body, .. } => {
                lemma_block_keeps(fx, body@, vars, sh1);
            },
            Stmt::If { cond, then_body, else_body, .. } => {
                lemma_expr_keeps(fx, *cond, vars, sh1);
                let rc = ev_expr(fx, *cond, vars, sh1);
                if rc.2 is Ok && within(fx, sh1, rc.1) {
                    lemma_block_keeps(fx, if truthy(rc.2->Ok_0) { then_body@ } else { else_body@ }, rc.0, rc.1);
                }
            },
            Stmt::Loop { body, .. } => {
                lemma_loop_keeps(fx, None, body@, vars, sh1);
            },
            Stmt::While { cond, body, .. } => {
                lemma_loop_keeps(fx, Some(*cond), body@, vars, sh1);
            },
            Stmt::For { var_name, iterable, body, .. } => {
                lemma_expr_keeps(fx, *iterable, vars, sh1);
                let r = ev_expr(fx, *iterable, vars, sh1);
                if r.2 is Ok && within(fx, sh1, r.1) {
                    match r.2->Ok_0 {
                        ValueView::Int(n) => lemma_for_int_keeps(fx, var_name@, 0, n, body@, r.0, r.1),
                        ValueView::Str(t) => lemma_for_keeps(fx, var_name@, char_strings(t), body@, r.0, r.1),
                        ValueView::Vector(vs) => lemma_for_keeps(fx, var_name@, vs, body@, r.0, r.1),
                        ValueView::Dict(m) => lemma_for_keeps(fx, var_name@, map_keys(m), body@, r.0, r.1),
                        _ => {},
                    }
                }
            },
            Stmt::WhileIn { var_name, iterable, body, .. } => {
                lemma_expr_keeps(fx, *iterable, vars, sh1);
                let r = ev_expr(fx, *iterable, vars, sh1);
                if r.2 is Ok && within(fx, sh1, r.1) {
                    match r.2->Ok_0 {
                        ValueView::Int(n) => lemma_for_int_keeps(fx, var_name@, 0, n, body@, r.0, r.1),
                        _ => {},
                    }
                }
            },
            _ => {},
        }
    }
}

/// An effect handler lasts as long as the block that registers it: running
/// a block of statements leaves the registered handlers as they were.
pub proof fn law_handlers_are_scoped_to_their_block(fx: Setup, ss: Seq<Stmt>, vars: Vars, sh: Shared)
    ensures
        ev_block(fx, ss, vars, sh).1.handlers == sh.handlers,
{
    lemma_block_keeps(fx, ss, vars, sh);
}

/// What a program prints stays printed: running a block of statements, as
/// any run does, only ever adds lines after those already printed.
pub proof fn law_printed_lines_are_kept(fx: Setup, ss: Seq<Stmt>, vars: Vars, sh: Shared)
    ensures
        keeps(sh.printed, ev_block(fx, ss, vars, sh).1.printed),
{
    lemma_block_keeps(fx, ss, vars, sh);
}

// ---------------------------------------------------------------------------
// Values, concretely
// ---------------------------------------------------------------------------

/// A deep copy of a value.
pub fn copy_value(v: &Value) -> (r: Value)
    ensures
        value_view(r) == value_view(*v),
    decreases v,
{
    match v {
        Value::Unit => Value::Unit,
        Value::Int(n) => Value::Int(*n),
        Value::Float(b) => Value::Float(*b),
        Value::Char(c) => Value::Char(*c),
        Value::Byte(b) => Value::Byte(*b),
        Value::Str(t) => Value::Str(t.clone()),
        Value::Bytes(bs) => Value::Bytes(copy_bytes(bs)),
        Value::Bool(b) => Value::Bool(*b),
        Value::Vector(vs) => Value::Vector(copy_values(vs)),
        Value::Dict(es) => Value::Dict(copy_fields(es)),
        Value::Closure(i) => Value::Closure(*i),
        Value::Record(name, fs) => Value::Record(name.clone(), copy_fields(fs)),
    }
}

fn copy_bytes(v: &Vec<u8>) -> (r: Vec<u8>)
    ensures
        r@ == v@,
{
    let mut out: Vec<u8> = Vec::new();
    let mut i: usize = 0;
    while i < v.len()
        invariant
            i <= v@.len(),
            out@ == v@.take(i as int),
        decreases v.len() - i,
    {
        out.push(v[i]);
        i = i + 1;
        assert(out@ =~= v@.take(i as int));
    }
    assert(v@.take(i as int) =~= v@);
    out
}

/// Appends how `print` writes a byte string.
fn push_bytes(s: &mut String, bs: &Vec<u8>)
    ensures
        final(s)@ == old(s)@ + "["@ + bytes_items(bs@) + "]"@,
{
    let ghost s0 = s@;
    push_str(s, "[");
    let mut i: usize = 0;
    assert(bs@.take(0) =~= Seq::<u8>::empty());
    while i < bs.len()
        invariant
            i <= bs@.len(),
            s@ == s0 + "["@ + bytes_items(bs@.take(i as int)),
        decreases bs.len() - i,
    {
        let ghost before = s@;
        if i > 0 {
            push_str(s, ", ");
        }
        push_decimal_u64(s, bs[i] as u64);
        proof {
            let t = bs@.take(i + 1);
            assert(t.drop_last() =~= bs@.take(i as int));
            assert(t.last() == bs@[i as int]);
            if i == 0 {
                assert(t.len() == 1);
                assert(t[0] == bs@[0]);
                assert(s@ =~= s0 + "["@ + bytes_items(t));
            } else {
                assert(s@ =~= s0 + "["@ + bytes_items(t));
            }
        }
        i = i + 1;
    }
    assert(bs@.take(i as int) =~= bs@);
    push_str(s, "]");
    assert(s@ =~= s0 + "["@ + bytes_items(bs@) + "]"@);
}

fn copy_fields(v: &Vec<(String, Value)>) -> (r: Vec<(String, Value)>)
    ensures
        fields_view(r@) == fields_view(v@),
    decreases v,
{
    let mut out: Vec<(String, Value)> = Vec::new();
    let mut i: usize = 0;
    while i < v.len()
        invariant
            i <= v@.len(),
            out@.len() == i,
            forall|q: int| 0 <= q < i ==> (#[trigger] out@[q]).0@ == v@[q].0@ && value_view(out@[q].1) == value_view(v@[q].1),
        decreases v.len() - i,
    {
        let c = copy_value(&v[i].1);
        out.push((v[i].0.clone(), c));
        i = i + 1;
    }
    proof {
        lemma_fields_view(out@);
        lemma_fields_view(v@);
        assert(fields_view(out@) =~= fields_view(v@));
    }
    out
}

fn copy_values(v: &Vec<Value>) -> (r: Vec<Value>)
    ensures
        values_view(r@) == values_view(v@),
    decreases v,
{
    let mut out: Vec<Value> = Vec::new();
    let mut i: usize = 0;
    while i < v.len()
        invariant
            i <= v@.len(),
            out@.len() == i,
            forall|q: int| 0 <= q < i ==> value_view(#[trigger] out@[q]) == value_view(v@[q]),
        decreases v.len() - i,
    {
        let c = copy_value(&v[i]);
        out.push(c);
        i = i + 1;
    }
    proof {
        lemma_values_view(out@);
        lemma_values_view(v@);
        assert(values_view(out@) =~= values_view(v@));
    }
    out
}

pub open spec fn env_view(m: Map<Seq<char>, Value>) -> Vars {
    m.map_values(|v: Value| value_view(v))
}

/// A deep copy of a set of variables.
fn copy_vars(m: &StrMap<Value>) -> (r: StrMap<Value>)
    ensures
        env_view(r@) == env_view(m@),
{
    let es = m.entries();
    let mut out: StrMap<Value> = StrMap::new();
    let mut i: usize = 0;
    assert(es@.take(0) =~= Seq::<(String, Value)>::empty());
    assert(env_view(out@) =~= env_view(entries_map(es@.take(0))));
    while i < es.len()
        invariant
            i <= es@.len(),
            env_view(out@) == env_view(entries_map(es@.take(i as int))),
        decreases es.len() - i,
    {
        let c = copy_value(&es[i].1);
        let ghost before = out@;
        let ghost cv = value_view(c);
        let k = es[i].0.clone();
        out.insert(k, c);
        proof {
            assert(es@.take(i + 1).drop_last() =~= es@.take(i as int));
            assert(es@.take(i + 1).last() == es@[i as int]);
            assert(entries_map(es@.take(i + 1)) == entries_map(es@.take(i as int)).insert(es@[i as int].0@, es@[i as int].1));
            assert(env_view(out@) =~= env_view(before).insert(es@[i as int].0@, cv));
            assert(env_view(entries_map(es@.take(i + 1))) =~= env_view(entries_map(es@.take(i as int))).insert(es@[i as int].0@, value_view(es@[i as int].1)));
        }
        i = i + 1;
    }
    assert(es@.take(i as int) =~= es@);
    out
}

fn is_truthy(v: &Value) -> (b: bool)
    ensures
        b == truthy(value_view(*v)),
{
    match v {
        Value::Unit => false,
        Value::Int(n) => *n != 0,
        Value::Float(b) => *b != 0 && *b != 0x8000_0000_0000_0000u64,
        Value::Char(c) => *c != '\0',
        Value::Byte(b) => *b != 0,
        Value::Str(t) => chars_of(t.as_str()).len() > 0,
        Value::Bytes(bs) => bs.len() > 0,
        Value::Dict(es) => {
            proof {
                lemma_fields_view(es@);
            }
            es.len() > 0
        },
        Value::Closure(_) => true,
        Value::Bool(b) => *b,
        Value::Vector(vs) => {
            proof {
                lemma_values_view(vs@);
            }
            vs.len() > 0
        },
        Value::Record(..) => true,
    }
}

fn push_int(s: &mut String, n: i64)
    ensures
        final(s)@ == old(s)@ + int_text(n),
{
    if n < 0 {
        let ghost before = s@;
        push_char(s, '-');
        let m: u64 = if n == i64::MIN { 9223372036854775808u64 } else { (-n) as u64 };
        assert(m as nat == (-n) as nat);
        push_decimal_u64(s, m);
        proof {
            reveal_strlit("-");
        }
        assert(s@ =~= before + int_text(n));
    } else {
        push_decimal_u64(s, n as u64);
    }
}

pub open spec fn floats_view(t: Seq<(u64, String)>) -> Seq<(u64, Seq<char>)> {
    t.map_values(|p: (u64, String)| (p.0, p.1@))
}

fn lookup_float(table: &Vec<(u64, String)>, bits: u64) -> (r: String)
    ensures
        r@ == float_text(floats_view(table@), bits),
{
    let ghost ft = floats_view(table@);
    let mut i: usize = 0;
    assert(ft.skip(0) =~= ft);
    while i < table.len()
        invariant
            i <= table@.len(),
            ft == floats_view(table@),
            float_text(ft, bits) == float_text(ft.skip(i as int), bits),
        decreases table.len() - i,
    {
        assert(ft.skip(i as int).drop_first() =~= ft.skip(i + 1));
        assert(ft.skip(i as int)[0] == ft[i as int]);
        if table[i].0 == bits {
            return table[i].1.clone();
        }
        i = i + 1;
    }
    assert(ft.skip(i as int).len() == 0);
    String::new()
}

/// How `print` writes a value, with the texts of floating-point values
/// taken from `floats`.
pub fn value_to_string(floats: &Vec<(u64, String)>, v: &Value) -> (r: String)
    ensures
        r@ == value_text(floats_view(floats@), value_view(*v)),
{
    let mut s = String::new();
    match v {
        Value::Unit => push_str(&mut s, "()"),
        Value::Int(n) => push_int(&mut s, *n),
        Value::Float(b) => {
            return lookup_float(floats, *b);
        },
        Value::Char(c) => {
            push_char(&mut s, *c);
            assert(s@ =~= seq![*c]);
        },
        Value::Byte(b) => push_decimal_u64(&mut s, *b as u64),
        Value::Str(t) => {
            return t.clone();
        },
        Value::Bool(b) => {
            if *b {
                push_str(&mut s, "true");
            } else {
                push_str(&mut s, "false");
            }
        },
        Value::Vector(vs) => {
            proof {
                lemma_values_view(vs@);
            }
            push_str(&mut s, "<vector len=");
            crate::text::push_decimal(&mut s, vs.len());
            push_str(&mut s, ">");
        },
        Value::Bytes(bs) => push_bytes(&mut s, bs),
        Value::Dict(es) => {
            proof {
                lemma_fields_view(es@);
            }
            push_str(&mut s, "<map len=");
            crate::text::push_decimal(&mut s, es.len());
            push_str(&mut s, ">");
        },
        Value::Closure(_) => push_str(&mut s, "<fn>"),
        Value::Record(name, _) => {
            push_str(&mut s, name.as_str());
            push_str(&mut s, " { ... }");
        },
    }
    proof {
        reveal_strlit("()");
        reveal_strlit("true");
        reveal_strlit("false");
    }
    s
}

pub open spec fn result_view(r: Result<Value, String>) -> Result<ValueView, Seq<char>> {
    match r {
        Ok(v) => Ok(value_view(v)),
        Err(e) => Err(e@),
    }
}

pub open spec fn signal_view(r: Result<Option<Value>, String>) -> Result<Option<ValueView>, Seq<char>> {
    match r {
        Ok(Some(v)) => Ok(Some(value_view(v))),
        Ok(None) => Ok(None),
        Err(e) => Err(e@),
    }
}

fn error_with(prefix: &str, name: &str) -> (r: String)
    ensures
        r@ == prefix@ + name@,
{
    let mut m = String::from_str(prefix);
    push_str(&mut m, name);
    m
}

fn message(text: &str) -> (r: String)
    ensures
        r@ == text@,
{
    String::from_str(text)
}

fn int_binary_exec(op: TokenKind, a: i64, b: i64) -> (r: Result<Value, String>)
    ensures
        result_view(r) == int_binary(op, a, b),
{
    let flag = |c: bool| -> (v: Value) ensures v == Value::Int(if c { 1i64 } else { 0i64 }) { Value::Int(if c { 1 } else { 0 }) };
    match op {
        TokenKind::Plus => match a.checked_add(b) {
            Some(v) => Ok(Value::Int(v)),
            None => Err(message("integer addition overflow")),
        },
        TokenKind::Minus => match a.checked_sub(b) {
            Some(v) => Ok(Value::Int(v)),
            None => Err(message("integer subtraction overflow")),
        },
        TokenKind::Star => match a.checked_mul(b) {
            Some(v) => Ok(Value::Int(v)),
            None => Err(message("integer multiplication overflow")),
        },
        TokenKind::Slash => match a.checked_div(b) {
            Some(v) => Ok(Value::Int(v)),
            None => Err(message("integer division by zero or overflow")),
        },
        TokenKind::Percent => match a.checked_rem(b) {
            Some(v) => Ok(Value::Int(v)),
            None => Err(message("integer remainder by zero or overflow")),
        },
        TokenKind::EqEq => Ok(flag(a == b)),
        TokenKind::NotEq => Ok(flag(a != b)),
        TokenKind::Lt => Ok(flag(a < b)),
        TokenKind::LtEq => Ok(flag(a <= b)),
        TokenKind::Gt => Ok(flag(a > b)),
        TokenKind::GtEq => Ok(flag(a >= b)),
        _ => Err(message("Unsupported binary op for ints")),
    }
}

fn binary_exec(op: TokenKind, a: &Value, b: &Value) -> (r: Result<Value, String>)
    ensures
        result_view(r) == binary_result(op, value_view(*a), value_view(*b)),
{
    match (a, b) {
        (Value::Int(x), Value::Int(y)) => int_binary_exec(op, *x, *y),
        (Value::Str(x), Value::Str(y)) => match op {
            TokenKind::Plus => {
                let mut t = x.clone();
                push_str(&mut t, y.as_str());
                Ok(Value::Str(t))
            },
            TokenKind::EqEq => Ok(Value::Int(if str_eq(x.as_str(), y.as_str()) { 1 } else { 0 })),
            TokenKind::NotEq => Ok(Value::Int(if str_eq(x.as_str(), y.as_str()) { 0 } else { 1 })),
            _ => Err(message("Unsupported binary op for strings")),
        },
        _ => Err(message("Unsupported binary op types")),
    }
}

fn unary_exec(op: TokenKind, v: &Value) -> (r: Result<Value, String>)
    ensures
        result_view(r) == unary_result(op, value_view(*v)),
{
    match op {
        TokenKind::Minus => match v {
            Value::Int(n) => if *n == i64::MIN {
                Err(message("integer negation overflow"))
            } else {
                Ok(Value::Int(-*n))
            },
            _ => Err(message("Unary - requires int")),
        },
        TokenKind::Bang => match v {
            Value::Bool(b) => Ok(Value::Bool(!*b)),
            _ => Err(message("Unary ! requires bool")),
        },
        _ => Err(message("Unsupported unary op")),
    }
}

fn index_exec(base: &Value, idx: &Value) -> (r: Result<Value, String>)
    ensures
        result_view(r) == index_result(value_view(*base), value_view(*idx)),
{
    match (base, idx) {
        (Value::Vector(vs), Value::Int(i)) => {
            proof {
                lemma_values_view(vs@);
                reveal_strlit("vector index");
            }
            match checked_index(*i, "vector index") {
                Err(e) => Err(e),
                Ok(p) => if p < vs.len() { Ok(copy_value(&vs[p])) } else { Err(message("Index out of bounds")) },
            }
        },
        (Value::Str(t), Value::Int(i)) => {
            proof {
                reveal_strlit("string index");
            }
            match checked_index(*i, "string index") {
                Err(e) => Err(e),
                Ok(p) => {
                    let cs = chars_of(t.as_str());
                    if p < cs.len() {
                        let mut u = String::new();
                        push_char(&mut u, cs[p]);
                        assert(u@ =~= seq![t@[p as int]]);
                        Ok(Value::Str(u))
                    } else {
                        Err(message("Index out of bounds"))
                    }
                },
            }
        },
        _ => Err(message("Index evaluation not implemented for these operands")),
    }
}

/// The built-in functions, applied to argument values; `None` for a name
/// that is no built-in.
fn builtin_exec(name: &str, args: &Vec<Value>) -> (r: Option<Result<Value, String>>)
    ensures
        match builtin_result(name@, values_view(args@)) {
            None => r is None,
            Some(x) => r matches Some(y) && result_view(y) == x,
        },
{
    proof {
        lemma_values_view(args@);
    }
    if str_eq(name, "panic") {
        Some(if args.len() != 1 {
            Err(message("panic requires one argument"))
        } else {
            match &args[0] {
                Value::Str(t) => Err(error_with("panic: ", t.as_str())),
                _ => Err(message("panic requires string")),
            }
        })
    } else if str_eq(name, "vector_new") {
        let v: Vec<Value> = Vec::new();
        assert(values_view(v@) =~= Seq::<ValueView>::empty());
        Some(Ok(Value::Vector(v)))
    } else if str_eq(name, "vector_len") {
        Some(if args.len() != 1 {
            Err(message("vector_len requires one argument"))
        } else {
            match &args[0] {
                Value::Vector(vs) => {
                    proof {
                        lemma_values_view(vs@);
                    }
                    Ok(Value::Int(vs.len() as i64))
                },
                _ => Err(message("vector_len requires vector")),
            }
        })
    } else if str_eq(name, "string_concat") {
        Some(if args.len() != 2 {
            Err(message("string_concat requires two arguments"))
        } else {
            match (&args[0], &args[1]) {
                (Value::Str(a), Value::Str(b)) => {
                    let mut t = a.clone();
                    push_str(&mut t, b.as_str());
                    Ok(Value::Str(t))
                },
                _ => Err(message("string_concat requires two strings")),
            }
        })
    } else if str_eq(name, "string_eq") {
        Some(if args.len() != 2 {
            Err(message("string_eq requires two arguments"))
        } else {
            match (&args[0], &args[1]) {
                (Value::Str(a), Value::Str(b)) => Ok(Value::Bool(str_eq(a.as_str(), b.as_str()))),
                _ => Err(message("string_eq requires two strings")),
            }
        })
    } else if str_eq(name, "int_to_string") {
        Some(if args.len() != 1 {
            Err(message("int_to_string requires one argument"))
        } else {
            match &args[0] {
                Value::Int(n) => {
                    let mut t = String::new();
                    push_int(&mut t, *n);
                    assert(t@ =~= int_text(*n));
                    Ok(Value::Str(t))
                },
                _ => Err(message("int_to_string requires int")),
            }
        })
    } else if str_eq(name, "string_push_char") {
        Some(if args.len() != 2 {
            Err(message("string_push_char requires two arguments"))
        } else {
            match (&args[0], &args[1]) {
                (Value::Str(a), Value::Str(b)) => {
                    let mut t = a.clone();
                    push_str(&mut t, b.as_str());
                    Ok(Value::Str(t))
                },
                _ => Err(message("string_push_char requires (string,char)")),
            }
        })
    } else if str_eq(name, "string_starts_with") {
        Some(if args.len() != 2 {
            Err(message("string_starts_with requires two arguments"))
        } else {
            match (&args[0], &args[1]) {
                (Value::Str(a), Value::Str(b)) => Ok(Value::Bool(str_starts_with(a.as_str(), b.as_str()))),
                _ => Err(message("string_starts_with requires two strings")),
            }
        })
    } else if str_eq(name, "string_substr") {
        Some(if args.len() != 3 {
            Err(message("string_substr requires three arguments"))
        } else {
            match (&args[0], &args[1], &args[2]) {
                (Value::Str(t), Value::Int(a), Value::Int(n)) => {
                    proof {
                        reveal_strlit("string_substr");
                    }
                    match checked_index(*a, "string_substr") {
                        Err(e) => Err(e),
                        Ok(a) => match checked_index(*n, "string_substr") {
                            Err(e) => Err(e),
                            Ok(n) => Ok(Value::Str(substring_exec(t.as_str(), a, n))),
                        },
                    }
                },
                _ => Err(message("string_substr requires (string,int,int)")),
            }
        })
    } else if str_eq(name, "string_ends_with") {
        Some(if args.len() != 2 {
            Err(message("string_ends_with requires two arguments"))
        } else {
            match (&args[0], &args[1]) {
                (Value::Str(a), Value::Str(b)) => Ok(Value::Bool(ends_with_exec(a.as_str(), b.as_str()))),
                _ => Err(message("string_ends_with requires two strings")),
            }
        })
    } else if str_eq(name, "string_trim") {
        Some(if args.len() != 1 {
            Err(message("string_trim requires one argument"))
        } else {
            match &args[0] {
                Value::Str(a) => Ok(Value::Str(trim(a.as_str()))),
                _ => Err(message("string_trim requires a string")),
            }
        })
    } else if str_eq(name, "int_abs") {
        Some(if args.len() != 1 {
            Err(message("int_abs requires one argument"))
        } else {
            match &args[0] {
                Value::Int(n) => if *n == i64::MIN {
                    Err(message("int_abs: arithmetic overflow"))
                } else {
                    Ok(Value::Int(if *n < 0 { -*n } else { *n }))
                },
                _ => Err(message("int_abs requires int")),
            }
        })
    } else if str_eq(name, "int_div") {
        Some(if args.len() != 2 {
            Err(message("int_div requires two arguments"))
        } else {
            match (&args[0], &args[1]) {
                (Value::Int(a), Value::Int(b)) => match a.checked_div(*b) {
                    Some(q) => Ok(Value::Int(q)),
                    None => Err(message("int_div: divide by zero or arithmetic overflow")),
                },
                _ => Err(message("int_div requires two ints")),
            }
        })
    } else if str_eq(name, "vector_get") {
        Some(if args.len() != 2 {
            Err(message("vector_get requires two arguments"))
        } else {
            match (&args[0], &args[1]) {
                (Value::Vector(vs), Value::Int(i)) => {
                    proof {
                        lemma_values_view(vs@);
                        reveal_strlit("vector_get");
                    }
                    match checked_index(*i, "vector_get") {
                        Err(e) => Err(e),
                        Ok(q) => if q < vs.len() {
                            Ok(copy_value(&vs[q]))
                        } else {
                            Err(message("vector_get: index out of bounds"))
                        },
                    }
                },
                _ => Err(message("vector_get requires (vector,int)")),
            }
        })
    } else {
        builtin_more_exec(name, args)
    }
}

/// `{:?}` of a value.
#[verifier::external_body]
fn debug_value(v: &Value) -> (r: String)
    ensures
        r@ == value_debug(value_view(*v)),
{
    format!("{:?}", v)
}

fn field_exec(v: &Value, field: &str) -> (r: Result<Value, String>)
    ensures
        result_view(r) == field_result(value_view(*v), field@),
{
    match v {
        Value::Str(t) => {
            if str_eq(field, "len") {
                return Ok(Value::Int(chars_of(t.as_str()).len() as i64));
            } else if str_eq(field, "is_empty") {
                return Ok(Value::Bool(chars_of(t.as_str()).len() == 0));
            } else if str_eq(field, "clone") {
                return Ok(Value::Str(t.clone()));
            }
        },
        Value::Vector(vs) => {
            proof {
                lemma_values_view(vs@);
            }
            if str_eq(field, "len") {
                return Ok(Value::Int(vs.len() as i64));
            } else if str_eq(field, "is_empty") {
                return Ok(Value::Bool(vs.len() == 0));
            } else if str_eq(field, "first") {
                return if vs.len() == 0 { Err(message("Vector is empty")) } else { Ok(copy_value(&vs[0])) };
            } else if str_eq(field, "last") {
                return if vs.len() == 0 { Err(message("Vector is empty")) } else { Ok(copy_value(&vs[vs.len() - 1])) };
            } else if str_eq(field, "clone") {
                return Ok(Value::Vector(copy_values(vs)));
            }
        },
        Value::Dict(es) => {
            return match builtins::map_get_exec(es, field) {
                Some(x) => Ok(x),
                None => {
                    let mut m = String::from_str("Unknown field '");
                    push_str(&mut m, field);
                    push_str(&mut m, "'");
                    Err(m)
                },
            };
        },
        _ => {},
    }
    let mut m = String::from_str("FieldAccess not implemented for ");
    let d = debug_value(v);
    push_str(&mut m, d.as_str());
    push_str(&mut m, " on field '");
    push_str(&mut m, field);
    push_str(&mut m, "'");
    Err(m)
}

fn substring_exec(t: &str, a: usize, n: usize) -> (r: String)
    ensures
        r@ == substring(t@, a as nat, n as nat),
{
    let cs = chars_of(t);
    let start = if a <= cs.len() { a } else { cs.len() };
    let end = if n <= cs.len() - start { start + n } else { cs.len() };
    let r = crate::text::string_from_range(cs.as_slice(), start, end);
    proof {
        let rest = if a <= t@.len() { t@.skip(a as int) } else { seq![] };
        assert(rest =~= t@.subrange(start as int, t@.len() as int));
        assert(r@ =~= substring(t@, a as nat, n as nat));
    }
    r
}

fn ends_with_exec(t: &str, p: &str) -> (b: bool)
    ensures
        b == is_suffix(p@, t@),
{
    let cs = chars_of(t);
    let ps = chars_of(p);
    if ps.len() > cs.len() {
        return false;
    }
    let off = cs.len() - ps.len();
    assert(off + ps@.len() == cs.len());
    let mut i: usize = 0;
    while i < ps.len()
        invariant
            i <= ps@.len(),
            ps@ == p@,
            cs@ == t@,
            off + ps@.len() == cs@.len(),
            off as int + ps@.len() == cs@.len(),
            off + ps@.len() <= usize::MAX,
            forall|q: int| 0 <= q < i ==> cs@[off + q] == ps@[q],
        decreases ps.len() - i,
    {
        assert(off + i < cs@.len());
        if cs[off + i] != ps[i] {
            assert(t@.skip(off as int)[i as int] == t@[off + i]);
            return false;
        }
        i = i + 1;
    }
    assert(t@.skip(off as int) =~= p@);
    true
}

/// What a pattern does with a value (see `pattern_binds`).
fn match_pattern(p: &Pattern, v: &Value) -> (r: Option<Vec<(String, Value)>>)
    ensures
        match pattern_binds(*p, value_view(*v)) {
            None => r is None,
            Some(b) => r matches Some(x) && fields_view(x@) == b,
        },
    decreases p,
{
    match p {
        Pattern::Wildcard => {
            let out: Vec<(String, Value)> = Vec::new();
            assert(fields_view(out@) =~= Seq::<(Seq<char>, ValueView)>::empty());
            Some(out)
        },
        Pattern::Literal(e) => match v {
            Value::Int(a) => if *a == *e {
                let out: Vec<(String, Value)> = Vec::new();
                assert(fields_view(out@) =~= Seq::<(Seq<char>, ValueView)>::empty());
                Some(out)
            } else {
                None
            },
            _ => None,
        },
        Pattern::Var(name) => {
            let mut out: Vec<(String, Value)> = Vec::new();
            out.push((name.clone(), copy_value(v)));
            proof {
                lemma_fields_view(out@);
                assert(fields_view(out@) =~= seq![(name@, value_view(*v))]);
            }
            Some(out)
        },
        Pattern::Struct(_, fs) => match v {
            Value::Dict(m) => match_struct(fs, m),
            _ => None,
        },
        Pattern::Or(ps) => match_first_pattern(ps, v),
    }
}

fn match_struct(fs: &Vec<(String, Pattern)>, m: &Vec<(String, Value)>) -> (r: Option<Vec<(String, Value)>>)
    ensures
        match struct_binds(fs@, fields_view(m@)) {
            None => r is None,
            Some(b) => r matches Some(x) && fields_view(x@) == b,
        },
    decreases fs,
{
    let ghost mv = fields_view(m@);
    let mut out: Vec<(String, Value)> = Vec::new();
    let mut i: usize = 0;
    assert(fs@.subrange(0, fs@.len() as int) =~= fs@);
    assert(fields_view(out@) =~= Seq::<(Seq<char>, ValueView)>::empty());
    while i < fs.len()
        invariant
            i <= fs@.len(),
            mv == fields_view(m@),
            struct_binds(fs@, mv) == (match struct_binds(fs@.subrange(i as int, fs@.len() as int), mv) {
                Some(rest) => Some(fields_view(out@) + rest),
                None => None::<Seq<(Seq<char>, ValueView)>>,
            }),
        decreases fs.len() - i,
    {
        let ghost rest = fs@.subrange(i as int, fs@.len() as int);
        assert(rest[0] == fs@[i as int]);
        assert(rest.subrange(1, rest.len() as int) =~= fs@.subrange(i + 1, fs@.len() as int));
        let fv = match builtins::map_get_exec(m, fs[i].0.as_str()) {
            Some(x) => x,
            None => {
                return None;
            },
        };
        let b = match match_pattern(&fs[i].1, &fv) {
            Some(x) => x,
            None => {
                return None;
            },
        };
        let ghost before = out@;
        let mut j: usize = 0;
        while j < b.len()
            invariant
                j <= b@.len(),
                fields_view(out@) == fields_view(before) + fields_view(b@.take(j as int)),
            decreases b.len() - j,
        {
            let ghost o = out@;
            let c = copy_value(&b[j].1);
            out.push((b[j].0.clone(), c));
            proof {
                assert(out@.drop_last() =~= o);
                assert(b@.take(j + 1).drop_last() =~= b@.take(j as int));
                assert(b@.take(j + 1).last() == b@[j as int]);
                assert(fields_view(out@) =~= fields_view(before) + fields_view(b@.take(j + 1)));
            }
            j = j + 1;
        }
        proof {
            assert(b@.take(j as int) =~= b@);
            let tail = struct_binds(fs@.subrange(i + 1, fs@.len() as int), mv);
            if tail is Some {
                assert(fields_view(before) + (fields_view(b@) + tail->Some_0) =~= fields_view(out@) + tail->Some_0);
            }
        }
        i = i + 1;
    }
    proof {
        assert(fs@.subrange(i as int, fs@.len() as int).len() == 0);
        assert(fields_view(out@) + Seq::<(Seq<char>, ValueView)>::empty() =~= fields_view(out@));
    }
    Some(out)
}

fn match_first_pattern(ps: &Vec<Pattern>, v: &Value) -> (r: Option<Vec<(String, Value)>>)
    ensures
        match first_pattern_binds(ps@, value_view(*v)) {
            None => r is None,
            Some(b) => r matches Some(x) && fields_view(x@) == b,
        },
    decreases ps,
{
    let mut i: usize = 0;
    assert(ps@.subrange(0, ps@.len() as int) =~= ps@);
    while i < ps.len()
        invariant
            i <= ps@.len(),
            first_pattern_binds(ps@, value_view(*v)) == first_pattern_binds(ps@.subrange(i as int, ps@.len() as int), value_view(*v)),
        decreases ps.len() - i,
    {
        let ghost rest = ps@.subrange(i as int, ps@.len() as int);
        assert(rest[0] == ps@[i as int]);
        assert(rest.subrange(1, rest.len() as int) =~= ps@.subrange(i + 1, ps@.len() as int));
        match match_pattern(&ps[i], v) {
            Some(b) => {
                return Some(b);
            },
            None => {},
        }
        i = i + 1;
    }
    None
}

/// The variables with bindings added in order.
fn bind_into(local: &mut StrMap<Value>, bs: &Vec<(String, Value)>)
    ensures
        env_view(final(local)@) == bind_all(env_view(old(local)@), fields_view(bs@)),
{
    let ghost base = env_view(local@);
    let ghost bv = fields_view(bs@);
    proof {
        lemma_fields_view(bs@);
    }
    let mut j: usize = 0;
    assert(bv.take(0) =~= Seq::<(Seq<char>, ValueView)>::empty());
    while j < bs.len()
        invariant
            j <= bs@.len(),
            bv == fields_view(bs@),
            bv.len() == bs@.len(),
            forall|q: int| 0 <= q < bs@.len() ==> #[trigger] bv[q] == (bs@[q].0@, value_view(bs@[q].1)),
            env_view(local@) == bind_all(base, bv.take(j as int)),
        decreases bs.len() - j,
    {
        let ghost before = local@;
        let c = copy_value(&bs[j].1);
        local.insert(bs[j].0.clone(), c);
        proof {
            assert(bv.take(j + 1).drop_last() =~= bv.take(j as int));
            assert(bv.take(j + 1).last() == bv[j as int]);
            assert(env_view(local@) =~= env_view(before).insert(bs@[j as int].0@, value_view(bs@[j as int].1)));
        }
        j = j + 1;
    }
    assert(bv.take(j as int) =~= bv);
}

/// The integers from `a` up to `b` (and `b` itself when `inclusive`), as
/// values.
fn range_exec(a: i64, b: i64, inclusive: bool) -> (r: Vec<Value>)
    ensures
        values_view(r@) == range_values(a, if inclusive { b + 1 } else { b as int }),
{
    let e: i128 = if inclusive { b as i128 + 1 } else { b as i128 };
    let mut out: Vec<Value> = Vec::new();
    let mut k: i128 = a as i128;
    while k < e
        invariant
            e == (if inclusive { b + 1 } else { b as int }),
            a <= k,
            k <= e || k == a,
            e <= i64::MAX + 1,
            out@.len() == k - a,
            forall|q: int| 0 <= q < out@.len() ==> value_view(#[trigger] out@[q]) == ValueView::Int((a + q) as i64),
        decreases e - k,
    {
        out.push(Value::Int(k as i64));
        k = k + 1;
    }
    proof {
        lemma_values_view(out@);
        assert(values_view(out@) =~= range_values(a, e as int));
    }
    out
}

// ---------------------------------------------------------------------------
// The interpreter
// ---------------------------------------------------------------------------

/// A function the program declares: its parameters and body.
#[derive(Clone, Copy)]
pub struct FnDef<'a> {
    pub params: &'a Vec<(String, Option<String>)>,
    pub body: &'a Vec<Stmt>,
}

/// The functions a list of statements declares, a later declaration of a
/// name replacing an earlier one.
pub open spec fn declared_funs(ss: Seq<Stmt>) -> Map<Seq<char>, (Seq<(String, Option<String>)>, Seq<Stmt>)>
    decreases ss.len(),
{
    if ss.len() == 0 {
        Map::empty()
    } else {
        match ss.last() {
            Stmt::Fn { name, params, body, .. } => declared_funs(ss.drop_last()).insert(name@, (params@, body@)),
            _ => declared_funs(ss.drop_last()),
        }
    }
}

pub open spec fn funs_view<'a>(m: Map<Seq<char>, FnDef<'a>>) -> Map<Seq<char>, (Seq<(String, Option<String>)>, Seq<Stmt>)> {
    m.map_values(|f: FnDef<'a>| (f.params@, f.body@))
}

/// A closure made during a run: the lambda's parameters and body, and the
/// variables it captured.
pub struct ClosureDef<'a> {
    pub params: &'a Vec<(String, Option<String>)>,
    pub body: &'a Expr,
    pub env: StrMap<Value>,
}

/// A run in progress: the declared functions, the texts of floating-point
/// values, the step budget and the steps counted so far, the lines printed,
/// the pending loop signal, the pending cleanups and the closures made.
pub struct Interpreter<'a> {
    pub functions: StrMap<FnDef<'a>>,
    pub floats: Vec<(u64, String)>,
    pub max_operations: usize,
    pub operations: usize,
    pub printed: Vec<String>,
    pub flow: Option<ControlFlow>,
    pub defers: Vec<Vec<&'a Stmt>>,
    pub closures: Vec<ClosureDef<'a>>,
    pub handlers: Vec<(String, Value)>,
}

/// The closures of a run.
pub open spec fn closures_view<'a>(c: Seq<ClosureDef<'a>>) -> Seq<(Seq<(String, Option<String>)>, Expr, Vars)> {
    c.map_values(|d: ClosureDef<'a>| (d.params@, *d.body, env_view(d.env@)))
}

/// The cleanups registered in each open block.
pub open spec fn defers_view<'a>(d: Seq<Vec<&'a Stmt>>) -> Seq<Seq<Stmt>> {
    d.map_values(|f: Vec<&'a Stmt>| f@.map_values(|x: &'a Stmt| *x))
}

impl<'a> Interpreter<'a> {
    pub open spec fn setup(&self) -> Setup {
        Setup { funs: funs_view(self.functions@), max_ops: self.max_operations as nat, floats: floats_view(self.floats@) }
    }

    pub open spec fn shared(&self) -> Shared {
        Shared {
            ops: self.operations as nat,
            printed: self.printed@.map_values(|t: String| t@),
            flow: self.flow,
            defers: defers_view(self.defers@),
            closures: closures_view(self.closures@),
            handlers: fields_view(self.handlers@),
        }
    }

    /// An interpreter for `prog`, knowing the functions it declares, with a
    /// budget of `max_operations` steps and the given float texts.
    pub fn new(prog: &'a Program, floats: Vec<(u64, String)>, max_operations: usize) -> (it: Self)
        ensures
            it.setup() == (Setup { funs: declared_funs(prog.stmts@), max_ops: max_operations as nat, floats: floats_view(floats@) }),
            it.shared() == (Shared { ops: 0, printed: seq![], flow: None, defers: seq![], closures: seq![], handlers: seq![] }),
    {
        let mut functions: StrMap<FnDef<'a>> = StrMap::new();
        let mut i: usize = 0;
        assert(prog.stmts@.take(0) =~= Seq::<Stmt>::empty());
        assert(funs_view(functions@) =~= declared_funs(prog.stmts@.take(0)));
        while i < prog.stmts.len()
            invariant
                i <= prog.stmts@.len(),
                funs_view(functions@) == declared_funs(prog.stmts@.take(i as int)),
            decreases prog.stmts.len() - i,
        {
            let ghost before = functions@;
            assert(prog.stmts@.take(i + 1).drop_last() =~= prog.stmts@.take(i as int));
            assert(prog.stmts@.take(i + 1).last() == prog.stmts@[i as int]);
            match &prog.stmts[i] {
                Stmt::Fn { name, params, body, .. } => {
                    functions.insert(name.clone(), FnDef { params, body });
                    assert(funs_view(functions@) =~= funs_view(before).insert(name@, (params@, body@)));
                },
                _ => {},
            }
            i = i + 1;
        }
        assert(prog.stmts@.take(i as int) =~= prog.stmts@);
        let it = Interpreter { functions, floats, max_operations, operations: 0, printed: Vec::new(), flow: None, defers: Vec::new(), closures: Vec::new(), handlers: Vec::new() };
        assert(it.shared().printed =~= Seq::<Seq<char>>::empty());
        assert(it.shared().defers =~= Seq::<Seq<Stmt>>::empty());
        assert(it.shared().closures =~= Seq::<(Seq<(String, Option<String>)>, Expr, Vars)>::empty());
        assert(it.shared().handlers =~= Seq::<(Seq<char>, ValueView)>::empty());
        it
    }

    /// Counts one step against the budget.
    fn tick_op(&mut self) -> (r: Result<(), String>)
        requires
            old(self).max_operations < usize::MAX,
        ensures
            final(self).shared() == tick(old(self).setup(), old(self).shared()).0,
            final(self).setup() == old(self).setup(),
            final(self).max_operations == old(self).max_operations,
            r is Ok <==> tick(old(self).setup(), old(self).shared()).1,
            r matches Err(e) ==> e@ == limit_error(),
    {
        let next: usize = if self.operations < usize::MAX { self.operations + 1 } else { usize::MAX };
        self.operations = next;
        if next > self.max_operations {
            Err(message("step limit exceeded"))
        } else {
            Ok(())
        }
    }

    /// Evaluates an expression over `env`: it counts one step, then computes.
    pub fn eval_expr(&mut self, e: &'a Expr, env: &mut StrMap<Value>) -> (r: Result<Value, String>)
        requires
            old(self).max_operations < usize::MAX,
        ensures
            (env_view(final(env)@), final(self).shared(), result_view(r)) == ev_expr(old(self).setup(), *e, env_view(old(env)@), old(self).shared()),
            final(self).setup() == old(self).setup(),
            final(self).max_operations == old(self).max_operations,
            old(self).operations <= final(self).operations,
            r is Ok ==> old(self).operations < final(self).operations <= final(self).max_operations,
        decreases old(self).max_operations - old(self).operations, 0nat, 0nat,
    {
        match self.tick_op() {
            Ok(()) => {},
            Err(x) => {
                return Err(x);
            },
        }
        match e {
            Expr::StringLit(t, _) => Ok(Value::Str(t.clone())),
            Expr::ByteString(bs, _) => Ok(Value::Bytes(copy_bytes(bs))),
            Expr::Byte(b, _) => Ok(Value::Byte(*b)),
            Expr::Number(n, _) => Ok(Value::Int(*n)),
            Expr::Float(b, _) => Ok(Value::Float(*b)),
            Expr::Char(c, _) => Ok(Value::Char(*c)),
            Expr::Bool(b, _) => Ok(Value::Bool(*b)),
            Expr::Var(name, _) => match env.get(name.as_str()) {
                Some(v) => Ok(copy_value(v)),
                None => Err(error_with("Undefined var ", name.as_str())),
            },
            Expr::Call(name, args, _) => {
                let vals = match self.eval_list(args, env) {
                    Ok(v) => v,
                    Err(x) => {
                        return Err(x);
                    },
                };
                let fv: Option<&str> = if args.len() > 0 {
                    match &args[0] {
                        Expr::Var(n, _) => Some(n.as_str()),
                        _ => None,
                    }
                } else {
                    None
                };
                self.eval_call(name.as_str(), fv, &vals, env)
            },
            Expr::BinaryOp { op, left, right, .. } => {
                let a = match self.eval_expr(left, env) {
                    Ok(v) => v,
                    Err(x) => {
                        return Err(x);
                    },
                };
                let b = match self.eval_expr(right, env) {
                    Ok(v) => v,
                    Err(x) => {
                        return Err(x);
                    },
                };
                binary_exec(*op, &a, &b)
            },
            Expr::Borrow { .. } | Expr::Deref { .. } =>
                Err(message("safe reference execution is not qualified in the bootstrap reference interpreter")),
            Expr::UnaryOp { op, inner, .. } => match self.eval_expr(inner, env) {
                Ok(v) => unary_exec(*op, &v),
                Err(x) => Err(x),
            },
            Expr::IfExpr { cond, then, else_, .. } => {
                let c = match self.eval_expr(cond, env) {
                    Ok(v) => v,
                    Err(x) => {
                        return Err(x);
                    },
                };
                if is_truthy(&c) {
                    self.eval_expr(then, env)
                } else {
                    self.eval_expr(else_, env)
                }
            },
            Expr::Block(stmts, _) => {
                let mut local = copy_vars(env);
                match self.eval_block(stmts, &mut local) {
                    Ok(_) => Ok(Value::Unit),
                    Err(x) => Err(x),
                }
            },
            Expr::Tuple(es, _) | Expr::Array(es, _) => match self.eval_list(es, env) {
                Ok(vs) => Ok(Value::Vector(vs)),
                Err(x) => Err(x),
            },
            Expr::Index(base, index, _) => {
                let a = match self.eval_expr(base, env) {
                    Ok(v) => v,
                    Err(x) => {
                        return Err(x);
                    },
                };
                let b = match self.eval_expr(index, env) {
                    Ok(v) => v,
                    Err(x) => {
                        return Err(x);
                    },
                };
                index_exec(&a, &b)
            },
            Expr::Await(inner, _) | Expr::Try(inner, _) => self.eval_expr(inner, env),
            Expr::StructLit { name, fields, .. } => match self.eval_fields(fields, env) {
                Ok(fs) => Ok(Value::Record(name.clone(), fs)),
                Err(x) => Err(x),
            },
            Expr::FieldAccess { base, field, .. } => match self.eval_expr(base, env) {
                Ok(v) => field_exec(&v, field.as_str()),
                Err(x) => Err(x),
            },
            Expr::Match { expr: scrutinee, arms, .. } => match self.eval_expr(scrutinee, env) {
                Ok(v) => self.eval_arms(arms, &v, env),
                Err(x) => Err(x),
            },
            Expr::Interpolated(frags, _) => match self.eval_interp(frags, env) {
                Ok(t) => Ok(Value::Str(t)),
                Err(x) => Err(x),
            },
            Expr::Range { start, end, inclusive, .. } => {
                let a = match self.eval_expr(start, env) {
                    Ok(v) => v,
                    Err(x) => {
                        return Err(x);
                    },
                };
                let b = match self.eval_expr(end, env) {
                    Ok(v) => v,
                    Err(x) => {
                        return Err(x);
                    },
                };
                match (&a, &b) {
                    (Value::Int(x), Value::Int(y)) => Ok(Value::Vector(range_exec(*x, *y, *inclusive))),
                    _ => Err(message("Range only supports integer bounds")),
                }
            },
            Expr::Lambda { params, body, .. } => {
                let id = self.closures.len();
                let captured = copy_vars(env);
                let ghost before = self.closures@;
                self.closures.push(ClosureDef { params, body, env: captured });
                assert(closures_view(self.closures@) =~= closures_view(before).push((params@, **body, env_view(env@))));
                assert(self.shared().handlers == old(self).shared().handlers);
                Ok(Value::Closure(id))
            },
        }
    }

    fn eval_list(&mut self, es: &'a Vec<Expr>, env: &mut StrMap<Value>) -> (r: Result<Vec<Value>, String>)
        requires
            old(self).max_operations < usize::MAX,
            old(self).operations <= old(self).max_operations,
        ensures
            env_view(final(env)@) == ev_list(old(self).setup(), es@, env_view(old(env)@), old(self).shared(), seq![]).0,
            final(self).shared() == ev_list(old(self).setup(), es@, env_view(old(env)@), old(self).shared(), seq![]).1,
            match ev_list(old(self).setup(), es@, env_view(old(env)@), old(self).shared(), seq![]).2 {
                Ok(vs) => r matches Ok(x) && values_view(x@) == vs,
                Err(e) => r matches Err(x) && x@ == e,
            },
            final(self).setup() == old(self).setup(),
            final(self).max_operations == old(self).max_operations,
            old(self).operations <= final(self).operations,
            r is Ok ==> final(self).operations <= final(self).max_operations,
        decreases old(self).max_operations - old(self).operations, 1nat, 0nat,
    {
        let ghost fx = self.setup();
        let ghost sh0 = self.shared();
        let ghost ops0 = self.operations;
        let ghost vars = env_view(env@);
        let mut out: Vec<Value> = Vec::new();
        let mut i: usize = 0;
        assert(es@.subrange(0, es@.len() as int) =~= es@);
        assert(values_view(out@) =~= Seq::<ValueView>::empty());
        while i < es.len()
            invariant
                i <= es@.len(),
                fx == self.setup(),
                fx == old(self).setup(),
                sh0 == old(self).shared(),
                vars == env_view(old(env)@),
                self.max_operations < usize::MAX,
                self.max_operations == old(self).max_operations,
                ops0 == old(self).operations,
                ops0 <= self.operations <= self.max_operations,
                ev_list(fx, es@, vars, sh0, seq![]) == ev_list(fx, es@.subrange(i as int, es@.len() as int), env_view(env@), self.shared(), values_view(out@)),
            decreases es.len() - i,
        {
            let ghost rest = es@.subrange(i as int, es@.len() as int);
            assert(rest[0] == es@[i as int]);
            assert(rest.subrange(1, rest.len() as int) =~= es@.subrange(i + 1, es@.len() as int));
            match self.eval_expr(&es[i], env) {
                Ok(v) => {
                    let ghost before = out@;
                    out.push(v);
                    assert(out@.drop_last() =~= before);
                },
                Err(x) => {
                    return Err(x);
                },
            }
            i = i + 1;
        }
        Ok(out)
    }

    fn eval_fields(&mut self, fs: &'a Vec<(String, Expr)>, env: &mut StrMap<Value>) -> (r: Result<Vec<(String, Value)>, String>)
        requires
            old(self).max_operations < usize::MAX,
            old(self).operations <= old(self).max_operations,
        ensures
            env_view(final(env)@) == ev_fields(old(self).setup(), fs@, env_view(old(env)@), old(self).shared(), seq![]).0,
            final(self).shared() == ev_fields(old(self).setup(), fs@, env_view(old(env)@), old(self).shared(), seq![]).1,
            match ev_fields(old(self).setup(), fs@, env_view(old(env)@), old(self).shared(), seq![]).2 {
                Ok(vs) => r matches Ok(x) && fields_view(x@) == vs,
                Err(e) => r matches Err(x) && x@ == e,
            },
            final(self).setup() == old(self).setup(),
            final(self).max_operations == old(self).max_operations,
            old(self).operations <= final(self).operations,
            r is Ok ==> final(self).operations <= final(self).max_operations,
        decreases old(self).max_operations - old(self).operations, 1nat, 0nat,
    {
        let ghost fx = self.setup();
        let ghost sh0 = self.shared();
        let ghost ops0 = self.operations;
        let ghost vars = env_view(env@);
        let mut out: Vec<(String, Value)> = Vec::new();
        let mut i: usize = 0;
        assert(fs@.subrange(0, fs@.len() as int) =~= fs@);
        assert(fields_view(out@) =~= Seq::<(Seq<char>, ValueView)>::empty());
        while i < fs.len()
            invariant
                i <= fs@.len(),
                fx == self.setup(),
                fx == old(self).setup(),
                sh0 == old(self).shared(),
                vars == env_view(old(env)@),
                self.max_operations < usize::MAX,
                self.max_operations == old(self).max_operations,
                ops0 == old(self).operations,
                ops0 <= self.operations <= self.max_operations,
                ev_fields(fx, fs@, vars, sh0, seq![]) == ev_fields(fx, fs@.subrange(i as int, fs@.len() as int), env_view(env@), self.shared(), fields_view(out@)),
            decreases fs.len() - i,
        {
            let ghost rest = fs@.subrange(i as int, fs@.len() as int);
            assert(rest[0] == fs@[i as int]);
            assert(rest.subrange(1, rest.len() as int) =~= fs@.subrange(i + 1, fs@.len() as int));
            match self.eval_expr(&fs[i].1, env) {
                Ok(v) => {
                    let ghost before = out@;
                    out.push((fs[i].0.clone(), v));
                    assert(out@.drop_last() =~= before);
                },
                Err(x) => {
                    return Err(x);
                },
            }
            i = i + 1;
        }
        Ok(out)
    }

    fn eval_arms(&mut self, arms: &'a Vec<MatchArm>, v: &Value, env: &StrMap<Value>) -> (r: Result<Value, String>)
        requires
            old(self).max_operations < usize::MAX,
            old(self).operations <= old(self).max_operations,
        ensures
            (final(self).shared(), result_view(r)) == ev_arms(old(self).setup(), arms@, value_view(*v), env_view(env@), old(self).shared()),
            final(self).setup() == old(self).setup(),
            final(self).max_operations == old(self).max_operations,
            old(self).operations <= final(self).operations,
            r is Ok ==> final(self).operations <= final(self).max_operations,
        decreases old(self).max_operations - old(self).operations, 1nat, 0nat,
    {
        let ghost fx = self.setup();
        let ghost sh0 = self.shared();
        let ghost ops0 = self.operations;
        let ghost vars = env_view(env@);
        let mut i: usize = 0;
        assert(arms@.subrange(0, arms@.len() as int) =~= arms@);
        while i < arms.len()
            invariant
                i <= arms@.len(),
                fx == self.setup(),
                fx == old(self).setup(),
                sh0 == old(self).shared(),
                vars == env_view(env@),
                self.max_operations < usize::MAX,
                self.max_operations == old(self).max_operations,
                ops0 == old(self).operations,
                ops0 <= self.operations <= self.max_operations,
                ev_arms(fx, arms@, value_view(*v), vars, sh0) == ev_arms(fx, arms@.subrange(i as int, arms@.len() as int), value_view(*v), vars, self.shared()),
            decreases arms.len() - i,
        {
            let ghost rest = arms@.subrange(i as int, arms@.len() as int);
            assert(rest[0] == arms@[i as int]);
            assert(rest.subrange(1, rest.len() as int) =~= arms@.subrange(i + 1, arms@.len() as int));
            let arm = &arms[i];
            match match_pattern(&arm.pattern, v) {
                None => {},
                Some(b) => {
                    let mut local = copy_vars(env);
                    bind_into(&mut local, &b);
                    match &arm.guard {
                        None => {
                            return self.eval_expr(&arm.body, &mut local);
                        },
                        Some(g) => {
                            let gv = match self.eval_expr(g, &mut local) {
                                Ok(x) => x,
                                Err(x) => {
                                    return Err(x);
                                },
                            };
                            if is_truthy(&gv) {
                                return self.eval_expr(&arm.body, &mut local);
                            }
                        },
                    }
                },
            }
            i = i + 1;
        }
        Err(message("Non-exhaustive match expression"))
    }

    fn eval_interp(&mut self, frags: &'a Vec<InterpolatedFragment>, env: &mut StrMap<Value>) -> (r: Result<String, String>)
        requires
            old(self).max_operations < usize::MAX,
            old(self).operations <= old(self).max_operations,
        ensures
            env_view(final(env)@) == ev_interp(old(self).setup(), frags@, env_view(old(env)@), old(self).shared(), seq![]).0,
            final(self).shared() == ev_interp(old(self).setup(), frags@, env_view(old(env)@), old(self).shared(), seq![]).1,
            match ev_interp(old(self).setup(), frags@, env_view(old(env)@), old(self).shared(), seq![]).2 {
                Ok(t) => r matches Ok(x) && x@ == t,
                Err(e) => r matches Err(x) && x@ == e,
            },
            final(self).setup() == old(self).setup(),
            final(self).max_operations == old(self).max_operations,
            old(self).operations <= final(self).operations,
            r is Ok ==> final(self).operations <= final(self).max_operations,
        decreases old(self).max_operations - old(self).operations, 1nat, 0nat,
    {
        let ghost fx = self.setup();
        let ghost sh0 = self.shared();
        let ghost ops0 = self.operations;
        let ghost vars = env_view(env@);
        let mut out = String::new();
        let mut i: usize = 0;
        assert(frags@.subrange(0, frags@.len() as int) =~= frags@);
        while i < frags.len()
            invariant
                i <= frags@.len(),
                fx == self.setup(),
                fx == old(self).setup(),
                sh0 == old(self).shared(),
                vars == env_view(old(env)@),
                self.max_operations < usize::MAX,
                self.max_operations == old(self).max_operations,
                ops0 == old(self).operations,
                ops0 <= self.operations <= self.max_operations,
                ev_interp(fx, frags@, vars, sh0, seq![]) == ev_interp(fx, frags@.subrange(i as int, frags@.len() as int), env_view(env@), self.shared(), out@),
            decreases frags.len() - i,
        {
            let ghost rest = frags@.subrange(i as int, frags@.len() as int);
            assert(rest[0] == frags@[i as int]);
            assert(rest.subrange(1, rest.len() as int) =~= frags@.subrange(i + 1, frags@.len() as int));
            match &frags[i] {
                InterpolatedFragment::Literal(t, _) => push_str(&mut out, t.as_str()),
                InterpolatedFragment::Expr(e) => {
                    let v = match self.eval_expr(e, env) {
                        Ok(x) => x,
                        Err(x) => {
                            return Err(x);
                        },
                    };
                    let t = value_to_string(&self.floats, &v);
                    push_str(&mut out, t.as_str());
                },
            }
            i = i + 1;
        }
        Ok(out)
    }

    /// Binds the parameters to the argument values over `local`, a later
    /// parameter of a name winning.
    fn bind_params(local: &mut StrMap<Value>, params: &Vec<(String, Option<String>)>, vals: &Vec<Value>)
        requires
            params@.len() == vals@.len(),
        ensures
            env_view(final(local)@) == env_view(old(local)@).union_prefer_right(params_map(params@, values_view(vals@))),
    {
        let ghost valsv = values_view(vals@);
        let ghost base = env_view(local@);
        proof {
            lemma_values_view(vals@);
        }
        let mut j: usize = 0;
        assert(params@.take(0) =~= Seq::<(String, Option<String>)>::empty());
        assert(env_view(local@) =~= base.union_prefer_right(params_map(params@.take(0), valsv)));
        while j < params.len()
            invariant
                j <= params@.len(),
                params@.len() == vals@.len(),
                valsv == values_view(vals@),
                valsv.len() == vals@.len(),
                forall|q: int| 0 <= q < vals@.len() ==> #[trigger] valsv[q] == value_view(vals@[q]),
                env_view(local@) == base.union_prefer_right(params_map(params@.take(j as int), valsv)),
            decreases params.len() - j,
        {
            let ghost before = local@;
            let c = copy_value(&vals[j]);
            local.insert(params[j].0.clone(), c);
            proof {
                let pt = params@.take(j + 1);
                assert(pt.drop_last() =~= params@.take(j as int));
                assert(pt.last() == params@[j as int]);
                assert(params_map(pt, valsv) == params_map(pt.drop_last(), valsv).insert(pt.last().0@, valsv[pt.len() - 1]));
                assert(env_view(local@) =~= env_view(before).insert(params@[j as int].0@, valsv[j as int]));
                assert(env_view(local@) =~= base.union_prefer_right(params_map(pt, valsv)));
            }
            j = j + 1;
        }
        assert(params@.take(j as int) =~= params@);
    }

    /// A declared function called with argument values (see `ev_declared`).
    #[verifier::rlimit(40)]
    fn eval_declared(&mut self, name: &str, vals: &Vec<Value>, env: &StrMap<Value>) -> (r: Result<Value, String>)
        requires
            old(self).max_operations < usize::MAX,
            old(self).operations <= old(self).max_operations,
        ensures
            (final(self).shared(), result_view(r)) == ev_declared(old(self).setup(), name@, values_view(vals@), env_view(env@), old(self).shared()),
            final(self).setup() == old(self).setup(),
            final(self).max_operations == old(self).max_operations,
            old(self).operations <= final(self).operations,
            r is Ok ==> final(self).operations <= final(self).max_operations,
        decreases old(self).max_operations - old(self).operations, 3nat, 0nat,
    {
        let f: FnDef<'a> = match self.functions.get(name) {
            Some(f) => *f,
            None => {
                return Err(error_with("Undefined function: ", name));
            },
        };
        proof {
            lemma_values_view(vals@);
        }
        if vals.len() != f.params.len() {
            let mut m = String::from_str("Expected ");
            crate::text::push_decimal(&mut m, f.params.len());
            push_str(&mut m, " args for function ");
            push_str(&mut m, name);
            return Err(m);
        }
        let mut local = copy_vars(env);
        Self::bind_params(&mut local, f.params, vals);
        match self.eval_block(f.body, &mut local) {
            Err(x) => Err(x),
            Ok(Some(v)) => Ok(v),
            Ok(None) => Ok(Value::Unit),
        }
    }

    /// A built-in's call of a declared function (see `ev_fn_builtin`).
    fn eval_fn_builtin(&mut self, p: &FnPlanExec, env: &StrMap<Value>) -> (r: Result<Value, String>)
        requires
            old(self).max_operations < usize::MAX,
            old(self).operations <= old(self).max_operations,
        ensures
            (final(self).shared(), result_view(r)) == ev_fn_builtin(old(self).setup(), plan_view(*p), env_view(env@), old(self).shared()),
            final(self).setup() == old(self).setup(),
            final(self).max_operations == old(self).max_operations,
            old(self).operations <= final(self).operations,
            r is Ok ==> final(self).operations <= final(self).max_operations,
        decreases old(self).max_operations - old(self).operations, 3nat, 0nat,
    {
        let f: FnDef<'a> = match self.functions.get(p.fname.as_str()) {
            Some(f) => *f,
            None => {
                return Err(error_with(p.label.as_str(), ": function not found"));
            },
        };
        let want: usize = if p.one_param { 1 } else { 0 };
        if f.params.len() != want {
            return Err(p.arity_error.clone());
        }
        let mut local = copy_vars(env);
        if p.one_param {
            match &p.arg {
                Err(x) => {
                    return Err(x.clone());
                },
                Ok(a) => {
                    let ghost before = local@;
                    let c = copy_value(a);
                    local.insert(f.params[0].0.clone(), c);
                    assert(env_view(local@) =~= env_view(before).insert(f.params@[0].0@, value_view(*a)));
                },
            }
        }
        match self.eval_block(f.body, &mut local) {
            Err(x) => Err(x),
            Ok(res) => {
                proof {
                    assert(opt_view(res) == match signal_view(Ok::<Option<Value>, String>(res)) {
                        Ok(o) => o,
                        Err(_) => None,
                    });
                }
                post_exec(p.post, res, &p.map)
            },
        }
    }

    /// The closure registered as the innermost handler for `name`, if the
    /// handler is one.
    fn find_handler(&self, name: &str) -> (r: Option<usize>)
        ensures
            r matches Some(id) ==> resolve_handler(self.shared().handlers, name@) == Some(ValueView::Closure(id as nat))
                && (id as nat) < self.shared().closures.len(),
            r is None ==> !(resolve_handler(self.shared().handlers, name@) matches Some(ValueView::Closure(i)) && i < self.shared().closures.len()),
    {
        let ghost hv = fields_view(self.handlers@);
        proof {
            lemma_fields_view(self.handlers@);
        }
        let mut j: usize = self.handlers.len();
        assert(hv.take(j as int) =~= hv);
        while j > 0
            invariant
                j <= self.handlers@.len(),
                hv == fields_view(self.handlers@),
                hv.len() == self.handlers@.len(),
                forall|q: int| 0 <= q < self.handlers@.len() ==> #[trigger] hv[q] == (self.handlers@[q].0@, value_view(self.handlers@[q].1)),
                resolve_handler(hv, name@) == resolve_handler(hv.take(j as int), name@),
            decreases j,
        {
            let ghost t = hv.take(j as int);
            assert(t.last() == hv[j - 1]);
            assert(t.drop_last() =~= hv.take(j - 1));
            if str_eq(self.handlers[j - 1].0.as_str(), name) {
                proof {
                    assert(closures_view(self.closures@).len() == self.closures@.len());
                }
                proof {
                    assert(resolve_handler(hv.take(j as int), name@) == Some(value_view(self.handlers@[j - 1].1)));
                }
                return match &self.handlers[j - 1].1 {
                    Value::Closure(id) => if *id < self.closures.len() { Some(*id) } else { None },
                    _ => None,
                };
            }
            j = j - 1;
        }
        None
    }

    /// A call with its argument values (see `ev_call`).
    fn eval_call(&mut self, name: &str, fv: Option<&str>, vals: &Vec<Value>, env: &mut StrMap<Value>) -> (r: Result<Value, String>)
        requires
            old(self).max_operations < usize::MAX,
            old(self).operations <= old(self).max_operations,
        ensures
            (env_view(final(env)@), final(self).shared(), result_view(r))
                == ev_call(old(self).setup(), name@, match fv { Some(n) => Some(n@), None => None::<Seq<char>> }, values_view(vals@), env_view(old(env)@), old(self).shared()),
            final(self).setup() == old(self).setup(),
            final(self).max_operations == old(self).max_operations,
            old(self).operations <= final(self).operations,
            r is Ok ==> final(self).operations <= final(self).max_operations,
        decreases old(self).max_operations - old(self).operations, 4nat, 0nat,
    {
        match builtin_exec(name, vals) {
            Some(r) => {
                return r;
            },
            None => {},
        }
        match builtin_mut_exec(name, vals, fv.is_some()) {
            Some(Ok((v, w))) => {
                match (fv, w) {
                    (Some(n), Some(nv)) => {
                        let ghost before = env@;
                        let ghost nvv = value_view(nv);
                        env.insert(String::from_str(n), nv);
                        assert(env_view(env@) =~= env_view(before).insert(n@, nvv));
                    },
                    _ => {},
                }
                return Ok(v);
            },
            Some(Err(x)) => {
                return Err(x);
            },
            None => {},
        }
        match fn_builtin_exec(name, vals) {
            Some(FnStepExec::Done(r)) => {
                return r;
            },
            Some(FnStepExec::Call(p)) => {
                return self.eval_fn_builtin(&p, env);
            },
            None => {},
        }
        self.eval_dispatch(name, vals, env)
    }

    /// A call that no built-in takes (see `ev_dispatch`).
    #[verifier::rlimit(30)]
    fn eval_dispatch(&mut self, name: &str, vals: &Vec<Value>, env: &StrMap<Value>) -> (r: Result<Value, String>)
        requires
            old(self).max_operations < usize::MAX,
            old(self).operations <= old(self).max_operations,
        ensures
            (final(self).shared(), result_view(r)) == ev_dispatch(old(self).setup(), name@, values_view(vals@), env_view(env@), old(self).shared()),
            final(self).setup() == old(self).setup(),
            final(self).max_operations == old(self).max_operations,
            old(self).operations <= final(self).operations,
            r is Ok ==> final(self).operations <= final(self).max_operations,
        decreases old(self).max_operations - old(self).operations, 3nat, 1nat,
    {
        match self.find_handler(name) {
            Some(id) => {
                proof {
                    lemma_values_view(vals@);
                    assert(self.shared().closures[id as int] == (self.closures@[id as int].params@, *self.closures@[id as int].body, env_view(self.closures@[id as int].env@)));
                }
                let params = self.closures[id].params;
                let body = self.closures[id].body;
                let mut local = copy_vars(&self.closures[id].env);
                if params.len() != vals.len() {
                    let mut m = String::from_str("Effect handler '");
                    push_str(&mut m, name);
                    push_str(&mut m, "' expected ");
                    crate::text::push_decimal(&mut m, params.len());
                    push_str(&mut m, " args, got ");
                    crate::text::push_decimal(&mut m, vals.len());
                    return Err(m);
                }
                Self::bind_params(&mut local, params, vals);
                self.eval_expr(body, &mut local)
            },
            None => self.eval_declared(name, vals, env),
        }
    }

    /// Runs statements in order over `env`; the first that returns a value,
    /// fails, or is a `break` or `continue` stops.
    #[verifier::rlimit(40)]
    pub fn eval_block_inner(&mut self, ss: &'a Vec<Stmt>, env: &mut StrMap<Value>) -> (r: Result<Option<Value>, String>)
        requires
            old(self).max_operations < usize::MAX,
        ensures
            (env_view(final(env)@), final(self).shared(), signal_view(r)) == ev_stmts(old(self).setup(), ss@, env_view(old(env)@), old(self).shared()),
            final(self).setup() == old(self).setup(),
            final(self).max_operations == old(self).max_operations,
            old(self).operations <= final(self).operations,
            r is Ok && old(self).operations <= old(self).max_operations ==> final(self).operations <= final(self).max_operations,
        decreases old(self).max_operations - old(self).operations, 0nat, 2nat,
    {
        let ghost fx = self.setup();
        let ghost sh0 = self.shared();
        let ghost v0 = env_view(env@);
        let ghost ops0 = self.operations;
        let mut i: usize = 0;
        assert(ss@.subrange(0, ss@.len() as int) =~= ss@);
        while i < ss.len()
            invariant
                i <= ss@.len(),
                fx == self.setup(),
                fx == old(self).setup(),
                sh0 == old(self).shared(),
                v0 == env_view(old(env)@),
                self.max_operations < usize::MAX,
                self.max_operations == old(self).max_operations,
                ops0 == old(self).operations,
                ops0 <= self.operations,
                i > 0 ==> self.operations <= self.max_operations,
                i == 0 ==> self.operations == ops0,
                ev_stmts(fx, ss@, v0, sh0) == ev_stmts(fx, ss@.subrange(i as int, ss@.len() as int), env_view(env@), self.shared()),
            decreases ss.len() - i,
        {
            match self.block_step(ss, i, env) {
                None => {},
                Some(x) => {
                    return x;
                },
            }
            i = i + 1;
        }
        Ok(None)
    }

    /// One statement of a block: `None` when the block goes on with the next.
    #[verifier::rlimit(40)]
    fn block_step(&mut self, ss: &'a Vec<Stmt>, i: usize, env: &mut StrMap<Value>) -> (r: Option<Result<Option<Value>, String>>)
        requires
            old(self).max_operations < usize::MAX,
            i < ss@.len(),
        ensures
            ({
                let o = ev_stmts(old(self).setup(), ss@.subrange(i as int, ss@.len() as int), env_view(old(env)@), old(self).shared());
                &&& (r is None ==> final(self).operations <= final(self).max_operations
                    && o == ev_stmts(old(self).setup(), ss@.subrange(i + 1, ss@.len() as int), env_view(final(env)@), final(self).shared()))
                &&& (r matches Some(x) ==> (env_view(final(env)@), final(self).shared(), signal_view(x)) == o
                    && (x is Ok ==> final(self).operations <= final(self).max_operations))
            }),
            final(self).setup() == old(self).setup(),
            final(self).max_operations == old(self).max_operations,
            old(self).operations <= final(self).operations,
        decreases old(self).max_operations - old(self).operations, 0nat, 1nat,
    {
        let ghost rest = ss@.subrange(i as int, ss@.len() as int);
        assert(rest[0] == ss@[i as int]);
        assert(rest.subrange(1, rest.len() as int) =~= ss@.subrange(i + 1, ss@.len() as int));
        match self.eval_stmt(&ss[i], env) {
            Ok(None) => {},
            Ok(Some(v)) => {
                return Some(Ok(Some(v)));
            },
            Err(x) => {
                return Some(Err(x));
            },
        }
        match &ss[i] {
            Stmt::Break(_) | Stmt::Continue(_) => {
                return Some(Ok(None));
            },
            _ => {},
        }
        None
    }

    /// Runs a block over `env`: its statements with a frame of their own for
    /// the cleanups that `defer` registers, then, when they succeed, those
    /// cleanups, last registered first.
    pub fn eval_block(&mut self, ss: &'a Vec<Stmt>, env: &mut StrMap<Value>) -> (r: Result<Option<Value>, String>)
        requires
            old(self).max_operations < usize::MAX,
        ensures
            (env_view(final(env)@), final(self).shared(), signal_view(r)) == ev_block(old(self).setup(), ss@, env_view(old(env)@), old(self).shared()),
            final(self).setup() == old(self).setup(),
            final(self).max_operations == old(self).max_operations,
            old(self).operations <= final(self).operations,
            r is Ok && old(self).operations <= old(self).max_operations ==> final(self).operations <= final(self).max_operations,
        decreases old(self).max_operations - old(self).operations, 1nat, 0nat,
    {
        let ops0 = self.operations;
        let depth = self.defers.len();
        let hdepth = self.handlers.len();
        proof {
            lemma_fields_view(self.handlers@);
        }
        self.open_frame();
        let r = self.eval_block_inner(ss, env);
        self.finish_block(r, depth, hdepth, ops0, env)
    }

    /// Runs one statement as a block of its own (see `eval_block`).
    fn eval_single_block(&mut self, stmt: &'a Stmt, env: &mut StrMap<Value>) -> (r: Result<Option<Value>, String>)
        requires
            old(self).max_operations < usize::MAX,
        ensures
            (env_view(final(env)@), final(self).shared(), signal_view(r)) == ev_block(old(self).setup(), seq![*stmt], env_view(old(env)@), old(self).shared()),
            final(self).setup() == old(self).setup(),
            final(self).max_operations == old(self).max_operations,
            old(self).operations <= final(self).operations,
            r is Ok && old(self).operations <= old(self).max_operations ==> final(self).operations <= final(self).max_operations,
        decreases old(self).max_operations - old(self).operations, 1nat, 0nat,
    {
        let ops0 = self.operations;
        let depth = self.defers.len();
        let hdepth = self.handlers.len();
        proof {
            lemma_fields_view(self.handlers@);
        }
        self.open_frame();
        let ghost fx = self.setup();
        let ghost v1 = env_view(env@);
        let ghost sh1 = self.shared();
        let r = self.eval_stmt(stmt, env);
        proof {
            lemma_stmts_single(fx, *stmt, v1, sh1);
        }
        self.finish_block(r, depth, hdepth, ops0, env)
    }

    fn open_frame(&mut self)
        ensures
            final(self).shared() == (Shared { defers: old(self).shared().defers.push(seq![]), ..old(self).shared() }),
            final(self).setup() == old(self).setup(),
            final(self).max_operations == old(self).max_operations,
            final(self).operations == old(self).operations,
            final(self).defers@.len() == old(self).defers@.len() + 1,
    {
        let ghost before = self.defers@;
        let frame: Vec<&'a Stmt> = Vec::new();
        assert(frame@.map_values(|x: &'a Stmt| *x) =~= Seq::<Stmt>::empty());
        self.defers.push(frame);
        assert(self.defers@ == before.push(frame));
        assert(defers_view(self.defers@) =~= defers_view(before).push(seq![]));
    }

    /// Closes the innermost frame and, when the block succeeded, runs its
    /// cleanups.
    fn finish_block(&mut self, r: Result<Option<Value>, String>, depth: usize, hdepth: usize, ops0: usize, env: &mut StrMap<Value>) -> (out: Result<Option<Value>, String>)
        requires
            old(self).max_operations < usize::MAX,
            ops0 <= old(self).operations,
            r is Ok && ops0 <= old(self).max_operations ==> old(self).operations <= old(self).max_operations,
        ensures
            ({
                let c = close_frame(old(self).shared().defers, depth as nat);
                let sh2 = Shared { defers: c.1, handlers: drop_handlers(old(self).shared().handlers, hdepth as nat), ..old(self).shared() };
                let fx = old(self).setup();
                (env_view(final(env)@), final(self).shared(), signal_view(out)) == (match signal_view(r) {
                    Err(x) => (env_view(old(env)@), sh2, Err(x)),
                    Ok(v) => if c.0.len() == 0 {
                        (env_view(old(env)@), sh2, Ok(v))
                    } else if !(ops0 < sh2.ops && sh2.ops <= fx.max_ops) {
                        (env_view(old(env)@), sh2, Err(limit_error()))
                    } else {
                        let rc = ev_cleanups(fx, c.0, env_view(old(env)@), sh2);
                        match rc.2 {
                            Err(x) => rc,
                            Ok(_) => (rc.0, rc.1, Ok(v)),
                        }
                    },
                })
            }),
            final(self).setup() == old(self).setup(),
            final(self).max_operations == old(self).max_operations,
            old(self).operations <= final(self).operations,
            out is Ok && ops0 <= old(self).max_operations ==> final(self).operations <= final(self).max_operations,
        decreases old(self).max_operations - ops0, 0nat, 5nat,
    {
        let ghost d0 = self.defers@;
        let popped: Vec<&'a Stmt> = match self.defers.pop() {
            Some(f) => f,
            None => Vec::new(),
        };
        self.defers.truncate(depth);
        let ghost h0 = self.handlers@;
        self.handlers.truncate(hdepth);
        proof {
            lemma_fields_view(h0);
            lemma_fields_view(self.handlers@);
            assert(fields_view(self.handlers@) =~= drop_handlers(fields_view(h0), hdepth as nat));
            let c = close_frame(defers_view(d0), depth as nat);
            if d0.len() > 0 {
                assert(defers_view(d0).last() == popped@.map_values(|x: &'a Stmt| *x));
                assert(defers_view(d0).drop_last() =~= defers_view(d0.drop_last()));
            }
            assert(c.0 =~= popped@.map_values(|x: &'a Stmt| *x));
            assert(defers_view(self.defers@) =~= c.1);
        }
        match r {
            Err(x) => Err(x),
            Ok(v) => {
                if popped.len() == 0 {
                    return Ok(v);
                }
                if !(ops0 < self.operations && self.operations <= self.max_operations) {
                    return Err(message("step limit exceeded"));
                }
                match self.eval_cleanups(&popped, env) {
                    Err(x) => Err(x),
                    Ok(_) => Ok(v),
                }
            },
        }
    }

    /// Runs cleanups, the last one first (see `ev_cleanups`).
    fn eval_cleanups(&mut self, cs: &Vec<&'a Stmt>, env: &mut StrMap<Value>) -> (r: Result<Option<Value>, String>)
        requires
            old(self).max_operations < usize::MAX,
            old(self).operations <= old(self).max_operations,
        ensures
            (env_view(final(env)@), final(self).shared(), signal_view(r))
                == ev_cleanups(old(self).setup(), cs@.map_values(|x: &'a Stmt| *x), env_view(old(env)@), old(self).shared()),
            final(self).setup() == old(self).setup(),
            final(self).max_operations == old(self).max_operations,
            old(self).operations <= final(self).operations,
            r is Ok ==> final(self).operations <= final(self).max_operations,
        decreases old(self).max_operations - old(self).operations, 2nat, 0nat,
    {
        let ghost fx = self.setup();
        let ghost all = cs@.map_values(|x: &'a Stmt| *x);
        let ghost sh0 = self.shared();
        let ghost v0 = env_view(env@);
        let ghost ops0 = self.operations;
        let mut n: usize = cs.len();
        assert(all.take(n as int) =~= all);
        while n > 0
            invariant
                n <= cs@.len(),
                all == cs@.map_values(|x: &'a Stmt| *x),
                fx == self.setup(),
                fx == old(self).setup(),
                sh0 == old(self).shared(),
                v0 == env_view(old(env)@),
                self.max_operations < usize::MAX,
                self.max_operations == old(self).max_operations,
                ops0 == old(self).operations,
                ops0 <= self.operations <= self.max_operations,
                ev_cleanups(fx, all, v0, sh0) == ev_cleanups(fx, all.take(n as int), env_view(env@), self.shared()),
            decreases n,
        {
            let ghost cur = all.take(n as int);
            assert(cur.last() == *cs@[n - 1]);
            assert(cur.drop_last() =~= all.take(n - 1));
            let c: &'a Stmt = cs[n - 1];
            let r = match c {
                Stmt::Block(body, _) => self.eval_block(body, env),
                _ => self.eval_single_block(c, env),
            };
            match r {
                Err(x) => {
                    return Err(x);
                },
                Ok(_) => {},
            }
            n = n - 1;
        }
        Ok(None)
    }

    /// Adds a cleanup to the innermost open block, if there is one.
    fn register_cleanup(&mut self, c: &'a Stmt)
        ensures
            final(self).shared() == (Shared {
                defers: if old(self).shared().defers.len() > 0 {
                    old(self).shared().defers.update(old(self).shared().defers.len() - 1, old(self).shared().defers.last().push(*c))
                } else {
                    old(self).shared().defers
                },
                ..old(self).shared()
            }),
            final(self).setup() == old(self).setup(),
            final(self).max_operations == old(self).max_operations,
            final(self).operations == old(self).operations,
    {
        let ghost before = self.defers@;
        match self.defers.pop() {
            Some(mut top) => {
                let ghost t0 = top@;
                top.push(c);
                self.defers.push(top);
                proof {
                    let d = defers_view(before);
                    assert(before.drop_last().push(top) =~= self.defers@);
                    assert(top@.map_values(|x: &'a Stmt| *x) =~= t0.map_values(|x: &'a Stmt| *x).push(*c));
                    assert(defers_view(self.defers@) =~= d.update(d.len() - 1, d.last().push(*c)));
                }
            },
            None => {
                assert(defers_view(self.defers@) =~= defers_view(before));
            },
        }
    }

    /// Takes the pending loop signal: whether it was `break`.
    fn take_flow(&mut self) -> (brk: bool)
        ensures
            (final(self).shared(), brk) == take_flow(old(self).shared()),
            final(self).setup() == old(self).setup(),
            final(self).max_operations == old(self).max_operations,
            final(self).operations == old(self).operations,
    {
        let brk = match self.flow {
            Some(ControlFlow::Break) => true,
            _ => false,
        };
        self.flow = None;
        brk
    }

    /// Runs a statement over `env`: it counts one step, then acts.
    #[verifier::rlimit(40)]
    pub fn eval_stmt(&mut self, stmt: &'a Stmt, env: &mut StrMap<Value>) -> (r: Result<Option<Value>, String>)
        requires
            old(self).max_operations < usize::MAX,
        ensures
            (env_view(final(env)@), final(self).shared(), signal_view(r)) == ev_stmt(old(self).setup(), *stmt, env_view(old(env)@), old(self).shared()),
            final(self).setup() == old(self).setup(),
            final(self).max_operations == old(self).max_operations,
            old(self).operations <= final(self).operations,
            r is Ok ==> old(self).operations < final(self).operations <= final(self).max_operations,
        decreases old(self).max_operations - old(self).operations, 0nat, 0nat,
    {
        match self.tick_op() {
            Ok(()) => {},
            Err(x) => {
                return Err(x);
            },
        }
        match stmt {
            Stmt::Let(name, _, e, _) | Stmt::LetMut(name, _, e, _) | Stmt::LetLinear(name, _, e, _) | Stmt::Assign(name, e, _) => {
                match self.eval_expr(e, env) {
                    Ok(v) => {
                        let ghost before = env@;
                        let ghost vv = value_view(v);
                        env.insert(name.clone(), v);
                        assert(env_view(env@) =~= env_view(before).insert(name@, vv));
                        Ok(None)
                    },
                    Err(x) => Err(x),
                }
            },
            Stmt::Print(e, _) => match self.eval_expr(e, env) {
                Ok(v) => {
                    let ghost before = self.shared();
                    let line = value_to_string(&self.floats, &v);
                    self.printed.push(line);
                    assert(self.shared().printed =~= before.printed.push(value_text(floats_view(self.floats@), value_view(v))));
                    Ok(None)
                },
                Err(x) => Err(x),
            },
            Stmt::ExprStmt(e, _) => match self.eval_expr(e, env) {
                Ok(_) => Ok(None),
                Err(x) => Err(x),
            },
            Stmt::Spawn { task, .. } => match self.eval_expr(task, env) {
                Ok(_) => Ok(None),
                Err(x) => Err(x),
            },
            Stmt::Block(body, _) | Stmt::Unsafe { body, .. } => self.eval_block(body, env),
            Stmt::If { cond, then_body, else_body, .. } => {
                let c = match self.eval_expr(cond, env) {
                    Ok(c) => c,
                    Err(x) => {
                        return Err(x);
                    },
                };
                if is_truthy(&c) {
                    self.eval_block(then_body, env)
                } else {
                    self.eval_block(else_body, env)
                }
            },
            Stmt::Loop { body, .. } => self.eval_loop(None, body, env),
            Stmt::While { cond, body, .. } => self.eval_loop(Some(&**cond), body, env),
            Stmt::For { var_name, iterable, body, .. } => {
                let it = match self.eval_expr(iterable, env) {
                    Ok(v) => v,
                    Err(x) => {
                        return Err(x);
                    },
                };
                match it {
                    Value::Int(n) => self.eval_for_int(var_name, n, body, env),
                    Value::Str(t) => {
                        let vals = char_values(t.as_str());
                        self.eval_for(var_name, &vals, body, env)
                    },
                    Value::Vector(vs) => self.eval_for(var_name, &vs, body, env),
                    Value::Dict(es) => {
                        let keys = key_values(&es);
                        self.eval_for(var_name, &keys, body, env)
                    },
                    _ => Err(message("For loop requires int, string, vector, or map iterable")),
                }
            },
            Stmt::WhileIn { var_name, iterable, body, .. } => {
                let it = match self.eval_expr(iterable, env) {
                    Ok(v) => v,
                    Err(x) => {
                        return Err(x);
                    },
                };
                match it {
                    Value::Int(n) => self.eval_for_int(var_name, n, body, env),
                    _ => Err(message("WhileIn requires int iterable")),
                }
            },
            Stmt::Return(e, _) => match self.eval_expr(e, env) {
                Ok(v) => Ok(Some(v)),
                Err(x) => Err(x),
            },
            Stmt::Break(_) => {
                self.flow = Some(ControlFlow::Break);
                Ok(None)
            },
            Stmt::Continue(_) => {
                self.flow = Some(ControlFlow::Continue);
                Ok(None)
            },
            Stmt::DerefAssign(..) => Err(message("reference assignment is available only in the qualified MIR/native path")),
            Stmt::Defer { cleanup, .. } | Stmt::AsyncDefer { cleanup, .. } => {
                self.register_cleanup(&**cleanup);
                Ok(None)
            },
            Stmt::EffectHandler { effect, handler, .. } => match self.eval_expr(handler, env) {
                Ok(v) => {
                    let ghost before = self.handlers@;
                    let ghost vv = value_view(v);
                    self.handlers.push((effect.clone(), v));
                    proof {
                        assert(self.handlers@.drop_last() =~= before);
                        assert(fields_view(self.handlers@) =~= fields_view(before).push((effect@, vv)));
                    }
                    Ok(None)
                },
                Err(x) => Err(x),
            },
            Stmt::Channel { .. } => Err(message("statement form is not supported by this interpreter")),
            _ => Ok(None),
        }
    }

    fn eval_loop(&mut self, cond: Option<&'a Expr>, body: &'a Vec<Stmt>, env: &mut StrMap<Value>) -> (r: Result<Option<Value>, String>)
        requires
            old(self).max_operations < usize::MAX,
            old(self).operations <= old(self).max_operations,
        ensures
            (env_view(final(env)@), final(self).shared(), signal_view(r))
                == ev_loop(old(self).setup(), match cond { Some(c) => Some(*c), None => None }, body@, env_view(old(env)@), old(self).shared()),
            final(self).setup() == old(self).setup(),
            final(self).max_operations == old(self).max_operations,
            old(self).operations <= final(self).operations,
            r is Ok ==> final(self).operations <= final(self).max_operations,
        decreases old(self).max_operations - old(self).operations, 2nat, 0nat,
    {
        let ghost fx = self.setup();
        let ghost sh0 = self.shared();
        let ghost v0 = env_view(env@);
        let ghost ops0 = self.operations;
        let ghost cv: Option<Expr> = match cond { Some(c) => Some(*c), None => None };
        loop
            invariant
                fx == self.setup(),
                fx == old(self).setup(),
                sh0 == old(self).shared(),
                v0 == env_view(old(env)@),
                cv == (match cond { Some(c) => Some(*c), None => None::<Expr> }),
                self.max_operations < usize::MAX,
                self.max_operations == old(self).max_operations,
                ops0 == old(self).operations,
                ops0 <= self.operations <= self.max_operations,
                ev_loop(fx, cv, body@, v0, sh0) == ev_loop(fx, cv, body@, env_view(env@), self.shared()),
            decreases self.max_operations - self.operations,
        {
            match self.tick_op() {
                Ok(()) => {},
                Err(x) => {
                    return Err(x);
                },
            }
            let go = match cond {
                None => true,
                Some(c) => match self.eval_expr(c, env) {
                    Ok(v) => is_truthy(&v),
                    Err(x) => {
                        return Err(x);
                    },
                },
            };
            if !go {
                return Ok(None);
            }
            match self.eval_block(body, env) {
                Ok(None) => {},
                Ok(Some(v)) => {
                    return Ok(Some(v));
                },
                Err(x) => {
                    return Err(x);
                },
            }
            if self.take_flow() {
                return Ok(None);
            }
        }
    }

    fn eval_for(&mut self, var: &String, vals: &Vec<Value>, body: &'a Vec<Stmt>, env: &mut StrMap<Value>) -> (r: Result<Option<Value>, String>)
        requires
            old(self).max_operations < usize::MAX,
            old(self).operations <= old(self).max_operations,
        ensures
            (env_view(final(env)@), final(self).shared(), signal_view(r))
                == ev_for(old(self).setup(), var@, values_view(vals@), body@, env_view(old(env)@), old(self).shared()),
            final(self).setup() == old(self).setup(),
            final(self).max_operations == old(self).max_operations,
            old(self).operations <= final(self).operations,
            r is Ok ==> final(self).operations <= final(self).max_operations,
        decreases old(self).max_operations - old(self).operations, 2nat, 0nat,
    {
        let ghost fx = self.setup();
        let ghost sh0 = self.shared();
        let ghost v0 = env_view(env@);
        let ghost ops0 = self.operations;
        let ghost vv = values_view(vals@);
        proof {
            lemma_values_view(vals@);
        }
        let mut i: usize = 0;
        assert(vv.subrange(0, vv.len() as int) =~= vv);
        while i < vals.len()
            invariant
                i <= vals@.len(),
                vv == values_view(vals@),
                vv.len() == vals@.len(),
                forall|q: int| 0 <= q < vals@.len() ==> #[trigger] vv[q] == value_view(vals@[q]),
                fx == self.setup(),
                fx == old(self).setup(),
                sh0 == old(self).shared(),
                v0 == env_view(old(env)@),
                self.max_operations < usize::MAX,
                self.max_operations == old(self).max_operations,
                ops0 == old(self).operations,
                ops0 <= self.operations <= self.max_operations,
                ev_for(fx, var@, vv, body@, v0, sh0) == ev_for(fx, var@, vv.subrange(i as int, vv.len() as int), body@, env_view(env@), self.shared()),
            decreases vals.len() - i,
        {
            let ghost rest = vv.subrange(i as int, vv.len() as int);
            assert(rest[0] == vv[i as int]);
            assert(rest.subrange(1, rest.len() as int) =~= vv.subrange(i + 1, vv.len() as int));
            let ghost before = env@;
            let c = copy_value(&vals[i]);
            env.insert(var.clone(), c);
            assert(env_view(env@) =~= env_view(before).insert(var@, vv[i as int]));
            match self.eval_block(body, env) {
                Ok(None) => {},
                Ok(Some(v)) => {
                    return Ok(Some(v));
                },
                Err(x) => {
                    return Err(x);
                },
            }
            if self.take_flow() {
                return Ok(None);
            }
            i = i + 1;
        }
        Ok(None)
    }

    fn eval_for_int(&mut self, var: &String, n: i64, body: &'a Vec<Stmt>, env: &mut StrMap<Value>) -> (r: Result<Option<Value>, String>)
        requires
            old(self).max_operations < usize::MAX,
            old(self).operations <= old(self).max_operations,
        ensures
            (env_view(final(env)@), final(self).shared(), signal_view(r))
                == ev_for_int(old(self).setup(), var@, 0, n, body@, env_view(old(env)@), old(self).shared()),
            final(self).setup() == old(self).setup(),
            final(self).max_operations == old(self).max_operations,
            old(self).operations <= final(self).operations,
            r is Ok ==> final(self).operations <= final(self).max_operations,
        decreases old(self).max_operations - old(self).operations, 2nat, 0nat,
    {
        let ghost fx = self.setup();
        let ghost sh0 = self.shared();
        let ghost v0 = env_view(env@);
        let ghost ops0 = self.operations;
        let mut i: i64 = 0;
        while i < n
            invariant
                0 <= i,
                i < n || i == 0 || i == n,
                fx == self.setup(),
                fx == old(self).setup(),
                sh0 == old(self).shared(),
                v0 == env_view(old(env)@),
                self.max_operations < usize::MAX,
                self.max_operations == old(self).max_operations,
                ops0 == old(self).operations,
                ops0 <= self.operations <= self.max_operations,
                ev_for_int(fx, var@, 0, n, body@, v0, sh0) == ev_for_int(fx, var@, i, n, body@, env_view(env@), self.shared()),
            decreases n - i,
        {
            let ghost before = env@;
            env.insert(var.clone(), Value::Int(i));
            assert(env_view(env@) =~= env_view(before).insert(var@, ValueView::Int(i)));
            match self.eval_block(body, env) {
                Ok(None) => {},
                Ok(Some(v)) => {
                    return Ok(Some(v));
                },
                Err(x) => {
                    return Err(x);
                },
            }
            if self.take_flow() {
                return Ok(None);
            }
            i = i + 1;
        }
        Ok(None)
    }
}

/// The characters of a string, each as a string value of its own.
fn char_values(t: &str) -> (r: Vec<Value>)
    ensures
        values_view(r@) == char_strings(t@),
{
    let cs = chars_of(t);
    let mut out: Vec<Value> = Vec::new();
    let mut i: usize = 0;
    while i < cs.len()
        invariant
            i <= cs@.len(),
            cs@ == t@,
            out@.len() == i,
            forall|q: int| 0 <= q < i ==> value_view(#[trigger] out@[q]) == ValueView::Str(seq![t@[q]]),
        decreases cs.len() - i,
    {
        let mut u = String::new();
        push_char(&mut u, cs[i]);
        assert(u@ =~= seq![t@[i as int]]);
        out.push(Value::Str(u));
        i = i + 1;
    }
    proof {
        lemma_values_view(out@);
        assert(values_view(out@) =~= char_strings(t@));
    }
    out
}

/// The keys of a map, each as a string value.
fn key_values(es: &Vec<(String, Value)>) -> (r: Vec<Value>)
    ensures
        values_view(r@) == map_keys(fields_view(es@)),
{
    proof {
        lemma_fields_view(es@);
    }
    let mut out: Vec<Value> = Vec::new();
    let mut i: usize = 0;
    while i < es.len()
        invariant
            i <= es@.len(),
            fields_view(es@).len() == es@.len(),
            forall|q: int| 0 <= q < es@.len() ==> #[trigger] fields_view(es@)[q] == (es@[q].0@, value_view(es@[q].1)),
            out@.len() == i,
            forall|q: int| 0 <= q < i ==> value_view(#[trigger] out@[q]) == ValueView::Str(es@[q].0@),
        decreases es.len() - i,
    {
        out.push(Value::Str(es[i].0.clone()));
        i = i + 1;
    }
    proof {
        lemma_values_view(out@);
        assert(values_view(out@) =~= map_keys(fields_view(es@)));
    }
    out
}

/// Runs a program: the functions it declares are known from the start, its
/// statements run over an empty environment, and what it prints is returned
/// with the outcome. A run takes at most `max_operations` steps.
pub fn run_program(prog: &Program, floats: Vec<(u64, String)>, max_operations: usize) -> (r: (Vec<String>, Result<(), String>))
    requires
        max_operations < usize::MAX,
    ensures
        ({
            let fx = Setup { funs: declared_funs(prog.stmts@), max_ops: max_operations as nat, floats: floats_view(floats@) };
            let o = ev_block(fx, prog.stmts@, Map::empty(), Shared { ops: 0, printed: seq![], flow: None, defers: seq![], closures: seq![], handlers: seq![] });
            &&& r.0@.map_values(|t: String| t@) == o.1.printed
            &&& (r.1 is Ok <==> o.2 is Ok)
            &&& (r.1 matches Err(e) ==> o.2 == Err::<Option<ValueView>, Seq<char>>(e@))
        }),
{
    let mut it = Interpreter::new(prog, floats, max_operations);
    let mut env: StrMap<Value> = StrMap::new();
    assert(env_view(env@) =~= Map::<Seq<char>, ValueView>::empty());
    let r = it.eval_block(&prog.stmts, &mut env);
    let out = match r {
        Ok(_) => Ok(()),
        Err(e) => Err(e),
    };
    (it.printed, out)
}

} // verus!
