//! The built-in functions on maps and sets, on `Option` and `Result` values
//! (maps with a `"value"` or an `"err"` entry), and the byte length, search,
//! parse, replace and power functions on strings and integers.
//!
//! A map holds its entries in the order their keys were first inserted; an
//! insert of a present key replaces its value in place.

use vstd::prelude::*;
use vstd::arithmetic::power::pow;
use super::{checked_index, copy_fields, copy_value, copy_values, error_with, fields_view, int_text, lemma_fields_view, lemma_values_view, message, push_int, result_view, value_view, values_view, Value, ValueView};
use crate::lsp::{char_utf8_len, utf8_len};
use crate::text::{chars_of, occurs_at, occurs_at_exec, push_char, push_str, replace_all, replace_chars, str_eq, string_from_chars};

verus! {

/// The entries of a map value, in order.
pub type Entries = Seq<(Seq<char>, ValueView)>;

// ---------------------------------------------------------------------------
// Maps, in the abstract
// ---------------------------------------------------------------------------

/// The position of the first entry with key `k`.
pub open spec fn key_index(m: Entries, k: Seq<char>) -> Option<int>
    decreases m.len(),
{
    if m.len() == 0 {
        None
    } else if m[0].0 == k {
        Some(0)
    } else {
        match key_index(m.drop_first(), k) {
            Some(i) => Some(i + 1),
            None => None,
        }
    }
}

/// The value under key `k`.
pub open spec fn map_get(m: Entries, k: Seq<char>) -> Option<ValueView> {
    match key_index(m, k) {
        Some(i) => Some(m[i].1),
        None => None,
    }
}

/// The map with `k` bound to `v`: in place when `k` is present, else at the end.
pub open spec fn map_put(m: Entries, k: Seq<char>, v: ValueView) -> Entries {
    match key_index(m, k) {
        Some(i) => m.update(i, (k, v)),
        None => m.push((k, v)),
    }
}

/// The map without key `k`.
pub open spec fn map_del(m: Entries, k: Seq<char>) -> Entries {
    match key_index(m, k) {
        Some(i) => m.remove(i),
        None => m,
    }
}

/// `a` with every entry of `b` put into it, in `b`'s order.
pub open spec fn map_union(a: Entries, b: Entries) -> Entries
    decreases b.len(),
{
    if b.len() == 0 {
        a
    } else {
        map_put(map_union(a, b.drop_last()), b.last().0, b.last().1)
    }
}

/// The entries of `a` whose key `b` has, in `a`'s order.
pub open spec fn map_inter(a: Entries, b: Entries) -> Entries
    decreases a.len(),
{
    if a.len() == 0 {
        seq![]
    } else if key_index(b, a.last().0) is Some {
        map_inter(a.drop_last(), b).push(a.last())
    } else {
        map_inter(a.drop_last(), b)
    }
}

/// `key_index` finds the first entry with the key, or tells that none has it.
pub proof fn lemma_key_index(m: Entries, k: Seq<char>)
    ensures
        match key_index(m, k) {
            Some(i) => 0 <= i < m.len() && m[i].0 == k && forall|j: int| 0 <= j < i ==> #[trigger] m[j].0 != k,
            None => forall|j: int| 0 <= j < m.len() ==> #[trigger] m[j].0 != k,
        },
    decreases m.len(),
{
    if m.len() > 0 && m[0].0 != k {
        lemma_key_index(m.drop_first(), k);
        match key_index(m.drop_first(), k) {
            Some(i) => {
                assert forall|j: int| 0 <= j < i + 1 implies #[trigger] m[j].0 != k by {
                    if j > 0 {
                        assert(m[j] == m.drop_first()[j - 1]);
                    }
                }
            },
            None => {
                assert forall|j: int| 0 <= j < m.len() implies #[trigger] m[j].0 != k by {
                    if j > 0 {
                        assert(m[j] == m.drop_first()[j - 1]);
                    }
                }
            },
        }
    }
}

/// The keys of a map, as string values, in order.
pub open spec fn map_keys(m: Entries) -> Seq<ValueView> {
    Seq::new(m.len(), |i: int| ValueView::Str(m[i].0))
}

// ---------------------------------------------------------------------------
// Strings and integers, in the abstract
// ---------------------------------------------------------------------------

/// The number of bytes the UTF-8 encoding of `s` takes.
pub open spec fn utf8_bytes(s: Seq<char>) -> nat
    decreases s.len(),
{
    if s.len() == 0 {
        0
    } else {
        utf8_bytes(s.drop_last()) + utf8_len(s.last())
    }
}

/// The first position from `i` on where `p` occurs in `s`.
pub open spec fn find_from(s: Seq<char>, p: Seq<char>, i: int) -> Option<int>
    decreases s.len() + 1 - i,
{
    if i < 0 || i + p.len() > s.len() {
        None
    } else if occurs_at(s, p, i) {
        Some(i)
    } else {
        find_from(s, p, i + 1)
    }
}

/// The byte position of the first occurrence of `p` in `s` (as `str::find`).
pub open spec fn find_bytes(s: Seq<char>, p: Seq<char>) -> Option<nat> {
    match find_from(s, p, 0) {
        Some(i) => Some(utf8_bytes(s.take(i))),
        None => None,
    }
}

/// `r` before, between and after every character of `s`.
pub open spec fn interleave(s: Seq<char>, r: Seq<char>) -> Seq<char>
    decreases s.len(),
{
    if s.len() == 0 {
        r
    } else {
        interleave(s.drop_last(), r) + seq![s.last()] + r
    }
}

/// `s` with every occurrence of `p` replaced by `r` (as `str::replace`; an
/// empty pattern matches before every character and at the end).
pub open spec fn str_replace(s: Seq<char>, p: Seq<char>, r: Seq<char>) -> Seq<char> {
    if p.len() == 0 {
        interleave(s, r)
    } else {
        replace_all(s, p, r)
    }
}

/// Whether every character is an ASCII digit.
pub open spec fn all_digits(d: Seq<char>) -> bool {
    forall|i: int| 0 <= i < d.len() ==> '0' <= #[trigger] d[i] <= '9'
}

/// The number the decimal digits `d` write.
pub open spec fn digits_val(d: Seq<char>) -> int
    decreases d.len(),
{
    if d.len() == 0 {
        0
    } else {
        digits_val(d.drop_last()) * 10 + (d.last() as int - '0' as int)
    }
}

/// The `i64` a text writes: an optional sign, then one or more ASCII digits,
/// the number in range (as `str::parse::<i64>`).
pub open spec fn parse_i64(s: Seq<char>) -> Option<i64> {
    let neg = s.len() > 0 && s[0] == '-';
    let d = if s.len() > 0 && (s[0] == '-' || s[0] == '+') { s.skip(1) } else { s };
    let v = if neg { -digits_val(d) } else { digits_val(d) };
    if d.len() == 0 || !all_digits(d) || v < i64::MIN || v > i64::MAX {
        None
    } else {
        Some(v as i64)
    }
}

proof fn lemma_digits_grow(d: Seq<char>, j: int)
    requires
        all_digits(d),
        0 <= j <= d.len(),
    ensures
        0 <= digits_val(d.take(j)) <= digits_val(d),
    decreases d.len(),
{
    if d.len() > 0 {
        if j == d.len() {
            assert(d.take(j) =~= d);
            lemma_digits_grow(d.drop_last(), d.len() - 1);
            assert(d.drop_last().take(d.len() - 1) =~= d.drop_last());
        } else {
            assert(all_digits(d.drop_last()));
            lemma_digits_grow(d.drop_last(), j);
            assert(d.drop_last().take(j) =~= d.take(j));
            lemma_digits_grow(d.drop_last(), d.len() - 1);
            assert(d.drop_last().take(d.len() - 1) =~= d.drop_last());
            assert(d.last() == d[d.len() - 1]);
        }
    }
}

/// Whether a number fits in an `i64`.
pub open spec fn in_i64(x: int) -> bool {
    i64::MIN <= x <= i64::MAX
}

// ---------------------------------------------------------------------------
// Equality of values, in the abstract
// ---------------------------------------------------------------------------

/// Whether a floating-point bit pattern is a NaN.
pub open spec fn float_is_nan(b: u64) -> bool {
    (b / 0x10_0000_0000_0000) % 0x800 == 0x7ff && b % 0x10_0000_0000_0000 != 0
}

/// `==` on two floating-point values given by their bits: no NaN equals
/// anything, the two zeros are equal, other values are equal when their
/// bits are.
pub open spec fn float_eq(a: u64, b: u64) -> bool {
    !float_is_nan(a) && !float_is_nan(b) && (a == b || (a % 0x8000_0000_0000_0000 == 0 && b % 0x8000_0000_0000_0000 == 0))
}

/// `==` on two values: the same variant with equal contents; vectors
/// element by element; maps and records with the same keys, equal values
/// under each (in any order); closures when they are the same closure.
pub open spec fn value_eq(a: ValueView, b: ValueView) -> bool
    decreases a,
{
    match (a, b) {
        (ValueView::Unit, ValueView::Unit) => true,
        (ValueView::Int(x), ValueView::Int(y)) => x == y,
        (ValueView::Float(x), ValueView::Float(y)) => float_eq(x, y),
        (ValueView::Char(x), ValueView::Char(y)) => x == y,
        (ValueView::Byte(x), ValueView::Byte(y)) => x == y,
        (ValueView::Str(x), ValueView::Str(y)) => x == y,
        (ValueView::Bytes(x), ValueView::Bytes(y)) => x == y,
        (ValueView::Bool(x), ValueView::Bool(y)) => x == y,
        (ValueView::Vector(xs), ValueView::Vector(ys)) => vals_eq(xs, ys),
        (ValueView::Dict(m), ValueView::Dict(n)) => m.len() == n.len() && entries_eq(m, n),
        (ValueView::Closure(i), ValueView::Closure(j)) => i == j,
        (ValueView::Record(x, fs), ValueView::Record(y, gs)) => x == y && fs.len() == gs.len() && entries_eq(fs, gs),
        _ => false,
    }
}

/// Element-wise equality of two sequences of values.
pub open spec fn vals_eq(xs: Seq<ValueView>, ys: Seq<ValueView>) -> bool
    decreases xs,
{
    if xs.len() == 0 {
        ys.len() == 0
    } else {
        ys.len() > 0 && value_eq(xs[0], ys[0]) && vals_eq(xs.subrange(1, xs.len() as int), ys.subrange(1, ys.len() as int))
    }
}

/// Every entry of `m` has its key in `n`, with an equal value.
pub open spec fn entries_eq(m: Entries, n: Entries) -> bool
    decreases m,
{
    if m.len() == 0 {
        true
    } else {
        match map_get(n, m[0].0) {
            Some(w) => value_eq(m[0].1, w) && entries_eq(m.subrange(1, m.len() as int), n),
            None => false,
        }
    }
}

/// Whether a sequence holds a value equal to `v`.
pub open spec fn vals_contain(xs: Seq<ValueView>, v: ValueView) -> bool
    decreases xs.len(),
{
    if xs.len() == 0 {
        false
    } else {
        value_eq(xs[0], v) || vals_contain(xs.subrange(1, xs.len() as int), v)
    }
}

// ---------------------------------------------------------------------------
// The built-ins, in the abstract
// ---------------------------------------------------------------------------

/// The key a set operation takes from a value: a string, or an integer's
/// decimal text.
pub open spec fn set_key(v: ValueView) -> Option<Seq<char>> {
    match v {
        ValueView::Str(k) => Some(k),
        ValueView::Int(i) => Some(int_text(i)),
        _ => None,
    }
}

/// A map of one entry.
pub open spec fn one(k: Seq<char>, v: ValueView) -> ValueView {
    ValueView::Dict(seq![(k, v)])
}

/// The string and integer built-ins.
pub open spec fn builtin_text(name: Seq<char>, args: Seq<ValueView>) -> Option<Result<ValueView, Seq<char>>> {
    if name == "str_len"@ {
        Some(if args.len() != 1 {
            Err("str_len requires one argument"@)
        } else {
            match args[0] {
                ValueView::Str(s) => Ok(ValueView::Int(utf8_bytes(s) as i64)),
                _ => Err("str_len requires string"@),
            }
        })
    } else if name == "string_find"@ {
        Some(if args.len() != 2 {
            Err("string_find requires two arguments"@)
        } else {
            match (args[0], args[1]) {
                (ValueView::Str(s), ValueView::Str(p)) => Ok(ValueView::Int(match find_bytes(s, p) {
                    Some(b) => b as i64,
                    None => -1i64,
                })),
                _ => Err("string_find requires two strings"@),
            }
        })
    } else if name == "string_to_int"@ {
        Some(if args.len() != 1 {
            Err("string_to_int requires one argument"@)
        } else {
            match args[0] {
                ValueView::Str(s) => match parse_i64(s) {
                    Some(n) => Ok(ValueView::Int(n)),
                    None => Err("string_to_int: invalid i64 literal"@),
                },
                _ => Err("string_to_int requires string"@),
            }
        })
    } else if name == "string_replace"@ {
        Some(if args.len() != 3 {
            Err("string_replace requires three arguments"@)
        } else {
            match (args[0], args[1], args[2]) {
                (ValueView::Str(s), ValueView::Str(p), ValueView::Str(r)) => Ok(ValueView::Str(str_replace(s, p, r))),
                _ => Err("string_replace requires three strings"@),
            }
        })
    } else if name == "vector_contains"@ {
        Some(if args.len() != 2 {
            Err("vector_contains requires two arguments"@)
        } else {
            match args[0] {
                ValueView::Vector(xs) => Ok(ValueView::Bool(vals_contain(xs, args[1]))),
                _ => Err("vector_contains requires a vector and a value"@),
            }
        })
    } else if name == "int_pow"@ {
        Some(if args.len() != 2 {
            Err("int_pow requires two arguments"@)
        } else {
            match (args[0], args[1]) {
                (ValueView::Int(a), ValueView::Int(b)) =>
                    if b < 0 || b > u32::MAX {
                        Err("int_pow: exponent must be a non-negative u32"@)
                    } else if in_i64(pow(a as int, b as nat)) {
                        Ok(ValueView::Int(pow(a as int, b as nat) as i64))
                    } else {
                        Err("int_pow: arithmetic overflow"@)
                    },
                _ => Err("int_pow requires two ints"@),
            }
        })
    } else {
        None
    }
}

/// The set and map built-ins. A set is a map whose keys are strings, an
/// integer key standing as its decimal text.
pub open spec fn builtin_sets(name: Seq<char>, args: Seq<ValueView>) -> Option<Result<ValueView, Seq<char>>> {
    if name == "hashset_new"@ || name == "hashmap_new"@ {
        Some(Ok(ValueView::Dict(seq![])))
    } else if name == "hashset_insert"@ {
        Some(if args.len() != 2 {
            Err("hashset_insert requires two arguments"@)
        } else {
            match (args[0], set_key(args[1])) {
                (ValueView::Dict(m), Some(k)) => Ok(ValueView::Int(map_put(m, k, ValueView::Bool(true)).len() as i64)),
                _ => Err("hashset_insert requires (set,key)"@),
            }
        })
    } else if name == "hashset_contains"@ {
        Some(if args.len() != 2 {
            Err("hashset_contains requires two arguments"@)
        } else {
            match (args[0], set_key(args[1])) {
                (ValueView::Dict(m), Some(k)) => Ok(ValueView::Bool(key_index(m, k) is Some)),
                _ => Err("hashset_contains requires (set,key)"@),
            }
        })
    } else if name == "hashset_remove"@ {
        Some(if args.len() != 2 {
            Err("hashset_remove requires two arguments"@)
        } else {
            match (args[0], set_key(args[1])) {
                (ValueView::Dict(m), Some(k)) => Ok(ValueView::Int(map_del(m, k).len() as i64)),
                _ => Err("hashset_remove requires (set,key)"@),
            }
        })
    } else if name == "hashset_union"@ {
        Some(if args.len() != 2 {
            Err("hashset_union requires two arguments"@)
        } else {
            match (args[0], args[1]) {
                (ValueView::Dict(a), ValueView::Dict(b)) => Ok(ValueView::Dict(map_union(a, b))),
                _ => Err("hashset_union requires two sets"@),
            }
        })
    } else if name == "hashset_intersect"@ {
        Some(if args.len() != 2 {
            Err("hashset_intersect requires two arguments"@)
        } else {
            match (args[0], args[1]) {
                (ValueView::Dict(a), ValueView::Dict(b)) => Ok(ValueView::Dict(map_inter(a, b))),
                _ => Err("hashset_intersect requires two sets"@),
            }
        })
    } else if name == "hashset_len"@ {
        Some(if args.len() != 1 {
            Err("hashset_len requires one argument"@)
        } else {
            match args[0] {
                ValueView::Dict(m) => Ok(ValueView::Int(m.len() as i64)),
                _ => Err("hashset_len requires a set"@),
            }
        })
    } else {
        None
    }
}

/// The map built-ins that read a map.
pub open spec fn builtin_maps(name: Seq<char>, args: Seq<ValueView>) -> Option<Result<ValueView, Seq<char>>> {
    if false {
        None
    } else if name == "hashmap_get"@ {
        Some(if args.len() != 2 {
            Err("hashmap_get requires two arguments"@)
        } else {
            match (args[0], args[1]) {
                (ValueView::Dict(m), ValueView::Str(k)) => match map_get(m, k) {
                    Some(v) => Ok(v),
                    None => Err("hashmap_get: key '"@ + k + "' not found"@),
                },
                _ => Err("hashmap_get requires (map,string)"@),
            }
        })
    } else if name == "hashmap_len"@ {
        Some(if args.len() != 1 {
            Err("hashmap_len requires one argument"@)
        } else {
            match args[0] {
                ValueView::Dict(m) => Ok(ValueView::Int(m.len() as i64)),
                _ => Err("hashmap_len requires a map"@),
            }
        })
    } else if name == "hashmap_contains"@ {
        Some(if args.len() != 2 {
            Err("hashmap_contains requires two arguments"@)
        } else {
            match (args[0], args[1]) {
                (ValueView::Dict(m), ValueView::Str(k)) => Ok(ValueView::Bool(key_index(m, k) is Some)),
                _ => Err("hashmap_contains requires (map,string)"@),
            }
        })
    } else {
        None
    }
}

/// The built-ins on `Option` and `Result` values that call no function.
pub open spec fn builtin_options(name: Seq<char>, args: Seq<ValueView>) -> Option<Result<ValueView, Seq<char>>> {
    if name == "option_is_some"@ || name == "result_is_ok"@ {
        let what = if name == "option_is_some"@ { "option_is_some requires an Option value (map)"@ } else { "result_is_ok requires a Result value (map)"@ };
        Some(if args.len() != 1 {
            Err(name + " requires one argument"@)
        } else {
            match args[0] {
                ValueView::Dict(m) => Ok(ValueView::Bool(key_index(m, "value"@) is Some)),
                _ => Err(what),
            }
        })
    } else if name == "option_unwrap_or"@ || name == "result_unwrap_or"@ {
        let what = if name == "option_unwrap_or"@ { "option_unwrap_or requires (option,default)"@ } else { "result_unwrap_or requires (result,default)"@ };
        Some(if args.len() != 2 {
            Err(name + " requires two arguments"@)
        } else {
            match args[0] {
                ValueView::Dict(m) => Ok(match map_get(m, "value"@) {
                    Some(v) => v,
                    None => args[1],
                }),
                _ => Err(what),
            }
        })
    } else if name == "option_and"@ {
        Some(if args.len() != 2 {
            Err("option_and requires two arguments"@)
        } else {
            match args[0] {
                ValueView::Dict(m) => Ok(if key_index(m, "value"@) is Some { args[1] } else { ValueView::Dict(m) }),
                _ => Err("option_and requires an Option value (map)"@),
            }
        })
    } else if name == "option_zip"@ {
        Some(if args.len() != 2 {
            Err("option_zip requires two arguments"@)
        } else {
            match (args[0], args[1]) {
                (ValueView::Dict(a), ValueView::Dict(b)) => Ok(match (map_get(a, "value"@), map_get(b, "value"@)) {
                    (Some(x), Some(y)) => one("value"@, ValueView::Vector(seq![x, y])),
                    _ => ValueView::Dict(seq![]),
                }),
                _ => Err("option_zip requires two Option values"@),
            }
        })
    } else if name == "option_transpose"@ {
        Some(if args.len() != 1 {
            Err("option_transpose requires one argument"@)
        } else {
            match args[0] {
                ValueView::Dict(m) => match map_get(m, "value"@) {
                    Some(ValueView::Dict(inner)) => Ok(match map_get(inner, "value"@) {
                        Some(x) => one("value"@, one("value"@, x)),
                        None => match map_get(inner, "err"@) {
                            Some(e) => one("err"@, e),
                            None => ValueView::Dict(seq![]),
                        },
                    }),
                    Some(_) => Err("option_transpose requires Option<Result> value"@),
                    None => Ok(one("value"@, ValueView::Dict(seq![]))),
                },
                _ => Err("option_transpose requires an Option value"@),
            }
        })
    } else if name == "result_transpose"@ {
        Some(if args.len() != 1 {
            Err("result_transpose requires one argument"@)
        } else {
            match args[0] {
                ValueView::Dict(m) => match map_get(m, "value"@) {
                    Some(ValueView::Dict(inner)) => Ok(match map_get(inner, "value"@) {
                        Some(x) => one("value"@, one("value"@, x)),
                        None => ValueView::Dict(seq![]),
                    }),
                    Some(_) => Err("result_transpose requires Result<Option> value"@),
                    None => match map_get(m, "err"@) {
                        Some(e) => Ok(one("value"@, one("err"@, e))),
                        None => Err("result_transpose requires a Result value"@),
                    },
                },
                _ => Err("result_transpose requires a Result value (map)"@),
            }
        })
    } else {
        None
    }
}

/// The built-ins of this module that a call reaches before the declared
/// functions; `None` for another name.
pub open spec fn builtin_more(name: Seq<char>, args: Seq<ValueView>) -> Option<Result<ValueView, Seq<char>>> {
    match builtin_text(name, args) {
        Some(r) => Some(r),
        None => match builtin_sets(name, args) {
            Some(r) => Some(r),
            None => match builtin_maps(name, args) {
                Some(r) => Some(r),
                None => builtin_options(name, args),
            },
        },
    }
}

// ---------------------------------------------------------------------------
// Built-ins that write their first argument back, in the abstract
// ---------------------------------------------------------------------------

/// The error of a negative or unrepresentable index given to `op`.
pub open spec fn index_error(op: Seq<char>) -> Seq<char> {
    op + ": index/length must be non-negative and representable"@
}

/// The built-ins that change a vector or map in place: their result, and
/// the new value for the variable their first argument names (written back
/// only when that argument is a variable, which `named` tells).
pub open spec fn builtin_mut(name: Seq<char>, args: Seq<ValueView>, named: bool) -> Option<Result<(ValueView, Option<ValueView>), Seq<char>>> {
    if name == "vector_push"@ {
        Some(if args.len() != 2 {
            Err("vector_push requires two arguments"@)
        } else {
            match args[0] {
                ValueView::Vector(vs) => Ok((ValueView::Int((vs.len() + 1) as i64), Some(ValueView::Vector(vs.push(args[1]))))),
                _ => Err("vector_push requires a vector as first argument"@),
            }
        })
    } else if name == "vector_set"@ {
        Some(if args.len() != 3 {
            Err("vector_set requires three arguments"@)
        } else {
            match (args[0], args[1]) {
                (ValueView::Vector(vs), ValueView::Int(i)) =>
                    if i < 0 || i > usize::MAX {
                        Err(index_error("vector_set"@))
                    } else if i < vs.len() {
                        Ok((ValueView::Int(vs.len() as i64), Some(ValueView::Vector(vs.update(i as int, args[2])))))
                    } else {
                        Err("vector_set: index out of bounds"@)
                    },
                _ => Err("vector_set requires (vector,int,val)"@),
            }
        })
    } else if name == "vector_pop"@ {
        Some(if args.len() != 1 {
            Err("vector_pop requires one argument"@)
        } else {
            match args[0] {
                ValueView::Vector(vs) => if vs.len() == 0 {
                    Err("vector_pop: empty vector"@)
                } else {
                    Ok((vs.last(), Some(ValueView::Vector(vs.drop_last()))))
                },
                _ => Err("vector_pop requires a vector"@),
            }
        })
    } else if name == "vector_insert"@ {
        Some(if args.len() != 3 {
            Err("vector_insert requires three arguments"@)
        } else {
            match (args[0], args[1]) {
                (ValueView::Vector(vs), ValueView::Int(i)) =>
                    if i < 0 || i > usize::MAX {
                        Err(index_error("vector_insert"@))
                    } else if i <= vs.len() {
                        Ok((ValueView::Int((vs.len() + 1) as i64), Some(ValueView::Vector(vs.insert(i as int, args[2])))))
                    } else {
                        Err("vector_insert: index out of bounds"@)
                    },
                _ => Err("vector_insert requires (vector,int,val)"@),
            }
        })
    } else if name == "vector_remove"@ {
        Some(if args.len() != 2 {
            Err("vector_remove requires two arguments"@)
        } else {
            match (args[0], args[1]) {
                (ValueView::Vector(vs), ValueView::Int(i)) =>
                    if i < 0 || i > usize::MAX {
                        Err(index_error("vector_remove"@))
                    } else if i < vs.len() {
                        Ok((vs[i as int], Some(ValueView::Vector(vs.remove(i as int)))))
                    } else {
                        Err("vector_remove: index out of bounds"@)
                    },
                _ => Err("vector_remove requires (vector,int)"@),
            }
        })
    } else if name == "vector_clear"@ {
        Some(if args.len() != 1 {
            Err("vector_clear requires one argument"@)
        } else {
            match args[0] {
                ValueView::Vector(_) => Ok((ValueView::Unit, Some(ValueView::Vector(seq![])))),
                _ => Err("vector_clear requires a vector"@),
            }
        })
    } else if name == "vector_reserve"@ {
        Some(if args.len() != 2 {
            Err("vector_reserve requires two arguments"@)
        } else {
            match (args[0], args[1]) {
                (ValueView::Vector(vs), ValueView::Int(n)) =>
                    if n < 0 || n > usize::MAX {
                        Err(index_error("vector_reserve"@))
                    } else if named {
                        Ok((ValueView::Unit, Some(ValueView::Vector(vs))))
                    } else {
                        Err("vector_reserve requires a mutable named vector in the legacy interpreter"@)
                    },
                _ => Err("vector_reserve requires (vector,int)"@),
            }
        })
    } else if name == "hashmap_insert"@ {
        Some(if args.len() != 3 {
            Err("hashmap_insert requires three arguments"@)
        } else {
            match (args[0], args[1]) {
                (ValueView::Dict(m), ValueView::Str(k)) => {
                    let n = map_put(m, k, args[2]);
                    Ok((ValueView::Int(n.len() as i64), Some(ValueView::Dict(n))))
                },
                _ => Err("hashmap_insert requires (map,string,value)"@),
            }
        })
    } else if name == "hashmap_remove"@ {
        Some(if args.len() != 2 {
            Err("hashmap_remove requires two arguments"@)
        } else {
            match (args[0], args[1]) {
                (ValueView::Dict(m), ValueView::Str(k)) => {
                    let n = map_del(m, k);
                    Ok((ValueView::Int(n.len() as i64), Some(ValueView::Dict(n))))
                },
                _ => Err("hashmap_remove requires (map,string)"@),
            }
        })
    } else if name == "hashmap_clear"@ {
        Some(if args.len() != 1 {
            Err("hashmap_clear requires one argument"@)
        } else {
            match args[0] {
                ValueView::Dict(_) => if named {
                    Ok((ValueView::Unit, Some(ValueView::Dict(seq![]))))
                } else {
                    Err("hashmap_clear requires a mutable named map in the legacy interpreter"@)
                },
                _ => Err("hashmap_clear requires a map"@),
            }
        })
    } else if name == "hashset_clear"@ {
        Some(if args.len() != 1 {
            Err("hashset_clear requires one argument"@)
        } else {
            match args[0] {
                ValueView::Dict(_) => Ok((ValueView::Unit, Some(ValueView::Dict(seq![])))),
                _ => Err("hashset_clear requires a set"@),
            }
        })
    } else {
        None
    }
}

// ---------------------------------------------------------------------------
// Built-ins that call a declared function, in the abstract
// ---------------------------------------------------------------------------

/// What a built-in that calls a declared function makes of its result.
#[derive(Clone, Copy, PartialEq, Eq, Structural)]
pub enum Post {
    /// The result under `"value"`.
    Wrap,
    /// The result itself.
    Flat,
    /// The map with its `"err"` entry replaced by the result.
    SetErr,
    /// The map, or an empty one, as the result is true or false.
    Filter,
}

/// The call such a built-in makes: the function's name, whether it takes
/// one parameter or none, the error when it does not, the value for its
/// parameter (or the error when that value is missing), the map given, and
/// what is made of the result.
pub struct FnPlan {
    pub label: Seq<char>,
    pub fname: Seq<char>,
    pub one_param: bool,
    pub arity_error: Seq<char>,
    pub arg: Result<ValueView, Seq<char>>,
    pub map: Entries,
    pub post: Post,
}

/// Such a built-in either is done with its arguments or calls a function.
pub enum FnStep {
    Done(Result<ValueView, Seq<char>>),
    Call(FnPlan),
}

/// The names of the built-ins that call a declared function.
pub open spec fn is_fn_builtin(name: Seq<char>) -> bool {
    ||| name == "result_map"@
    ||| name == "result_map_err"@
    ||| name == "option_map"@
    ||| name == "option_flat_map"@
    ||| name == "option_or_else"@
    ||| name == "result_flat_map"@
    ||| name == "result_or_else"@
    ||| name == "option_filter"@
}

/// What such a built-in makes of the function's returned value.
pub open spec fn post_result(p: Post, res: Option<ValueView>, m: Entries) -> Result<ValueView, Seq<char>> {
    match p {
        Post::Wrap => Ok(match res {
            Some(v) => one("value"@, v),
            None => ValueView::Dict(seq![]),
        }),
        Post::Flat => Ok(match res {
            Some(v) => v,
            None => ValueView::Dict(seq![]),
        }),
        Post::SetErr => Ok(match res {
            Some(v) => ValueView::Dict(map_put(m, "err"@, v)),
            None => ValueView::Dict(m),
        }),
        Post::Filter => match res {
            Some(ValueView::Bool(b)) => Ok(if b { ValueView::Dict(m) } else { ValueView::Dict(seq![]) }),
            Some(ValueView::Int(n)) => if n == 1 {
                Ok(ValueView::Dict(m))
            } else if n == 0 {
                Ok(ValueView::Dict(seq![]))
            } else {
                Err("option_filter function must return bool"@)
            },
            _ => Err("option_filter function must return bool"@),
        },
    }
}

/// The built-ins on `Option` and `Result` values that call the declared
/// function named by their second argument: the `map`, `flat_map` and
/// `filter` ones when a value is present, `map_err` and `or_else` when it
/// is not; otherwise they give the map back.
pub open spec fn fn_builtin(name: Seq<char>, args: Seq<ValueView>) -> Option<FnStep> {
    if !is_fn_builtin(name) {
        None
    } else {
        let option = name == "option_map"@ || name == "option_flat_map"@ || name == "option_or_else"@ || name == "option_filter"@;
        let on_missing = name == "result_map_err"@ || name == "result_or_else"@ || name == "option_or_else"@;
        Some(if args.len() != 2 {
            FnStep::Done(Err(name + " requires two arguments"@))
        } else {
            match args[0] {
                ValueView::Dict(m) => if (key_index(m, "value"@) is Some) == on_missing {
                    FnStep::Done(Ok(ValueView::Dict(m)))
                } else {
                    match args[1] {
                        ValueView::Str(f) => FnStep::Call(FnPlan {
                            label: name,
                            fname: f,
                            one_param: name != "option_or_else"@,
                            arity_error: name + ": function "@ + f + (if name == "option_or_else"@ {
                                " must take 0 args"@
                            } else if name == "result_or_else"@ {
                                " must take 1 arg (the error value)"@
                            } else {
                                " must take 1 arg"@
                            }),
                            arg: if name == "result_map_err"@ || name == "result_or_else"@ {
                                match map_get(m, "err"@) {
                                    Some(e) => Ok(e),
                                    None => Err(name + ": malformed Result is missing err payload"@),
                                }
                            } else {
                                match map_get(m, "value"@) {
                                    Some(v) => Ok(v),
                                    None => Ok(ValueView::Unit),
                                }
                            },
                            map: m,
                            post: if name == "result_map"@ || name == "option_map"@ {
                                Post::Wrap
                            } else if name == "result_map_err"@ {
                                Post::SetErr
                            } else if name == "option_filter"@ {
                                Post::Filter
                            } else {
                                Post::Flat
                            },
                        }),
                        _ => FnStep::Done(Err(name + " expects a function name string"@)),
                    }
                },
                _ => FnStep::Done(Err(name + (if option { " requires an Option value (map)"@ } else { " requires a Result value (map)"@ }))),
            }
        })
    }
}

// ---------------------------------------------------------------------------
// Maps, concretely
// ---------------------------------------------------------------------------

/// The position of the first entry with key `k`.
pub fn key_index_exec(es: &Vec<(String, Value)>, k: &str) -> (r: Option<usize>)
    ensures
        match key_index(fields_view(es@), k@) {
            Some(i) => r == Some(i as usize),
            None => r is None,
        },
        r matches Some(j) ==> j < es@.len() && key_index(fields_view(es@), k@) == Some(j as int),
        r is None ==> key_index(fields_view(es@), k@) is None,
{
    proof {
        lemma_fields_view(es@);
    }
    let mut i: usize = 0;
    while i < es.len()
        invariant
            i <= es@.len(),
            fields_view(es@).len() == es@.len(),
            forall|q: int| 0 <= q < es@.len() ==> #[trigger] fields_view(es@)[q] == (es@[q].0@, value_view(es@[q].1)),
            forall|j: int| 0 <= j < i ==> #[trigger] fields_view(es@)[j].0 != k@,
        decreases es.len() - i,
    {
        if str_eq(es[i].0.as_str(), k) {
            proof {
                lemma_key_index(fields_view(es@), k@);
                assert(fields_view(es@)[i as int].0 == k@);
            }
            return Some(i);
        }
        i = i + 1;
    }
    proof {
        lemma_key_index(fields_view(es@), k@);
    }
    None
}

/// The value under key `k`, copied.
pub fn map_get_exec(es: &Vec<(String, Value)>, k: &str) -> (r: Option<Value>)
    ensures
        match map_get(fields_view(es@), k@) {
            Some(x) => r matches Some(y) && value_view(y) == x,
            None => r is None,
        },
{
    proof {
        lemma_fields_view(es@);
    }
    match key_index_exec(es, k) {
        Some(i) => {
            proof {
                lemma_key_index(fields_view(es@), k@);
                assert(fields_view(es@)[i as int] == (es@[i as int].0@, value_view(es@[i as int].1)));
            }
            Some(copy_value(&es[i].1))
        },
        None => None,
    }
}

/// The map with `k` bound to `v`.
pub fn map_put_exec(es: &Vec<(String, Value)>, k: String, v: Value) -> (r: Vec<(String, Value)>)
    ensures
        fields_view(r@) == map_put(fields_view(es@), k@, value_view(v)),
{
    let mut out = copy_fields(es);
    let ghost m = fields_view(es@);
    let ghost kv = k@;
    let ghost vv = value_view(v);
    match key_index_exec(&out, k.as_str()) {
        Some(i) => {
            let ghost before = out@;
            proof {
                lemma_key_index(m, kv);
            }
            out.set(i, (k, v));
            proof {
                lemma_fields_view(out@);
                lemma_fields_view(before);
                assert(fields_view(out@) =~= m.update(i as int, (kv, vv)));
            }
        },
        None => {
            let ghost before = out@;
            out.push((k, v));
            proof {
                lemma_fields_view(out@);
                lemma_fields_view(before);
                assert(fields_view(out@) =~= m.push((kv, vv)));
            }
        },
    }
    out
}

/// The map without key `k`.
pub fn map_del_exec(es: &Vec<(String, Value)>, k: &str) -> (r: Vec<(String, Value)>)
    ensures
        fields_view(r@) == map_del(fields_view(es@), k@),
{
    let mut out = copy_fields(es);
    let ghost m = fields_view(es@);
    match key_index_exec(&out, k) {
        Some(i) => {
            let ghost before = out@;
            proof {
                lemma_key_index(m, k@);
            }
            let _ = out.remove(i);
            proof {
                lemma_fields_view(out@);
                lemma_fields_view(before);
                assert(fields_view(out@) =~= m.remove(i as int));
            }
        },
        None => {},
    }
    out
}

/// `a` with the entries of `b` put into it.
pub fn map_union_exec(a: &Vec<(String, Value)>, b: &Vec<(String, Value)>) -> (r: Vec<(String, Value)>)
    ensures
        fields_view(r@) == map_union(fields_view(a@), fields_view(b@)),
{
    let ghost av = fields_view(a@);
    let ghost bv = fields_view(b@);
    proof {
        lemma_fields_view(b@);
    }
    let mut out = copy_fields(a);
    let mut i: usize = 0;
    assert(bv.take(0) =~= Seq::<(Seq<char>, ValueView)>::empty());
    while i < b.len()
        invariant
            i <= b@.len(),
            av == fields_view(a@),
            bv == fields_view(b@),
            bv.len() == b@.len(),
            forall|q: int| 0 <= q < b@.len() ==> #[trigger] bv[q] == (b@[q].0@, value_view(b@[q].1)),
            fields_view(out@) == map_union(av, bv.take(i as int)),
        decreases b.len() - i,
    {
        let c = copy_value(&b[i].1);
        out = map_put_exec(&out, b[i].0.clone(), c);
        proof {
            assert(bv.take(i + 1).drop_last() =~= bv.take(i as int));
            assert(bv.take(i + 1).last() == bv[i as int]);
        }
        i = i + 1;
    }
    assert(bv.take(i as int) =~= bv);
    out
}

/// The entries of `a` whose key `b` has.
pub fn map_inter_exec(a: &Vec<(String, Value)>, b: &Vec<(String, Value)>) -> (r: Vec<(String, Value)>)
    ensures
        fields_view(r@) == map_inter(fields_view(a@), fields_view(b@)),
{
    let ghost av = fields_view(a@);
    let ghost bv = fields_view(b@);
    proof {
        lemma_fields_view(a@);
    }
    let mut out: Vec<(String, Value)> = Vec::new();
    let mut i: usize = 0;
    assert(av.take(0) =~= Seq::<(Seq<char>, ValueView)>::empty());
    assert(fields_view(out@) =~= Seq::<(Seq<char>, ValueView)>::empty());
    while i < a.len()
        invariant
            i <= a@.len(),
            av == fields_view(a@),
            bv == fields_view(b@),
            av.len() == a@.len(),
            forall|q: int| 0 <= q < a@.len() ==> #[trigger] av[q] == (a@[q].0@, value_view(a@[q].1)),
            fields_view(out@) == map_inter(av.take(i as int), bv),
        decreases a.len() - i,
    {
        proof {
            assert(av.take(i + 1).drop_last() =~= av.take(i as int));
            assert(av.take(i + 1).last() == av[i as int]);
        }
        match key_index_exec(b, a[i].0.as_str()) {
            Some(_) => {
                let ghost before = out@;
                let c = copy_value(&a[i].1);
                out.push((a[i].0.clone(), c));
                proof {
                    lemma_fields_view(out@);
                    lemma_fields_view(before);
                    assert(fields_view(out@) =~= fields_view(before).push(av[i as int]));
                }
            },
            None => {},
        }
        i = i + 1;
    }
    assert(av.take(i as int) =~= av);
    out
}

/// A map of one entry.
pub fn one_exec(k: &str, v: Value) -> (r: Value)
    ensures
        value_view(r) == one(k@, value_view(v)),
{
    let ghost vv = value_view(v);
    let mut es: Vec<(String, Value)> = Vec::new();
    es.push((String::from_str(k), v));
    proof {
        lemma_fields_view(es@);
        assert(fields_view(es@) =~= seq![(k@, vv)]);
    }
    Value::Dict(es)
}

fn empty_map() -> (r: Value)
    ensures
        value_view(r) == ValueView::Dict(seq![]),
{
    let es: Vec<(String, Value)> = Vec::new();
    assert(fields_view(es@) =~= Seq::<(Seq<char>, ValueView)>::empty());
    Value::Dict(es)
}

fn set_key_exec(v: &Value) -> (r: Option<String>)
    ensures
        match set_key(value_view(*v)) {
            Some(k) => r matches Some(s) && s@ == k,
            None => r is None,
        },
{
    match v {
        Value::Str(k) => Some(k.clone()),
        Value::Int(i) => {
            let mut t = String::new();
            push_int(&mut t, *i);
            assert(t@ =~= int_text(*i));
            Some(t)
        },
        _ => None,
    }
}

// ---------------------------------------------------------------------------
// Strings and integers, concretely
// ---------------------------------------------------------------------------

/// The UTF-8 length of the first `n` characters.
fn utf8_prefix(cs: &Vec<char>, n: usize) -> (r: usize)
    requires
        n <= cs@.len(),
        cs@.len() <= isize::MAX / 4,
    ensures
        r == utf8_bytes(cs@.take(n as int)),
        r <= 4 * n,
{
    let mut total: usize = 0;
    let mut i: usize = 0;
    assert(cs@.take(0) =~= Seq::<char>::empty());
    while i < n
        invariant
            i <= n,
            n <= cs@.len(),
            cs@.len() <= isize::MAX / 4,
            total == utf8_bytes(cs@.take(i as int)),
            total <= 4 * i,
        decreases n - i,
    {
        proof {
            assert(cs@.take(i + 1).drop_last() =~= cs@.take(i as int));
            assert(cs@.take(i + 1).last() == cs@[i as int]);
        }
        total = total + char_utf8_len(cs[i]);
        i = i + 1;
    }
    total
}

fn find_exec(s: &str, p: &str) -> (r: i64)
    ensures
        r == match find_bytes(s@, p@) {
            Some(b) => b as i64,
            None => -1i64,
        },
{
    let cs = chars_of(s);
    let ps = chars_of(p);
    if ps.len() > cs.len() {
        assert(find_from(s@, p@, 0) is None);
        return -1;
    }
    let last = cs.len() - ps.len();
    let mut i: usize = 0;
    while i <= last
        invariant
            cs@ == s@,
            ps@ == p@,
            last + ps@.len() == cs@.len(),
            i <= last + 1,
            cs@.len() <= isize::MAX / 4,
            find_from(s@, p@, 0) == find_from(s@, p@, i as int),
        decreases last + 1 - i,
    {
        if occurs_at_exec(cs.as_slice(), ps.as_slice(), i) {
            let b = utf8_prefix(&cs, i);
            return b as i64;
        }
        i = i + 1;
    }
    -1
}

fn parse_i64_exec(s: &str) -> (r: Option<i64>)
    ensures
        r == parse_i64(s@),
{
    let cs = chars_of(s);
    let n = cs.len();
    let neg = n > 0 && cs[0] == '-';
    let start: usize = if n > 0 && (cs[0] == '-' || cs[0] == '+') { 1 } else { 0 };
    let ghost d = if s@.len() > 0 && (s@[0] == '-' || s@[0] == '+') { s@.skip(1) } else { s@ };
    assert(d =~= cs@.skip(start as int));
    if start >= n {
        return None;
    }
    let mut acc: u128 = 0;
    let mut i: usize = start;
    assert(d.take(0) =~= Seq::<char>::empty());
    while i < n
        invariant
            start <= i <= n,
            n == cs@.len(),
            cs@ == s@,
            d == cs@.skip(start as int),
            d == (if s@.len() > 0 && (s@[0] == '-' || s@[0] == '+') { s@.skip(1) } else { s@ }),
            neg == (s@.len() > 0 && s@[0] == '-'),
            d.len() == n - start,
            acc == digits_val(d.take(i - start)),
            acc <= 9223372036854775808,
            all_digits(d.take(i - start)),
        decreases n - i,
    {
        let c = cs[i];
        let ghost k = i - start;
        assert(d[k] == c);
        if c < '0' || c > '9' {
            assert(!all_digits(d));
            return None;
        }
        let dig: u128 = ((c as u32) - ('0' as u32)) as u128;
        let next: u128 = acc * 10 + dig;
        proof {
            assert(d.take(k + 1).drop_last() =~= d.take(k));
            assert(d.take(k + 1).last() == c);
            assert(digits_val(d.take(k + 1)) == digits_val(d.take(k)) * 10 + (c as int - '0' as int));
            assert(digits_val(d.take(k + 1)) == next);
            assert(all_digits(d.take(k + 1)));
        }
        if next > 9223372036854775808 {
            proof {
                if all_digits(d) {
                    lemma_digits_grow(d, k + 1);
                    assert(digits_val(d) > 9223372036854775808int);
                }
            }
            return None;
        }
        acc = next;
        i = i + 1;
    }
    assert(d.take(n - start) =~= d);
    if neg {
        let v: i128 = -(acc as i128);
        Some(v as i64)
    } else if acc > 9223372036854775807 {
        None
    } else {
        Some(acc as i64)
    }
}

fn interleave_exec(s: &str, r: &str) -> (out: String)
    ensures
        out@ == interleave(s@, r@),
{
    let cs = chars_of(s);
    let mut out = String::new();
    push_str(&mut out, r);
    let mut i: usize = 0;
    assert(cs@.take(0) =~= Seq::<char>::empty());
    assert(out@ =~= interleave(cs@.take(0), r@));
    while i < cs.len()
        invariant
            i <= cs@.len(),
            cs@ == s@,
            out@ == interleave(cs@.take(i as int), r@),
        decreases cs.len() - i,
    {
        let ghost before = out@;
        push_char(&mut out, cs[i]);
        push_str(&mut out, r);
        proof {
            assert(cs@.take(i + 1).drop_last() =~= cs@.take(i as int));
            assert(cs@.take(i + 1).last() == cs@[i as int]);
            assert(out@ =~= before + seq![cs@[i as int]] + r@);
        }
        i = i + 1;
    }
    assert(cs@.take(i as int) =~= cs@);
    out
}

fn replace_exec(s: &str, p: &str, r: &str) -> (out: String)
    ensures
        out@ == str_replace(s@, p@, r@),
{
    let ps = chars_of(p);
    if ps.len() == 0 {
        interleave_exec(s, r)
    } else {
        let cs = chars_of(s);
        let rs = chars_of(r);
        let v = replace_chars(cs.as_slice(), ps.as_slice(), rs.as_slice());
        string_from_chars(v.as_slice())
    }
}

proof fn lemma_pow_zero(e: nat)
    ensures
        pow(0, e) == (if e == 0 { 1int } else { 0int }),
{
    reveal(pow);
    if e > 0 {
        assert(pow(0, e) == 0 * pow(0, (e - 1) as nat));
    }
}

proof fn lemma_pow_one(e: nat)
    ensures
        pow(1, e) == 1,
    decreases e,
{
    reveal(pow);
    if e > 0 {
        lemma_pow_one((e - 1) as nat);
    }
}

proof fn lemma_pow_minus_one(e: nat)
    ensures
        pow(-1, e) == (if e % 2 == 0 { 1int } else { -1int }),
    decreases e,
{
    reveal(pow);
    if e > 0 {
        lemma_pow_minus_one((e - 1) as nat);
    }
}

proof fn lemma_mul_escapes(a: int, x: int)
    requires
        a >= 2 || a <= -2,
        !in_i64(x),
    ensures
        !in_i64(a * x),
{
    assert(x >= 0x8000_0000_0000_0000 || x < -0x8000_0000_0000_0000);
    assert(a * x >= 0x1_0000_0000_0000_0000 || a * x <= -0x1_0000_0000_0000_0000) by (nonlinear_arith)
        requires
            a >= 2 || a <= -2,
            x >= 0x8000_0000_0000_0000 || x < -0x8000_0000_0000_0000,
    ;
}

proof fn lemma_pow_escapes(a: int, k: nat, e: nat)
    requires
        a >= 2 || a <= -2,
        k <= e,
        !in_i64(pow(a, k)),
    ensures
        !in_i64(pow(a, e)),
    decreases e - k,
{
    reveal(pow);
    if k < e {
        lemma_pow_escapes(a, k, (e - 1) as nat);
        lemma_mul_escapes(a, pow(a, (e - 1) as nat));
    }
}

fn int_pow_exec(a: i64, e: u32) -> (r: Option<i64>)
    ensures
        match r {
            Some(x) => in_i64(pow(a as int, e as nat)) && x == pow(a as int, e as nat),
            None => !in_i64(pow(a as int, e as nat)),
        },
{
    if a == 0 {
        proof {
            lemma_pow_zero(e as nat);
        }
        return Some(if e == 0 { 1 } else { 0 });
    }
    if a == 1 {
        proof {
            lemma_pow_one(e as nat);
        }
        return Some(1);
    }
    if a == -1 {
        proof {
            lemma_pow_minus_one(e as nat);
        }
        return Some(if e % 2 == 0 { 1 } else { -1 });
    }
    let mut acc: i64 = 1;
    let mut k: u32 = 0;
    assert(pow(a as int, 0) == 1) by {
        reveal(pow);
    }
    while k < e
        invariant
            k <= e,
            a >= 2 || a <= -2,
            acc == pow(a as int, k as nat),
        decreases e - k,
    {
        assert(pow(a as int, (k + 1) as nat) == a * pow(a as int, k as nat)) by {
            reveal(pow);
        }
        assert(acc * a == a * acc) by (nonlinear_arith);
        match acc.checked_mul(a) {
            Some(x) => {
                acc = x;
                k = k + 1;
            },
            None => {
                proof {
                    lemma_pow_escapes(a as int, (k + 1) as nat, e as nat);
                }
                return None;
            },
        }
    }
    Some(acc)
}

// ---------------------------------------------------------------------------
// Built-ins that write their first argument back, concretely
// ---------------------------------------------------------------------------

/// The abstract content of such a built-in's outcome.
pub open spec fn mut_view(r: Result<(Value, Option<Value>), String>) -> Result<(ValueView, Option<ValueView>), Seq<char>> {
    match r {
        Ok((v, w)) => Ok((value_view(v), match w {
            Some(z) => Some(value_view(z)),
            None => None,
        })),
        Err(e) => Err(e@),
    }
}

/// The built-ins that change a vector or map in place, applied to argument
/// values; `None` for another name.
pub fn builtin_mut_exec(name: &str, args: &Vec<Value>, named: bool) -> (r: Option<Result<(Value, Option<Value>), String>>)
    ensures
        match builtin_mut(name@, values_view(args@), named) {
            None => r is None,
            Some(x) => r matches Some(y) && mut_view(y) == x,
        },
{
    proof {
        lemma_values_view(args@);
    }
    if str_eq(name, "vector_push") {
        Some(if args.len() != 2 {
            Err(message("vector_push requires two arguments"))
        } else {
            match &args[0] {
                Value::Vector(vs) => {
                    let mut out = copy_values(vs);
                    let ghost before = out@;
                    out.push(copy_value(&args[1]));
                    proof {
                        lemma_values_view(out@);
                        lemma_values_view(before);
                        lemma_values_view(vs@);
                        assert(values_view(out@) =~= values_view(vs@).push(value_view(args@[1])));
                    }
                    let n = out.len();
                    Ok((Value::Int(n as i64), Some(Value::Vector(out))))
                },
                _ => Err(message("vector_push requires a vector as first argument")),
            }
        })
    } else if str_eq(name, "vector_set") {
        Some(if args.len() != 3 {
            Err(message("vector_set requires three arguments"))
        } else {
            match (&args[0], &args[1]) {
                (Value::Vector(vs), Value::Int(i)) => {
                    proof {
                        lemma_values_view(vs@);
                    }
                    match checked_index(*i, "vector_set") {
                        Err(e) => Err(e),
                        Ok(q) => if q < vs.len() {
                            let mut out = copy_values(vs);
                            let ghost before = out@;
                            proof {
                                lemma_values_view(before);
                            }
                            out.set(q, copy_value(&args[2]));
                            proof {
                                lemma_values_view(out@);
                                assert(values_view(out@) =~= values_view(vs@).update(q as int, value_view(args@[2])));
                            }
                            Ok((Value::Int(vs.len() as i64), Some(Value::Vector(out))))
                        } else {
                            Err(message("vector_set: index out of bounds"))
                        },
                    }
                },
                _ => Err(message("vector_set requires (vector,int,val)")),
            }
        })
    } else if str_eq(name, "vector_pop") {
        Some(if args.len() != 1 {
            Err(message("vector_pop requires one argument"))
        } else {
            match &args[0] {
                Value::Vector(vs) => {
                    proof {
                        lemma_values_view(vs@);
                    }
                    if vs.len() == 0 {
                        Err(message("vector_pop: empty vector"))
                    } else {
                        let mut out = copy_values(vs);
                        let ghost before = out@;
                        proof {
                            lemma_values_view(before);
                        }
                        match out.pop() {
                            Some(x) => {
                                proof {
                                    lemma_values_view(out@);
                                    assert(values_view(out@) =~= values_view(vs@).drop_last());
                                }
                                Ok((x, Some(Value::Vector(out))))
                            },
                            None => Err(message("vector_pop: empty vector")),
                        }
                    }
                },
                _ => Err(message("vector_pop requires a vector")),
            }
        })
    } else if str_eq(name, "vector_insert") {
        Some(if args.len() != 3 {
            Err(message("vector_insert requires three arguments"))
        } else {
            match (&args[0], &args[1]) {
                (Value::Vector(vs), Value::Int(i)) => {
                    proof {
                        lemma_values_view(vs@);
                    }
                    match checked_index(*i, "vector_insert") {
                        Err(e) => Err(e),
                        Ok(q) => if q <= vs.len() {
                            let mut out = copy_values(vs);
                            let ghost before = out@;
                            proof {
                                lemma_values_view(before);
                            }
                            out.insert(q, copy_value(&args[2]));
                            proof {
                                lemma_values_view(out@);
                                assert(values_view(out@) =~= values_view(vs@).insert(q as int, value_view(args@[2])));
                            }
                            let n = out.len();
                            Ok((Value::Int(n as i64), Some(Value::Vector(out))))
                        } else {
                            Err(message("vector_insert: index out of bounds"))
                        },
                    }
                },
                _ => Err(message("vector_insert requires (vector,int,val)")),
            }
        })
    } else if str_eq(name, "vector_remove") {
        Some(if args.len() != 2 {
            Err(message("vector_remove requires two arguments"))
        } else {
            match (&args[0], &args[1]) {
                (Value::Vector(vs), Value::Int(i)) => {
                    proof {
                        lemma_values_view(vs@);
                    }
                    match checked_index(*i, "vector_remove") {
                        Err(e) => Err(e),
                        Ok(q) => if q < vs.len() {
                            let mut out = copy_values(vs);
                            let ghost before = out@;
                            proof {
                                lemma_values_view(before);
                            }
                            let x = out.remove(q);
                            proof {
                                lemma_values_view(out@);
                                assert(values_view(out@) =~= values_view(vs@).remove(q as int));
                            }
                            Ok((x, Some(Value::Vector(out))))
                        } else {
                            Err(message("vector_remove: index out of bounds"))
                        },
                    }
                },
                _ => Err(message("vector_remove requires (vector,int)")),
            }
        })
    } else if str_eq(name, "vector_clear") {
        Some(if args.len() != 1 {
            Err(message("vector_clear requires one argument"))
        } else {
            match &args[0] {
                Value::Vector(_) => {
                    let e: Vec<Value> = Vec::new();
                    assert(values_view(e@) =~= Seq::<ValueView>::empty());
                    Ok((Value::Unit, Some(Value::Vector(e))))
                },
                _ => Err(message("vector_clear requires a vector")),
            }
        })
    } else if str_eq(name, "vector_reserve") {
        Some(if args.len() != 2 {
            Err(message("vector_reserve requires two arguments"))
        } else {
            match (&args[0], &args[1]) {
                (Value::Vector(vs), Value::Int(n)) => match checked_index(*n, "vector_reserve") {
                    Err(e) => Err(e),
                    Ok(_) => if named {
                        Ok((Value::Unit, Some(Value::Vector(copy_values(vs)))))
                    } else {
                        Err(message("vector_reserve requires a mutable named vector in the legacy interpreter"))
                    },
                },
                _ => Err(message("vector_reserve requires (vector,int)")),
            }
        })
    } else if str_eq(name, "hashmap_insert") {
        Some(if args.len() != 3 {
            Err(message("hashmap_insert requires three arguments"))
        } else {
            match (&args[0], &args[1]) {
                (Value::Dict(m), Value::Str(k)) => {
                    let out = map_put_exec(m, k.clone(), copy_value(&args[2]));
                    proof {
                        lemma_fields_view(out@);
                    }
                    let n = out.len();
                    Ok((Value::Int(n as i64), Some(Value::Dict(out))))
                },
                _ => Err(message("hashmap_insert requires (map,string,value)")),
            }
        })
    } else if str_eq(name, "hashmap_remove") {
        Some(if args.len() != 2 {
            Err(message("hashmap_remove requires two arguments"))
        } else {
            match (&args[0], &args[1]) {
                (Value::Dict(m), Value::Str(k)) => {
                    let out = map_del_exec(m, k.as_str());
                    proof {
                        lemma_fields_view(out@);
                    }
                    let n = out.len();
                    Ok((Value::Int(n as i64), Some(Value::Dict(out))))
                },
                _ => Err(message("hashmap_remove requires (map,string)")),
            }
        })
    } else if str_eq(name, "hashmap_clear") {
        Some(if args.len() != 1 {
            Err(message("hashmap_clear requires one argument"))
        } else {
            match &args[0] {
                Value::Dict(_) => if named {
                    Ok((Value::Unit, Some(empty_map())))
                } else {
                    Err(message("hashmap_clear requires a mutable named map in the legacy interpreter"))
                },
                _ => Err(message("hashmap_clear requires a map")),
            }
        })
    } else if str_eq(name, "hashset_clear") {
        Some(if args.len() != 1 {
            Err(message("hashset_clear requires one argument"))
        } else {
            match &args[0] {
                Value::Dict(_) => Ok((Value::Unit, Some(empty_map()))),
                _ => Err(message("hashset_clear requires a set")),
            }
        })
    } else {
        None
    }
}

// ---------------------------------------------------------------------------
// Built-ins that call a declared function, concretely
// ---------------------------------------------------------------------------

/// The call such a built-in makes (see `FnPlan`).
pub struct FnPlanExec {
    pub label: String,
    pub fname: String,
    pub one_param: bool,
    pub arity_error: String,
    pub arg: Result<Value, String>,
    pub map: Vec<(String, Value)>,
    pub post: Post,
}

/// Such a built-in is done, or calls a function.
pub enum FnStepExec {
    Done(Result<Value, String>),
    Call(FnPlanExec),
}

pub open spec fn plan_view(p: FnPlanExec) -> FnPlan {
    FnPlan {
        label: p.label@,
        fname: p.fname@,
        one_param: p.one_param,
        arity_error: p.arity_error@,
        arg: result_view(p.arg),
        map: fields_view(p.map@),
        post: p.post,
    }
}

pub open spec fn step_view(s: FnStepExec) -> FnStep {
    match s {
        FnStepExec::Done(r) => FnStep::Done(result_view(r)),
        FnStepExec::Call(p) => FnStep::Call(plan_view(p)),
    }
}

pub open spec fn opt_view(o: Option<Value>) -> Option<ValueView> {
    match o {
        Some(v) => Some(value_view(v)),
        None => None,
    }
}

/// What such a built-in makes of the function's returned value.
pub fn post_exec(p: Post, res: Option<Value>, m: &Vec<(String, Value)>) -> (r: Result<Value, String>)
    ensures
        result_view(r) == post_result(p, opt_view(res), fields_view(m@)),
{
    match p {
        Post::Wrap => Ok(match res {
            Some(v) => one_exec("value", v),
            None => empty_map(),
        }),
        Post::Flat => Ok(match res {
            Some(v) => v,
            None => empty_map(),
        }),
        Post::SetErr => Ok(match res {
            Some(v) => Value::Dict(map_put_exec(m, String::from_str("err"), v)),
            None => Value::Dict(copy_fields(m)),
        }),
        Post::Filter => match res {
            Some(Value::Bool(b)) => Ok(if b { Value::Dict(copy_fields(m)) } else { empty_map() }),
            Some(Value::Int(n)) => if n == 1 {
                Ok(Value::Dict(copy_fields(m)))
            } else if n == 0 {
                Ok(empty_map())
            } else {
                Err(message("option_filter function must return bool"))
            },
            _ => Err(message("option_filter function must return bool")),
        },
    }
}

/// The built-ins that call a declared function: what they do with their
/// arguments, or the call they make; `None` for another name.
pub fn fn_builtin_exec(name: &str, args: &Vec<Value>) -> (r: Option<FnStepExec>)
    ensures
        match fn_builtin(name@, values_view(args@)) {
            None => r is None,
            Some(x) => r matches Some(y) && step_view(y) == x,
        },
{
    proof {
        lemma_values_view(args@);
    }
    let is_fn = str_eq(name, "result_map") || str_eq(name, "result_map_err") || str_eq(name, "option_map")
        || str_eq(name, "option_flat_map") || str_eq(name, "option_or_else") || str_eq(name, "result_flat_map")
        || str_eq(name, "result_or_else") || str_eq(name, "option_filter");
    if !is_fn {
        return None;
    }
    let option = str_eq(name, "option_map") || str_eq(name, "option_flat_map") || str_eq(name, "option_or_else") || str_eq(name, "option_filter");
    let on_missing = str_eq(name, "result_map_err") || str_eq(name, "result_or_else") || str_eq(name, "option_or_else");
    if args.len() != 2 {
        return Some(FnStepExec::Done(Err(error_with(name, " requires two arguments"))));
    }
    match &args[0] {
        Value::Dict(m) => {
            let has = key_index_exec(m, "value").is_some();
            if has == on_missing {
                return Some(FnStepExec::Done(Ok(Value::Dict(copy_fields(m)))));
            }
            match &args[1] {
                Value::Str(f) => {
                    let mut ae = String::from_str(name);
                    push_str(&mut ae, ": function ");
                    push_str(&mut ae, f.as_str());
                    if str_eq(name, "option_or_else") {
                        push_str(&mut ae, " must take 0 args");
                    } else if str_eq(name, "result_or_else") {
                        push_str(&mut ae, " must take 1 arg (the error value)");
                    } else {
                        push_str(&mut ae, " must take 1 arg");
                    }
                    let arg = if str_eq(name, "result_map_err") || str_eq(name, "result_or_else") {
                        match map_get_exec(m, "err") {
                            Some(e) => Ok(e),
                            None => Err(error_with(name, ": malformed Result is missing err payload")),
                        }
                    } else {
                        match map_get_exec(m, "value") {
                            Some(v) => Ok(v),
                            None => Ok(Value::Unit),
                        }
                    };
                    let post = if str_eq(name, "result_map") || str_eq(name, "option_map") {
                        Post::Wrap
                    } else if str_eq(name, "result_map_err") {
                        Post::SetErr
                    } else if str_eq(name, "option_filter") {
                        Post::Filter
                    } else {
                        Post::Flat
                    };
                    let plan = FnPlanExec {
                        label: String::from_str(name),
                        fname: f.clone(),
                        one_param: !str_eq(name, "option_or_else"),
                        arity_error: ae,
                        arg,
                        map: copy_fields(m),
                        post,
                    };
                    Some(FnStepExec::Call(plan))
                },
                _ => Some(FnStepExec::Done(Err(error_with(name, " expects a function name string")))),
            }
        },
        _ => Some(FnStepExec::Done(Err(if option {
            error_with(name, " requires an Option value (map)")
        } else {
            error_with(name, " requires a Result value (map)")
        }))),
    }
}

// ---------------------------------------------------------------------------
// Equality of values, concretely
// ---------------------------------------------------------------------------

fn float_eq_exec(a: u64, b: u64) -> (r: bool)
    ensures
        r == float_eq(a, b),
{
    let a_nan = (a / 0x10_0000_0000_0000) % 0x800 == 0x7ff && a % 0x10_0000_0000_0000 != 0;
    let b_nan = (b / 0x10_0000_0000_0000) % 0x800 == 0x7ff && b % 0x10_0000_0000_0000 != 0;
    !a_nan && !b_nan && (a == b || (a % 0x8000_0000_0000_0000 == 0 && b % 0x8000_0000_0000_0000 == 0))
}

/// `==` on two values (see `value_eq`).
pub fn value_eq_exec(a: &Value, b: &Value) -> (r: bool)
    ensures
        r == value_eq(value_view(*a), value_view(*b)),
    decreases a,
{
    match (a, b) {
        (Value::Unit, Value::Unit) => true,
        (Value::Int(x), Value::Int(y)) => *x == *y,
        (Value::Float(x), Value::Float(y)) => float_eq_exec(*x, *y),
        (Value::Char(x), Value::Char(y)) => *x == *y,
        (Value::Byte(x), Value::Byte(y)) => *x == *y,
        (Value::Str(x), Value::Str(y)) => str_eq(x.as_str(), y.as_str()),
        (Value::Bytes(x), Value::Bytes(y)) => bytes_eq(x, y),
        (Value::Bool(x), Value::Bool(y)) => *x == *y,
        (Value::Vector(xs), Value::Vector(ys)) => vals_eq_exec(xs, ys),
        (Value::Dict(m), Value::Dict(n)) => {
            proof {
                lemma_fields_view(m@);
                lemma_fields_view(n@);
            }
            m.len() == n.len() && entries_eq_exec(m, n)
        },
        (Value::Closure(i), Value::Closure(j)) => *i == *j,
        (Value::Record(x, fs), Value::Record(y, gs)) => {
            proof {
                lemma_fields_view(fs@);
                lemma_fields_view(gs@);
            }
            str_eq(x.as_str(), y.as_str()) && fs.len() == gs.len() && entries_eq_exec(fs, gs)
        },
        _ => false,
    }
}

fn bytes_eq(x: &Vec<u8>, y: &Vec<u8>) -> (r: bool)
    ensures
        r == (x@ == y@),
{
    if x.len() != y.len() {
        return false;
    }
    let mut i: usize = 0;
    while i < x.len()
        invariant
            i <= x@.len(),
            x@.len() == y@.len(),
            forall|q: int| 0 <= q < i ==> x@[q] == y@[q],
        decreases x.len() - i,
    {
        if x[i] != y[i] {
            return false;
        }
        i = i + 1;
    }
    assert(x@ =~= y@);
    true
}

fn vals_eq_exec(xs: &Vec<Value>, ys: &Vec<Value>) -> (r: bool)
    ensures
        r == vals_eq(values_view(xs@), values_view(ys@)),
    decreases xs,
{
    let ghost xv = values_view(xs@);
    let ghost yv = values_view(ys@);
    proof {
        lemma_values_view(xs@);
        lemma_values_view(ys@);
    }
    let mut i: usize = 0;
    assert(xv.subrange(0, xv.len() as int) =~= xv);
    assert(yv.subrange(0, yv.len() as int) =~= yv);
    while i < xs.len()
        invariant
            i <= xs@.len(),
            xv == values_view(xs@),
            yv == values_view(ys@),
            xv.len() == xs@.len(),
            yv.len() == ys@.len(),
            forall|q: int| 0 <= q < xs@.len() ==> #[trigger] xv[q] == value_view(xs@[q]),
            forall|q: int| 0 <= q < ys@.len() ==> #[trigger] yv[q] == value_view(ys@[q]),
            i <= ys@.len(),
            vals_eq(xv, yv) == vals_eq(xv.subrange(i as int, xv.len() as int), yv.subrange(i as int, yv.len() as int)),
        decreases xs.len() - i,
    {
        let ghost xr = xv.subrange(i as int, xv.len() as int);
        let ghost yr = yv.subrange(i as int, yv.len() as int);
        if i >= ys.len() {
            return false;
        }
        assert(xr[0] == xv[i as int]);
        assert(yr[0] == yv[i as int]);
        assert(xr.subrange(1, xr.len() as int) =~= xv.subrange(i + 1, xv.len() as int));
        assert(yr.subrange(1, yr.len() as int) =~= yv.subrange(i + 1, yv.len() as int));
        if !value_eq_exec(&xs[i], &ys[i]) {
            return false;
        }
        i = i + 1;
    }
    i == ys.len()
}

fn entries_eq_exec(m: &Vec<(String, Value)>, n: &Vec<(String, Value)>) -> (r: bool)
    ensures
        r == entries_eq(fields_view(m@), fields_view(n@)),
    decreases m,
{
    let ghost mv = fields_view(m@);
    let ghost nv = fields_view(n@);
    proof {
        lemma_fields_view(m@);
        lemma_fields_view(n@);
    }
    let mut i: usize = 0;
    assert(mv.subrange(0, mv.len() as int) =~= mv);
    while i < m.len()
        invariant
            i <= m@.len(),
            mv == fields_view(m@),
            nv == fields_view(n@),
            mv.len() == m@.len(),
            nv.len() == n@.len(),
            forall|q: int| 0 <= q < m@.len() ==> #[trigger] mv[q] == (m@[q].0@, value_view(m@[q].1)),
            forall|q: int| 0 <= q < n@.len() ==> #[trigger] nv[q] == (n@[q].0@, value_view(n@[q].1)),
            entries_eq(mv, nv) == entries_eq(mv.subrange(i as int, mv.len() as int), nv),
        decreases m.len() - i,
    {
        let ghost mr = mv.subrange(i as int, mv.len() as int);
        assert(mr[0] == mv[i as int]);
        assert(mr.subrange(1, mr.len() as int) =~= mv.subrange(i + 1, mv.len() as int));
        match key_index_exec(n, m[i].0.as_str()) {
            None => {
                return false;
            },
            Some(j) => {
                proof {
                    lemma_key_index(nv, m@[i as int].0@);
                }
                if !value_eq_exec(&m[i].1, &n[j].1) {
                    return false;
                }
            },
        }
        i = i + 1;
    }
    true
}

fn vector_contains_exec(xs: &Vec<Value>, v: &Value) -> (r: bool)
    ensures
        r == vals_contain(values_view(xs@), value_view(*v)),
{
    let ghost xv = values_view(xs@);
    proof {
        lemma_values_view(xs@);
    }
    let mut i: usize = 0;
    assert(xv.subrange(0, xv.len() as int) =~= xv);
    while i < xs.len()
        invariant
            i <= xs@.len(),
            xv == values_view(xs@),
            xv.len() == xs@.len(),
            forall|q: int| 0 <= q < xs@.len() ==> #[trigger] xv[q] == value_view(xs@[q]),
            vals_contain(xv, value_view(*v)) == vals_contain(xv.subrange(i as int, xv.len() as int), value_view(*v)),
        decreases xs.len() - i,
    {
        let ghost xr = xv.subrange(i as int, xv.len() as int);
        assert(xr[0] == xv[i as int]);
        assert(xr.subrange(1, xr.len() as int) =~= xv.subrange(i + 1, xv.len() as int));
        if value_eq_exec(&xs[i], v) {
            return true;
        }
        i = i + 1;
    }
    false
}

// ---------------------------------------------------------------------------
// The built-ins, concretely
// ---------------------------------------------------------------------------

fn builtin_text_exec(name: &str, args: &Vec<Value>) -> (r: Option<Result<Value, String>>)
    ensures
        match builtin_text(name@, values_view(args@)) {
            None => r is None,
            Some(x) => r matches Some(y) && result_view(y) == x,
        },
{
    proof {
        lemma_values_view(args@);
    }
    if str_eq(name, "str_len") {
        Some(if args.len() != 1 {
            Err(message("str_len requires one argument"))
        } else {
            match &args[0] {
                Value::Str(s) => {
                    let cs = chars_of(s.as_str());
                    let n = utf8_prefix(&cs, cs.len());
                    assert(cs@.take(cs@.len() as int) =~= s@);
                    Ok(Value::Int(n as i64))
                },
                _ => Err(message("str_len requires string")),
            }
        })
    } else if str_eq(name, "string_find") {
        Some(if args.len() != 2 {
            Err(message("string_find requires two arguments"))
        } else {
            match (&args[0], &args[1]) {
                (Value::Str(s), Value::Str(p)) => Ok(Value::Int(find_exec(s.as_str(), p.as_str()))),
                _ => Err(message("string_find requires two strings")),
            }
        })
    } else if str_eq(name, "string_to_int") {
        Some(if args.len() != 1 {
            Err(message("string_to_int requires one argument"))
        } else {
            match &args[0] {
                Value::Str(s) => match parse_i64_exec(s.as_str()) {
                    Some(n) => Ok(Value::Int(n)),
                    None => Err(message("string_to_int: invalid i64 literal")),
                },
                _ => Err(message("string_to_int requires string")),
            }
        })
    } else if str_eq(name, "string_replace") {
        Some(if args.len() != 3 {
            Err(message("string_replace requires three arguments"))
        } else {
            match (&args[0], &args[1], &args[2]) {
                (Value::Str(s), Value::Str(p), Value::Str(t)) => Ok(Value::Str(replace_exec(s.as_str(), p.as_str(), t.as_str()))),
                _ => Err(message("string_replace requires three strings")),
            }
        })
    } else if str_eq(name, "vector_contains") {
        Some(if args.len() != 2 {
            Err(message("vector_contains requires two arguments"))
        } else {
            match &args[0] {
                Value::Vector(xs) => Ok(Value::Bool(vector_contains_exec(xs, &args[1]))),
                _ => Err(message("vector_contains requires a vector and a value")),
            }
        })
    } else if str_eq(name, "int_pow") {
        Some(if args.len() != 2 {
            Err(message("int_pow requires two arguments"))
        } else {
            match (&args[0], &args[1]) {
                (Value::Int(a), Value::Int(b)) => if *b < 0 || *b > 4294967295 {
                    Err(message("int_pow: exponent must be a non-negative u32"))
                } else {
                    match int_pow_exec(*a, *b as u32) {
                        Some(x) => Ok(Value::Int(x)),
                        None => Err(message("int_pow: arithmetic overflow")),
                    }
                },
                _ => Err(message("int_pow requires two ints")),
            }
        })
    } else {
        None
    }
}

fn builtin_sets_exec(name: &str, args: &Vec<Value>) -> (r: Option<Result<Value, String>>)
    ensures
        match builtin_sets(name@, values_view(args@)) {
            None => r is None,
            Some(x) => r matches Some(y) && result_view(y) == x,
        },
{
    proof {
        lemma_values_view(args@);
    }
    if str_eq(name, "hashset_new") || str_eq(name, "hashmap_new") {
        Some(Ok(empty_map()))
    } else if str_eq(name, "hashset_insert") {
        Some(if args.len() != 2 {
            Err(message("hashset_insert requires two arguments"))
        } else {
            match (&args[0], set_key_exec(&args[1])) {
                (Value::Dict(m), Some(k)) => {
                    let out = map_put_exec(m, k, Value::Bool(true));
                    proof {
                        lemma_fields_view(out@);
                    }
                    Ok(Value::Int(out.len() as i64))
                },
                _ => Err(message("hashset_insert requires (set,key)")),
            }
        })
    } else if str_eq(name, "hashset_contains") {
        Some(if args.len() != 2 {
            Err(message("hashset_contains requires two arguments"))
        } else {
            match (&args[0], set_key_exec(&args[1])) {
                (Value::Dict(m), Some(k)) => Ok(Value::Bool(key_index_exec(m, k.as_str()).is_some())),
                _ => Err(message("hashset_contains requires (set,key)")),
            }
        })
    } else if str_eq(name, "hashset_remove") {
        Some(if args.len() != 2 {
            Err(message("hashset_remove requires two arguments"))
        } else {
            match (&args[0], set_key_exec(&args[1])) {
                (Value::Dict(m), Some(k)) => {
                    let out = map_del_exec(m, k.as_str());
                    proof {
                        lemma_fields_view(out@);
                    }
                    Ok(Value::Int(out.len() as i64))
                },
                _ => Err(message("hashset_remove requires (set,key)")),
            }
        })
    } else if str_eq(name, "hashset_union") {
        Some(if args.len() != 2 {
            Err(message("hashset_union requires two arguments"))
        } else {
            match (&args[0], &args[1]) {
                (Value::Dict(a), Value::Dict(b)) => Ok(Value::Dict(map_union_exec(a, b))),
                _ => Err(message("hashset_union requires two sets")),
            }
        })
    } else if str_eq(name, "hashset_intersect") {
        Some(if args.len() != 2 {
            Err(message("hashset_intersect requires two arguments"))
        } else {
            match (&args[0], &args[1]) {
                (Value::Dict(a), Value::Dict(b)) => Ok(Value::Dict(map_inter_exec(a, b))),
                _ => Err(message("hashset_intersect requires two sets")),
            }
        })
    } else if str_eq(name, "hashset_len") {
        Some(if args.len() != 1 {
            Err(message("hashset_len requires one argument"))
        } else {
            match &args[0] {
                Value::Dict(m) => {
                    proof {
                        lemma_fields_view(m@);
                    }
                    Ok(Value::Int(m.len() as i64))
                },
                _ => Err(message("hashset_len requires a set")),
            }
        })
    } else {
        None
    }
}

fn builtin_maps_exec(name: &str, args: &Vec<Value>) -> (r: Option<Result<Value, String>>)
    ensures
        match builtin_maps(name@, values_view(args@)) {
            None => r is None,
            Some(x) => r matches Some(y) && result_view(y) == x,
        },
{
    proof {
        lemma_values_view(args@);
    }
    if false {
        None
    } else if str_eq(name, "hashmap_get") {
        Some(if args.len() != 2 {
            Err(message("hashmap_get requires two arguments"))
        } else {
            match (&args[0], &args[1]) {
                (Value::Dict(m), Value::Str(k)) => match map_get_exec(m, k.as_str()) {
                    Some(v) => Ok(v),
                    None => {
                        let mut t = String::from_str("hashmap_get: key '");
                        push_str(&mut t, k.as_str());
                        push_str(&mut t, "' not found");
                        Err(t)
                    },
                },
                _ => Err(message("hashmap_get requires (map,string)")),
            }
        })
    } else if str_eq(name, "hashmap_len") {
        Some(if args.len() != 1 {
            Err(message("hashmap_len requires one argument"))
        } else {
            match &args[0] {
                Value::Dict(m) => {
                    proof {
                        lemma_fields_view(m@);
                    }
                    Ok(Value::Int(m.len() as i64))
                },
                _ => Err(message("hashmap_len requires a map")),
            }
        })
    } else if str_eq(name, "hashmap_contains") {
        Some(if args.len() != 2 {
            Err(message("hashmap_contains requires two arguments"))
        } else {
            match (&args[0], &args[1]) {
                (Value::Dict(m), Value::Str(k)) => Ok(Value::Bool(key_index_exec(m, k.as_str()).is_some())),
                _ => Err(message("hashmap_contains requires (map,string)")),
            }
        })
    } else {
        None
    }
}

fn builtin_options_exec(name: &str, args: &Vec<Value>) -> (r: Option<Result<Value, String>>)
    ensures
        match builtin_options(name@, values_view(args@)) {
            None => r is None,
            Some(x) => r matches Some(y) && result_view(y) == x,
        },
{
    proof {
        lemma_values_view(args@);
    }
    if str_eq(name, "option_is_some") || str_eq(name, "result_is_ok") {
        Some(if args.len() != 1 {
            Err(crate::interpreter::error_with(name, " requires one argument"))
        } else {
            match &args[0] {
                Value::Dict(m) => Ok(Value::Bool(key_index_exec(m, "value").is_some())),
                _ => Err(if str_eq(name, "option_is_some") {
                    message("option_is_some requires an Option value (map)")
                } else {
                    message("result_is_ok requires a Result value (map)")
                }),
            }
        })
    } else if str_eq(name, "option_unwrap_or") || str_eq(name, "result_unwrap_or") {
        Some(if args.len() != 2 {
            Err(crate::interpreter::error_with(name, " requires two arguments"))
        } else {
            match &args[0] {
                Value::Dict(m) => match map_get_exec(m, "value") {
                    Some(v) => Ok(v),
                    None => Ok(copy_value(&args[1])),
                },
                _ => Err(if str_eq(name, "option_unwrap_or") {
                    message("option_unwrap_or requires (option,default)")
                } else {
                    message("result_unwrap_or requires (result,default)")
                }),
            }
        })
    } else if str_eq(name, "option_and") {
        Some(if args.len() != 2 {
            Err(message("option_and requires two arguments"))
        } else {
            match &args[0] {
                Value::Dict(m) => Ok(if key_index_exec(m, "value").is_some() {
                    copy_value(&args[1])
                } else {
                    Value::Dict(copy_fields(m))
                }),
                _ => Err(message("option_and requires an Option value (map)")),
            }
        })
    } else if str_eq(name, "option_zip") {
        Some(if args.len() != 2 {
            Err(message("option_zip requires two arguments"))
        } else {
            match (&args[0], &args[1]) {
                (Value::Dict(a), Value::Dict(b)) => Ok(match (map_get_exec(a, "value"), map_get_exec(b, "value")) {
                    (Some(x), Some(y)) => {
                        let ghost xv = value_view(x);
                        let ghost yv = value_view(y);
                        let mut pair: Vec<Value> = Vec::new();
                        pair.push(x);
                        pair.push(y);
                        proof {
                            lemma_values_view(pair@);
                            assert(values_view(pair@) =~= seq![xv, yv]);
                        }
                        one_exec("value", Value::Vector(pair))
                    },
                    _ => empty_map(),
                }),
                _ => Err(message("option_zip requires two Option values")),
            }
        })
    } else if str_eq(name, "option_transpose") {
        Some(if args.len() != 1 {
            Err(message("option_transpose requires one argument"))
        } else {
            match &args[0] {
                Value::Dict(m) => match map_get_exec(m, "value") {
                    Some(Value::Dict(inner)) => Ok(match map_get_exec(&inner, "value") {
                        Some(x) => one_exec("value", one_exec("value", x)),
                        None => match map_get_exec(&inner, "err") {
                            Some(e) => one_exec("err", e),
                            None => empty_map(),
                        },
                    }),
                    Some(_) => Err(message("option_transpose requires Option<Result> value")),
                    None => Ok(one_exec("value", empty_map())),
                },
                _ => Err(message("option_transpose requires an Option value")),
            }
        })
    } else if str_eq(name, "result_transpose") {
        Some(if args.len() != 1 {
            Err(message("result_transpose requires one argument"))
        } else {
            match &args[0] {
                Value::Dict(m) => match map_get_exec(m, "value") {
                    Some(Value::Dict(inner)) => Ok(match map_get_exec(&inner, "value") {
                        Some(x) => one_exec("value", one_exec("value", x)),
                        None => empty_map(),
                    }),
                    Some(_) => Err(message("result_transpose requires Result<Option> value")),
                    None => match map_get_exec(m, "err") {
                        Some(e) => Ok(one_exec("value", one_exec("err", e))),
                        None => Err(message("result_transpose requires a Result value")),
                    },
                },
                _ => Err(message("result_transpose requires a Result value (map)")),
            }
        })
    } else {
        None
    }
}

/// The built-ins of this module, applied to argument values; `None` for
/// another name.
pub fn builtin_more_exec(name: &str, args: &Vec<Value>) -> (r: Option<Result<Value, String>>)
    ensures
        match builtin_more(name@, values_view(args@)) {
            None => r is None,
            Some(x) => r matches Some(y) && result_view(y) == x,
        },
{
    match builtin_text_exec(name, args) {
        Some(r) => Some(r),
        None => match builtin_sets_exec(name, args) {
            Some(r) => Some(r),
            None => match builtin_maps_exec(name, args) {
                Some(r) => Some(r),
                None => builtin_options_exec(name, args),
            },
        },
    }
}

} // verus!
