//! Layout and calling-convention decisions of the code generator: which types
//! are single cells, how values are passed, where aggregate fields live, and
//! the checks on aggregate and enum initialisers and on slice windows.

use vstd::prelude::*;
use crate::abi_check::{debug_list, debug_strings, strings_equal, strs};
use crate::ast::EnumVariant;
use crate::strmap::StrMap;
use crate::text::{
    ascii_lowercase, decimal, is_prefix, push_decimal, push_str, str_eq, str_starts_with,
    strip_prefix_or_self_exec, to_ascii_lowercase, trim, trim_ws, usize_to_string,
};

verus! {

// ---------------------------------------------------------------------------
// Scalar cells
// ---------------------------------------------------------------------------

/// The (lowercase) type names stored in one scalar cell.
pub open spec fn is_scalar_name(t: Seq<char>) -> bool {
    t == "int"@ || t == "i64"@ || t == "isize"@ || t == "bool"@ || t == "boolean"@ || t == "byte"@ || t == "u8"@
}

/// Whether a type annotation names a scalar-cell type (ignoring surrounding
/// whitespace and ASCII case).
pub open spec fn scalar_cell(annotation: Seq<char>) -> bool {
    is_scalar_name(ascii_lowercase(trim_ws(annotation)))
}

fn is_scalar_name_exec(t: &str) -> (b: bool)
    ensures
        b == is_scalar_name(t@),
{
    str_eq(t, "int") || str_eq(t, "i64") || str_eq(t, "isize") || str_eq(t, "bool") || str_eq(t, "boolean")
        || str_eq(t, "byte") || str_eq(t, "u8")
}

fn scalar_cell_annotation(annotation: &str) -> (b: bool)
    ensures
        b == scalar_cell(annotation@),
{
    let t = trim(annotation);
    let l = to_ascii_lowercase(t.as_str());
    is_scalar_name_exec(l.as_str())
}

/// Whether a declared field type qualifies for a scalar cell. Declarations
/// are checked either with surrounding whitespace ignored (`trim_first`) or as
/// written.
pub open spec fn qualifies(t: Seq<char>, trim_first: bool) -> bool {
    if trim_first {
        scalar_cell(t)
    } else {
        is_scalar_name(ascii_lowercase(t))
    }
}

/// The declared types of `(name, type)` pairs.
pub open spec fn field_types(fields: Seq<(String, String)>) -> Seq<Seq<char>> {
    Seq::new(fields.len(), |i: int| fields[i].1@)
}

/// The names of `(name, type)` pairs.
pub open spec fn field_names(fields: Seq<(String, String)>) -> Seq<Seq<char>> {
    Seq::new(fields.len(), |i: int| fields[i].0@)
}

/// The position of the first type in `types` that does not qualify.
pub open spec fn first_unqualified(types: Seq<Seq<char>>, trim_first: bool) -> Option<nat>
    decreases types.len(),
{
    if types.len() == 0 {
        None
    } else {
        match first_unqualified(types.drop_last(), trim_first) {
            Some(i) => Some(i),
            None => if !qualifies(types.last(), trim_first) { Some((types.len() - 1) as nat) } else { None },
        }
    }
}

fn qualifies_exec(t: &str, trim_first: bool) -> (b: bool)
    ensures
        b == qualifies(t@, trim_first),
{
    if trim_first {
        scalar_cell_annotation(t)
    } else {
        let l = to_ascii_lowercase(t);
        is_scalar_name_exec(l.as_str())
    }
}

/// The position of the first field whose declared type does not qualify.
fn first_unqualified_field(fields: &Vec<(String, String)>, trim_first: bool) -> (r: Option<usize>)
    ensures
        r matches Some(i) ==> i < fields@.len() && first_unqualified(field_types(fields@), trim_first) == Some(i as nat),
        r is None ==> first_unqualified(field_types(fields@), trim_first) is None,
{
    let ghost ts = field_types(fields@);
    let mut i: usize = 0;
    assert(ts.take(0) =~= Seq::<Seq<char>>::empty());
    while i < fields.len()
        invariant
            i <= fields@.len(),
            ts == field_types(fields@),
            first_unqualified(ts.take(i as int), trim_first) is None,
        decreases fields.len() - i,
    {
        assert(ts.take(i + 1 as int).drop_last() =~= ts.take(i as int));
        if !qualifies_exec(fields[i].1.as_str(), trim_first) {
            proof {
                lemma_first_unqualified_prefix(ts, (i + 1) as nat, trim_first);
            }
            return Some(i);
        }
        i = i + 1;
    }
    assert(ts.take(fields@.len() as int) =~= ts);
    None
}

/// Extending a list past its first unqualified type keeps that position.
proof fn lemma_first_unqualified_prefix(ts: Seq<Seq<char>>, k: nat, trim_first: bool)
    requires
        k <= ts.len(),
        first_unqualified(ts.take(k as int), trim_first) is Some,
    ensures
        first_unqualified(ts, trim_first) == first_unqualified(ts.take(k as int), trim_first),
    decreases ts.len() - k,
{
    if k < ts.len() {
        assert(ts.take(k + 1 as int).drop_last() =~= ts.take(k as int));
        lemma_first_unqualified_prefix(ts, (k + 1) as nat, trim_first);
    } else {
        assert(ts.take(k as int) =~= ts);
    }
}

/// The first variant (and field within it) whose payload type does not
/// qualify (whitespace ignored).
pub open spec fn first_unqualified_payload(vs: Seq<EnumVariant>) -> Option<(nat, nat)>
    decreases vs.len(),
{
    if vs.len() == 0 {
        None
    } else {
        match first_unqualified_payload(vs.drop_last()) {
            Some(p) => Some(p),
            None => match first_unqualified(field_types(vs.last().fields@), true) {
                Some(j) => Some(((vs.len() - 1) as nat, j)),
                None => None,
            },
        }
    }
}

/// The largest payload of the variants (0 when there are none).
pub open spec fn max_width(vs: Seq<EnumVariant>) -> nat
    decreases vs.len(),
{
    if vs.len() == 0 {
        0
    } else {
        let w = vs.last().fields@.len();
        if max_width(vs.drop_last()) >= w { max_width(vs.drop_last()) } else { w }
    }
}

fn max_payload_width(vs: &Vec<EnumVariant>) -> (w: usize)
    ensures
        w == max_width(vs@),
{
    let mut w: usize = 0;
    let mut i: usize = 0;
    while i < vs.len()
        invariant
            i <= vs@.len(),
            w == max_width(vs@.take(i as int)),
        decreases vs.len() - i,
    {
        assert(vs@.take(i + 1 as int).drop_last() =~= vs@.take(i as int));
        if vs[i].fields.len() > w {
            w = vs[i].fields.len();
        }
        i = i + 1;
    }
    assert(vs@.take(vs@.len() as int) =~= vs@);
    w
}

fn first_unqualified_payload_exec(vs: &Vec<EnumVariant>) -> (r: Option<(usize, usize)>)
    ensures
        r matches Some((i, j)) ==> i < vs@.len() && j < vs@[i as int].fields@.len()
            && first_unqualified_payload(vs@) == Some((i as nat, j as nat)),
        r is None ==> first_unqualified_payload(vs@) is None,
{
    let mut i: usize = 0;
    assert(vs@.take(0) =~= Seq::<EnumVariant>::empty());
    while i < vs.len()
        invariant
            i <= vs@.len(),
            first_unqualified_payload(vs@.take(i as int)) is None,
        decreases vs.len() - i,
    {
        assert(vs@.take(i + 1 as int).drop_last() =~= vs@.take(i as int));
        match first_unqualified_field(&vs[i].fields, true) {
            Some(j) => {
                proof {
                    lemma_first_payload_prefix(vs@, (i + 1) as nat);
                }
                return Some((i, j));
            },
            None => {},
        }
        i = i + 1;
    }
    assert(vs@.take(vs@.len() as int) =~= vs@);
    None
}

proof fn lemma_first_payload_prefix(vs: Seq<EnumVariant>, k: nat)
    requires
        k <= vs.len(),
        first_unqualified_payload(vs.take(k as int)) is Some,
    ensures
        first_unqualified_payload(vs) == first_unqualified_payload(vs.take(k as int)),
    decreases vs.len() - k,
{
    if k < vs.len() {
        assert(vs.take(k + 1 as int).drop_last() =~= vs.take(k as int));
        lemma_first_payload_prefix(vs, (k + 1) as nat);
    } else {
        assert(vs.take(k as int) =~= vs);
    }
}

// ---------------------------------------------------------------------------
// Value ABI
// ---------------------------------------------------------------------------

/// How a value is passed: nothing, one scalar cell, a pointer to one scalar
/// cell, or a pointer to consecutive cells of a named aggregate.
#[derive(Debug, Clone)]
pub enum ValueAbi {
    Unit,
    Scalar,
    Reference { mutable: bool },
    Indirect { type_label: String, fields: Vec<String> },
}

/// A `ValueAbi` as plain values.
pub enum AbiView {
    Unit,
    Scalar,
    Reference(bool),
    Indirect(Seq<char>, Seq<Seq<char>>),
}

impl View for ValueAbi {
    type V = AbiView;

    open spec fn view(&self) -> AbiView {
        match self {
            ValueAbi::Unit => AbiView::Unit,
            ValueAbi::Scalar => AbiView::Scalar,
            ValueAbi::Reference { mutable } => AbiView::Reference(*mutable),
            ValueAbi::Indirect { type_label, fields } => AbiView::Indirect(type_label@, strs(fields@)),
        }
    }
}

/// The cell names of an enum value: its tag, then `width` payload cells.
pub open spec fn enum_cells(width: nat) -> Seq<Seq<char>> {
    seq!["@tag"@] + Seq::new(width, |i: int| "@payload"@ + decimal(i as nat))
}

pub open spec fn reference_error(inner: Seq<char>) -> Seq<char> {
    "reference ABI currently requires a scalar-cell pointee; got '"@ + inner + "'"@
}

/// The ABI of a type annotation, given the declared structs and enums; an
/// absent annotation is a scalar.
pub open spec fn abi_of(
    annotation: Option<Seq<char>>,
    structs: Map<Seq<char>, Vec<(String, String)>>,
    enums: Map<Seq<char>, Vec<EnumVariant>>,
) -> Result<AbiView, Seq<char>> {
    match annotation {
        None => Ok(AbiView::Scalar),
        Some(a) => {
            let t = trim_ws(a);
            let lower = ascii_lowercase(t);
            if scalar_cell(t) {
                Ok(AbiView::Scalar)
            } else if is_prefix("&mut "@, t) {
                let inner = t.skip(5);
                if !scalar_cell(trim_ws(inner)) { Err(reference_error(inner)) } else { Ok(AbiView::Reference(true)) }
            } else if is_prefix("&"@, t) {
                let inner = t.skip(1);
                if !scalar_cell(trim_ws(inner)) { Err(reference_error(inner)) } else { Ok(AbiView::Reference(false)) }
            } else if lower == "unit"@ || lower == "void"@ || lower == "()"@ {
                Ok(AbiView::Unit)
            } else if lower == "string"@ {
                Ok(AbiView::Indirect("String"@, seq!["@data"@, "len"@]))
            } else if lower == "bytes"@ {
                Ok(AbiView::Indirect("Bytes"@, seq!["@data"@, "len"@]))
            } else if structs.contains_key(t) {
                let fs = structs[t]@;
                match first_unqualified(field_types(fs), true) {
                    Some(i) => Err("aggregate ABI for struct '"@ + t
                        + "' requires scalar-cell fields in v0.1.4; field type '"@ + fs[i as int].1@
                        + "' is not qualified"@),
                    None => Ok(AbiView::Indirect(t, field_names(fs))),
                }
            } else if enums.contains_key(t) {
                let vs = enums[t]@;
                match first_unqualified_payload(vs) {
                    Some((i, j)) => Err("aggregate ABI for enum '"@ + t
                        + "' requires scalar-cell payloads in v0.1.4; payload type '"@
                        + vs[i as int].fields@[j as int].1@ + "' is not qualified"@),
                    None => Ok(AbiView::Indirect(t, enum_cells(max_width(vs)))),
                }
            } else {
                Err("type '"@ + t + "' does not yet have a qualified v0.1.4 native value ABI"@)
            }
        },
    }
}

fn names_of_fields(fields: &Vec<(String, String)>) -> (r: Vec<String>)
    ensures
        strs(r@) == field_names(fields@),
{
    let mut r: Vec<String> = Vec::new();
    let mut i: usize = 0;
    while i < fields.len()
        invariant
            i <= fields@.len(),
            r@.len() == i,
            forall|k: int| 0 <= k < i ==> r@[k]@ == fields@[k].0@,
        decreases fields.len() - i,
    {
        r.push(fields[i].0.clone());
        i = i + 1;
    }
    assert(strs(r@) =~= field_names(fields@));
    r
}

/// The ABI with which a value of the annotated type is passed.
pub fn abi_for_annotation(
    annotation: Option<&str>,
    struct_layouts: &StrMap<Vec<(String, String)>>,
    enum_layouts: &StrMap<Vec<EnumVariant>>,
) -> (r: Result<ValueAbi, String>)
    ensures
        match abi_of(
            match annotation { Some(a) => Some(a@), None => None },
            struct_layouts@,
            enum_layouts@,
        ) {
            Ok(v) => r matches Ok(abi) && abi@ == v,
            Err(e) => r matches Err(m) && m@ == e,
        },
{
    let annotation = match annotation {
        Some(a) => a,
        None => return Ok(ValueAbi::Scalar),
    };
    let trimmed = trim(annotation);
    let t = trimmed.as_str();
    if scalar_cell_annotation(t) {
        return Ok(ValueAbi::Scalar);
    }
    proof {
        reveal_strlit("&mut ");
        reveal_strlit("&");
    }
    if str_starts_with(t, "&mut ") || str_starts_with(t, "&") {
        let mutable = str_starts_with(t, "&mut ");
        let inner = if mutable { strip_prefix_or_self_exec(t, "&mut ") } else { strip_prefix_or_self_exec(t, "&") };
        let inner_trimmed = trim(inner.as_str());
        if !scalar_cell_annotation(inner_trimmed.as_str()) {
            let mut m = String::new();
            push_str(&mut m, "reference ABI currently requires a scalar-cell pointee; got '");
            push_str(&mut m, inner.as_str());
            push_str(&mut m, "'");
            return Err(m);
        }
        return Ok(ValueAbi::Reference { mutable });
    }
    let lower = to_ascii_lowercase(t);
    let l = lower.as_str();
    if str_eq(l, "unit") || str_eq(l, "void") || str_eq(l, "()") {
        return Ok(ValueAbi::Unit);
    }
    if str_eq(l, "string") || str_eq(l, "bytes") {
        let label = if str_eq(l, "string") { String::from_str("String") } else { String::from_str("Bytes") };
        let fields = vec![String::from_str("@data"), String::from_str("len")];
        proof {
            assert(strs(fields@) =~= seq!["@data"@, "len"@]);
        }
        return Ok(ValueAbi::Indirect { type_label: label, fields });
    }
    if let Some(fields) = struct_layouts.get(t) {
        match first_unqualified_field(fields, true) {
            Some(i) => {
                let mut m = String::new();
                push_str(&mut m, "aggregate ABI for struct '");
                push_str(&mut m, t);
                push_str(&mut m, "' requires scalar-cell fields in v0.1.4; field type '");
                push_str(&mut m, fields[i].1.as_str());
                push_str(&mut m, "' is not qualified");
                return Err(m);
            },
            None => {
                return Ok(ValueAbi::Indirect { type_label: String::from_str(t), fields: names_of_fields(fields) });
            },
        }
    }
    if let Some(variants) = enum_layouts.get(t) {
        match first_unqualified_payload_exec(variants) {
            Some((i, j)) => {
                let mut m = String::new();
                push_str(&mut m, "aggregate ABI for enum '");
                push_str(&mut m, t);
                push_str(&mut m, "' requires scalar-cell payloads in v0.1.4; payload type '");
                push_str(&mut m, variants[i].fields[j].1.as_str());
                push_str(&mut m, "' is not qualified");
                return Err(m);
            },
            None => {},
        }
        let width = max_payload_width(variants);
        let mut fields: Vec<String> = Vec::new();
        fields.push(String::from_str("@tag"));
        let mut index: usize = 0;
        while index < width
            invariant
                index <= width,
                strs(fields@) == enum_cells(index as nat),
            decreases width - index,
        {
            let mut name = String::from_str("@payload");
            push_decimal(&mut name, index);
            let ghost before = fields@;
            fields.push(name);
            proof {
                assert(enum_cells((index + 1) as nat) =~= enum_cells(index as nat).push(
                    "@payload"@ + decimal(index as nat),
                ));
                assert(strs(fields@) =~= strs(before).push(name@));
            }
            index = index + 1;
        }
        return Ok(ValueAbi::Indirect { type_label: String::from_str(t), fields });
    }
    let mut m = String::new();
    push_str(&mut m, "type '");
    push_str(&mut m, t);
    push_str(&mut m, "' does not yet have a qualified v0.1.4 native value ABI");
    Err(m)
}

// ---------------------------------------------------------------------------
// Initialisers
// ---------------------------------------------------------------------------

/// The canonical cell names of an `n`-element tuple: "0", "1", ...
pub open spec fn canonical_names(n: nat) -> Seq<Seq<char>> {
    Seq::new(n, |i: int| decimal(i as nat))
}

/// The position of the first name of `xs` that `ys` does not hold.
pub open spec fn first_absent(xs: Seq<Seq<char>>, ys: Seq<Seq<char>>) -> Option<nat>
    decreases xs.len(),
{
    if xs.len() == 0 {
        None
    } else {
        match first_absent(xs.drop_last(), ys) {
            Some(i) => Some(i),
            None => if !ys.contains(xs.last()) { Some((xs.len() - 1) as nat) } else { None },
        }
    }
}

proof fn lemma_first_absent_prefix(xs: Seq<Seq<char>>, ys: Seq<Seq<char>>, k: nat)
    requires
        k <= xs.len(),
        first_absent(xs.take(k as int), ys) is Some,
    ensures
        first_absent(xs, ys) == first_absent(xs.take(k as int), ys),
    decreases xs.len() - k,
{
    if k < xs.len() {
        assert(xs.take(k + 1 as int).drop_last() =~= xs.take(k as int));
        lemma_first_absent_prefix(xs, ys, (k + 1) as nat);
    } else {
        assert(xs.take(k as int) =~= xs);
    }
}

fn contains_name(ys: &Vec<String>, x: &str) -> (b: bool)
    ensures
        b == strs(ys@).contains(x@),
{
    let ghost v = strs(ys@);
    let mut k: usize = 0;
    while k < ys.len()
        invariant
            k <= ys@.len(),
            v == strs(ys@),
            forall|q: int| 0 <= q < k ==> v[q] != x@,
        decreases ys.len() - k,
    {
        if str_eq(ys[k].as_str(), x) {
            assert(v[k as int] == x@);
            return true;
        }
        k = k + 1;
    }
    false
}

fn first_absent_exec(xs: &Vec<String>, ys: &Vec<String>) -> (r: Option<usize>)
    ensures
        r matches Some(i) ==> i < xs@.len() && first_absent(strs(xs@), strs(ys@)) == Some(i as nat),
        r is None ==> first_absent(strs(xs@), strs(ys@)) is None,
{
    let ghost v = strs(xs@);
    let mut i: usize = 0;
    assert(v.take(0) =~= Seq::<Seq<char>>::empty());
    while i < xs.len()
        invariant
            i <= xs@.len(),
            v == strs(xs@),
            first_absent(v.take(i as int), strs(ys@)) is None,
        decreases xs.len() - i,
    {
        assert(v.take(i + 1 as int).drop_last() =~= v.take(i as int));
        if !contains_name(ys, xs[i].as_str()) {
            proof {
                lemma_first_absent_prefix(v, strs(ys@), (i + 1) as nat);
            }
            return Some(i);
        }
        i = i + 1;
    }
    assert(v.take(xs@.len() as int) =~= v);
    None
}

/// The cell order of an aggregate initialiser of type `t` with the
/// `supplied` fields: the canonical order for tuples and arrays, the declared
/// order for structs; or the reason the initialiser is refused.
pub open spec fn aggregate_fields(
    t: Seq<char>,
    supplied: Seq<(String, String)>,
    structs: Map<Seq<char>, Vec<(String, String)>>,
) -> Result<Seq<Seq<char>>, Seq<char>> {
    let actual = field_names(supplied);
    if t == "Tuple"@ || t == "Array"@ {
        let expected = canonical_names(supplied.len());
        if actual != expected {
            Err("tuple MIR fields must be canonical 0..N order, got "@ + debug_list(actual))
        } else {
            Ok(expected)
        }
    } else if !structs.contains_key(t) {
        Err("aggregate initializer references unknown struct '"@ + t + "'"@)
    } else {
        let declared = structs[t]@;
        match first_unqualified(field_types(declared), false) {
            Some(i) => Err("struct '"@ + t + "' field type '"@ + ascii_lowercase(declared[i as int].1@)
                + "' does not yet have a qualified v0.1.4 scalar-cell layout"@),
            None => {
                let expected = field_names(declared);
                if supplied.len() != expected.len() {
                    Err("aggregate initializer for '"@ + t + "' has "@ + decimal(supplied.len()) + " fields, expected "@
                        + decimal(expected.len()))
                } else {
                    match first_absent(expected, actual) {
                        Some(i) => Err("aggregate initializer for '"@ + t + "' is missing field '"@ + expected[i as int]
                            + "'"@),
                        None => match first_absent(actual, expected) {
                            Some(i) => Err("aggregate initializer for '"@ + t + "' has unknown field '"@
                                + actual[i as int] + "'"@),
                            None => Ok(expected),
                        },
                    }
                }
            },
        }
    }
}

/// The order in which the fields of an aggregate initialiser are stored.
pub fn ordered_aggregate_fields(
    type_label: &str,
    supplied: &Vec<(String, String)>,
    struct_layouts: &StrMap<Vec<(String, String)>>,
) -> (r: Result<Vec<String>, String>)
    ensures
        match aggregate_fields(type_label@, supplied@, struct_layouts@) {
            Ok(names) => r matches Ok(v) && strs(v@) == names,
            Err(e) => r matches Err(m) && m@ == e,
        },
{
    let actual = names_of_fields(supplied);
    if str_eq(type_label, "Tuple") || str_eq(type_label, "Array") {
        let mut expected: Vec<String> = Vec::new();
        let mut index: usize = 0;
        while index < supplied.len()
            invariant
                index <= supplied@.len(),
                strs(expected@) == canonical_names(index as nat),
            decreases supplied.len() - index,
        {
            let ghost before = expected@;
            let name = usize_to_string(index);
            expected.push(name);
            proof {
                assert(strs(expected@) =~= strs(before).push(name@));
                assert(canonical_names((index + 1) as nat) =~= canonical_names(index as nat).push(decimal(index as nat)));
            }
            index = index + 1;
        }
        if !strings_equal(&actual, &expected) {
            let mut m = String::from_str("tuple MIR fields must be canonical 0..N order, got ");
            let d = debug_strings(&actual);
            push_str(&mut m, d.as_str());
            return Err(m);
        }
        return Ok(expected);
    }
    let declared = match struct_layouts.get(type_label) {
        Some(d) => d,
        None => {
            let mut m = String::from_str("aggregate initializer references unknown struct '");
            push_str(&mut m, type_label);
            push_str(&mut m, "'");
            return Err(m);
        },
    };
    match first_unqualified_field(declared, false) {
        Some(i) => {
            let mut m = String::from_str("struct '");
            push_str(&mut m, type_label);
            push_str(&mut m, "' field type '");
            let lower = to_ascii_lowercase(declared[i].1.as_str());
            push_str(&mut m, lower.as_str());
            push_str(&mut m, "' does not yet have a qualified v0.1.4 scalar-cell layout");
            return Err(m);
        },
        None => {},
    }
    let expected = names_of_fields(declared);
    if supplied.len() != expected.len() {
        let mut m = String::from_str("aggregate initializer for '");
        push_str(&mut m, type_label);
        push_str(&mut m, "' has ");
        push_decimal(&mut m, supplied.len());
        push_str(&mut m, " fields, expected ");
        push_decimal(&mut m, expected.len());
        return Err(m);
    }
    match first_absent_exec(&expected, &actual) {
        Some(i) => {
            let mut m = String::from_str("aggregate initializer for '");
            push_str(&mut m, type_label);
            push_str(&mut m, "' is missing field '");
            push_str(&mut m, expected[i].as_str());
            push_str(&mut m, "'");
            return Err(m);
        },
        None => {},
    }
    match first_absent_exec(&actual, &expected) {
        Some(i) => {
            let mut m = String::from_str("aggregate initializer for '");
            push_str(&mut m, type_label);
            push_str(&mut m, "' has unknown field '");
            push_str(&mut m, actual[i].as_str());
            push_str(&mut m, "'");
            return Err(m);
        },
        None => {},
    }
    Ok(expected)
}

/// The first position at which a supplied enum payload field departs from the
/// declaration: by name (`true`) or by an unqualified declared type (`false`).
pub open spec fn payload_problem(supplied: Seq<(String, String)>, declared: Seq<(String, String)>, n: nat) -> Option<(nat, bool)>
    decreases n,
{
    if n == 0 {
        None
    } else {
        match payload_problem(supplied, declared, (n - 1) as nat) {
            Some(p) => Some(p),
            None => {
                let k = (n - 1) as int;
                if supplied[k].0@ != declared[k].0@ {
                    Some((k as nat, true))
                } else if !qualifies(declared[k].1@, false) {
                    Some((k as nat, false))
                } else {
                    None
                }
            },
        }
    }
}

proof fn lemma_payload_problem_extend(s: Seq<(String, String)>, d: Seq<(String, String)>, k: nat, n: nat)
    requires
        k <= n,
        payload_problem(s, d, k) is Some,
    ensures
        payload_problem(s, d, n) == payload_problem(s, d, k),
    decreases n - k,
{
    if k < n {
        lemma_payload_problem_extend(s, d, k, (n - 1) as nat);
    }
}

/// The payload width of an enum initialiser `t::v` with tag `tag` and the
/// `supplied` payload fields (the widest variant of the enum), or the reason
/// the initialiser is refused.
pub open spec fn enum_initializer(
    t: Seq<char>,
    v: Seq<char>,
    tag: u32,
    supplied: Seq<(String, String)>,
    enums: Map<Seq<char>, Vec<EnumVariant>>,
) -> Result<nat, Seq<char>> {
    if !enums.contains_key(t) {
        Err("enum initializer references unknown enum '"@ + t + "'"@)
    } else {
        let vs = enums[t]@;
        if tag >= vs.len() {
            Err("enum initializer for '"@ + t + "' uses invalid tag "@ + decimal(tag as nat) + "; "@
                + decimal(vs.len()) + " variants declared"@)
        } else {
            let declared = vs[tag as int];
            let fs = declared.fields@;
            if declared.name@ != v {
                Err("enum initializer for '"@ + t + "' tag "@ + decimal(tag as nat) + " names '"@ + v
                    + "' but declaration names '"@ + declared.name@ + "'"@)
            } else if supplied.len() != fs.len() {
                Err("enum initializer for '"@ + t + "::"@ + v + "' has "@ + decimal(supplied.len())
                    + " payload fields, expected "@ + decimal(fs.len()))
            } else {
                match payload_problem(supplied, fs, fs.len()) {
                    Some((k, true)) => Err("enum initializer for '"@ + t + "::"@ + v + "' payload field '"@
                        + supplied[k as int].0@ + "' is out of declaration order; expected '"@ + fs[k as int].0@
                        + "'"@),
                    Some((k, false)) => Err("enum '"@ + t + "::"@ + v + "' payload type '"@
                        + ascii_lowercase(fs[k as int].1@)
                        + "' does not yet have a qualified v0.1.4 scalar-cell layout"@),
                    None => Ok(max_width(vs)),
                }
            }
        }
    }
}

/// Checks an enum initialiser against the enum's declaration and returns the
/// payload width of the enum.
#[verifier::loop_isolation(false)]
pub fn validate_enum_initializer(
    type_label: &str,
    variant_name: &str,
    tag: u32,
    supplied: &Vec<(String, String)>,
    enum_layouts: &StrMap<Vec<EnumVariant>>,
) -> (r: Result<usize, String>)
    ensures
        match enum_initializer(type_label@, variant_name@, tag, supplied@, enum_layouts@) {
            Ok(w) => r matches Ok(x) && x == w,
            Err(e) => r matches Err(m) && m@ == e,
        },
{
    let variants = match enum_layouts.get(type_label) {
        Some(v) => v,
        None => {
            let mut m = String::from_str("enum initializer references unknown enum '");
            push_str(&mut m, type_label);
            push_str(&mut m, "'");
            return Err(m);
        },
    };
    let tag_index = tag as usize;
    if tag_index >= variants.len() {
        let mut m = String::from_str("enum initializer for '");
        push_str(&mut m, type_label);
        push_str(&mut m, "' uses invalid tag ");
        push_decimal(&mut m, tag_index);
        push_str(&mut m, "; ");
        push_decimal(&mut m, variants.len());
        push_str(&mut m, " variants declared");
        return Err(m);
    }
    let declared = &variants[tag_index];
    if !str_eq(declared.name.as_str(), variant_name) {
        let mut m = String::from_str("enum initializer for '");
        push_str(&mut m, type_label);
        push_str(&mut m, "' tag ");
        push_decimal(&mut m, tag_index);
        push_str(&mut m, " names '");
        push_str(&mut m, variant_name);
        push_str(&mut m, "' but declaration names '");
        push_str(&mut m, declared.name.as_str());
        push_str(&mut m, "'");
        return Err(m);
    }
    if supplied.len() != declared.fields.len() {
        let mut m = String::from_str("enum initializer for '");
        push_str(&mut m, type_label);
        push_str(&mut m, "::");
        push_str(&mut m, variant_name);
        push_str(&mut m, "' has ");
        push_decimal(&mut m, supplied.len());
        push_str(&mut m, " payload fields, expected ");
        push_decimal(&mut m, declared.fields.len());
        return Err(m);
    }
    let ghost s = supplied@;
    let ghost fs = declared.fields@;
    let mut k: usize = 0;
    while k < supplied.len()
        invariant
            k <= supplied@.len(),
            supplied@.len() == fs.len(),
            s == supplied@,
            fs == declared.fields@,
            payload_problem(s, fs, k as nat) is None,
        decreases supplied.len() - k,
    {
        if !str_eq(supplied[k].0.as_str(), declared.fields[k].0.as_str()) {
            proof {
                lemma_payload_problem_extend(s, fs, (k + 1) as nat, fs.len());
            }
            let mut m = String::from_str("enum initializer for '");
            push_str(&mut m, type_label);
            push_str(&mut m, "::");
            push_str(&mut m, variant_name);
            push_str(&mut m, "' payload field '");
            push_str(&mut m, supplied[k].0.as_str());
            push_str(&mut m, "' is out of declaration order; expected '");
            push_str(&mut m, declared.fields[k].0.as_str());
            push_str(&mut m, "'");
            return Err(m);
        }
        if !qualifies_exec(declared.fields[k].1.as_str(), false) {
            proof {
                lemma_payload_problem_extend(s, fs, (k + 1) as nat, fs.len());
            }
            let mut m = String::from_str("enum '");
            push_str(&mut m, type_label);
            push_str(&mut m, "::");
            push_str(&mut m, variant_name);
            push_str(&mut m, "' payload type '");
            let lower = to_ascii_lowercase(declared.fields[k].1.as_str());
            push_str(&mut m, lower.as_str());
            push_str(&mut m, "' does not yet have a qualified v0.1.4 scalar-cell layout");
            return Err(m);
        }
        k = k + 1;
    }
    Ok(max_payload_width(variants))
}

// ---------------------------------------------------------------------------
// Aggregate storage
// ---------------------------------------------------------------------------

/// Where an aggregate value lives: a frame-local base cell for an owned local
/// value, or an incoming pointer slot for a value passed indirectly; one cell
/// per field, eight bytes apart.
#[derive(Debug, Clone)]
pub struct AggregateStorage {
    pub type_label: String,
    pub base_slot: Option<u32>,
    pub indirect_slot: Option<u32>,
    pub fields: Vec<String>,
}

/// The first position of `f` in `fields`.
pub open spec fn position_of(fields: Seq<Seq<char>>, f: Seq<char>) -> Option<nat>
    decreases fields.len(),
{
    if fields.len() == 0 {
        None
    } else {
        match position_of(fields.drop_last(), f) {
            Some(i) => Some(i),
            None => if fields.last() == f { Some((fields.len() - 1) as nat) } else { None },
        }
    }
}

impl AggregateStorage {
    /// The byte offset of `field`: eight bytes per field before it.
    pub fn offset_of(&self, field: &str) -> (r: Option<i64>)
        requires
            self.fields@.len() <= i64::MAX / 8,
        ensures
            r matches Some(o) ==> (position_of(strs(self.fields@), field@) matches Some(i) && o == 8 * i),
            r is None ==> position_of(strs(self.fields@), field@) is None,
    {
        let ghost fs = strs(self.fields@);
        let mut i: usize = 0;
        assert(fs.take(0) =~= Seq::<Seq<char>>::empty());
        while i < self.fields.len()
            invariant
                i <= self.fields@.len(),
                self.fields@.len() <= i64::MAX / 8,
                fs == strs(self.fields@),
                position_of(fs.take(i as int), field@) is None,
            decreases self.fields.len() - i,
        {
            assert(fs.take(i + 1).drop_last() =~= fs.take(i as int));
            if str_eq(self.fields[i].as_str(), field) {
                proof {
                    lemma_position_prefix(fs, (i + 1) as nat, field@);
                }
                return Some((i as i64) * 8);
            }
            i = i + 1;
        }
        assert(fs.take(self.fields@.len() as int) =~= fs);
        None
    }
}

/// Extending a list past the first occurrence keeps that occurrence.
proof fn lemma_position_prefix(fs: Seq<Seq<char>>, k: nat, f: Seq<char>)
    requires
        k <= fs.len(),
        position_of(fs.take(k as int), f) is Some,
    ensures
        position_of(fs, f) == position_of(fs.take(k as int), f),
    decreases fs.len() - k,
{
    if k < fs.len() {
        assert(fs.take(k + 1 as int).drop_last() =~= fs.take(k as int));
        lemma_position_prefix(fs, (k + 1) as nat, f);
    } else {
        assert(fs.take(k as int) =~= fs);
    }
}

/// The outcome of allocating cells for a local aggregate of `width` fields
/// starting at `next`: the new next slot and the base slot (none for an empty
/// aggregate), or the error.
pub open spec fn allocation(next: u32, width: nat, type_label: Seq<char>, function_name: Seq<char>) -> Result<(u32, Option<u32>), Seq<char>> {
    if width > u32::MAX {
        Err("function '"@ + function_name + "': aggregate '"@ + type_label + "' is too large"@)
    } else if width == 0 {
        Ok((next, None))
    } else if next + width > u32::MAX {
        Err("function '"@ + function_name + "': local slot space overflow"@)
    } else {
        Ok(((next + width) as u32, Some((next + width - 1) as u32)))
    }
}

/// Reserves consecutive cells for a local aggregate with `fields`.
pub fn allocate_local_aggregate(next_slot: &mut u32, type_label: String, fields: Vec<String>, function_name: &str) -> (r: Result<AggregateStorage, String>)
    ensures
        match allocation(*old(next_slot), fields@.len(), type_label@, function_name@) {
            Ok((next, base)) => r matches Ok(s) && *final(next_slot) == next && s.base_slot == base
                && s.indirect_slot is None && s.type_label@ == type_label@ && strs(s.fields@) == strs(fields@),
            Err(e) => r matches Err(m) && m@ == e && *final(next_slot) == *old(next_slot),
        },
{
    if fields.len() > 0xffff_ffffusize {
        let mut m = String::new();
        push_str(&mut m, "function '");
        push_str(&mut m, function_name);
        push_str(&mut m, "': aggregate '");
        push_str(&mut m, type_label.as_str());
        push_str(&mut m, "' is too large");
        return Err(m);
    }
    let width: u32 = fields.len() as u32;
    let base_slot = if width == 0 {
        None
    } else {
        if *next_slot > u32::MAX - width {
            let mut m = String::new();
            push_str(&mut m, "function '");
            push_str(&mut m, function_name);
            push_str(&mut m, "': local slot space overflow");
            return Err(m);
        }
        let base = *next_slot + (width - 1);
        *next_slot = *next_slot + width;
        Some(base)
    };
    Ok(AggregateStorage { type_label, base_slot, indirect_slot: None, fields })
}

// ---------------------------------------------------------------------------
// Slices and slots
// ---------------------------------------------------------------------------

/// The window `start..end` (end included when `inclusive`) of a sequence of
/// length `len`, as a half-open range, or the reason it is not one.
pub open spec fn slice_window(start: i64, end: i64, inclusive: bool, len: nat) -> Result<(nat, nat), Seq<char>> {
    if start < 0 || end < 0 {
        Err("slice range bounds must be non-negative"@)
    } else if start > usize::MAX || end > usize::MAX {
        Err(if start > usize::MAX { "slice start does not fit usize"@ } else { "slice end does not fit usize"@ })
    } else if inclusive && end + 1 > usize::MAX {
        Err("inclusive slice end overflow"@)
    } else {
        let e = if inclusive { (end + 1) as nat } else { end as nat };
        if start > e || e > len {
            Err("slice range "@ + decimal(start as nat) + ".."@ + decimal(e) + " out of bounds for length "@ + decimal(len))
        } else {
            Ok((start as nat, e))
        }
    }
}

pub fn constant_slice_window(start: i64, end: i64, inclusive: bool, source_len: usize) -> (r: Result<(usize, usize), String>)
    ensures
        match slice_window(start, end, inclusive, source_len as nat) {
            Ok((a, b)) => r matches Ok(p) && p.0 == a && p.1 == b,
            Err(e) => r matches Err(m) && m@ == e,
        },
{
    if start < 0 || end < 0 {
        return Err(String::from_str("slice range bounds must be non-negative"));
    }
    if (start as u64) > (usize::MAX as u64) {
        return Err(String::from_str("slice start does not fit usize"));
    }
    if (end as u64) > (usize::MAX as u64) {
        return Err(String::from_str("slice end does not fit usize"));
    }
    let s = start as usize;
    let raw_end = end as usize;
    let end_exclusive = if inclusive {
        if raw_end == usize::MAX {
            return Err(String::from_str("inclusive slice end overflow"));
        }
        raw_end + 1
    } else {
        raw_end
    };
    if s > end_exclusive || end_exclusive > source_len {
        let mut m = String::new();
        push_str(&mut m, "slice range ");
        push_decimal(&mut m, s);
        push_str(&mut m, "..");
        push_decimal(&mut m, end_exclusive);
        push_str(&mut m, " out of bounds for length ");
        push_decimal(&mut m, source_len);
        return Err(m);
    }
    Ok((s, end_exclusive))
}

/// The slot of the scalar value `name`, or an error naming the function.
pub fn slot_of(slots: &StrMap<u32>, name: &str, func: &str) -> (r: Result<u32, String>)
    ensures
        slots@.contains_key(name@) ==> r == Ok::<u32, String>(slots@[name@]),
        !slots@.contains_key(name@) ==> (r matches Err(e)
            && e@ == "function '"@ + func@ + "': MIR references unknown scalar value '"@ + name@ + "'"@),
{
    match slots.get(name) {
        Some(s) => Ok(*s),
        None => {
            let mut m = String::new();
            push_str(&mut m, "function '");
            push_str(&mut m, func);
            push_str(&mut m, "': MIR references unknown scalar value '");
            push_str(&mut m, name);
            push_str(&mut m, "'");
            Err(m)
        },
    }
}

} // verus!
