//! Interface compatibility: the differences between an old and a new export
//! document, as human-readable messages.

use vstd::prelude::*;
use crate::type_export::{
    ExportDocument, ExportedEnum, ExportedField, ExportedFunction, ExportedItem, ExportedParam,
    ExportedStruct, ExportedVariant,
};
use crate::text::{decimal, join, push_decimal, push_str, str_eq};

verus! {

// ---------------------------------------------------------------------------
// Debug renderings (std's `{:?}`)
// ---------------------------------------------------------------------------

/// What std's `{:?}` writes for a string with characters `s` (quoted, with
/// the `escape_debug` escapes).
pub uninterp spec fn debug_quoted(s: Seq<char>) -> Seq<char>;

/// What `{:?}` writes for a `Vec<String>` holding `items`: each item's
/// debug rendering, separated by `, `, in square brackets.
pub open spec fn debug_list(items: Seq<Seq<char>>) -> Seq<char> {
    "["@ + join(Seq::new(items.len(), |i: int| debug_quoted(items[i])), ", "@) + "]"@
}

/// What `{:?}` writes for an `Option<String>`: `None`, or `Some(..)` around
/// the string's debug rendering.
pub open spec fn debug_option(o: Option<Seq<char>>) -> Seq<char> {
    match o {
        Some(s) => "Some("@ + debug_quoted(s) + ")"@,
        None => "None"@,
    }
}

pub open spec fn strs(v: Seq<String>) -> Seq<Seq<char>> {
    Seq::new(v.len(), |i: int| v[i]@)
}

pub open spec fn opt_view(o: Option<String>) -> Option<Seq<char>> {
    match o {
        Some(s) => Some(s@),
        None => None,
    }
}

/// std's `format!("{:?}", s)` for a string. Claimed: a function of the
/// characters of `s` alone, named `debug_quoted`; the escaping is left unstated.
#[verifier::external_body]
fn debug_str(s: &str) -> (r: String)
    ensures
        r@ == debug_quoted(s@),
{
    format!("{:?}", s)
}

/// The debug rendering of a list of strings.
pub(crate) fn debug_strings(v: &Vec<String>) -> (r: String)
    ensures
        r@ == debug_list(strs(v@)),
{
    let ghost items = Seq::new(v@.len(), |i: int| debug_quoted(v@[i]@));
    let mut out = String::from_str("[");
    let ghost start = out@;
    let mut i: usize = 0;
    assert(items.take(0) =~= Seq::<Seq<char>>::empty());
    while i < v.len()
        invariant
            i <= v@.len(),
            items.len() == v@.len(),
            forall|q: int| 0 <= q < v@.len() ==> #[trigger] items[q] == debug_quoted(v@[q]@),
            out@ == start + join(items.take(i as int), ", "@),
        decreases v.len() - i,
    {
        if i > 0 {
            push_str(&mut out, ", ");
        }
        let d = debug_str(v[i].as_str());
        push_str(&mut out, d.as_str());
        assert(items.take(i + 1).drop_last() =~= items.take(i as int));
        if i == 0 {
            assert(items.take(1) =~= seq![items[0]]);
        }
        assert(out@ =~= start + join(items.take(i + 1), ", "@));
        i = i + 1;
    }
    assert(items.take(v@.len() as int) =~= items);
    push_str(&mut out, "]");
    proof {
        reveal_strlit("[");
        assert(Seq::new(strs(v@).len(), |i: int| debug_quoted(strs(v@)[i])) =~= items);
    }
    out
}

/// The debug rendering of an optional string.
fn debug_opt_string(o: &Option<String>) -> (r: String)
    ensures
        r@ == debug_option(opt_view(*o)),
{
    match o {
        Some(s) => {
            let mut out = String::from_str("Some(");
            let d = debug_str(s.as_str());
            push_str(&mut out, d.as_str());
            push_str(&mut out, ")");
            out
        },
        None => String::from_str("None"),
    }
}

// ---------------------------------------------------------------------------
// The differences, in the abstract
// ---------------------------------------------------------------------------

pub open spec fn item_kind_name(i: ExportedItem) -> Seq<char> {
    match i {
        ExportedItem::Function(_) => "function"@,
        ExportedItem::Struct(_) => "struct"@,
        ExportedItem::Enum(_) => "enum"@,
    }
}

pub open spec fn item_name(i: ExportedItem) -> Seq<char> {
    match i {
        ExportedItem::Function(f) => f.name@,
        ExportedItem::Struct(s) => s.name@,
        ExportedItem::Enum(e) => e.name@,
    }
}

/// Items are matched across versions by kind and name.
pub open spec fn same_key(a: ExportedItem, b: ExportedItem) -> bool {
    item_kind_name(a) == item_kind_name(b) && item_name(a) == item_name(b)
}

/// The first item of `items` (from `i` on) with the same key as `probe`.
pub open spec fn find_match(items: Seq<ExportedItem>, probe: ExportedItem, i: nat) -> Option<nat>
    decreases items.len() - i,
{
    if i >= items.len() {
        None
    } else if same_key(items[i as int], probe) {
        Some(i)
    } else {
        find_match(items, probe, i + 1)
    }
}

pub open spec fn when(c: bool, msg: Seq<char>) -> Seq<Seq<char>> {
    if c { seq![msg] } else { seq![] }
}

pub open spec fn min_len(a: nat, b: nat) -> nat {
    if a <= b { a } else { b }
}

/// Parameter type changes among the first `k` parameter pairs.
pub open spec fn param_diffs(f: Seq<char>, o: Seq<ExportedParam>, n: Seq<ExportedParam>, k: nat) -> Seq<Seq<char>>
    decreases k,
{
    if k == 0 {
        seq![]
    } else {
        let i = (k - 1) as nat;
        param_diffs(f, o, n, i) + when(o[i as int].type_label@ != n[i as int].type_label@,
            "function '"@ + f + "' parameter "@ + decimal(i) + " type changed from "@
                + debug_quoted(o[i as int].type_label@) + " to "@ + debug_quoted(n[i as int].type_label@))
    }
}

pub open spec fn function_diffs(o: ExportedFunction, n: ExportedFunction) -> Seq<Seq<char>> {
    let f = o.name@;
    when(strs(o.type_params@) != strs(n.type_params@),
        "function '"@ + f + "' type parameters changed from "@ + debug_list(strs(o.type_params@)) + " to "@
            + debug_list(strs(n.type_params@)))
    + when(o.params@.len() != n.params@.len(),
        "function '"@ + f + "' parameter count changed from "@ + decimal(o.params@.len()) + " to "@
            + decimal(n.params@.len()))
    + param_diffs(f, o.params@, n.params@, min_len(o.params@.len(), n.params@.len()))
    + when(opt_view(o.return_type) != opt_view(n.return_type),
        "function '"@ + f + "' return type changed from "@ + debug_option(opt_view(o.return_type)) + " to "@
            + debug_option(opt_view(n.return_type)))
    + when(strs(o.effects@) != strs(n.effects@),
        "function '"@ + f + "' effects changed from "@ + debug_list(strs(o.effects@)) + " to "@
            + debug_list(strs(n.effects@)))
}

pub open spec fn bool_text(b: bool) -> Seq<char> {
    if b { "true"@ } else { "false"@ }
}

/// Name and type changes among the first `k` field pairs of a struct.
pub open spec fn struct_field_diffs(s: Seq<char>, o: Seq<ExportedField>, n: Seq<ExportedField>, k: nat) -> Seq<Seq<char>>
    decreases k,
{
    if k == 0 {
        seq![]
    } else {
        let i = (k - 1) as nat;
        let of = o[i as int];
        let nf = n[i as int];
        struct_field_diffs(s, o, n, i)
            + when(of.name@ != nf.name@,
                "struct '"@ + s + "' field "@ + decimal(i) + " name changed from '"@ + of.name@ + "' to '"@ + nf.name@ + "'"@)
            + when(of.type_label@ != nf.type_label@,
                "struct '"@ + s + "' field '"@ + of.name@ + "' type changed from '"@ + of.type_label@ + "' to '"@
                    + nf.type_label@ + "'"@)
    }
}

pub open spec fn struct_diffs(o: ExportedStruct, n: ExportedStruct) -> Seq<Seq<char>> {
    let s = o.name@;
    when(o.is_linear != n.is_linear,
        "struct '"@ + s + "' linearity changed from "@ + bool_text(o.is_linear) + " to "@ + bool_text(n.is_linear))
    + when(o.fields@.len() != n.fields@.len(),
        "struct '"@ + s + "' field count changed from "@ + decimal(o.fields@.len()) + " to "@ + decimal(n.fields@.len()))
    + struct_field_diffs(s, o.fields@, n.fields@, min_len(o.fields@.len(), n.fields@.len()))
}

/// Name and type changes among the first `k` field pairs of a variant.
pub open spec fn variant_field_diffs(e: Seq<char>, v: Seq<char>, o: Seq<ExportedField>, n: Seq<ExportedField>, k: nat) -> Seq<Seq<char>>
    decreases k,
{
    if k == 0 {
        seq![]
    } else {
        let i = (k - 1) as nat;
        let of = o[i as int];
        let nf = n[i as int];
        variant_field_diffs(e, v, o, n, i)
            + when(of.name@ != nf.name@,
                "enum '"@ + e + "' variant '"@ + v + "' field "@ + decimal(i) + " name changed from '"@ + of.name@
                    + "' to '"@ + nf.name@ + "'"@)
            + when(of.type_label@ != nf.type_label@,
                "enum '"@ + e + "' variant '"@ + v + "' field '"@ + of.name@ + "' type changed from '"@
                    + of.type_label@ + "' to '"@ + nf.type_label@ + "'"@)
    }
}

/// Changes among the first `k` variant pairs of an enum.
pub open spec fn variant_diffs(e: Seq<char>, o: Seq<ExportedVariant>, n: Seq<ExportedVariant>, k: nat) -> Seq<Seq<char>>
    decreases k,
{
    if k == 0 {
        seq![]
    } else {
        let i = (k - 1) as nat;
        let ov = o[i as int];
        let nv = n[i as int];
        variant_diffs(e, o, n, i)
            + when(ov.name@ != nv.name@,
                "enum '"@ + e + "' variant "@ + decimal(i) + " name changed from '"@ + ov.name@ + "' to '"@ + nv.name@ + "'"@)
            + when(ov.fields@.len() != nv.fields@.len(),
                "enum '"@ + e + "' variant '"@ + ov.name@ + "' field count changed from "@ + decimal(ov.fields@.len())
                    + " to "@ + decimal(nv.fields@.len()))
            + variant_field_diffs(e, ov.name@, ov.fields@, nv.fields@, min_len(ov.fields@.len(), nv.fields@.len()))
    }
}

pub open spec fn enum_diffs(o: ExportedEnum, n: ExportedEnum) -> Seq<Seq<char>> {
    let e = o.name@;
    when(o.is_sealed != n.is_sealed,
        "enum '"@ + e + "' sealed flag changed from "@ + bool_text(o.is_sealed) + " to "@ + bool_text(n.is_sealed))
    + when(o.variants@.len() != n.variants@.len(),
        "enum '"@ + e + "' variant count changed from "@ + decimal(o.variants@.len()) + " to "@
            + decimal(n.variants@.len()))
    + variant_diffs(e, o.variants@, n.variants@, min_len(o.variants@.len(), n.variants@.len()))
}

/// The differences between two versions of an item.
pub open spec fn item_diffs(o: ExportedItem, n: ExportedItem) -> Seq<Seq<char>> {
    match (o, n) {
        (ExportedItem::Function(a), ExportedItem::Function(b)) => function_diffs(a, b),
        (ExportedItem::Struct(a), ExportedItem::Struct(b)) => struct_diffs(a, b),
        (ExportedItem::Enum(a), ExportedItem::Enum(b)) => enum_diffs(a, b),
        _ => seq![item_kind_name(o) + " '"@ + item_name(o) + "' changed kind from "@ + item_kind_name(o) + " to "@
            + item_kind_name(n)],
    }
}

/// The differences for the first `k` old items: each is compared with the new
/// item of the same kind and name, or reported removed.
pub open spec fn document_diffs(old_items: Seq<ExportedItem>, new_items: Seq<ExportedItem>, k: nat) -> Seq<Seq<char>>
    decreases k,
{
    if k == 0 {
        seq![]
    } else {
        let o = old_items[k - 1];
        document_diffs(old_items, new_items, (k - 1) as nat) + match find_match(new_items, o, 0) {
            Some(m) => item_diffs(o, new_items[m as int]),
            None => seq![item_kind_name(o) + " '"@ + item_name(o) + "' was removed"@],
        }
    }
}

// ---------------------------------------------------------------------------
// Comparing a document with itself
// ---------------------------------------------------------------------------

/// No two items share a kind and a name.
pub open spec fn keys_distinct(items: Seq<ExportedItem>) -> bool {
    forall|i: int, j: int| 0 <= i < j < items.len() ==> !same_key(#[trigger] items[i], #[trigger] items[j])
}

proof fn lemma_param_diffs_same(f: Seq<char>, ps: Seq<ExportedParam>, k: nat)
    requires
        k <= ps.len(),
    ensures
        param_diffs(f, ps, ps, k) == Seq::<Seq<char>>::empty(),
    decreases k,
{
    if k > 0 {
        lemma_param_diffs_same(f, ps, (k - 1) as nat);
        assert(param_diffs(f, ps, ps, k) =~= Seq::<Seq<char>>::empty());
    }
}

proof fn lemma_struct_field_diffs_same(s: Seq<char>, fs: Seq<ExportedField>, k: nat)
    requires
        k <= fs.len(),
    ensures
        struct_field_diffs(s, fs, fs, k) == Seq::<Seq<char>>::empty(),
    decreases k,
{
    if k > 0 {
        lemma_struct_field_diffs_same(s, fs, (k - 1) as nat);
        assert(struct_field_diffs(s, fs, fs, k) =~= Seq::<Seq<char>>::empty());
    }
}

proof fn lemma_variant_field_diffs_same(e: Seq<char>, v: Seq<char>, fs: Seq<ExportedField>, k: nat)
    requires
        k <= fs.len(),
    ensures
        variant_field_diffs(e, v, fs, fs, k) == Seq::<Seq<char>>::empty(),
    decreases k,
{
    if k > 0 {
        lemma_variant_field_diffs_same(e, v, fs, (k - 1) as nat);
        assert(variant_field_diffs(e, v, fs, fs, k) =~= Seq::<Seq<char>>::empty());
    }
}

proof fn lemma_variant_diffs_same(e: Seq<char>, vs: Seq<ExportedVariant>, k: nat)
    requires
        k <= vs.len(),
    ensures
        variant_diffs(e, vs, vs, k) == Seq::<Seq<char>>::empty(),
    decreases k,
{
    if k > 0 {
        let v = vs[k - 1];
        lemma_variant_diffs_same(e, vs, (k - 1) as nat);
        lemma_variant_field_diffs_same(e, v.name@, v.fields@, v.fields@.len());
        assert(variant_diffs(e, vs, vs, k) =~= Seq::<Seq<char>>::empty());
    }
}

/// An item compared with itself shows no difference.
pub proof fn law_item_unchanged(item: ExportedItem)
    ensures
        item_diffs(item, item) == Seq::<Seq<char>>::empty(),
{
    match item {
        ExportedItem::Function(f) => {
            lemma_param_diffs_same(f.name@, f.params@, f.params@.len());
            assert(function_diffs(f, f) =~= Seq::<Seq<char>>::empty());
        },
        ExportedItem::Struct(st) => {
            lemma_struct_field_diffs_same(st.name@, st.fields@, st.fields@.len());
            assert(struct_diffs(st, st) =~= Seq::<Seq<char>>::empty());
        },
        ExportedItem::Enum(en) => {
            lemma_variant_diffs_same(en.name@, en.variants@, en.variants@.len());
            assert(enum_diffs(en, en) =~= Seq::<Seq<char>>::empty());
        },
    }
}

proof fn lemma_find_own(items: Seq<ExportedItem>, k: int, i: nat)
    requires
        keys_distinct(items),
        0 <= i <= k < items.len(),
    ensures
        find_match(items, items[k], i) == Some(k as nat),
    decreases k - i,
{
    if i < k {
        assert(!same_key(items[i as int], items[k]));
        lemma_find_own(items, k, i + 1);
    }
}

/// A document compared with itself shows no difference, when no two of its
/// items share a kind and a name.
pub proof fn law_document_unchanged(items: Seq<ExportedItem>)
    requires
        keys_distinct(items),
    ensures
        document_diffs(items, items, items.len()) == Seq::<Seq<char>>::empty(),
{
    lemma_document_unchanged(items, items.len());
}

proof fn lemma_document_unchanged(items: Seq<ExportedItem>, k: nat)
    requires
        keys_distinct(items),
        k <= items.len(),
    ensures
        document_diffs(items, items, k) == Seq::<Seq<char>>::empty(),
    decreases k,
{
    if k > 0 {
        lemma_document_unchanged(items, (k - 1) as nat);
        lemma_find_own(items, k - 1, 0);
        law_item_unchanged(items[k - 1]);
        assert(document_diffs(items, items, k) =~= Seq::<Seq<char>>::empty());
    }
}

/// Searching past the end of `items` into items none of which shares the
/// probe's key finds what searching `items` alone finds.
proof fn lemma_find_match_extended(items: Seq<ExportedItem>, extra: Seq<ExportedItem>, probe: ExportedItem, i: nat)
    requires
        forall|j: int| 0 <= j < extra.len() ==> !same_key(#[trigger] extra[j], probe),
    ensures
        find_match(items + extra, probe, i) == find_match(items, probe, i),
    decreases (items + extra).len() - i,
{
    let all = items + extra;
    if i >= all.len() {
    } else if i < items.len() {
        assert(all[i as int] == items[i as int]);
        if !same_key(items[i as int], probe) {
            lemma_find_match_extended(items, extra, probe, i + 1);
        }
    } else {
        assert(all[i as int] == extra[i - items.len()]);
        lemma_find_match_extended(items, extra, probe, i + 1);
    }
}

proof fn lemma_diffs_ignore_additions(old_items: Seq<ExportedItem>, new_items: Seq<ExportedItem>, added: Seq<ExportedItem>, k: nat)
    requires
        k <= old_items.len(),
        forall|i: int, j: int| 0 <= i < old_items.len() && 0 <= j < added.len()
            ==> !same_key(#[trigger] added[j], #[trigger] old_items[i]),
    ensures
        document_diffs(old_items, new_items + added, k) == document_diffs(old_items, new_items, k),
    decreases k,
{
    if k > 0 {
        lemma_diffs_ignore_additions(old_items, new_items, added, (k - 1) as nat);
        let o = old_items[k - 1];
        assert forall|j: int| 0 <= j < added.len() implies !same_key(#[trigger] added[j], o) by {
            assert(!same_key(added[j], old_items[k - 1]));
        }
        lemma_find_match_extended(new_items, added, o, 0);
        match find_match(new_items, o, 0) {
            Some(m) => {
                lemma_find_match_bounds(new_items, o, 0);
                assert((new_items + added)[m as int] == new_items[m as int]);
            },
            None => {},
        }
    }
}

/// Items added to the new document are never reported: comparing against a
/// document extended with items whose kinds and names are new to the old
/// document gives the same differences as comparing against it unextended.
pub proof fn law_additions_not_reported(old_items: Seq<ExportedItem>, new_items: Seq<ExportedItem>, added: Seq<ExportedItem>)
    requires
        forall|i: int, j: int| 0 <= i < old_items.len() && 0 <= j < added.len()
            ==> !same_key(#[trigger] added[j], #[trigger] old_items[i]),
    ensures
        document_diffs(old_items, new_items + added, old_items.len())
            == document_diffs(old_items, new_items, old_items.len()),
{
    lemma_diffs_ignore_additions(old_items, new_items, added, old_items.len());
}

proof fn lemma_find_match_bounds(items: Seq<ExportedItem>, probe: ExportedItem, i: nat)
    ensures
        find_match(items, probe, i) matches Some(m) ==> i <= m < items.len() && same_key(items[m as int], probe),
    decreases items.len() - i,
{
    if i < items.len() && !same_key(items[i as int], probe) {
        lemma_find_match_bounds(items, probe, i + 1);
    }
}

pub open spec fn messages_view(v: Seq<String>) -> Seq<Seq<char>> {
    strs(v)
}

// ---------------------------------------------------------------------------
// Computing the differences
// ---------------------------------------------------------------------------

pub(crate) fn strings_equal(a: &Vec<String>, b: &Vec<String>) -> (r: bool)
    ensures
        r == (strs(a@) == strs(b@)),
{
    if a.len() != b.len() {
        assert(strs(a@).len() != strs(b@).len());
        return false;
    }
    let mut i: usize = 0;
    while i < a.len()
        invariant
            i <= a@.len(),
            a@.len() == b@.len(),
            forall|q: int| 0 <= q < i ==> a@[q]@ == b@[q]@,
        decreases a.len() - i,
    {
        if !str_eq(a[i].as_str(), b[i].as_str()) {
            assert(strs(a@)[i as int] != strs(b@)[i as int]);
            return false;
        }
        i = i + 1;
    }
    assert(strs(a@) =~= strs(b@));
    true
}

fn options_equal(a: &Option<String>, b: &Option<String>) -> (r: bool)
    ensures
        r == (opt_view(*a) == opt_view(*b)),
{
    match (a, b) {
        (Some(x), Some(y)) => str_eq(x.as_str(), y.as_str()),
        (None, None) => true,
        _ => false,
    }
}

fn push_diff(diffs: &mut Vec<String>, msg: String)
    ensures
        strs(final(diffs)@) == strs(old(diffs)@) + seq![msg@],
{
    let ghost before = diffs@;
    diffs.push(msg);
    assert(strs(diffs@) =~= strs(before) + seq![msg@]);
}

fn push_when(diffs: &mut Vec<String>, c: bool, msg: String)
    ensures
        strs(final(diffs)@) == strs(old(diffs)@) + when(c, msg@),
{
    if c {
        push_diff(diffs, msg);
    } else {
        assert(strs(diffs@) =~= strs(diffs@) + when(c, msg@));
    }
}

fn bool_str(b: bool) -> (r: &'static str)
    ensures
        r@ == bool_text(b),
{
    if b { "true" } else { "false" }
}

fn compare_function(o: &ExportedFunction, n: &ExportedFunction, diffs: &mut Vec<String>)
    ensures
        strs(final(diffs)@) == strs(old(diffs)@) + function_diffs(*o, *n),
{
    let ghost start = strs(diffs@);
    let ghost f = o.name@;
    let name = o.name.as_str();
    let tp_changed = !strings_equal(&o.type_params, &n.type_params);
    let mut m1 = String::new();
    if tp_changed {
        push_str(&mut m1, "function '");
        push_str(&mut m1, name);
        push_str(&mut m1, "' type parameters changed from ");
        let a = debug_strings(&o.type_params);
        push_str(&mut m1, a.as_str());
        push_str(&mut m1, " to ");
        let b = debug_strings(&n.type_params);
        push_str(&mut m1, b.as_str());
    }
    push_when(diffs, tp_changed, m1);
    let ghost d1 = strs(diffs@);
    let count_changed = o.params.len() != n.params.len();
    let mut m2 = String::new();
    if count_changed {
        push_str(&mut m2, "function '");
        push_str(&mut m2, name);
        push_str(&mut m2, "' parameter count changed from ");
        push_decimal(&mut m2, o.params.len());
        push_str(&mut m2, " to ");
        push_decimal(&mut m2, n.params.len());
    }
    push_when(diffs, count_changed, m2);
    let ghost d2 = strs(diffs@);
    let k = if o.params.len() <= n.params.len() { o.params.len() } else { n.params.len() };
    let mut i: usize = 0;
    while i < k
        invariant
            i <= k,
            k as nat == min_len(o.params@.len(), n.params@.len()),
            f == o.name@,
            name@ == f,
            strs(diffs@) == d2 + param_diffs(f, o.params@, n.params@, i as nat),
        decreases k - i,
    {
        let op = &o.params[i];
        let np = &n.params[i];
        let changed = !str_eq(op.type_label.as_str(), np.type_label.as_str());
        let mut m = String::new();
        if changed {
            push_str(&mut m, "function '");
            push_str(&mut m, name);
            push_str(&mut m, "' parameter ");
            push_decimal(&mut m, i);
            push_str(&mut m, " type changed from ");
            let a = debug_str(op.type_label.as_str());
            push_str(&mut m, a.as_str());
            push_str(&mut m, " to ");
            let b = debug_str(np.type_label.as_str());
            push_str(&mut m, b.as_str());
        }
        let ghost before = strs(diffs@);
        push_when(diffs, changed, m);
        assert(strs(diffs@) =~= d2 + param_diffs(f, o.params@, n.params@, (i + 1) as nat));
        i = i + 1;
    }
    let ghost d3 = strs(diffs@);
    let rt_changed = !options_equal(&o.return_type, &n.return_type);
    let mut m3 = String::new();
    if rt_changed {
        push_str(&mut m3, "function '");
        push_str(&mut m3, name);
        push_str(&mut m3, "' return type changed from ");
        let a = debug_opt_string(&o.return_type);
        push_str(&mut m3, a.as_str());
        push_str(&mut m3, " to ");
        let b = debug_opt_string(&n.return_type);
        push_str(&mut m3, b.as_str());
    }
    push_when(diffs, rt_changed, m3);
    let ef_changed = !strings_equal(&o.effects, &n.effects);
    let mut m4 = String::new();
    if ef_changed {
        push_str(&mut m4, "function '");
        push_str(&mut m4, name);
        push_str(&mut m4, "' effects changed from ");
        let a = debug_strings(&o.effects);
        push_str(&mut m4, a.as_str());
        push_str(&mut m4, " to ");
        let b = debug_strings(&n.effects);
        push_str(&mut m4, b.as_str());
    }
    push_when(diffs, ef_changed, m4);
    assert(strs(diffs@) =~= strs(old(diffs)@) + function_diffs(*o, *n));
}

fn compare_struct(o: &ExportedStruct, n: &ExportedStruct, diffs: &mut Vec<String>)
    ensures
        strs(final(diffs)@) == strs(old(diffs)@) + struct_diffs(*o, *n),
{
    let ghost sn = o.name@;
    let name = o.name.as_str();
    let lin_changed = o.is_linear != n.is_linear;
    let mut m1 = String::new();
    if lin_changed {
        push_str(&mut m1, "struct '");
        push_str(&mut m1, name);
        push_str(&mut m1, "' linearity changed from ");
        push_str(&mut m1, bool_str(o.is_linear));
        push_str(&mut m1, " to ");
        push_str(&mut m1, bool_str(n.is_linear));
    }
    push_when(diffs, lin_changed, m1);
    let count_changed = o.fields.len() != n.fields.len();
    let mut m2 = String::new();
    if count_changed {
        push_str(&mut m2, "struct '");
        push_str(&mut m2, name);
        push_str(&mut m2, "' field count changed from ");
        push_decimal(&mut m2, o.fields.len());
        push_str(&mut m2, " to ");
        push_decimal(&mut m2, n.fields.len());
    }
    push_when(diffs, count_changed, m2);
    let ghost d2 = strs(diffs@);
    let k = if o.fields.len() <= n.fields.len() { o.fields.len() } else { n.fields.len() };
    let mut i: usize = 0;
    while i < k
        invariant
            i <= k,
            k as nat == min_len(o.fields@.len(), n.fields@.len()),
            sn == o.name@,
            name@ == sn,
            strs(diffs@) == d2 + struct_field_diffs(sn, o.fields@, n.fields@, i as nat),
        decreases k - i,
    {
        let of = &o.fields[i];
        let nf = &n.fields[i];
        let name_changed = !str_eq(of.name.as_str(), nf.name.as_str());
        let mut m = String::new();
        if name_changed {
            push_str(&mut m, "struct '");
            push_str(&mut m, name);
            push_str(&mut m, "' field ");
            push_decimal(&mut m, i);
            push_str(&mut m, " name changed from '");
            push_str(&mut m, of.name.as_str());
            push_str(&mut m, "' to '");
            push_str(&mut m, nf.name.as_str());
            push_str(&mut m, "'");
        }
        push_when(diffs, name_changed, m);
        let type_changed = !str_eq(of.type_label.as_str(), nf.type_label.as_str());
        let mut t = String::new();
        if type_changed {
            push_str(&mut t, "struct '");
            push_str(&mut t, name);
            push_str(&mut t, "' field '");
            push_str(&mut t, of.name.as_str());
            push_str(&mut t, "' type changed from '");
            push_str(&mut t, of.type_label.as_str());
            push_str(&mut t, "' to '");
            push_str(&mut t, nf.type_label.as_str());
            push_str(&mut t, "'");
        }
        push_when(diffs, type_changed, t);
        assert(strs(diffs@) =~= d2 + struct_field_diffs(sn, o.fields@, n.fields@, (i + 1) as nat));
        i = i + 1;
    }
    assert(strs(diffs@) =~= strs(old(diffs)@) + struct_diffs(*o, *n));
}

fn compare_variant_fields(e: &str, v: &str, o: &Vec<ExportedField>, n: &Vec<ExportedField>, diffs: &mut Vec<String>)
    ensures
        strs(final(diffs)@) == strs(old(diffs)@)
            + variant_field_diffs(e@, v@, o@, n@, min_len(o@.len(), n@.len())),
{
    let ghost d0 = strs(diffs@);
    let k = if o.len() <= n.len() { o.len() } else { n.len() };
    let mut i: usize = 0;
    assert(strs(diffs@) =~= d0 + variant_field_diffs(e@, v@, o@, n@, 0));
    while i < k
        invariant
            i <= k,
            k as nat == min_len(o@.len(), n@.len()),
            strs(diffs@) == d0 + variant_field_diffs(e@, v@, o@, n@, i as nat),
        decreases k - i,
    {
        let of = &o[i];
        let nf = &n[i];
        let name_changed = !str_eq(of.name.as_str(), nf.name.as_str());
        let mut m = String::new();
        if name_changed {
            push_str(&mut m, "enum '");
            push_str(&mut m, e);
            push_str(&mut m, "' variant '");
            push_str(&mut m, v);
            push_str(&mut m, "' field ");
            push_decimal(&mut m, i);
            push_str(&mut m, " name changed from '");
            push_str(&mut m, of.name.as_str());
            push_str(&mut m, "' to '");
            push_str(&mut m, nf.name.as_str());
            push_str(&mut m, "'");
        }
        push_when(diffs, name_changed, m);
        let type_changed = !str_eq(of.type_label.as_str(), nf.type_label.as_str());
        let mut t = String::new();
        if type_changed {
            push_str(&mut t, "enum '");
            push_str(&mut t, e);
            push_str(&mut t, "' variant '");
            push_str(&mut t, v);
            push_str(&mut t, "' field '");
            push_str(&mut t, of.name.as_str());
            push_str(&mut t, "' type changed from '");
            push_str(&mut t, of.type_label.as_str());
            push_str(&mut t, "' to '");
            push_str(&mut t, nf.type_label.as_str());
            push_str(&mut t, "'");
        }
        push_when(diffs, type_changed, t);
        assert(strs(diffs@) =~= d0 + variant_field_diffs(e@, v@, o@, n@, (i + 1) as nat));
        i = i + 1;
    }
}

fn compare_enum(o: &ExportedEnum, n: &ExportedEnum, diffs: &mut Vec<String>)
    ensures
        strs(final(diffs)@) == strs(old(diffs)@) + enum_diffs(*o, *n),
{
    let ghost en = o.name@;
    let name = o.name.as_str();
    let sealed_changed = o.is_sealed != n.is_sealed;
    let mut m1 = String::new();
    if sealed_changed {
        push_str(&mut m1, "enum '");
        push_str(&mut m1, name);
        push_str(&mut m1, "' sealed flag changed from ");
        push_str(&mut m1, bool_str(o.is_sealed));
        push_str(&mut m1, " to ");
        push_str(&mut m1, bool_str(n.is_sealed));
    }
    push_when(diffs, sealed_changed, m1);
    let count_changed = o.variants.len() != n.variants.len();
    let mut m2 = String::new();
    if count_changed {
        push_str(&mut m2, "enum '");
        push_str(&mut m2, name);
        push_str(&mut m2, "' variant count changed from ");
        push_decimal(&mut m2, o.variants.len());
        push_str(&mut m2, " to ");
        push_decimal(&mut m2, n.variants.len());
    }
    push_when(diffs, count_changed, m2);
    let ghost d2 = strs(diffs@);
    let k = if o.variants.len() <= n.variants.len() { o.variants.len() } else { n.variants.len() };
    let mut i: usize = 0;
    while i < k
        invariant
            i <= k,
            k as nat == min_len(o.variants@.len(), n.variants@.len()),
            en == o.name@,
            name@ == en,
            strs(diffs@) == d2 + variant_diffs(en, o.variants@, n.variants@, i as nat),
        decreases k - i,
    {
        let ov = &o.variants[i];
        let nv = &n.variants[i];
        let ghost before = strs(diffs@);
        let name_changed = !str_eq(ov.name.as_str(), nv.name.as_str());
        let mut m = String::new();
        if name_changed {
            push_str(&mut m, "enum '");
            push_str(&mut m, name);
            push_str(&mut m, "' variant ");
            push_decimal(&mut m, i);
            push_str(&mut m, " name changed from '");
            push_str(&mut m, ov.name.as_str());
            push_str(&mut m, "' to '");
            push_str(&mut m, nv.name.as_str());
            push_str(&mut m, "'");
        }
        push_when(diffs, name_changed, m);
        let fc_changed = ov.fields.len() != nv.fields.len();
        let mut c = String::new();
        if fc_changed {
            push_str(&mut c, "enum '");
            push_str(&mut c, name);
            push_str(&mut c, "' variant '");
            push_str(&mut c, ov.name.as_str());
            push_str(&mut c, "' field count changed from ");
            push_decimal(&mut c, ov.fields.len());
            push_str(&mut c, " to ");
            push_decimal(&mut c, nv.fields.len());
        }
        push_when(diffs, fc_changed, c);
        compare_variant_fields(name, ov.name.as_str(), &ov.fields, &nv.fields, diffs);
        assert(strs(diffs@) =~= d2 + variant_diffs(en, o.variants@, n.variants@, (i + 1) as nat));
        i = i + 1;
    }
    assert(strs(diffs@) =~= strs(old(diffs)@) + enum_diffs(*o, *n));
}

fn kind_name(item: &ExportedItem) -> (r: &'static str)
    ensures
        r@ == item_kind_name(*item),
{
    match item {
        ExportedItem::Function(_) => "function",
        ExportedItem::Struct(_) => "struct",
        ExportedItem::Enum(_) => "enum",
    }
}

fn name_of(item: &ExportedItem) -> (r: &str)
    ensures
        r@ == item_name(*item),
{
    match item {
        ExportedItem::Function(f) => f.name.as_str(),
        ExportedItem::Struct(s) => s.name.as_str(),
        ExportedItem::Enum(e) => e.name.as_str(),
    }
}

/// The key by which an item is matched across versions: its kind and name.
fn item_key(item: &ExportedItem) -> (r: (&'static str, &str))
    ensures
        r.0@ == item_kind_name(*item),
        r.1@ == item_name(*item),
{
    (kind_name(item), name_of(item))
}

/// Appends the differences between two versions of an item.
fn compare_item(old_item: &ExportedItem, new_item: &ExportedItem, diffs: &mut Vec<String>)
    ensures
        strs(final(diffs)@) == strs(old(diffs)@) + item_diffs(*old_item, *new_item),
{
    match (old_item, new_item) {
        (ExportedItem::Function(a), ExportedItem::Function(b)) => compare_function(a, b, diffs),
        (ExportedItem::Struct(a), ExportedItem::Struct(b)) => compare_struct(a, b, diffs),
        (ExportedItem::Enum(a), ExportedItem::Enum(b)) => compare_enum(a, b, diffs),
        _ => {
            let mut m = String::new();
            push_str(&mut m, kind_name(old_item));
            push_str(&mut m, " '");
            push_str(&mut m, name_of(old_item));
            push_str(&mut m, "' changed kind from ");
            push_str(&mut m, kind_name(old_item));
            push_str(&mut m, " to ");
            push_str(&mut m, kind_name(new_item));
            push_diff(diffs, m);
        },
    }
}

/// The first item of `items` with the same kind and name as `probe`.
fn find_matching_item<'a>(items: &'a [ExportedItem], probe: &ExportedItem) -> (r: Option<&'a ExportedItem>)
    ensures
        match find_match(items@, *probe, 0) {
            Some(m) => r == Some(&items@[m as int]),
            None => r is None,
        },
{
    let mut i: usize = 0;
    while i < items.len()
        invariant
            i <= items@.len(),
            find_match(items@, *probe, 0) == find_match(items@, *probe, i as nat),
        decreases items.len() - i,
    {
        let item = &items[i];
        let (item_kind, item_nm) = item_key(item);
        let (probe_kind, probe_nm) = item_key(probe);
        if str_eq(item_kind, probe_kind) && str_eq(item_nm, probe_nm) {
            return Some(item);
        }
        i = i + 1;
    }
    None
}

/// The differences from `old_document` to `new_document`: for each old item,
/// in order, the changes to the new item of the same kind and name, or a
/// message that it was removed.
pub fn compare_documents(old_document: &ExportDocument, new_document: &ExportDocument) -> (diffs: Vec<String>)
    ensures
        strs(diffs@) == document_diffs(old_document.items@, new_document.items@, old_document.items@.len()),
{
    let mut diffs: Vec<String> = Vec::new();
    let mut i: usize = 0;
    assert(strs(diffs@) =~= Seq::<Seq<char>>::empty());
    while i < old_document.items.len()
        invariant
            i <= old_document.items@.len(),
            strs(diffs@) == document_diffs(old_document.items@, new_document.items@, i as nat),
        decreases old_document.items.len() - i,
    {
        let old_item = &old_document.items[i];
        let ghost before = strs(diffs@);
        match find_matching_item(new_document.items.as_slice(), old_item) {
            Some(new_item) => compare_item(old_item, new_item, &mut diffs),
            None => {
                let mut m = String::new();
                push_str(&mut m, kind_name(old_item));
                push_str(&mut m, " '");
                push_str(&mut m, name_of(old_item));
                push_str(&mut m, "' was removed");
                push_diff(&mut diffs, m);
            },
        }
        assert(strs(diffs@) =~= document_diffs(old_document.items@, new_document.items@, (i + 1) as nat));
        i = i + 1;
    }
    diffs
}

} // verus!
