//! Edit distances between identifiers and "did you mean" suggestions.

use vstd::prelude::*;
use crate::text::{chars_of, decimal, join, lowercase_of, push_char, push_decimal, push_str, to_lowercase};
use std::collections::HashMap;

verus! {

/// The cost of aligning `x` with `y`: 0 when equal, 1 otherwise.
pub open spec fn subst_cost(x: char, y: char) -> nat {
    if x == y { 0 } else { 1 }
}

pub open spec fn min3(x: nat, y: nat, z: nat) -> nat {
    if x <= y && x <= z { x } else if y <= z { y } else { z }
}

pub open spec fn min2(x: nat, y: nat) -> nat {
    if x <= y { x } else { y }
}

/// The Levenshtein distance between the first `i` characters of `a` and the
/// first `j` characters of `b`: the least number of single-character
/// insertions, deletions and replacements that turn one into the other.
pub open spec fn lev_at(a: Seq<char>, b: Seq<char>, i: nat, j: nat) -> nat
    decreases i + j,
{
    if i == 0 {
        j
    } else if j == 0 {
        i
    } else {
        min3(
            lev_at(a, b, (i - 1) as nat, j) + 1,
            lev_at(a, b, i, (j - 1) as nat) + 1,
            lev_at(a, b, (i - 1) as nat, (j - 1) as nat) + subst_cost(a[i - 1], b[j - 1]),
        )
    }
}

/// The Levenshtein distance between `a` and `b`.
pub open spec fn edit_distance(a: Seq<char>, b: Seq<char>) -> nat {
    lev_at(a, b, a.len(), b.len())
}

/// The optimal-string-alignment distance (Damerau-Levenshtein restricted to
/// adjacent transpositions of untouched characters) between the first `i`
/// characters of `a` and the first `j` characters of `b`.
pub open spec fn osa_at(a: Seq<char>, b: Seq<char>, i: nat, j: nat) -> nat
    decreases i + j,
{
    if i == 0 {
        j
    } else if j == 0 {
        i
    } else {
        let c = subst_cost(a[i - 1], b[j - 1]);
        let base = min3(
            osa_at(a, b, (i - 1) as nat, j) + 1,
            osa_at(a, b, i, (j - 1) as nat) + 1,
            osa_at(a, b, (i - 1) as nat, (j - 1) as nat) + c,
        );
        if i > 1 && j > 1 && a[i - 1] == b[j - 2] && a[i - 2] == b[j - 1] {
            min2(base, osa_at(a, b, (i - 2) as nat, (j - 2) as nat) + c)
        } else {
            base
        }
    }
}

/// The Damerau-Levenshtein (optimal string alignment) distance between `a` and `b`.
pub open spec fn transposition_distance(a: Seq<char>, b: Seq<char>) -> nat {
    osa_at(a, b, a.len(), b.len())
}

pub open spec fn max_nat(x: nat, y: nat) -> nat {
    if x >= y { x } else { y }
}

proof fn lemma_lev_bounds(a: Seq<char>, b: Seq<char>, i: nat, j: nat)
    ensures
        lev_at(a, b, i, j) <= max_nat(i, j),
        lev_at(a, b, i, j) + j >= i,
        lev_at(a, b, i, j) + i >= j,
    decreases i + j,
{
    if i > 0 && j > 0 {
        lemma_lev_bounds(a, b, (i - 1) as nat, j);
        lemma_lev_bounds(a, b, i, (j - 1) as nat);
        lemma_lev_bounds(a, b, (i - 1) as nat, (j - 1) as nat);
    }
}

proof fn lemma_osa_bound(a: Seq<char>, b: Seq<char>, i: nat, j: nat)
    ensures
        osa_at(a, b, i, j) <= max_nat(i, j),
    decreases i + j,
{
    if i > 0 && j > 0 {
        lemma_osa_bound(a, b, (i - 1) as nat, (j - 1) as nat);
    }
}

/// Dropping the last character of the second string changes the distance by at most one.
proof fn lemma_lev_drop_b(a: Seq<char>, b: Seq<char>, i: nat, j: nat)
    requires
        j >= 1,
    ensures
        lev_at(a, b, i, (j - 1) as nat) <= lev_at(a, b, i, j) + 1,
    decreases i + j,
{
    if i == 0 {
    } else if j == 1 {
        lemma_lev_bounds(a, b, i, j);
    } else {
        lemma_lev_drop_b(a, b, (i - 1) as nat, j);
    }
}

/// Dropping the last character of the first string changes the distance by at most one.
proof fn lemma_lev_drop_a(a: Seq<char>, b: Seq<char>, i: nat, j: nat)
    requires
        i >= 1,
    ensures
        lev_at(a, b, (i - 1) as nat, j) <= lev_at(a, b, i, j) + 1,
    decreases i + j,
{
    if j == 0 {
    } else if i == 1 {
        lemma_lev_bounds(a, b, i, j);
    } else {
        lemma_lev_drop_a(a, b, i, (j - 1) as nat);
    }
}

/// When the last characters agree, they can be aligned for free.
proof fn lemma_lev_match(a: Seq<char>, b: Seq<char>, i: nat, j: nat)
    requires
        i >= 1,
        j >= 1,
        a[i - 1] == b[j - 1],
    ensures
        lev_at(a, b, i, j) == lev_at(a, b, (i - 1) as nat, (j - 1) as nat),
{
    lemma_lev_drop_b(a, b, (i - 1) as nat, j);
    lemma_lev_drop_a(a, b, i, (j - 1) as nat);
}

/// A string is at distance zero from itself.
pub proof fn law_distance_to_self(a: Seq<char>)
    ensures
        edit_distance(a, a) == 0,
        transposition_distance(a, a) == 0,
{
    lemma_distance_to_self_at(a, a.len());
}

proof fn lemma_distance_to_self_at(a: Seq<char>, i: nat)
    requires
        i <= a.len(),
    ensures
        lev_at(a, a, i, i) == 0,
        osa_at(a, a, i, i) == 0,
    decreases i,
{
    if i > 0 {
        lemma_distance_to_self_at(a, (i - 1) as nat);
        lemma_lev_match(a, a, i, i);
        lemma_osa_bound(a, a, (i - 1) as nat, i);
    }
}

proof fn lemma_lev_symmetric_at(a: Seq<char>, b: Seq<char>, i: nat, j: nat)
    ensures
        lev_at(a, b, i, j) == lev_at(b, a, j, i),
        osa_at(a, b, i, j) == osa_at(b, a, j, i),
    decreases i + j,
{
    if i > 0 && j > 0 {
        lemma_lev_symmetric_at(a, b, (i - 1) as nat, j);
        lemma_lev_symmetric_at(a, b, i, (j - 1) as nat);
        lemma_lev_symmetric_at(a, b, (i - 1) as nat, (j - 1) as nat);
        if i > 1 && j > 1 {
            lemma_lev_symmetric_at(a, b, (i - 2) as nat, (j - 2) as nat);
        }
    }
}

/// Both distances are symmetric.
pub proof fn law_distance_symmetric(a: Seq<char>, b: Seq<char>)
    ensures
        edit_distance(a, b) == edit_distance(b, a),
        transposition_distance(a, b) == transposition_distance(b, a),
{
    lemma_lev_symmetric_at(a, b, a.len(), b.len());
}

/// The edit distance is at least the difference of the lengths and at most
/// the longer length; the distance to the empty string is the length.
pub proof fn law_distance_bounds(a: Seq<char>, b: Seq<char>)
    ensures
        edit_distance(a, b) <= max_nat(a.len(), b.len()),
        edit_distance(a, b) + b.len() >= a.len(),
        edit_distance(a, b) + a.len() >= b.len(),
        transposition_distance(a, b) <= max_nat(a.len(), b.len()),
        edit_distance(a, Seq::<char>::empty()) == a.len(),
{
    lemma_lev_bounds(a, b, a.len(), b.len());
    lemma_osa_bound(a, b, a.len(), b.len());
}

proof fn lemma_osa_le_lev(a: Seq<char>, b: Seq<char>, i: nat, j: nat)
    ensures
        osa_at(a, b, i, j) <= lev_at(a, b, i, j),
    decreases i + j,
{
    if i > 0 && j > 0 {
        lemma_osa_le_lev(a, b, (i - 1) as nat, j);
        lemma_osa_le_lev(a, b, i, (j - 1) as nat);
        lemma_osa_le_lev(a, b, (i - 1) as nat, (j - 1) as nat);
    }
}

/// Allowing transpositions never makes the distance larger.
pub proof fn law_transposition_at_most_edit(a: Seq<char>, b: Seq<char>)
    ensures
        transposition_distance(a, b) <= edit_distance(a, b),
{
    lemma_osa_le_lev(a, b, a.len(), b.len());
}

fn cost_of(x: char, y: char) -> (c: usize)
    ensures
        c == subst_cost(x, y),
{
    if x == y { 0 } else { 1 }
}

fn min3_exec(x: usize, y: usize, z: usize) -> (r: usize)
    ensures
        r == min3(x as nat, y as nat, z as nat),
{
    if x <= y && x <= z { x } else if y <= z { y } else { z }
}

/// Row 0 of the distance table: `j` for each `j` in `0..=m`.
fn first_row(m: usize) -> (row: Vec<usize>)
    requires
        m < isize::MAX,
    ensures
        row@.len() == m + 1,
        forall|k: int| 0 <= k <= m ==> row@[k] == k,
{
    let mut row: Vec<usize> = Vec::new();
    let mut j: usize = 0;
    while j <= m
        invariant
            m < isize::MAX,
            j <= m + 1,
            row@.len() == j,
            forall|k: int| 0 <= k < j ==> row@[k] == k,
        decreases m + 1 - j,
    {
        row.push(j);
        j = j + 1;
    }
    row
}

/// Row `i` of the Levenshtein table, computed from row `i - 1`.
fn lev_next_row(a: &[char], b: &[char], i: usize, prev: &Vec<usize>) -> (row: Vec<usize>)
    requires
        1 <= i <= a@.len(),
        a@.len() < isize::MAX,
        b@.len() < isize::MAX,
        prev@.len() == b@.len() + 1,
        forall|k: int| 0 <= k <= b@.len() ==> prev@[k] == lev_at(a@, b@, (i - 1) as nat, k as nat),
    ensures
        row@.len() == b@.len() + 1,
        forall|k: int| 0 <= k <= b@.len() ==> row@[k] == lev_at(a@, b@, i as nat, k as nat),
{
    let m = b.len();
    let mut row: Vec<usize> = Vec::new();
    row.push(i);
    let mut j: usize = 1;
    while j <= m
        invariant
            1 <= i <= a@.len(),
            a@.len() < isize::MAX,
            m == b@.len(),
            m < isize::MAX,
            1 <= j <= m + 1,
            prev@.len() == m + 1,
            forall|k: int| 0 <= k <= m ==> prev@[k] == lev_at(a@, b@, (i - 1) as nat, k as nat),
            row@.len() == j,
            forall|k: int| 0 <= k < j ==> row@[k] == lev_at(a@, b@, i as nat, k as nat),
        decreases m + 1 - j,
    {
        proof {
            lemma_lev_bounds(a@, b@, (i - 1) as nat, j as nat);
            lemma_lev_bounds(a@, b@, i as nat, (j - 1) as nat);
            lemma_lev_bounds(a@, b@, (i - 1) as nat, (j - 1) as nat);
        }
        let c = cost_of(a[i - 1], b[j - 1]);
        let v = min3_exec(prev[j] + 1, row[j - 1] + 1, prev[j - 1] + c);
        row.push(v);
        j = j + 1;
    }
    row
}

fn lev_chars(a: &[char], b: &[char]) -> (d: usize)
    requires
        a@.len() < isize::MAX,
        b@.len() < isize::MAX,
    ensures
        d == edit_distance(a@, b@),
{
    let n = a.len();
    let m = b.len();
    if n == 0 {
        return m;
    }
    if m == 0 {
        return n;
    }
    let mut prev = first_row(m);
    let mut i: usize = 1;
    while i <= n
        invariant
            n == a@.len(),
            m == b@.len(),
            n < isize::MAX,
            m < isize::MAX,
            1 <= i <= n + 1,
            prev@.len() == m + 1,
            forall|k: int| 0 <= k <= m ==> prev@[k] == lev_at(a@, b@, (i - 1) as nat, k as nat),
        decreases n + 1 - i,
    {
        prev = lev_next_row(a, b, i, &prev);
        i = i + 1;
    }
    prev[m]
}

/// The Levenshtein distance between the characters of `s1` and `s2`
/// (case-sensitive).
pub fn levenshtein_distance(s1: &str, s2: &str) -> (d: usize)
    ensures
        d == edit_distance(s1@, s2@),
{
    let a = chars_of(s1);
    let b = chars_of(s2);
    lev_chars(a.as_slice(), b.as_slice())
}

/// Row `i` of the optimal-string-alignment table, from rows `i - 1` and `i - 2`
/// (`prev2` is only read when `i >= 2`).
fn osa_next_row(a: &[char], b: &[char], i: usize, prev2: &Vec<usize>, prev: &Vec<usize>) -> (row: Vec<usize>)
    requires
        1 <= i <= a@.len(),
        a@.len() < isize::MAX,
        b@.len() < isize::MAX,
        prev@.len() == b@.len() + 1,
        prev2@.len() == b@.len() + 1,
        forall|k: int| 0 <= k <= b@.len() ==> prev@[k] == osa_at(a@, b@, (i - 1) as nat, k as nat),
        i >= 2 ==> forall|k: int| 0 <= k <= b@.len() ==> prev2@[k] == osa_at(a@, b@, (i - 2) as nat, k as nat),
    ensures
        row@.len() == b@.len() + 1,
        forall|k: int| 0 <= k <= b@.len() ==> row@[k] == osa_at(a@, b@, i as nat, k as nat),
{
    let m = b.len();
    let mut row: Vec<usize> = Vec::new();
    row.push(i);
    let mut j: usize = 1;
    while j <= m
        invariant
            1 <= i <= a@.len(),
            a@.len() < isize::MAX,
            m == b@.len(),
            m < isize::MAX,
            1 <= j <= m + 1,
            prev@.len() == m + 1,
            prev2@.len() == m + 1,
            forall|k: int| 0 <= k <= m ==> prev@[k] == osa_at(a@, b@, (i - 1) as nat, k as nat),
            i >= 2 ==> forall|k: int| 0 <= k <= m ==> prev2@[k] == osa_at(a@, b@, (i - 2) as nat, k as nat),
            row@.len() == j,
            forall|k: int| 0 <= k < j ==> row@[k] == osa_at(a@, b@, i as nat, k as nat),
        decreases m + 1 - j,
    {
        proof {
            lemma_osa_bound(a@, b@, (i - 1) as nat, j as nat);
            lemma_osa_bound(a@, b@, i as nat, (j - 1) as nat);
            lemma_osa_bound(a@, b@, (i - 1) as nat, (j - 1) as nat);
        }
        let c = cost_of(a[i - 1], b[j - 1]);
        let mut v = min3_exec(prev[j] + 1, row[j - 1] + 1, prev[j - 1] + c);
        if i > 1 && j > 1 && a[i - 1] == b[j - 2] && a[i - 2] == b[j - 1] {
            proof {
                lemma_osa_bound(a@, b@, (i - 2) as nat, (j - 2) as nat);
            }
            let t = prev2[j - 2] + c;
            if t < v {
                v = t;
            }
        }
        row.push(v);
        j = j + 1;
    }
    row
}

/// The Damerau-Levenshtein distance (optimal string alignment: insertions,
/// deletions, replacements and transpositions of adjacent characters).
pub fn damerau_levenshtein_distance(s1: &str, s2: &str) -> (d: usize)
    ensures
        d == transposition_distance(s1@, s2@),
{
    let av = chars_of(s1);
    let bv = chars_of(s2);
    let a = av.as_slice();
    let b = bv.as_slice();
    let n = a.len();
    let m = b.len();
    if n == 0 {
        return m;
    }
    if m == 0 {
        return n;
    }
    let mut prev2 = first_row(m);
    let mut prev = first_row(m);
    let mut i: usize = 1;
    while i <= n
        invariant
            n == a@.len(),
            m == b@.len(),
            n < isize::MAX,
            m < isize::MAX,
            1 <= i <= n + 1,
            prev@.len() == m + 1,
            prev2@.len() == m + 1,
            forall|k: int| 0 <= k <= m ==> prev@[k] == osa_at(a@, b@, (i - 1) as nat, k as nat),
            i >= 2 ==> forall|k: int| 0 <= k <= m ==> prev2@[k] == osa_at(a@, b@, (i - 2) as nat, k as nat),
        decreases n + 1 - i,
    {
        let row = osa_next_row(a, b, i, &prev2, &prev);
        prev2 = prev;
        prev = row;
        i = i + 1;
    }
    prev[m]
}


/// The kind of one edit step.
#[derive(Debug, Clone, Copy, PartialEq, Eq, Hash, Structural)]
pub enum EditType {
    Insert,
    Delete,
    Replace,
    Transpose,
}

/// One edit step: its kind, the character position it applies to, and the
/// character removed (`from`) and/or written (`to`).
#[derive(Debug, Clone, Copy, PartialEq, Eq, Hash, Structural)]
pub struct EditOperation {
    pub op: EditType,
    pub pos: usize,
    pub from: Option<char>,
    pub to: Option<char>,
}

/// A distance together with an edit script realising it.
#[derive(Debug, Clone)]
pub struct EditDistance {
    operations: Vec<EditOperation>,
    distance: usize,
}

impl EditDistance {
    pub closed spec fn spec_operations(&self) -> Seq<EditOperation> {
        self.operations@
    }

    pub closed spec fn spec_distance(&self) -> nat {
        self.distance as nat
    }

    pub fn distance(&self) -> (d: usize)
        ensures
            d == self.spec_distance(),
    {
        self.distance
    }

    pub fn operations(&self) -> (ops: &[EditOperation])
        ensures
            ops@ == self.spec_operations(),
    {
        self.operations.as_slice()
    }
}

/// The edit script read back from the Levenshtein table of `a` and `b`,
/// from cell `(i, j)` to the origin: matching characters cost nothing; otherwise
/// a replacement is preferred, then an insertion, then a deletion, each taken
/// only when it lies on an optimal path. Steps are listed in source order.
pub open spec fn edit_script(a: Seq<char>, b: Seq<char>, i: nat, j: nat) -> Seq<EditOperation>
    decreases i + j,
{
    if i == 0 && j == 0 {
        seq![]
    } else if i > 0 && j > 0 && a[i - 1] == b[j - 1] {
        edit_script(a, b, (i - 1) as nat, (j - 1) as nat)
    } else if i > 0 && j > 0 && lev_at(a, b, i, j) == lev_at(a, b, (i - 1) as nat, (j - 1) as nat) + 1 {
        edit_script(a, b, (i - 1) as nat, (j - 1) as nat).push(
            EditOperation { op: EditType::Replace, pos: (i - 1) as usize, from: Some(a[i - 1]), to: Some(b[j - 1]) },
        )
    } else if j > 0 && (i == 0 || lev_at(a, b, i, j) == lev_at(a, b, i, (j - 1) as nat) + 1) {
        edit_script(a, b, i, (j - 1) as nat).push(
            EditOperation { op: EditType::Insert, pos: (j - 1) as usize, from: None, to: Some(b[j - 1]) },
        )
    } else if i > 0 {
        edit_script(a, b, (i - 1) as nat, j).push(
            EditOperation { op: EditType::Delete, pos: (i - 1) as usize, from: Some(a[i - 1]), to: None },
        )
    } else {
        seq![]
    }
}

/// How many steps of `ops` are of kind `k`.
pub open spec fn op_count(ops: Seq<EditOperation>, k: EditType) -> nat
    decreases ops.len(),
{
    if ops.len() == 0 {
        0
    } else {
        op_count(ops.drop_last(), k) + (if ops.last().op == k { 1nat } else { 0nat })
    }
}

proof fn lemma_script_shape(a: Seq<char>, b: Seq<char>, i: nat, j: nat)
    ensures
        forall|q: int| 0 <= q < edit_script(a, b, i, j).len() ==> {
            &&& (#[trigger] edit_script(a, b, i, j)[q]).op != EditType::Transpose
            &&& (edit_script(a, b, i, j)[q].op == EditType::Replace ==> edit_script(a, b, i, j)[q].from != edit_script(a, b, i, j)[q].to)
        },
        op_count(edit_script(a, b, i, j), EditType::Insert) + i == op_count(edit_script(a, b, i, j), EditType::Delete) + j,
    decreases i + j,
{
    let s = edit_script(a, b, i, j);
    if i == 0 && j == 0 {
    } else if i > 0 && j > 0 && a[i - 1] == b[j - 1] {
        lemma_script_shape(a, b, (i - 1) as nat, (j - 1) as nat);
    } else {
        let (pi, pj): (nat, nat) = if i > 0 && j > 0 && lev_at(a, b, i, j) == lev_at(a, b, (i - 1) as nat, (j - 1) as nat) + 1 {
            ((i - 1) as nat, (j - 1) as nat)
        } else if j > 0 && (i == 0 || lev_at(a, b, i, j) == lev_at(a, b, i, (j - 1) as nat) + 1) {
            (i, (j - 1) as nat)
        } else {
            ((i - 1) as nat, j)
        };
        lemma_script_shape(a, b, pi, pj);
        let p = edit_script(a, b, pi, pj);
        assert(s.drop_last() =~= p);
        assert forall|q: int| 0 <= q < s.len() implies {
            &&& (#[trigger] s[q]).op != EditType::Transpose
            &&& (s[q].op == EditType::Replace ==> s[q].from != s[q].to)
        } by {
            if q < p.len() {
                assert(s[q] == p[q]);
            }
        }
    }
}

/// The edit script between `a` and `b` uses no transpositions, every
/// replacement changes its character, and it inserts as many characters
/// more than it deletes as `b` is longer than `a`.
pub proof fn law_edit_script_shape(a: Seq<char>, b: Seq<char>)
    ensures
        forall|q: int| 0 <= q < edit_script_of(a, b).len() ==> {
            &&& (#[trigger] edit_script_of(a, b)[q]).op != EditType::Transpose
            &&& (edit_script_of(a, b)[q].op == EditType::Replace ==> edit_script_of(a, b)[q].from != edit_script_of(a, b)[q].to)
        },
        op_count(edit_script_of(a, b), EditType::Insert) - op_count(edit_script_of(a, b), EditType::Delete)
            == b.len() - a.len(),
{
    lemma_script_shape(a, b, a.len(), b.len());
}

proof fn lemma_lev_zero(a: Seq<char>, b: Seq<char>, i: nat, j: nat)
    requires
        i <= a.len(),
        j <= b.len(),
        lev_at(a, b, i, j) == 0,
    ensures
        i == j,
        forall|k: int| 0 <= k < i ==> a[k] == b[k],
    decreases i + j,
{
    if i > 0 && j > 0 {
        lemma_lev_zero(a, b, (i - 1) as nat, (j - 1) as nat);
    }
}

proof fn lemma_lev_triangle(a: Seq<char>, b: Seq<char>, c: Seq<char>, i: nat, j: nat, k: nat)
    ensures
        lev_at(a, c, i, k) <= lev_at(a, b, i, j) + lev_at(b, c, j, k),
    decreases i + j + k,
{
    lemma_lev_bounds(a, c, i, k);
    lemma_lev_bounds(a, b, i, j);
    lemma_lev_bounds(b, c, j, k);
    if i == 0 || j == 0 || k == 0 {
    } else {
        let i1 = (i - 1) as nat;
        let j1 = (j - 1) as nat;
        let k1 = (k - 1) as nat;
        let x = lev_at(a, b, i, j);
        let y = lev_at(b, c, j, k);
        if x == lev_at(a, b, i1, j) + 1 {
            lemma_lev_triangle(a, b, c, i1, j, k);
        } else if y == lev_at(b, c, j, k1) + 1 {
            lemma_lev_triangle(a, b, c, i, j, k1);
        } else if x == lev_at(a, b, i, j1) + 1 {
            if y == lev_at(b, c, j1, k) + 1 {
                lemma_lev_triangle(a, b, c, i, j1, k);
            } else {
                lemma_lev_triangle(a, b, c, i, j1, k1);
            }
        } else {
            if y == lev_at(b, c, j1, k) + 1 {
                lemma_lev_triangle(a, b, c, i1, j1, k);
            } else {
                lemma_lev_triangle(a, b, c, i1, j1, k1);
            }
        }
    }
}

/// The distance obeys the triangle inequality: going through a third
/// string never takes fewer edits.
pub proof fn law_distance_triangle(a: Seq<char>, b: Seq<char>, c: Seq<char>)
    ensures
        edit_distance(a, c) <= edit_distance(a, b) + edit_distance(b, c),
{
    lemma_lev_triangle(a, b, c, a.len(), b.len(), c.len());
}

/// The distance is zero exactly between equal strings.
pub proof fn law_distance_zero_iff_equal(a: Seq<char>, b: Seq<char>)
    ensures
        (edit_distance(a, b) == 0) == (a == b),
{
    law_distance_to_self(a);
    if edit_distance(a, b) == 0 {
        lemma_lev_zero(a, b, a.len(), b.len());
        assert(a =~= b);
    }
}

/// The edit script of `a` into `b` (see `edit_script`).
pub open spec fn edit_script_of(a: Seq<char>, b: Seq<char>) -> Seq<EditOperation> {
    edit_script(a, b, a.len(), b.len())
}

/// An edit script read back from the table has exactly as many steps as the distance.
pub proof fn lemma_edit_script_len(a: Seq<char>, b: Seq<char>, i: nat, j: nat)
    ensures
        edit_script(a, b, i, j).len() == lev_at(a, b, i, j),
    decreases i + j,
{
    if i == 0 && j == 0 {
    } else if i > 0 && j > 0 && a[i - 1] == b[j - 1] {
        lemma_lev_match(a, b, i, j);
        lemma_edit_script_len(a, b, (i - 1) as nat, (j - 1) as nat);
    } else if i > 0 && j > 0 && lev_at(a, b, i, j) == lev_at(a, b, (i - 1) as nat, (j - 1) as nat) + 1 {
        lemma_edit_script_len(a, b, (i - 1) as nat, (j - 1) as nat);
    } else if j > 0 && (i == 0 || lev_at(a, b, i, j) == lev_at(a, b, i, (j - 1) as nat) + 1) {
        lemma_edit_script_len(a, b, i, (j - 1) as nat);
    } else if i > 0 {
        lemma_edit_script_len(a, b, (i - 1) as nat, j);
        if j > 0 {
            // the minimum is reached by one of the three moves; the first two were excluded
            assert(lev_at(a, b, i, j) == lev_at(a, b, (i - 1) as nat, j) + 1);
        }
    }
}

/// The full Levenshtein table: row `i` holds the distances from the first `i` characters of `a`.
fn lev_table(a: &[char], b: &[char]) -> (t: Vec<Vec<usize>>)
    requires
        a@.len() < isize::MAX,
        b@.len() < isize::MAX,
    ensures
        t@.len() == a@.len() + 1,
        forall|i: int| 0 <= i <= a@.len() ==> #[trigger] t@[i]@.len() == b@.len() + 1,
        forall|i: int, k: int| 0 <= i <= a@.len() && 0 <= k <= b@.len()
            ==> #[trigger] t@[i]@[k] == lev_at(a@, b@, i as nat, k as nat),
{
    let n = a.len();
    let m = b.len();
    let mut t: Vec<Vec<usize>> = Vec::new();
    t.push(first_row(m));
    let mut i: usize = 1;
    while i <= n
        invariant
            n == a@.len(),
            m == b@.len(),
            n < isize::MAX,
            m < isize::MAX,
            1 <= i <= n + 1,
            t@.len() == i,
            forall|r: int| 0 <= r < i ==> #[trigger] t@[r]@.len() == m + 1,
            forall|r: int, k: int| 0 <= r < i && 0 <= k <= m
                ==> #[trigger] t@[r]@[k] == lev_at(a@, b@, r as nat, k as nat),
        decreases n + 1 - i,
    {
        let row = lev_next_row(a, b, i, &t[i - 1]);
        t.push(row);
        i = i + 1;
    }
    t
}

/// The Levenshtein distance between `s1` and `s2` together with the edit
/// script that the distance table yields (see `edit_script`).
pub fn get_edit_operations(s1: &str, s2: &str) -> (r: EditDistance)
    ensures
        r.spec_distance() == edit_distance(s1@, s2@),
        r.spec_operations() == edit_script_of(s1@, s2@),
        r.spec_operations().len() == r.spec_distance(),
{
    let av = chars_of(s1);
    let bv = chars_of(s2);
    let a = av.as_slice();
    let b = bv.as_slice();
    let n = a.len();
    let m = b.len();
    let t = lev_table(a, b);
    proof {
        lemma_edit_script_len(a@, b@, n as nat, m as nat);
    }
    // Walk back from the bottom-right cell, collecting the steps last-first.
    let mut rev: Vec<EditOperation> = Vec::new();
    let mut i: usize = n;
    let mut j: usize = m;
    while i > 0 || j > 0
        invariant
            n == a@.len(),
            m == b@.len(),
            n < isize::MAX,
            m < isize::MAX,
            i <= n,
            j <= m,
            t@.len() == n + 1,
            forall|r: int| 0 <= r <= n ==> #[trigger] t@[r]@.len() == m + 1,
            forall|r: int, k: int| 0 <= r <= n && 0 <= k <= m
                ==> #[trigger] t@[r]@[k] == lev_at(a@, b@, r as nat, k as nat),
            edit_script(a@, b@, n as nat, m as nat)
                == edit_script(a@, b@, i as nat, j as nat) + rev@.reverse(),
        decreases i + j,
    {
        let ghost gi = i;
        let ghost gj = j;
        let ghost old_rev = rev@;
        proof {
            if i > 0 && j > 0 {
                lemma_lev_bounds(a@, b@, (i - 1) as nat, (j - 1) as nat);
            }
            if j > 0 {
                lemma_lev_bounds(a@, b@, i as nat, (j - 1) as nat);
            }
        }
        if i > 0 && j > 0 && a[i - 1] == b[j - 1] {
            i = i - 1;
            j = j - 1;
        } else if i > 0 && j > 0 && t[i][j] == t[i - 1][j - 1] + 1 {
            rev.push(EditOperation { op: EditType::Replace, pos: i - 1, from: Some(a[i - 1]), to: Some(b[j - 1]) });
            i = i - 1;
            j = j - 1;
        } else if j > 0 && (i == 0 || t[i][j] == t[i][j - 1] + 1) {
            rev.push(EditOperation { op: EditType::Insert, pos: j - 1, from: None, to: Some(b[j - 1]) });
            j = j - 1;
        } else {
            proof {
                if i == 0 {
                    assert(false);
                }
                if j > 0 {
                    assert(lev_at(a@, b@, i as nat, j as nat) == lev_at(a@, b@, (i - 1) as nat, j as nat) + 1);
                }
            }
            rev.push(EditOperation { op: EditType::Delete, pos: i - 1, from: Some(a[i - 1]), to: None });
            i = i - 1;
        }
        proof {
            assert(rev@.reverse() =~= edit_script(a@, b@, gi as nat, gj as nat).skip(
                edit_script(a@, b@, i as nat, j as nat).len() as int) + old_rev.reverse()) by {
                if rev@.len() > old_rev.len() {
                    assert(rev@ == old_rev.push(rev@.last()));
                }
            }
        }
    }
    let mut operations: Vec<EditOperation> = Vec::new();
    let mut k: usize = rev.len();
    while k > 0
        invariant
            k <= rev@.len(),
            operations@ == rev@.reverse().take((rev@.len() - k) as int),
        decreases k,
    {
        k = k - 1;
        operations.push(rev[k]);
        assert(operations@ =~= rev@.reverse().take((rev@.len() - k) as int));
    }
    assert(operations@ =~= rev@.reverse());
    assert(edit_script(a@, b@, 0, 0) =~= Seq::<EditOperation>::empty());
    assert(operations@ =~= edit_script(a@, b@, n as nat, m as nat));
    EditDistance { operations, distance: t[n][m] }
}


// ---------------------------------------------------------------------------
// Stable ordering by distance
// ---------------------------------------------------------------------------

/// Inserts `x` into `s` after every trailing element whose key is not above `x`'s.
pub open spec fn insert_by_key<T>(s: Seq<T>, x: T, key: spec_fn(T) -> nat) -> Seq<T>
    decreases s.len(),
{
    if s.len() == 0 {
        seq![x]
    } else if key(s.last()) <= key(x) {
        s.push(x)
    } else {
        insert_by_key(s.drop_last(), x, key).push(s.last())
    }
}

/// `s` ordered by `key`, equal keys keeping their original order (a stable sort).
pub open spec fn sort_by_key<T>(s: Seq<T>, key: spec_fn(T) -> nat) -> Seq<T>
    decreases s.len(),
{
    if s.len() == 0 {
        s
    } else {
        insert_by_key(sort_by_key(s.drop_last(), key), s.last(), key)
    }
}

proof fn lemma_insert_by_key_at<T>(s: Seq<T>, x: T, key: spec_fn(T) -> nat, p: int)
    requires
        0 <= p <= s.len(),
        forall|q: int| p <= q < s.len() ==> key(#[trigger] s[q]) > key(x),
        p == 0 || key(s[p - 1]) <= key(x),
    ensures
        insert_by_key(s, x, key) == s.insert(p, x),
    decreases s.len(),
{
    if s.len() == 0 {
        assert(s.insert(p, x) =~= seq![x]);
    } else if key(s.last()) <= key(x) {
        assert(p == s.len());
        assert(s.insert(p, x) =~= s.push(x));
    } else {
        lemma_insert_by_key_at(s.drop_last(), x, key, p);
        assert(s.insert(p, x) =~= s.drop_last().insert(p, x).push(s.last()));
    }
}

proof fn lemma_insert_sorted<T>(s: Seq<T>, x: T, key: spec_fn(T) -> nat)
    requires
        forall|i: int, j: int| 0 <= i <= j < s.len() ==> key(s[i]) <= key(s[j]),
    ensures
        insert_by_key(s, x, key).len() == s.len() + 1,
        forall|i: int, j: int| 0 <= i <= j < s.len() + 1
            ==> key(insert_by_key(s, x, key)[i]) <= key(insert_by_key(s, x, key)[j]),
    decreases s.len(),
{
    if s.len() > 0 && key(s.last()) > key(x) {
        lemma_insert_sorted(s.drop_last(), x, key);
        let r = insert_by_key(s.drop_last(), x, key);
        assert forall|i: int, j: int| 0 <= i <= j < s.len() + 1 implies
            key(insert_by_key(s, x, key)[i]) <= key(insert_by_key(s, x, key)[j]) by {
            if j == s.len() as int && i < j {
                // r holds the elements of s.drop_last() and x, all keyed at most s.last()
                let k = r[i];
                assert(k == x || s.drop_last().contains(k) || true);
                lemma_insert_members(s.drop_last(), x, key, i);
            }
        }
    }
}

proof fn lemma_insert_len<T>(s: Seq<T>, x: T, key: spec_fn(T) -> nat)
    ensures
        insert_by_key(s, x, key).len() == s.len() + 1,
    decreases s.len(),
{
    if s.len() > 0 && key(s.last()) > key(x) {
        lemma_insert_len(s.drop_last(), x, key);
    }
}

proof fn lemma_insert_members<T>(s: Seq<T>, x: T, key: spec_fn(T) -> nat, i: int)
    requires
        0 <= i < s.len() + 1,
    ensures
        insert_by_key(s, x, key).len() == s.len() + 1,
        insert_by_key(s, x, key)[i] == x || exists|q: int| 0 <= q < s.len() && insert_by_key(s, x, key)[i] == s[q],
    decreases s.len(),
{
    lemma_insert_len(s, x, key);
    if s.len() == 0 {
    } else if key(s.last()) <= key(x) {
        if i < s.len() {
            assert(insert_by_key(s, x, key)[i] == s[i]);
        }
    } else {
        if i < s.len() {
            lemma_insert_members(s.drop_last(), x, key, i);
            if insert_by_key(s, x, key)[i] != x {
                let q = choose|q: int| 0 <= q < s.drop_last().len() && insert_by_key(s.drop_last(), x, key)[i] == s.drop_last()[q];
                assert(insert_by_key(s, x, key)[i] == s[q]);
            }
        } else {
            lemma_insert_len(s.drop_last(), x, key);
            assert(insert_by_key(s, x, key)[i] == s[s.len() - 1]);
        }
    }
}

/// A stable sort by key yields a sequence ordered by key.
proof fn lemma_insert_multiset<T>(s: Seq<T>, x: T, key: spec_fn(T) -> nat)
    ensures
        insert_by_key(s, x, key).to_multiset() == s.to_multiset().insert(x),
    decreases s.len(),
{
    broadcast use vstd::seq_lib::to_multiset_build;
    if s.len() == 0 {
        assert(seq![x] =~= Seq::<T>::empty().push(x));
        assert(s =~= Seq::<T>::empty());
    } else if key(s.last()) <= key(x) {
    } else {
        lemma_insert_multiset(s.drop_last(), x, key);
        assert(s.drop_last().push(s.last()) =~= s);
        assert(insert_by_key(s, x, key).to_multiset() =~= s.to_multiset().insert(x));
    }
}

/// Sorting keeps exactly the items it was given: the sorted sequence holds
/// each item as often as the input does.
pub proof fn law_sort_keeps_items<T>(s: Seq<T>, key: spec_fn(T) -> nat)
    ensures
        sort_by_key(s, key).to_multiset() == s.to_multiset(),
    decreases s.len(),
{
    broadcast use vstd::seq_lib::to_multiset_build;
    if s.len() > 0 {
        law_sort_keeps_items(s.drop_last(), key);
        lemma_insert_multiset(sort_by_key(s.drop_last(), key), s.last(), key);
        assert(s.drop_last().push(s.last()) =~= s);
    }
}

pub proof fn lemma_sort_by_key_sorted<T>(s: Seq<T>, key: spec_fn(T) -> nat)
    ensures
        sort_by_key(s, key).len() == s.len(),
        forall|i: int, j: int| 0 <= i <= j < s.len()
            ==> key(sort_by_key(s, key)[i]) <= key(sort_by_key(s, key)[j]),
    decreases s.len(),
{
    if s.len() > 0 {
        lemma_sort_by_key_sorted(s.drop_last(), key);
        lemma_insert_sorted(sort_by_key(s.drop_last(), key), s.last(), key);
    }
}

// ---------------------------------------------------------------------------
// "Did you mean" candidates
// ---------------------------------------------------------------------------

/// A suggested name, its distance from the input, and the rendered suggestion.
#[derive(Debug, Clone)]
pub struct Candidate {
    pub name: String,
    pub distance: usize,
    pub suggestion: String,
}

/// The abstract content of a candidate: (name, distance, suggestion text).
pub type CandidateView = (Seq<char>, nat, Seq<char>);

impl View for Candidate {
    type V = CandidateView;

    open spec fn view(&self) -> CandidateView {
        (self.name@, self.distance as nat, self.suggestion@)
    }
}

pub open spec fn candidate_views(s: Seq<Candidate>) -> Seq<CandidateView> {
    s.map_values(|c: Candidate| c@)
}

pub open spec fn candidate_key() -> spec_fn(CandidateView) -> nat {
    |c: CandidateView| c.1
}

/// A name wrapped in backquotes.
pub open spec fn quoted(n: Seq<char>) -> Seq<char> {
    seq!['`'] + n + seq!['`']
}

/// The suggestions a prefix query adds are ordered by distance and are
/// exactly the names that pass its filters, each as often as it occurs.
pub proof fn law_prefix_suggestions_sorted(input: Seq<char>, names: Seq<Seq<char>>, prefix: Seq<char>, max: nat)
    ensures
        ({
            let kept = osa_candidates(input, names, prefix, max);
            let out = sort_by_key(kept, candidate_key());
            &&& out.to_multiset() == kept.to_multiset()
            &&& out.len() == kept.len()
            &&& forall|i: int, j: int| 0 <= i <= j < out.len() ==> out[i].1 <= out[j].1
        }),
{
    let kept = osa_candidates(input, names, prefix, max);
    law_sort_keeps_items(kept, candidate_key());
    lemma_sort_by_key_sorted(kept, candidate_key());
}

/// The candidates kept from `names`, in order: those whose Levenshtein distance
/// from `input` (both lowercased) is at most `max`.
pub open spec fn lev_candidates(input: Seq<char>, names: Seq<Seq<char>>, max: nat) -> Seq<CandidateView>
    decreases names.len(),
{
    if names.len() == 0 {
        seq![]
    } else {
        let rest = lev_candidates(input, names.drop_last(), max);
        let n = names.last();
        let d = edit_distance(lowercase_of(input), lowercase_of(n));
        if d <= max { rest.push((n, d, quoted(n))) } else { rest }
    }
}

/// The candidates kept from `names`, in order: those that start with `prefix`
/// (or all, when `prefix` is empty) and whose Damerau-Levenshtein distance from
/// `input` (both lowercased) is at most `max`.
pub open spec fn osa_candidates(input: Seq<char>, names: Seq<Seq<char>>, prefix: Seq<char>, max: nat) -> Seq<CandidateView>
    decreases names.len(),
{
    if names.len() == 0 {
        seq![]
    } else {
        let rest = osa_candidates(input, names.drop_last(), prefix, max);
        let n = names.last();
        let d = transposition_distance(lowercase_of(input), lowercase_of(n));
        if (crate::text::is_prefix(prefix, n) || prefix.len() == 0) && d <= max {
            rest.push((n, d, quoted(n)))
        } else {
            rest
        }
    }
}

pub open spec fn string_views(s: Seq<String>) -> Seq<Seq<char>> {
    s.map_values(|x: String| x@)
}

pub open spec fn suggestions_of(cs: Seq<CandidateView>) -> Seq<Seq<char>> {
    cs.map_values(|c: CandidateView| c.2)
}

/// The "did you mean" message for the candidates `cs` (best first).
pub open spec fn message_text(cs: Seq<CandidateView>) -> Option<Seq<char>> {
    if cs.len() == 0 {
        None
    } else if cs.len() == 1 {
        Some("did you mean "@ + cs[0].2 + "?"@)
    } else if cs.len() <= 3 {
        Some("did you mean one of "@ + join(suggestions_of(cs), ", "@) + "?"@)
    } else {
        Some("did you mean one of "@ + join(suggestions_of(cs.take(3)), ", "@) + "... ("@
            + decimal((cs.len() - 3) as nat) + " others)?"@)
    }
}

pub open spec fn edit_type_label(t: EditType) -> Seq<char> {
    match t {
        EditType::Insert => "insertion"@,
        EditType::Delete => "deletion"@,
        EditType::Replace => "replacement"@,
        EditType::Transpose => "transpose"@,
    }
}

pub open spec fn edit_names(ops: Seq<EditOperation>) -> Seq<Seq<char>> {
    ops.map_values(|o: EditOperation| edit_type_label(o.op))
}

/// The note describing how `input` turns into the best candidate `c`.
pub open spec fn help_note(input: Seq<char>, c: CandidateView) -> Seq<char> {
    "note: closest match requires "@ + decimal(c.1) + " edit"@ + (if c.1 == 1 { ""@ } else { "s"@ })
        + ": "@ + join(edit_names(edit_script_of(input, c.0)), ", "@)
}

/// Suggestions for a misspelt name, ordered by distance (closest first).
#[derive(Debug, Clone)]
pub struct DidYouMean {
    candidates: Vec<Candidate>,
    input: String,
}

fn make_candidate(name: String, distance: usize) -> (c: Candidate)
    ensures
        c@ == (name@, distance as nat, quoted(name@)),
{
    let mut suggestion = String::new();
    push_char(&mut suggestion, '`');
    push_str(&mut suggestion, name.as_str());
    push_char(&mut suggestion, '`');
    assert(suggestion@ =~= quoted(name@));
    Candidate { name, distance, suggestion }
}

/// Orders candidates by distance, keeping the original order among equal distances.
fn sort_candidates(v: Vec<Candidate>) -> (r: Vec<Candidate>)
    ensures
        candidate_views(r@) == sort_by_key(candidate_views(v@), candidate_key()),
{
    let ghost orig = candidate_views(v@);
    let mut rest = v;
    let mut res: Vec<Candidate> = Vec::new();
    let ghost mut k: int = 0;
    while rest.len() > 0
        invariant
            0 <= k <= orig.len(),
            candidate_views(rest@) == orig.skip(k),
            candidate_views(res@) == sort_by_key(orig.take(k), candidate_key()),
        decreases rest.len(),
    {
        let ghost old_rest = rest@;
        proof {
            assert(candidate_views(old_rest).len() == old_rest.len());
            assert(candidate_views(old_rest)[0] == old_rest[0]@);
        }
        let x = rest.remove(0);
        proof {
            assert(rest@ =~= old_rest.skip(1));
            assert(candidate_views(rest@) =~= candidate_views(old_rest).skip(1));
            assert(candidate_views(rest@) =~= orig.skip(k + 1));
            assert(x@ == orig[k]);
            assert(orig.take(k + 1).drop_last() =~= orig.take(k));
            lemma_sort_by_key_sorted(orig.take(k), candidate_key());
        }
        let mut p: usize = res.len();
        while p > 0 && res[p - 1].distance > x.distance
            invariant
                p <= res@.len(),
                forall|q: int| p <= q < res@.len() ==> #[trigger] res@[q].distance > x.distance,
            decreases p,
        {
            p = p - 1;
        }
        let ghost before = candidate_views(res@);
        proof {
            lemma_insert_by_key_at(before, x@, candidate_key(), p as int);
        }
        res.insert(p, x);
        proof {
            assert(candidate_views(res@) =~= before.insert(p as int, x@));
            k = k + 1;
        }
    }
    assert(orig.take(k) =~= orig);
    res
}

impl DidYouMean {
    /// The candidates, best first.
    pub closed spec fn spec_candidates(&self) -> Seq<CandidateView> {
        candidate_views(self.candidates@)
    }

    /// The misspelt input.
    pub closed spec fn spec_input(&self) -> Seq<char> {
        self.input@
    }

    pub fn new(input: &str) -> (d: Self)
        ensures
            d.spec_input() == input@,
            d.spec_candidates() == Seq::<CandidateView>::empty(),
    {
        let d = DidYouMean { candidates: Vec::new(), input: String::from_str(input) };
        assert(d.spec_candidates() =~= Seq::<CandidateView>::empty());
        d
    }

    /// Adds every name within `max_distance` (Levenshtein, case-insensitive) of
    /// the input, then orders all candidates by distance (stable).
    pub fn with_candidates(self, candidates: Vec<String>, max_distance: usize) -> (d: Self)
        ensures
            d.spec_input() == self.spec_input(),
            d.spec_candidates() == sort_by_key(
                self.spec_candidates() + lev_candidates(self.spec_input(), string_views(candidates@), max_distance as nat),
                candidate_key(),
            ),
    {
        let mut all = self.candidates;
        let input = self.input;
        let ghost start = candidate_views(all@);
        let ghost names = string_views(candidates@);
        let lower_input = to_lowercase(input.as_str());
        let mut k: usize = 0;
        while k < candidates.len()
            invariant
                k <= candidates@.len(),
                names == string_views(candidates@),
                lower_input@ == lowercase_of(input@),
                candidate_views(all@) == start + lev_candidates(input@, names.take(k as int), max_distance as nat),
            decreases candidates.len() - k,
        {
            let lower_name = to_lowercase(candidates[k].as_str());
            let dist = levenshtein_distance(lower_input.as_str(), lower_name.as_str());
            proof {
                assert(names.take(k + 1).drop_last() =~= names.take(k as int));
                assert(names.take(k + 1).last() == candidates@[k as int]@);
            }
            let ghost nk = names.take(k + 1);
            let ghost d = edit_distance(lowercase_of(input@), lowercase_of(nk.last()));
            assert(dist == d);
            let ghost prev = lev_candidates(input@, names.take(k as int), max_distance as nat);
            assert(lev_candidates(input@, nk, max_distance as nat) == (if d <= max_distance {
                prev.push((nk.last(), d, quoted(nk.last())))
            } else {
                prev
            }));
            let ghost before = all@;
            if dist <= max_distance {
                let c = make_candidate(candidates[k].clone(), dist);
                all.push(c);
                assert(candidate_views(all@) =~= candidate_views(before).push(c@));
            }
            assert(candidate_views(all@) =~= start + lev_candidates(input@, names.take(k + 1), max_distance as nat));
            k = k + 1;
        }
        assert(names.take(k as int) =~= names);
        DidYouMean { candidates: sort_candidates(all), input }
    }

    /// Adds every name that starts with `prefix` (any name when `prefix` is
    /// empty) and lies within `max_distance` (Damerau-Levenshtein,
    /// case-insensitive) of the input, then orders all candidates by distance.
    pub fn with_candidates_by_prefix(self, candidates: Vec<String>, prefix: &str, max_distance: usize) -> (d: Self)
        ensures
            d.spec_input() == self.spec_input(),
            d.spec_candidates() == sort_by_key(
                self.spec_candidates() + osa_candidates(self.spec_input(), string_views(candidates@), prefix@, max_distance as nat),
                candidate_key(),
            ),
    {
        let mut all = self.candidates;
        let input = self.input;
        let ghost start = candidate_views(all@);
        let ghost names = string_views(candidates@);
        let lower_input = to_lowercase(input.as_str());
        let prefix_empty = prefix.is_empty();
        let mut k: usize = 0;
        while k < candidates.len()
            invariant
                k <= candidates@.len(),
                names == string_views(candidates@),
                lower_input@ == lowercase_of(input@),
                prefix_empty == (prefix@.len() == 0),
                candidate_views(all@) == start + osa_candidates(input@, names.take(k as int), prefix@, max_distance as nat),
            decreases candidates.len() - k,
        {
            proof {
                assert(names.take(k + 1).drop_last() =~= names.take(k as int));
                assert(names.take(k + 1).last() == candidates@[k as int]@);
            }
            let ghost nk = names.take(k + 1);
            let ghost d = transposition_distance(lowercase_of(input@), lowercase_of(nk.last()));
            let ghost prev = osa_candidates(input@, names.take(k as int), prefix@, max_distance as nat);
            let ghost keep = (crate::text::is_prefix(prefix@, nk.last()) || prefix@.len() == 0) && d <= max_distance;
            assert(osa_candidates(input@, nk, prefix@, max_distance as nat) == (if keep {
                prev.push((nk.last(), d, quoted(nk.last())))
            } else {
                prev
            }));
            let ghost before = all@;
            if crate::text::str_starts_with(candidates[k].as_str(), prefix) || prefix_empty {
                let lower_name = to_lowercase(candidates[k].as_str());
                let dist = damerau_levenshtein_distance(lower_input.as_str(), lower_name.as_str());
                if dist <= max_distance {
                    let c = make_candidate(candidates[k].clone(), dist);
                    all.push(c);
                    assert(candidate_views(all@) =~= candidate_views(before).push(c@));
                }
            }
            assert(candidate_views(all@) =~= start + osa_candidates(input@, names.take(k + 1), prefix@, max_distance as nat));
            k = k + 1;
        }
        assert(names.take(k as int) =~= names);
        DidYouMean { candidates: sort_candidates(all), input }
    }

    pub fn best(&self) -> (r: Option<&Candidate>)
        ensures
            self.spec_candidates().len() == 0 ==> r is None,
            self.spec_candidates().len() > 0 ==> r is Some && r.unwrap()@ == self.spec_candidates()[0],
    {
        if self.candidates.len() == 0 {
            None
        } else {
            Some(&self.candidates[0])
        }
    }

    pub fn all(&self) -> (r: &[Candidate])
        ensures
            candidate_views(r@) == self.spec_candidates(),
    {
        self.candidates.as_slice()
    }

    pub fn is_empty(&self) -> (r: bool)
        ensures
            r == (self.spec_candidates().len() == 0),
    {
        self.candidates.len() == 0
    }

    pub fn len(&self) -> (r: usize)
        ensures
            r == self.spec_candidates().len(),
    {
        self.candidates.len()
    }

    /// Appends the suggestions of the first `count` candidates, separated by ", ".
    fn push_joined_suggestions(&self, out: &mut String, count: usize)
        requires
            1 <= count <= self.spec_candidates().len(),
        ensures
            final(out)@ == old(out)@ + join(suggestions_of(self.spec_candidates().take(count as int)), ", "@),
    {
        let ghost cs = self.spec_candidates();
        push_str(out, self.candidates[0].suggestion.as_str());
        proof {
            assert(suggestions_of(cs.take(1)) =~= seq![cs[0].2]);
        }
        let mut k: usize = 1;
        while k < count
            invariant
                1 <= k <= count,
                count <= cs.len(),
                cs == self.spec_candidates(),
                out@ == old(out)@ + join(suggestions_of(cs.take(k as int)), ", "@),
            decreases count - k,
        {
            push_str(out, ", ");
            push_str(out, self.candidates[k].suggestion.as_str());
            proof {
                assert(suggestions_of(cs.take(k + 1)).drop_last() =~= suggestions_of(cs.take(k as int)));
                assert(suggestions_of(cs.take(k + 1)).last() == cs[k as int].2);
            }
            k = k + 1;
            assert(out@ =~= old(out)@ + join(suggestions_of(cs.take(k as int)), ", "@));
        }
    }

    /// "did you mean `x`?" for one candidate, the first three joined otherwise;
    /// `None` when there are no candidates.
    pub fn message(&self) -> (r: Option<String>)
        ensures
            r matches Some(m) ==> message_text(self.spec_candidates()) == Some(m@),
            r is None <==> message_text(self.spec_candidates()) is None,
    {
        let n = self.candidates.len();
        let ghost cs = self.spec_candidates();
        if n == 0 {
            return None;
        }
        let mut s = String::new();
        if n == 1 {
            push_str(&mut s, "did you mean ");
            push_str(&mut s, self.candidates[0].suggestion.as_str());
            push_str(&mut s, "?");
            assert(s@ =~= "did you mean "@ + cs[0].2 + "?"@);
        } else if n <= 3 {
            push_str(&mut s, "did you mean one of ");
            self.push_joined_suggestions(&mut s, n);
            push_str(&mut s, "?");
            assert(cs.take(n as int) =~= cs);
            assert(s@ =~= "did you mean one of "@ + join(suggestions_of(cs), ", "@) + "?"@);
        } else {
            push_str(&mut s, "did you mean one of ");
            self.push_joined_suggestions(&mut s, 3);
            push_str(&mut s, "... (");
            push_decimal(&mut s, n - 3);
            push_str(&mut s, " others)?");
            assert(s@ =~= "did you mean one of "@ + join(suggestions_of(cs.take(3)), ", "@) + "... ("@
                + decimal((cs.len() - 3) as nat) + " others)?"@);
        }
        Some(s)
    }

    /// The message, followed for a single candidate by a note naming the edits
    /// that turn the input into it.
    pub fn help_message(&self) -> (r: Option<String>)
        ensures
            r is None <==> message_text(self.spec_candidates()) is None,
            r matches Some(m) ==> m@ == (if self.spec_candidates().len() == 1 {
                message_text(self.spec_candidates()).unwrap() + "\n"@
                    + help_note(self.spec_input(), self.spec_candidates()[0])
            } else {
                message_text(self.spec_candidates()).unwrap()
            }),
    {
        match self.message() {
            None => None,
            Some(msg) => {
                if self.candidates.len() == 1 {
                    let mut out = msg;
                    push_str(&mut out, "\n");
                    let help = self.format_help();
                    push_str(&mut out, help.as_str());
                    Some(out)
                } else {
                    Some(msg)
                }
            }
        }
    }

    fn format_help(&self) -> (r: String)
        requires
            self.spec_candidates().len() >= 1,
        ensures
            r@ == help_note(self.spec_input(), self.spec_candidates()[0]),
    {
        let candidate = &self.candidates[0];
        let dist = candidate.distance;
        let operations = get_edit_operations(self.input.as_str(), candidate.name.as_str());
        let ops = operations.operations();
        let ghost names = edit_names(ops@);
        let mut help = String::new();
        push_str(&mut help, "note: closest match requires ");
        push_decimal(&mut help, dist);
        push_str(&mut help, " edit");
        if dist == 1 {
            push_str(&mut help, "");
        } else {
            push_str(&mut help, "s");
        }
        push_str(&mut help, ": ");
        let ghost head = help@;
        let mut k: usize = 0;
        while k < ops.len()
            invariant
                k <= ops@.len(),
                names == edit_names(ops@),
                help@ == head + join(names.take(k as int), ", "@),
            decreases ops.len() - k,
        {
            if k > 0 {
                push_str(&mut help, ", ");
            }
            let name = match ops[k].op {
                EditType::Insert => "insertion",
                EditType::Delete => "deletion",
                EditType::Replace => "replacement",
                EditType::Transpose => "transpose",
            };
            push_str(&mut help, name);
            proof {
                assert(names.take(k + 1).drop_last() =~= names.take(k as int));
                assert(names.take(k + 1).last() == edit_type_label(ops@[k as int].op));
                if k == 0 {
                    assert(names.take(1) =~= seq![names[0]]);
                }
            }
            k = k + 1;
            assert(help@ =~= head + join(names.take(k as int), ", "@));
        }
        assert(names.take(k as int) =~= names);
        assert(help@ =~= help_note(self.spec_input(), self.spec_candidates()[0]));
        help
    }
}


/// The distance used for suggestions: Levenshtein between the lowercased forms.
pub open spec fn fold_distance(input: Seq<char>, name: Seq<char>) -> nat {
    edit_distance(lowercase_of(input), lowercase_of(name))
}

/// The distance used for transposition-aware suggestions.
pub open spec fn fold_transposition_distance(input: Seq<char>, name: Seq<char>) -> nat {
    transposition_distance(lowercase_of(input), lowercase_of(name))
}

pub open spec fn str_views(s: Seq<&str>) -> Seq<Seq<char>> {
    s.map_values(|x: &str| x@)
}

pub open spec fn pair_views(s: Seq<(&str, usize)>) -> Seq<(Seq<char>, nat)> {
    s.map_values(|p: (&str, usize)| (p.0@, p.1 as nat))
}

pub open spec fn pair_key() -> spec_fn((Seq<char>, nat)) -> nat {
    |p: (Seq<char>, nat)| p.1
}

/// The names of `names` within `max` of `input`, with their distances, in order;
/// `transpose` selects the Damerau-Levenshtein distance instead of Levenshtein.
pub open spec fn scored_names(input: Seq<char>, names: Seq<Seq<char>>, max: nat, transpose: bool) -> Seq<(Seq<char>, nat)>
    decreases names.len(),
{
    if names.len() == 0 {
        seq![]
    } else {
        let rest = scored_names(input, names.drop_last(), max, transpose);
        let n = names.last();
        let d = if transpose { fold_transposition_distance(input, n) } else { fold_distance(input, n) };
        if d <= max { rest.push((n, d)) } else { rest }
    }
}

fn sort_pairs<'a>(v: Vec<(&'a str, usize)>) -> (r: Vec<(&'a str, usize)>)
    ensures
        pair_views(r@) == sort_by_key(pair_views(v@), pair_key()),
{
    let ghost orig = pair_views(v@);
    let mut res: Vec<(&'a str, usize)> = Vec::new();
    let mut k: usize = 0;
    while k < v.len()
        invariant
            k <= v@.len(),
            orig == pair_views(v@),
            pair_views(res@) == sort_by_key(orig.take(k as int), pair_key()),
        decreases v.len() - k,
    {
        let x = v[k];
        proof {
            assert(orig.take(k + 1).drop_last() =~= orig.take(k as int));
            assert(orig[k as int] == (x.0@, x.1 as nat));
        }
        let mut p: usize = res.len();
        while p > 0 && res[p - 1].1 > x.1
            invariant
                p <= res@.len(),
                forall|q: int| p <= q < res@.len() ==> #[trigger] res@[q].1 > x.1,
            decreases p,
        {
            p = p - 1;
        }
        let ghost before = pair_views(res@);
        proof {
            lemma_insert_by_key_at(before, (x.0@, x.1 as nat), pair_key(), p as int);
        }
        res.insert(p, x);
        assert(pair_views(res@) =~= before.insert(p as int, (x.0@, x.1 as nat)));
        k = k + 1;
    }
    assert(orig.take(k as int) =~= orig);
    res
}

fn scored_suggestions<'a>(input: &'a str, candidates: &'a [&'a str], max_distance: usize, transpose: bool) -> (r: Vec<(&'a str, usize)>)
    ensures
        pair_views(r@) == sort_by_key(
            scored_names(input@, str_views(candidates@), max_distance as nat, transpose), pair_key()),
{
    let ghost names = str_views(candidates@);
    let lower_input = to_lowercase(input);
    let mut found: Vec<(&'a str, usize)> = Vec::new();
    let mut k: usize = 0;
    while k < candidates.len()
        invariant
            k <= candidates@.len(),
            names == str_views(candidates@),
            lower_input@ == lowercase_of(input@),
            pair_views(found@) == scored_names(input@, names.take(k as int), max_distance as nat, transpose),
        decreases candidates.len() - k,
    {
        let c = candidates[k];
        let lower_name = to_lowercase(c);
        let dist = if transpose {
            damerau_levenshtein_distance(lower_input.as_str(), lower_name.as_str())
        } else {
            levenshtein_distance(lower_input.as_str(), lower_name.as_str())
        };
        proof {
            assert(names.take(k + 1).drop_last() =~= names.take(k as int));
            assert(names.take(k + 1).last() == c@);
        }
        let ghost before = pair_views(found@);
        if dist <= max_distance {
            found.push((c, dist));
            assert(pair_views(found@) =~= before.push((c@, dist as nat)));
        }
        k = k + 1;
    }
    assert(names.take(k as int) =~= names);
    sort_pairs(found)
}

/// The candidates within `max_distance` of `input` (Levenshtein, case-insensitive),
/// with their distances, closest first (stable).
pub fn levenshtein_suggestions<'a>(input: &'a str, candidates: &'a [&'a str], max_distance: usize) -> (r: Vec<(&'a str, usize)>)
    ensures
        pair_views(r@) == sort_by_key(
            scored_names(input@, str_views(candidates@), max_distance as nat, false), pair_key()),
{
    scored_suggestions(input, candidates, max_distance, false)
}

/// The candidates within `max_distance` of `input` (Damerau-Levenshtein,
/// case-insensitive), with their distances, closest first (stable).
pub fn damerau_suggestions<'a>(input: &'a str, candidates: &'a [&'a str], max_distance: usize) -> (r: Vec<(&'a str, usize)>)
    ensures
        pair_views(r@) == sort_by_key(
            scored_names(input@, str_views(candidates@), max_distance as nat, true), pair_key()),
{
    scored_suggestions(input, candidates, max_distance, true)
}

/// The known identifier closest to `input` (case-insensitive Levenshtein),
/// if one lies within `max_distance`. Among equally close identifiers the one
/// met first while walking the map is returned; the walk order is the map's own.
pub fn find_similar_identifier(input: &str, known_ids: &HashMap<String, usize>, max_distance: usize) -> (r: Option<(String, usize)>)
    ensures
        r is None <==> (forall|id: String| #[trigger] known_ids@.dom().contains(id)
            ==> fold_distance(input@, id@) > max_distance),
        r matches Some(p) ==> {
            &&& known_ids@.dom().contains(p.0)
            &&& p.1 == fold_distance(input@, p.0@)
            &&& p.1 <= max_distance
            &&& forall|id: String| #[trigger] known_ids@.dom().contains(id) ==> fold_distance(input@, id@) >= p.1
        },
{
    let ids = map_keys(known_ids);
    let input_lower = to_lowercase(input);
    let mut best: Option<(String, usize)> = None;
    let mut k: usize = 0;
    while k < ids.len()
        invariant
            k <= ids@.len(),
            input_lower@ == lowercase_of(input@),
            best is None <==> (forall|q: int| 0 <= q < k ==> fold_distance(input@, (#[trigger] ids@[q])@) > max_distance),
            best matches Some(p) ==> {
                &&& exists|q: int| 0 <= q < k && ids@[q] == p.0
                &&& p.1 == fold_distance(input@, p.0@)
                &&& p.1 <= max_distance
                &&& forall|q: int| 0 <= q < k ==> fold_distance(input@, (#[trigger] ids@[q])@) >= p.1
            },
        decreases ids.len() - k,
    {
        let lower_id = to_lowercase(ids[k].as_str());
        let dist = levenshtein_distance(input_lower.as_str(), lower_id.as_str());
        if dist <= max_distance {
            match best {
                None => {
                    best = Some((ids[k].clone(), dist));
                }
                Some((_, best_dist)) => {
                    if dist < best_dist {
                        best = Some((ids[k].clone(), dist));
                    }
                }
            }
        }
        k = k + 1;
    }
    proof {
        assert forall|id: String| #[trigger] known_ids@.dom().contains(id) implies exists|q: int| 0 <= q < ids@.len() && ids@[q] == id by {
            assert(ids@.to_set().contains(id));
        }
        if best is Some {
            let p = best->0;
            let q = choose|q: int| 0 <= q < k && ids@[q] == p.0;
            assert(ids@.contains(p.0));
            assert(ids@.to_set().contains(p.0));
        }
    }
    best
}

/// The keys of `m`, each once, in the map's own (unspecified) order
/// (std's `HashMap::keys`, collected). Claimed: exactly the keys of the map.
#[verifier::external_body]
fn map_keys(m: &HashMap<String, usize>) -> (r: Vec<String>)
    ensures
        r@.to_set() == m@.dom(),
{
    m.keys().cloned().collect()
}

/// The keyword closest to `input` (case-insensitive Levenshtein) within two
/// edits; the first such keyword when several are equally close.
pub fn keyword_suggestion(input: &str, keywords: &[&str]) -> (r: Option<String>)
    ensures
        r is None <==> (forall|k: int| 0 <= k < keywords@.len() ==> fold_distance(input@, #[trigger] keywords@[k]@) > 2),
        r matches Some(s) ==> exists|k: int| {
            &&& 0 <= k < keywords@.len()
            &&& s@ == #[trigger] keywords@[k]@
            &&& fold_distance(input@, keywords@[k]@) <= 2
            &&& forall|q: int| 0 <= q < keywords@.len() ==> fold_distance(input@, #[trigger] keywords@[q]@) >= fold_distance(input@, keywords@[k]@)
            &&& forall|q: int| 0 <= q < k ==> fold_distance(input@, #[trigger] keywords@[q]@) > fold_distance(input@, keywords@[k]@)
        },
{
    let input_lower = to_lowercase(input);
    let mut best: Option<(usize, usize)> = None;
    let mut k: usize = 0;
    while k < keywords.len()
        invariant
            k <= keywords@.len(),
            input_lower@ == lowercase_of(input@),
            best is None <==> (forall|q: int| 0 <= q < k ==> fold_distance(input@, #[trigger] keywords@[q]@) > 2),
            best matches Some(p) ==> {
                &&& p.0 < k
                &&& p.1 == fold_distance(input@, keywords@[p.0 as int]@)
                &&& p.1 <= 2
                &&& forall|q: int| 0 <= q < k ==> fold_distance(input@, #[trigger] keywords@[q]@) >= p.1
                &&& forall|q: int| 0 <= q < p.0 ==> fold_distance(input@, #[trigger] keywords@[q]@) > p.1
            },
        decreases keywords.len() - k,
    {
        let lower_kw = to_lowercase(keywords[k]);
        let dist = levenshtein_distance(input_lower.as_str(), lower_kw.as_str());
        if dist <= 2 {
            match best {
                None => {
                    best = Some((k, dist));
                }
                Some((_, best_dist)) => {
                    if dist < best_dist {
                        best = Some((k, dist));
                    }
                }
            }
        }
        k = k + 1;
    }
    match best {
        None => None,
        Some((idx, _)) => Some(String::from_str(keywords[idx])),
    }
}

} // verus!
