//! Control-flow facts: which declared return types return a value, which
//! statements return on every path, and which top-level statements run code.

use vstd::prelude::*;
use crate::ast::Stmt;
use crate::text::{trim, trim_ws, str_eq};

verus! {

/// Whether a declared return type means the function returns a value: any
/// type except `unit`, `void` and `()` (surrounding whitespace ignored).
pub open spec fn value_returning(ret_type: Option<Seq<char>>) -> bool {
    match ret_type {
        Some(name) => {
            let t = trim_ws(name);
            !(t == "unit"@ || t == "void"@ || t == "()"@)
        },
        None => false,
    }
}

pub fn returns_a_value(ret_type: &Option<String>) -> (b: bool)
    ensures
        b == value_returning(match ret_type {
            Some(s) => Some(s@),
            None => None,
        }),
{
    match ret_type {
        Some(name) => {
            let t = trim(name.as_str());
            !(str_eq(t.as_str(), "unit") || str_eq(t.as_str(), "void") || str_eq(t.as_str(), "()"))
        },
        None => false,
    }
}


/// Whether every path through a statement returns: a `return`; a block,
/// `unsafe` block or scoped `use` whose body returns; an `if` with an `else`
/// where both branches return; or a `loop` whose body returns (the body runs
/// at least once).
pub open spec fn stmt_returns(s: Stmt) -> bool
    decreases s,
{
    match s {
        Stmt::Return(_, _) => true,
        Stmt::Block(body, _) => block_returns(body@),
        Stmt::Unsafe { body, .. } => block_returns(body@),
        Stmt::UseScoped { body, .. } => block_returns(body@),
        Stmt::If { then_body, else_body, .. } => else_body@.len() > 0 && block_returns(then_body@)
            && block_returns(else_body@),
        Stmt::Loop { body, .. } => block_returns(body@),
        _ => false,
    }
}

/// Whether some statement of a block returns on every path.
pub open spec fn block_returns(ss: Seq<Stmt>) -> bool
    decreases ss,
{
    if ss.len() == 0 { false } else { block_returns(ss.drop_last()) || stmt_returns(ss.last()) }
}

pub fn stmt_definitely_returns(stmt: &Stmt) -> (b: bool)
    ensures
        b == stmt_returns(*stmt),
    decreases stmt,
{
    match stmt {
        Stmt::Return(_, _) => true,
        Stmt::Block(body, _) => block_definitely_returns(body, false),
        Stmt::Unsafe { body, .. } => block_definitely_returns(body, false),
        Stmt::UseScoped { body, .. } => block_definitely_returns(body, false),
        Stmt::If { then_body, else_body, .. } => {
            else_body.len() > 0 && block_definitely_returns(then_body, false)
                && block_definitely_returns(else_body, false)
        },
        Stmt::Loop { body, .. } => block_definitely_returns(body, false),
        _ => false,
    }
}

/// Whether some statement of `stmts` returns on every path. Tail expressions
/// do not count as returns yet, whatever `_allow_trailing_expr_return` says.
pub fn block_definitely_returns(stmts: &Vec<Stmt>, _allow_trailing_expr_return: bool) -> (b: bool)
    ensures
        b == block_returns(stmts@),
    decreases stmts,
{
    let mut i: usize = 0;
    assert(stmts@.take(0) =~= Seq::<Stmt>::empty());
    while i < stmts.len()
        invariant
            i <= stmts@.len(),
            !block_returns(stmts@.take(i as int)),
        decreases stmts.len() - i,
    {
        assert(stmts@.take(i + 1).drop_last() =~= stmts@.take(i as int));
        if stmt_definitely_returns(&stmts[i]) {
            proof {
                lemma_block_returns_prefix(stmts@, (i + 1) as nat);
            }
            return true;
        }
        i = i + 1;
    }
    assert(stmts@.take(i as int) =~= stmts@);
    false
}

proof fn lemma_block_returns_prefix(ss: Seq<Stmt>, k: nat)
    requires
        k <= ss.len(),
        block_returns(ss.take(k as int)),
    ensures
        block_returns(ss),
    decreases ss.len() - k,
{
    if k < ss.len() {
        assert(ss.take(k + 1 as int).drop_last() =~= ss.take(k as int));
        lemma_block_returns_prefix(ss, (k + 1) as nat);
    } else {
        assert(ss.take(k as int) =~= ss);
    }
}

/// Whether a top-level statement runs code (as a script would) rather than
/// declaring something.
pub open spec fn executable_top_level(s: Stmt) -> bool {
    match s {
        Stmt::Print(_, _) | Stmt::Let(_, _, _, _) | Stmt::LetLinear(_, _, _, _) | Stmt::ExprStmt(_, _)
        | Stmt::Block(_, _) | Stmt::If { .. } | Stmt::Loop { .. } | Stmt::For { .. } | Stmt::While { .. }
        | Stmt::Return(_, _) | Stmt::Break(_) | Stmt::Continue(_) | Stmt::Assign(_, _, _)
        | Stmt::ExprFieldAssign(_, _, _, _) | Stmt::WhileIn { .. } | Stmt::Unsafe { .. } | Stmt::Spawn { .. }
        | Stmt::Channel { .. } => true,
        _ => false,
    }
}

pub fn is_executable_top_level(stmt: &Stmt) -> (b: bool)
    ensures
        b == executable_top_level(*stmt),
{
    match stmt {
        Stmt::Print(_, _) | Stmt::Let(_, _, _, _) | Stmt::LetLinear(_, _, _, _) | Stmt::ExprStmt(_, _)
        | Stmt::Block(_, _) | Stmt::If { .. } | Stmt::Loop { .. } | Stmt::For { .. } | Stmt::While { .. }
        | Stmt::Return(_, _) | Stmt::Break(_) | Stmt::Continue(_) | Stmt::Assign(_, _, _)
        | Stmt::ExprFieldAssign(_, _, _, _) | Stmt::WhileIn { .. } | Stmt::Unsafe { .. } | Stmt::Spawn { .. }
        | Stmt::Channel { .. } => true,
        _ => false,
    }
}

} // verus!
