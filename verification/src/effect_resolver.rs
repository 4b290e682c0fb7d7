//! The effects each function declares, and which functions each function
//! calls.

use vstd::prelude::*;
use crate::ast::{Expr, InterpolatedFragment, MatchArm, Program, Stmt};
use crate::async_effects::{Effect, EffectSet, EffectView, effect_union};
use crate::strmap::StrMap;
use crate::text::{str_eq, string_seq_view};

verus! {

/// Effects by function name, and the call graph by caller name.
pub struct EffectResolver {
    pub function_effects: StrMap<EffectSet>,
    pub call_graph: StrMap<Vec<String>>,
}

impl EffectResolver {
    /// A resolver that knows no function.
    pub fn new() -> (r: Self)
        ensures
            r.function_effects@ == Map::<Seq<char>, EffectSet>::empty(),
            r.call_graph@ == Map::<Seq<char>, Vec<String>>::empty(),
    {
        EffectResolver { function_effects: StrMap::new(), call_graph: StrMap::new() }
    }
}

impl Default for EffectResolver {
    fn default() -> (r: Self)
        ensures
            r.function_effects@ == Map::<Seq<char>, EffectSet>::empty(),
            r.call_graph@ == Map::<Seq<char>, Vec<String>>::empty(),
    {
        EffectResolver::new()
    }
}

// ---------------------------------------------------------------------------
// Calls, in the abstract
// ---------------------------------------------------------------------------

/// The names of the functions called in `ss`, in order of appearance (a
/// statement's expressions, then nested statement lists); nested functions
/// count, other declarations do not.
pub open spec fn stmts_calls(ss: Seq<Stmt>) -> Seq<Seq<char>>
    decreases ss,
{
    if ss.len() == 0 { seq![] } else { stmts_calls(ss.drop_last()) + stmt_calls(ss.last()) }
}

pub open spec fn stmt_calls(s: Stmt) -> Seq<Seq<char>>
    decreases s,
{
    match s {
        Stmt::ExprStmt(e, _) => expr_calls(e),
        Stmt::Let(_, _, e, _) => expr_calls(e),
        Stmt::LetLinear(_, _, e, _) => expr_calls(e),
        Stmt::Print(e, _) => expr_calls(e),
        Stmt::Return(e, _) => expr_calls(e),
        Stmt::Assign(_, e, _) => expr_calls(e),
        Stmt::ExprFieldAssign(base, _, e, _) => expr_calls(*base) + expr_calls(e),
        Stmt::Block(inner, _) => stmts_calls(inner@),
        Stmt::Loop { body, .. } => stmts_calls(body@),
        Stmt::While { body, .. } => stmts_calls(body@),
        Stmt::For { body, .. } => stmts_calls(body@),
        Stmt::WhileIn { body, .. } => stmts_calls(body@),
        Stmt::Unsafe { body, .. } => stmts_calls(body@),
        Stmt::If { then_body, else_body, .. } => stmts_calls(then_body@) + stmts_calls(else_body@),
        Stmt::Fn { body, .. } => stmts_calls(body@),
        _ => seq![],
    }
}

/// The names of the functions called in `e`: a call's own name before those
/// in its arguments; a `match` contributes its scrutinee and arm bodies (not
/// guards); conditions of `while`/`for` and the like are not looked at.
pub open spec fn expr_calls(e: Expr) -> Seq<Seq<char>>
    decreases e,
{
    match e {
        Expr::Call(name, args, _) => seq![name@] + exprs_calls(args@),
        Expr::BinaryOp { left, right, .. } => expr_calls(*left) + expr_calls(*right),
        Expr::UnaryOp { inner, .. } => expr_calls(*inner),
        Expr::IfExpr { cond, then, else_, .. } => expr_calls(*cond) + expr_calls(*then) + expr_calls(*else_),
        Expr::Block(stmts, _) => stmts_calls(stmts@),
        Expr::Await(inner, _) => expr_calls(*inner),
        Expr::Try(inner, _) => expr_calls(*inner),
        Expr::FieldAccess { base, .. } => expr_calls(*base),
        Expr::Index(base, index, _) => expr_calls(*base) + expr_calls(*index),
        Expr::Tuple(items, _) => exprs_calls(items@),
        Expr::Match { expr, arms, .. } => expr_calls(*expr) + arms_calls(arms@),
        Expr::Range { start, end, .. } => expr_calls(*start) + expr_calls(*end),
        Expr::Lambda { body, .. } => expr_calls(*body),
        Expr::StructLit { fields, .. } => fields_calls(fields@),
        Expr::Interpolated(frags, _) => frags_calls(frags@),
        _ => seq![],
    }
}

pub open spec fn exprs_calls(es: Seq<Expr>) -> Seq<Seq<char>>
    decreases es,
{
    if es.len() == 0 { seq![] } else { exprs_calls(es.drop_last()) + expr_calls(es.last()) }
}

pub open spec fn arms_calls(arms: Seq<MatchArm>) -> Seq<Seq<char>>
    decreases arms,
{
    if arms.len() == 0 { seq![] } else { arms_calls(arms.drop_last()) + expr_calls(*arms.last().body) }
}

pub open spec fn fields_calls(fs: Seq<(String, Expr)>) -> Seq<Seq<char>>
    decreases fs,
{
    if fs.len() == 0 { seq![] } else { fields_calls(fs.drop_last()) + expr_calls(fs.last().1) }
}

pub open spec fn frags_calls(fs: Seq<InterpolatedFragment>) -> Seq<Seq<char>>
    decreases fs,
{
    if fs.len() == 0 {
        seq![]
    } else {
        frags_calls(fs.drop_last()) + match fs.last() {
            InterpolatedFragment::Expr(inner) => expr_calls(*inner),
            InterpolatedFragment::Literal(_, _) => seq![],
        }
    }
}

/// The effect a declared effect name stands for.
pub open spec fn effect_named(name: Seq<char>) -> EffectView {
    if name == "io"@ {
        EffectView::Io
    } else if name == "async"@ {
        EffectView::Async
    } else if name == "panic"@ {
        EffectView::Panic
    } else if name == "pure"@ {
        EffectView::Pure
    } else {
        EffectView::Custom(name)
    }
}

/// The set of the declared effects, each once, in order of declaration.
pub open spec fn declared_effects(names: Seq<Seq<char>>) -> Seq<EffectView> {
    effect_union(seq![], Seq::new(names.len(), |i: int| effect_named(names[i])))
}

/// The call graph after recording the calls of each top-level function of
/// `ss` in turn (a later function of the same name replaces an earlier one).
pub open spec fn graph_after(m: Map<Seq<char>, Seq<Seq<char>>>, ss: Seq<Stmt>) -> Map<Seq<char>, Seq<Seq<char>>>
    decreases ss.len(),
{
    if ss.len() == 0 {
        m
    } else {
        let prev = graph_after(m, ss.drop_last());
        match ss.last() {
            Stmt::Fn { name, body, .. } => prev.insert(name@, stmts_calls(body@)),
            _ => prev,
        }
    }
}

/// The declared effects after recording each top-level function of `ss` in
/// turn.
pub open spec fn effects_after(m: Map<Seq<char>, Seq<EffectView>>, ss: Seq<Stmt>) -> Map<Seq<char>, Seq<EffectView>>
    decreases ss.len(),
{
    if ss.len() == 0 {
        m
    } else {
        let prev = effects_after(m, ss.drop_last());
        match ss.last() {
            Stmt::Fn { name, effects, .. } => prev.insert(name@, declared_effects(string_seq_view(effects@))),
            _ => prev,
        }
    }
}

pub open spec fn graph_view(m: Map<Seq<char>, Vec<String>>) -> Map<Seq<char>, Seq<Seq<char>>> {
    m.map_values(|v: Vec<String>| string_seq_view(v@))
}

pub open spec fn effects_view(m: Map<Seq<char>, EffectSet>) -> Map<Seq<char>, Seq<EffectView>> {
    m.map_values(|s: EffectSet| s@)
}

fn push_name(called: &mut Vec<String>, name: &String)
    ensures
        string_seq_view(final(called)@) == string_seq_view(old(called)@).push(name@),
{
    let ghost before = called@;
    called.push(name.clone());
    assert(string_seq_view(called@) =~= string_seq_view(before).push(name@));
}

impl EffectResolver {
    /// Appends the names of the functions called in `stmts`.
    fn find_calls(&self, stmts: &Vec<Stmt>, called: &mut Vec<String>)
        ensures
            string_seq_view(final(called)@) == string_seq_view(old(called)@) + stmts_calls(stmts@),
        decreases stmts,
    {
        let ghost start = string_seq_view(called@);
        let mut i: usize = 0;
        assert(stmts@.take(0) =~= Seq::<Stmt>::empty());
        assert(string_seq_view(called@) =~= start + stmts_calls(stmts@.take(0)));
        while i < stmts.len()
            invariant
                i <= stmts@.len(),
                string_seq_view(called@) == start + stmts_calls(stmts@.take(i as int)),
            decreases stmts.len() - i,
        {
            assert(stmts@.take(i + 1).drop_last() =~= stmts@.take(i as int));
            let ghost before = string_seq_view(called@);
            match &stmts[i] {
                Stmt::ExprStmt(expr, _) | Stmt::Print(expr, _) | Stmt::Return(expr, _) => self.find_expr_calls(expr, called),
                Stmt::Let(_, _, expr, _) | Stmt::LetLinear(_, _, expr, _) => self.find_expr_calls(expr, called),
                Stmt::Assign(_, expr, _) => self.find_expr_calls(expr, called),
                Stmt::ExprFieldAssign(base, _, expr, _) => {
                    self.find_expr_calls(base, called);
                    self.find_expr_calls(expr, called);
                },
                Stmt::Block(inner, _) => self.find_calls(inner, called),
                Stmt::Loop { body, .. } | Stmt::While { body, .. } | Stmt::For { body, .. }
                | Stmt::WhileIn { body, .. } | Stmt::Unsafe { body, .. } => self.find_calls(body, called),
                Stmt::If { then_body, else_body, .. } => {
                    self.find_calls(then_body, called);
                    self.find_calls(else_body, called);
                },
                Stmt::Fn { body, .. } => self.find_calls(body, called),
                _ => {},
            }
            assert(string_seq_view(called@) =~= before + stmt_calls(stmts@[i as int]));
            assert(stmts@.take(i + 1).last() == stmts@[i as int]);
            assert(string_seq_view(called@) =~= start + stmts_calls(stmts@.take(i + 1)));
            i = i + 1;
        }
        assert(stmts@.take(i as int) =~= stmts@);
    }

    /// Appends the names of the functions called in `expr`.
    fn find_expr_calls(&self, expr: &Expr, called: &mut Vec<String>)
        ensures
            string_seq_view(final(called)@) == string_seq_view(old(called)@) + expr_calls(*expr),
        decreases expr,
    {
        let ghost start = string_seq_view(called@);
        match expr {
            Expr::Call(name, args, _) => {
                push_name(called, name);
                self.find_exprs_calls(args, called);
                assert(string_seq_view(called@) =~= start + expr_calls(*expr));
            },
            Expr::BinaryOp { left, right, .. } => {
                self.find_expr_calls(left, called);
                self.find_expr_calls(right, called);
                assert(string_seq_view(called@) =~= start + expr_calls(*expr));
            },
            Expr::UnaryOp { inner, .. } => self.find_expr_calls(inner, called),
            Expr::IfExpr { cond, then, else_, .. } => {
                self.find_expr_calls(cond, called);
                self.find_expr_calls(then, called);
                self.find_expr_calls(else_, called);
                assert(string_seq_view(called@) =~= start + expr_calls(*expr));
            },
            Expr::Block(stmts, _) => {
                let mut inner_called: Vec<String> = Vec::new();
                self.find_calls(stmts, &mut inner_called);
                let mut k: usize = 0;
                assert(string_seq_view(inner_called@) =~= stmts_calls(stmts@));
                while k < inner_called.len()
                    invariant
                        k <= inner_called@.len(),
                        string_seq_view(inner_called@) == stmts_calls(stmts@),
                        string_seq_view(called@) == start + string_seq_view(inner_called@).take(k as int),
                    decreases inner_called.len() - k,
                {
                    push_name(called, &inner_called[k]);
                    assert(string_seq_view(inner_called@).take(k + 1)
                        =~= string_seq_view(inner_called@).take(k as int).push(inner_called@[k as int]@));
                    k = k + 1;
                }
                assert(string_seq_view(inner_called@).take(k as int) =~= string_seq_view(inner_called@));
            },
            Expr::Await(inner, _) => self.find_expr_calls(inner, called),
            Expr::Try(inner, _) => self.find_expr_calls(inner, called),
            Expr::FieldAccess { base, .. } => self.find_expr_calls(base, called),
            Expr::Index(base, index, _) => {
                self.find_expr_calls(base, called);
                self.find_expr_calls(index, called);
                assert(string_seq_view(called@) =~= start + expr_calls(*expr));
            },
            Expr::Tuple(items, _) => self.find_exprs_calls(items, called),
            Expr::Match { expr: scrutinee, arms, .. } => {
                self.find_expr_calls(scrutinee, called);
                self.find_arms_calls(arms, called);
                assert(string_seq_view(called@) =~= start + expr_calls(*expr));
            },
            Expr::Range { start: lo, end: hi, .. } => {
                self.find_expr_calls(lo, called);
                self.find_expr_calls(hi, called);
                assert(string_seq_view(called@) =~= start + expr_calls(*expr));
            },
            Expr::Lambda { body, .. } => self.find_expr_calls(body, called),
            Expr::StructLit { fields, .. } => self.find_fields_calls(fields, called),
            Expr::Interpolated(frags, _) => self.find_frags_calls(frags, called),
            _ => {
                assert(string_seq_view(called@) =~= start + expr_calls(*expr));
            },
        }
    }

    fn find_exprs_calls(&self, es: &Vec<Expr>, called: &mut Vec<String>)
        ensures
            string_seq_view(final(called)@) == string_seq_view(old(called)@) + exprs_calls(es@),
        decreases es,
    {
        let ghost start = string_seq_view(called@);
        let mut i: usize = 0;
        assert(es@.take(0) =~= Seq::<Expr>::empty());
        assert(string_seq_view(called@) =~= start + exprs_calls(es@.take(0)));
        while i < es.len()
            invariant
                i <= es@.len(),
                string_seq_view(called@) == start + exprs_calls(es@.take(i as int)),
            decreases es.len() - i,
        {
            assert(es@.take(i + 1).drop_last() =~= es@.take(i as int));
            self.find_expr_calls(&es[i], called);
            assert(string_seq_view(called@) =~= start + exprs_calls(es@.take(i + 1)));
            i = i + 1;
        }
        assert(es@.take(i as int) =~= es@);
    }

    fn find_arms_calls(&self, arms: &Vec<MatchArm>, called: &mut Vec<String>)
        ensures
            string_seq_view(final(called)@) == string_seq_view(old(called)@) + arms_calls(arms@),
        decreases arms,
    {
        let ghost start = string_seq_view(called@);
        let mut i: usize = 0;
        assert(arms@.take(0) =~= Seq::<MatchArm>::empty());
        assert(string_seq_view(called@) =~= start + arms_calls(arms@.take(0)));
        while i < arms.len()
            invariant
                i <= arms@.len(),
                string_seq_view(called@) == start + arms_calls(arms@.take(i as int)),
            decreases arms.len() - i,
        {
            assert(arms@.take(i + 1).drop_last() =~= arms@.take(i as int));
            self.find_expr_calls(&arms[i].body, called);
            assert(string_seq_view(called@) =~= start + arms_calls(arms@.take(i + 1)));
            i = i + 1;
        }
        assert(arms@.take(i as int) =~= arms@);
    }

    fn find_fields_calls(&self, fs: &Vec<(String, Expr)>, called: &mut Vec<String>)
        ensures
            string_seq_view(final(called)@) == string_seq_view(old(called)@) + fields_calls(fs@),
        decreases fs,
    {
        let ghost start = string_seq_view(called@);
        let mut i: usize = 0;
        assert(fs@.take(0) =~= Seq::<(String, Expr)>::empty());
        assert(string_seq_view(called@) =~= start + fields_calls(fs@.take(0)));
        while i < fs.len()
            invariant
                i <= fs@.len(),
                string_seq_view(called@) == start + fields_calls(fs@.take(i as int)),
            decreases fs.len() - i,
        {
            assert(fs@.take(i + 1).drop_last() =~= fs@.take(i as int));
            self.find_expr_calls(&fs[i].1, called);
            assert(string_seq_view(called@) =~= start + fields_calls(fs@.take(i + 1)));
            i = i + 1;
        }
        assert(fs@.take(i as int) =~= fs@);
    }

    fn find_frags_calls(&self, fs: &Vec<InterpolatedFragment>, called: &mut Vec<String>)
        ensures
            string_seq_view(final(called)@) == string_seq_view(old(called)@) + frags_calls(fs@),
        decreases fs,
    {
        let ghost start = string_seq_view(called@);
        let mut i: usize = 0;
        assert(fs@.take(0) =~= Seq::<InterpolatedFragment>::empty());
        assert(string_seq_view(called@) =~= start + frags_calls(fs@.take(0)));
        while i < fs.len()
            invariant
                i <= fs@.len(),
                string_seq_view(called@) == start + frags_calls(fs@.take(i as int)),
            decreases fs.len() - i,
        {
            assert(fs@.take(i + 1).drop_last() =~= fs@.take(i as int));
            match &fs[i] {
                InterpolatedFragment::Expr(inner) => self.find_expr_calls(inner, called),
                InterpolatedFragment::Literal(_, _) => {},
            }
            assert(string_seq_view(called@) =~= start + frags_calls(fs@.take(i + 1)));
            i = i + 1;
        }
        assert(fs@.take(i as int) =~= fs@);
    }

    /// Records, for each top-level function, the functions its body calls.
    pub fn build_call_graph(&mut self, prog: &Program)
        ensures
            graph_view(final(self).call_graph@) == graph_after(graph_view(old(self).call_graph@), prog.stmts@),
            final(self).function_effects@ == old(self).function_effects@,
    {
        let ghost g0 = graph_view(self.call_graph@);
        let ghost ss = prog.stmts@;
        let mut i: usize = 0;
        assert(ss.take(0) =~= Seq::<Stmt>::empty());
        while i < prog.stmts.len()
            invariant
                i <= ss.len(),
                ss == prog.stmts@,
                g0 == graph_view(old(self).call_graph@),
                self.function_effects@ == old(self).function_effects@,
                graph_view(self.call_graph@) == graph_after(g0, ss.take(i as int)),
            decreases ss.len() - i,
        {
            assert(ss.take(i + 1).drop_last() =~= ss.take(i as int));
            match &prog.stmts[i] {
                Stmt::Fn { name, body, .. } => {
                    let mut called: Vec<String> = Vec::new();
                    assert(string_seq_view(called@) =~= Seq::<Seq<char>>::empty());
                    self.find_calls(body, &mut called);
                    let ghost before = self.call_graph@;
                    let ghost cv = string_seq_view(called@);
                    self.call_graph.insert(name.clone(), called);
                    assert(graph_view(self.call_graph@) =~= graph_view(before).insert(name@, cv));
                },
                _ => {},
            }
            i = i + 1;
        }
        assert(ss.take(i as int) =~= ss);
    }

    /// Records, for each top-level function, the effects it declares.
    pub fn collect_initial_effects(&mut self, prog: &Program)
        ensures
            effects_view(final(self).function_effects@)
                == effects_after(effects_view(old(self).function_effects@), prog.stmts@),
            final(self).call_graph@ == old(self).call_graph@,
    {
        let ghost e0 = effects_view(self.function_effects@);
        let ghost ss = prog.stmts@;
        let mut i: usize = 0;
        assert(ss.take(0) =~= Seq::<Stmt>::empty());
        while i < prog.stmts.len()
            invariant
                i <= ss.len(),
                ss == prog.stmts@,
                e0 == effects_view(old(self).function_effects@),
                self.call_graph@ == old(self).call_graph@,
                effects_view(self.function_effects@) == effects_after(e0, ss.take(i as int)),
            decreases ss.len() - i,
        {
            assert(ss.take(i + 1).drop_last() =~= ss.take(i as int));
            match &prog.stmts[i] {
                Stmt::Fn { name, effects, .. } => {
                    let ghost names = string_seq_view(effects@);
                    let ghost all = Seq::new(names.len(), |q: int| effect_named(names[q]));
                    let mut ef_set = EffectSet::new();
                    let mut k: usize = 0;
                    assert(all.take(0) =~= Seq::<EffectView>::empty());
                    while k < effects.len()
                        invariant
                            k <= effects@.len(),
                            names == string_seq_view(effects@),
                            all == Seq::new(names.len(), |q: int| effect_named(names[q])),
                            ef_set@ == effect_union(seq![], all.take(k as int)),
                        decreases effects.len() - k,
                    {
                        assert(all.take(k + 1).drop_last() =~= all.take(k as int));
                        let e = effects[k].as_str();
                        let effect = if str_eq(e, "io") {
                            Effect::Io
                        } else if str_eq(e, "async") {
                            Effect::Async
                        } else if str_eq(e, "panic") {
                            Effect::Panic
                        } else if str_eq(e, "pure") {
                            Effect::Pure
                        } else {
                            Effect::Custom(effects[k].clone())
                        };
                        assert(effect@ == all[k as int]);
                        ef_set.add(effect);
                        k = k + 1;
                    }
                    assert(all.take(k as int) =~= all);
                    let ghost before = self.function_effects@;
                    let ghost sv = ef_set@;
                    self.function_effects.insert(name.clone(), ef_set);
                    assert(effects_view(self.function_effects@) =~= effects_view(before).insert(name@, sv));
                },
                _ => {},
            }
            i = i + 1;
        }
        assert(ss.take(i as int) =~= ss);
    }
}

} // verus!
