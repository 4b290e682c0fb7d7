//! Macros: rule-based macro definitions and their expansion, value patterns
//! with exhaustiveness checks, and the expansion of macro definitions and
//! invocations in a token stream before parsing.

use vstd::prelude::*;
use crate::strmap::StrMap;
use crate::text::{push_str, trim, trim_ws};
use crate::complete_lexer::{Token, TokenKind, TokenView, token_views, lex_run, initial_state, LexOutcome, tokenize_complete};
use crate::diagnostics::{Diagnostic, Severity};
use crate::diagnostics::error_codes::codegen_unsupported_feature;

mod comptime;
pub use comptime::{ComptimeContext, ComptimeExpr, ComptimeStmt, ComptimeValue, TypeInfo};

verus! {

/// How often a repeated fragment may occur.
#[derive(Debug, Clone, Copy, PartialEq, Eq, Hash, Structural)]
pub enum RepetitionKind {
    ZeroOrMore,
    ZeroOrOne,
    OneOrMore,
}

/// A macro argument: a literal text, a bracketed group, or a repetition.
#[derive(Debug)]
pub enum MacroArg {
    Literal(String),
    TokenTree(Vec<MacroArg>),
    Repetition(Box<MacroArg>, RepetitionKind),
}

/// The abstract content of a macro argument.
pub enum ArgView {
    Literal(Seq<char>),
    TokenTree(Seq<ArgView>),
    Repetition(Box<ArgView>, RepetitionKind),
}

pub open spec fn arg_view(a: MacroArg) -> ArgView
    decreases a,
{
    match a {
        MacroArg::Literal(s) => ArgView::Literal(s@),
        MacroArg::TokenTree(v) => ArgView::TokenTree(args_view(v@)),
        MacroArg::Repetition(b, k) => ArgView::Repetition(Box::new(arg_view(*b)), k),
    }
}

pub open spec fn args_view(s: Seq<MacroArg>) -> Seq<ArgView>
    decreases s,
{
    if s.len() == 0 {
        seq![]
    } else {
        args_view(s.drop_last()).push(arg_view(s.last()))
    }
}

pub proof fn lemma_args_view(s: Seq<MacroArg>)
    ensures
        args_view(s).len() == s.len(),
        forall|i: int| 0 <= i < s.len() ==> #[trigger] args_view(s)[i] == arg_view(s[i]),
    decreases s.len(),
{
    if s.len() > 0 {
        lemma_args_view(s.drop_last());
    }
}

/// A deep copy of `a`.
pub fn copy_arg(a: &MacroArg) -> (r: MacroArg)
    ensures
        arg_view(r) == arg_view(*a),
    decreases a,
{
    match a {
        MacroArg::Literal(s) => MacroArg::Literal(s.clone()),
        MacroArg::TokenTree(v) => MacroArg::TokenTree(copy_args(v)),
        MacroArg::Repetition(b, k) => MacroArg::Repetition(Box::new(copy_arg(b)), *k),
    }
}

/// A deep copy of each argument of `v`.
pub fn copy_args(v: &Vec<MacroArg>) -> (r: Vec<MacroArg>)
    ensures
        args_view(r@) == args_view(v@),
    decreases v,
{
    let mut out: Vec<MacroArg> = Vec::new();
    let mut i: usize = 0;
    while i < v.len()
        invariant
            i <= v@.len(),
            out@.len() == i,
            forall|q: int| 0 <= q < i ==> arg_view(#[trigger] out@[q]) == arg_view(v@[q]),
        decreases v.len() - i,
    {
        let c = copy_arg(&v[i]);
        out.push(c);
        i = i + 1;
    }
    proof {
        lemma_args_view(out@);
        lemma_args_view(v@);
        assert(args_view(out@) =~= args_view(v@));
    }
    out
}

// ---------------------------------------------------------------------------
// Matching and expansion, in the abstract
// ---------------------------------------------------------------------------

/// `s` without its leading `$` characters.
pub open spec fn trim_dollars(s: Seq<char>) -> Seq<char>
    decreases s.len(),
{
    if s.len() > 0 && s[0] == '$' {
        trim_dollars(s.drop_first())
    } else {
        s
    }
}

/// Whether `s` names a macro variable (starts with `$`).
pub open spec fn is_var(s: Seq<char>) -> bool {
    s.len() > 0 && s[0] == '$'
}

/// Whether a bracketed pattern group `ts` matches the argument `a`: an empty
/// group matches an empty group, a one-literal group the same literal, and a
/// one-repetition group a group whose size the repetition allows.
pub open spec fn tree_matches(ts: Seq<ArgView>, a: ArgView) -> bool {
    if ts.len() == 0 {
        a matches ArgView::TokenTree(items) && items.len() == 0
    } else if ts.len() == 1 {
        match ts[0] {
            ArgView::Literal(lit) => a matches ArgView::Literal(t) && t == lit,
            ArgView::Repetition(_, kind) => a matches ArgView::TokenTree(items) && match kind {
                RepetitionKind::ZeroOrMore => true,
                RepetitionKind::ZeroOrOne => items.len() <= 1,
                RepetitionKind::OneOrMore => items.len() > 0,
            },
            _ => false,
        }
    } else {
        false
    }
}

/// What each macro variable was bound to, in order of binding.
pub type Bindings = Map<Seq<char>, Seq<ArgView>>;

pub open spec fn bound(b: Bindings, v: Seq<char>) -> Seq<ArgView> {
    if b.contains_key(v) { b[v] } else { seq![] }
}

/// Matches one pattern element against one argument, extending `b`.
/// An equal literal matches; otherwise a `$` literal binds the argument.
pub open spec fn bind_step(p: ArgView, a: ArgView, b: Bindings) -> Option<Bindings> {
    match p {
        ArgView::TokenTree(ts) => if tree_matches(ts, a) { Some(b) } else { None },
        ArgView::Literal(lit) => {
            if a matches ArgView::Literal(t) && t == lit {
                Some(b)
            } else if is_var(lit) {
                let v = trim_dollars(lit);
                Some(b.insert(v, bound(b, v).push(a)))
            } else {
                None
            }
        },
        ArgView::Repetition(_, _) => None,
    }
}

/// The bindings after matching the first `n` pattern elements.
pub open spec fn match_prefix(p: Seq<ArgView>, a: Seq<ArgView>, n: nat) -> Option<Bindings>
    decreases n,
{
    if n == 0 {
        Some(Map::empty())
    } else {
        match match_prefix(p, a, (n - 1) as nat) {
            Some(b) => bind_step(p[n - 1], a[n - 1], b),
            None => None,
        }
    }
}

/// Once matching fails it stays failed.
pub proof fn lemma_match_prefix_none(p: Seq<ArgView>, a: Seq<ArgView>, k: nat, n: nat)
    requires
        k <= n,
        match_prefix(p, a, k) is None,
    ensures
        match_prefix(p, a, n) is None,
    decreases n,
{
    if n > k {
        lemma_match_prefix_none(p, a, k, (n - 1) as nat);
    }
}

/// Matches a rule's pattern against the arguments, element by element.
pub open spec fn match_args(p: Seq<ArgView>, a: Seq<ArgView>) -> Option<Bindings> {
    if p.len() != a.len() {
        None
    } else {
        match_prefix(p, a, p.len())
    }
}

/// Instantiates a template: a `$` literal becomes what its variable was bound
/// to (nothing when unbound), other literals stay, groups are instantiated
/// inside (and dropped when they come out empty), repetitions are dropped.
pub open spec fn apply_items(t: Seq<ArgView>, b: Bindings) -> Seq<ArgView>
    decreases t,
{
    if t.len() == 0 {
        seq![]
    } else {
        apply_items(t.drop_last(), b) + apply_item(t.last(), b)
    }
}

pub open spec fn apply_item(x: ArgView, b: Bindings) -> Seq<ArgView>
    decreases x,
{
    match x {
        ArgView::Literal(s) => if is_var(s) { bound(b, trim_dollars(s)) } else { seq![x] },
        ArgView::TokenTree(ts) => {
            let e = apply_items(ts, b);
            if e.len() > 0 { seq![ArgView::TokenTree(e)] } else { seq![] }
        },
        ArgView::Repetition(_, _) => seq![],
    }
}

/// The expansion by the first rule (from `i` on) whose pattern matches.
pub open spec fn first_rule(rules: Seq<(Seq<ArgView>, Seq<ArgView>)>, args: Seq<ArgView>, i: nat) -> Option<Seq<ArgView>>
    decreases rules.len() - i,
{
    if i >= rules.len() {
        None
    } else {
        match match_args(rules[i as int].0, args) {
            Some(b) => Some(apply_items(rules[i as int].1, b)),
            None => first_rule(rules, args, i + 1),
        }
    }
}

// ---------------------------------------------------------------------------
// Macro definitions
// ---------------------------------------------------------------------------

/// One rule: a pattern and the template it expands to.
#[derive(Debug)]
pub struct MacroRule {
    pattern: Vec<MacroArg>,
    template: Vec<MacroArg>,
}

impl MacroRule {
    pub closed spec fn view_pair(&self) -> (Seq<ArgView>, Seq<ArgView>) {
        (args_view(self.pattern@), args_view(self.template@))
    }
}

pub open spec fn rules_view(s: Seq<MacroRule>) -> Seq<(Seq<ArgView>, Seq<ArgView>)> {
    Seq::new(s.len(), |i: int| s[i].view_pair())
}

/// A macro: its name and its rules, tried in order.
#[derive(Debug)]
pub struct MacroDefinition {
    pub name: String,
    pub rules: Vec<MacroRule>,
    pub is_macro_rules: bool,
}

/// The exec bindings seen abstractly.
pub open spec fn binds_view(m: Map<Seq<char>, Vec<MacroArg>>) -> Bindings {
    Map::new(|k: Seq<char>| m.contains_key(k), |k: Seq<char>| args_view(m[k]@))
}

/// The characters of `s` after its leading `$`s.
fn trim_dollars_exec(s: &str) -> (r: String)
    ensures
        r@ == trim_dollars(s@),
{
    let cs = crate::text::chars_of(s);
    let mut i: usize = 0;
    assert(cs@.subrange(0, cs@.len() as int) =~= cs@);
    while i < cs.len() && cs[i] == '$'
        invariant
            i <= cs@.len(),
            cs@ == s@,
            trim_dollars(s@) == trim_dollars(cs@.subrange(i as int, cs@.len() as int)),
        decreases cs.len() - i,
    {
        assert(cs@.subrange(i as int, cs@.len() as int).drop_first() =~= cs@.subrange(i + 1, cs@.len() as int));
        i = i + 1;
    }
    crate::text::string_from_range(cs.as_slice(), i, cs.len())
}

fn starts_with_dollar(s: &str) -> (b: bool)
    ensures
        b == is_var(s@),
{
    let cs = crate::text::chars_of(s);
    cs.len() > 0 && cs[0] == '$'
}

fn group_len(a: &MacroArg) -> (r: Option<usize>)
    ensures
        r matches Some(n) ==> arg_view(*a) matches ArgView::TokenTree(items) && items.len() == n,
        r is None ==> !(arg_view(*a) is TokenTree),
{
    match a {
        MacroArg::TokenTree(v) => {
            proof {
                lemma_args_view(v@);
            }
            Some(v.len())
        },
        _ => None,
    }
}

impl MacroDefinition {
    pub closed spec fn spec_rules(&self) -> Seq<(Seq<ArgView>, Seq<ArgView>)> {
        rules_view(self.rules@)
    }

    pub fn new(name: &str) -> (d: Self)
        ensures
            d.name@ == name@,
            d.rules@.len() == 0,
            !d.is_macro_rules,
    {
        MacroDefinition { name: String::from_str(name), rules: Vec::new(), is_macro_rules: false }
    }

    /// Appends a rule after the existing ones.
    pub fn add_rule(&mut self, pattern: Vec<MacroArg>, template: Vec<MacroArg>)
        ensures
            final(self).name == old(self).name,
            final(self).is_macro_rules == old(self).is_macro_rules,
            final(self).spec_rules() == old(self).spec_rules().push((args_view(pattern@), args_view(template@))),
    {
        let ghost before = self.rules@;
        self.rules.push(MacroRule { pattern, template });
        assert(rules_view(self.rules@) =~= rules_view(before).push((args_view(pattern@), args_view(template@))));
    }

    /// Whether the group pattern `pattern` matches `arg`.
    fn match_token_tree(&self, pattern: &Vec<MacroArg>, arg: &MacroArg) -> (b: bool)
        ensures
            b == tree_matches(args_view(pattern@), arg_view(*arg)),
    {
        proof {
            lemma_args_view(pattern@);
        }
        if pattern.len() == 0 {
            match group_len(arg) {
                Some(n) => n == 0,
                None => false,
            }
        } else if pattern.len() == 1 {
            match &pattern[0] {
                MacroArg::Literal(lit) => match arg {
                    MacroArg::Literal(a) => crate::text::str_eq(lit.as_str(), a.as_str()),
                    _ => false,
                },
                MacroArg::Repetition(_, kind) => match group_len(arg) {
                    Some(n) => match kind {
                        RepetitionKind::ZeroOrMore => true,
                        RepetitionKind::ZeroOrOne => n <= 1,
                        RepetitionKind::OneOrMore => n > 0,
                    },
                    None => false,
                },
                _ => false,
            }
        } else {
            false
        }
    }

    /// Matches `args` against `pattern`; the bindings when it matches.
    fn match_pattern(&self, pattern: &Vec<MacroArg>, args: &[MacroArg]) -> (r: Option<StrMap<Vec<MacroArg>>>)
        ensures
            r matches Some(m) ==> match_args(args_view(pattern@), args_view(args@)) == Some(binds_view(m@)),
            r is None ==> match_args(args_view(pattern@), args_view(args@)) is None,
    {
        let ghost pv = args_view(pattern@);
        let ghost av = args_view(args@);
        proof {
            lemma_args_view(pattern@);
            lemma_args_view(args@);
        }
        if pattern.len() != args.len() {
            return None;
        }
        let mut bindings: StrMap<Vec<MacroArg>> = StrMap::new();
        assert(binds_view(bindings@) =~= Map::<Seq<char>, Seq<ArgView>>::empty());
        let mut i: usize = 0;
        while i < pattern.len()
            invariant
                i <= pattern@.len(),
                pattern@.len() == args@.len(),
                pv == args_view(pattern@),
                av == args_view(args@),
                pv.len() == pattern@.len(),
                av.len() == args@.len(),
                forall|q: int| 0 <= q < pattern@.len() ==> #[trigger] pv[q] == arg_view(pattern@[q]),
                forall|q: int| 0 <= q < args@.len() ==> #[trigger] av[q] == arg_view(args@[q]),
                match_prefix(pv, av, i as nat) == Some(binds_view(bindings@)),
            decreases pattern.len() - i,
        {
            let p = &pattern[i];
            let a = &args[i];
            let ghost b0 = binds_view(bindings@);
            assert(pv[i as int] == arg_view(*p));
            assert(av[i as int] == arg_view(*a));
            match p {
                MacroArg::TokenTree(tokens) => {
                    if !self.match_token_tree(tokens, a) {
                        proof {
                            lemma_match_prefix_none(pv, av, (i + 1) as nat, pv.len());
                        }
                        return None;
                    }
                },
                MacroArg::Literal(lit) => {
                    let equal = match a {
                        MacroArg::Literal(al) => crate::text::str_eq(lit.as_str(), al.as_str()),
                        _ => false,
                    };
                    if !equal {
                        if starts_with_dollar(lit.as_str()) {
                            let var = trim_dollars_exec(lit.as_str());
                            let mut vals: Vec<MacroArg> = match bindings.get(var.as_str()) {
                                Some(v) => copy_args(v),
                                None => Vec::new(),
                            };
                            let ghost old_vals = vals@;
                            vals.push(copy_arg(a));
                            proof {
                                assert(vals@.drop_last() =~= old_vals);
                                assert(args_view(vals@) == args_view(old_vals).push(arg_view(*a)));
                                assert(args_view(old_vals) == bound(b0, var@)) by {
                                    if !b0.contains_key(var@) {
                                        assert(old_vals =~= Seq::<MacroArg>::empty());
                                    }
                                }
                            }
                            bindings.insert(var, vals);
                            proof {
                                assert(binds_view(bindings@) =~= b0.insert(var@, bound(b0, var@).push(av[i as int])));
                            }
                        } else {
                            proof {
                                lemma_match_prefix_none(pv, av, (i + 1) as nat, pv.len());
                            }
                            return None;
                        }
                    }
                },
                MacroArg::Repetition(_, _) => {
                    proof {
                        lemma_match_prefix_none(pv, av, (i + 1) as nat, pv.len());
                    }
                    return None;
                },
            }
            i = i + 1;
        }
        Some(bindings)
    }
}

/// Instantiates the template `t` with `bindings`, appending to `out`.
fn apply_template(t: &Vec<MacroArg>, bindings: &StrMap<Vec<MacroArg>>, out: &mut Vec<MacroArg>)
    ensures
        args_view(final(out)@) == args_view(old(out)@) + apply_items(args_view(t@), binds_view(bindings@)),
    decreases t,
{
    let ghost tv = args_view(t@);
    let ghost b = binds_view(bindings@);
    let ghost start = args_view(out@);
    proof {
        lemma_args_view(t@);
        assert(tv.take(0) =~= Seq::<ArgView>::empty());
        assert(start + apply_items(tv.take(0), b) =~= start);
    }
    let mut i: usize = 0;
    while i < t.len()
        invariant
            i <= t@.len(),
            tv == args_view(t@),
            tv.len() == t@.len(),
            forall|q: int| 0 <= q < t@.len() ==> #[trigger] tv[q] == arg_view(t@[q]),
            b == binds_view(bindings@),
            args_view(out@) == start + apply_items(tv.take(i as int), b),
        decreases t.len() - i,
    {
        apply_template_item(&t[i], bindings, out);
        proof {
            assert(tv.take(i + 1).drop_last() =~= tv.take(i as int));
            assert(tv.take(i + 1).last() == arg_view(t@[i as int]));
            assert(start + apply_items(tv.take(i + 1), b) =~= (start + apply_items(tv.take(i as int), b)) + apply_item(arg_view(t@[i as int]), b));
        }
        i = i + 1;
    }
    assert(tv.take(t@.len() as int) =~= tv);
}

fn apply_template_item(x: &MacroArg, bindings: &StrMap<Vec<MacroArg>>, out: &mut Vec<MacroArg>)
    ensures
        args_view(final(out)@) == args_view(old(out)@) + apply_item(arg_view(*x), binds_view(bindings@)),
    decreases x,
{
    let ghost b = binds_view(bindings@);
    let ghost start = out@;
    match x {
        MacroArg::Literal(s) => {
            if starts_with_dollar(s.as_str()) {
                let var = trim_dollars_exec(s.as_str());
                match bindings.get(var.as_str()) {
                    Some(vals) => {
                        append_copies(vals, out);
                    },
                    None => {
                        assert(args_view(out@) =~= args_view(start) + seq![]);
                    },
                }
            } else {
                push_arg(out, MacroArg::Literal(s.clone()));
                assert(args_view(out@) =~= args_view(start) + seq![arg_view(*x)]);
            }
        },
        MacroArg::TokenTree(tokens) => {
            let mut inner: Vec<MacroArg> = Vec::new();
            apply_template(tokens, bindings, &mut inner);
            proof {
                assert(args_view(Seq::<MacroArg>::empty()) =~= Seq::<ArgView>::empty());
                assert(args_view(inner@) =~= apply_items(args_view(tokens@), b));
                lemma_args_view(inner@);
            }
            if inner.len() > 0 {
                push_arg(out, MacroArg::TokenTree(inner));
            } else {
                assert(args_view(out@) =~= args_view(start) + seq![]);
            }
        },
        MacroArg::Repetition(_, _) => {
            assert(args_view(out@) =~= args_view(start) + seq![]);
        },
    }
}

fn push_arg(out: &mut Vec<MacroArg>, a: MacroArg)
    ensures
        args_view(final(out)@) == args_view(old(out)@).push(arg_view(a)),
{
    let ghost start = out@;
    out.push(a);
    assert(out@.drop_last() =~= start);
}

/// Appends a copy of each of `vals` to `out`.
fn append_copies(vals: &Vec<MacroArg>, out: &mut Vec<MacroArg>)
    ensures
        args_view(final(out)@) == args_view(old(out)@) + args_view(vals@),
{
    let ghost start = args_view(out@);
    proof {
        lemma_args_view(vals@);
        assert(args_view(vals@).take(0) =~= Seq::<ArgView>::empty());
        assert(start + args_view(vals@).take(0) =~= start);
    }
    let mut i: usize = 0;
    while i < vals.len()
        invariant
            i <= vals@.len(),
            args_view(vals@).len() == vals@.len(),
            forall|q: int| 0 <= q < vals@.len() ==> #[trigger] args_view(vals@)[q] == arg_view(vals@[q]),
            args_view(out@) == start + args_view(vals@).take(i as int),
        decreases vals.len() - i,
    {
        let c = copy_arg(&vals[i]);
        push_arg(out, c);
        assert(start + args_view(vals@).take(i + 1) =~= (start + args_view(vals@).take(i as int)).push(arg_view(vals@[i as int])));
        i = i + 1;
    }
    assert(args_view(vals@).take(vals@.len() as int) =~= args_view(vals@));
}

impl MacroDefinition {
    /// Expands `args` by the first rule whose pattern matches them.
    pub fn expand(&self, args: &[MacroArg]) -> (r: Result<Vec<MacroArg>, String>)
        ensures
            r is Ok <==> first_rule(self.spec_rules(), args_view(args@), 0) is Some,
            r matches Ok(v) ==> first_rule(self.spec_rules(), args_view(args@), 0) == Some(args_view(v@)),
            r matches Err(e) ==> e@ == "No matching rule for macro `"@ + self.name@ + "`"@,
    {
        let ghost rs = self.spec_rules();
        let ghost av = args_view(args@);
        let mut i: usize = 0;
        while i < self.rules.len()
            invariant
                i <= self.rules@.len(),
                rs == self.spec_rules(),
                rs.len() == self.rules@.len(),
                av == args_view(args@),
                first_rule(rs, av, 0) == first_rule(rs, av, i as nat),
            decreases self.rules.len() - i,
        {
            let rule = &self.rules[i];
            assert(rs[i as int] == rule.view_pair());
            match self.match_pattern(&rule.pattern, args) {
                Some(bindings) => {
                    let mut out: Vec<MacroArg> = Vec::new();
                    apply_template(&rule.template, &bindings, &mut out);
                    assert(args_view(Seq::<MacroArg>::empty()) =~= Seq::<ArgView>::empty());
                    assert(args_view(out@) =~= apply_items(args_view(rule.template@), binds_view(bindings@)));
                    return Ok(out);
                },
                None => {},
            }
            i = i + 1;
        }
        let mut msg = String::new();
        push_str(&mut msg, "No matching rule for macro `");
        push_str(&mut msg, self.name.as_str());
        push_str(&mut msg, "`");
        Err(msg)
    }
}

/// The defined macros, by name.
pub struct MacroExpander {
    macros: StrMap<MacroDefinition>,
}

impl MacroExpander {
    /// The definitions by name.
    pub closed spec fn defs(&self) -> Map<Seq<char>, MacroDefinition> {
        self.macros@
    }

    pub fn new() -> (e: Self)
        ensures
            e.defs() == Map::<Seq<char>, MacroDefinition>::empty(),
    {
        MacroExpander { macros: StrMap::new() }
    }

    /// Defines (or redefines) the macro `name`.
    pub fn define(&mut self, name: &str, def: MacroDefinition)
        ensures
            final(self).defs() == old(self).defs().insert(name@, def),
    {
        self.macros.insert(String::from_str(name), def);
    }

    /// Expands the macro `name` with `args`; an unknown name is an error.
    pub fn expand(&self, name: &str, args: &[MacroArg]) -> (r: Result<Vec<MacroArg>, String>)
        ensures
            !self.defs().contains_key(name@) ==> (r matches Err(e) && e@ == "Unknown macro: `"@ + name@ + "`"@),
            self.defs().contains_key(name@) ==> {
                let d = self.defs()[name@];
                &&& (r is Ok <==> first_rule(d.spec_rules(), args_view(args@), 0) is Some)
                &&& (r matches Ok(v) ==> first_rule(d.spec_rules(), args_view(args@), 0) == Some(args_view(v@)))
                &&& (r matches Err(e) ==> e@ == "No matching rule for macro `"@ + d.name@ + "`"@)
            },
    {
        match self.macros.get(name) {
            Some(def) => def.expand(args),
            None => {
                let mut msg = String::new();
                push_str(&mut msg, "Unknown macro: `");
                push_str(&mut msg, name);
                push_str(&mut msg, "`");
                Err(msg)
            },
        }
    }

    pub fn is_defined(&self, name: &str) -> (b: bool)
        ensures
            b == self.defs().contains_key(name@),
    {
        self.macros.contains_key(name)
    }
}

impl Default for MacroExpander {
    fn default() -> (e: Self)
        ensures
            e.defs() == Map::<Seq<char>, MacroDefinition>::empty(),
    {
        MacroExpander::new()
    }
}

// ---------------------------------------------------------------------------
// Value patterns
// ---------------------------------------------------------------------------

#[derive(Debug)]
pub enum Pattern {
    Wildcard,
    Literal(String),
    Int(i64),
    Bool(bool),
    Variable(String),
    Tuple(Vec<Pattern>),
    Struct(String, Vec<(String, Pattern)>),
    Enum(String, Vec<Pattern>),
    Or(Box<Pattern>, Box<Pattern>),
    Range(Option<Box<Pattern>>, Option<Box<Pattern>>),
}

/// The abstract content of a pattern.
pub enum PatternView {
    Wildcard,
    Literal(Seq<char>),
    Int(i64),
    Bool(bool),
    Variable(Seq<char>),
    Tuple(Seq<PatternView>),
    Struct(Seq<char>, Seq<(Seq<char>, PatternView)>),
    Enum(Seq<char>, Seq<PatternView>),
    Or(Box<PatternView>, Box<PatternView>),
    Range(Option<Box<PatternView>>, Option<Box<PatternView>>),
}

pub open spec fn pat_view(p: Pattern) -> PatternView
    decreases p,
{
    match p {
        Pattern::Wildcard => PatternView::Wildcard,
        Pattern::Literal(s) => PatternView::Literal(s@),
        Pattern::Int(n) => PatternView::Int(n),
        Pattern::Bool(b) => PatternView::Bool(b),
        Pattern::Variable(s) => PatternView::Variable(s@),
        Pattern::Tuple(v) => PatternView::Tuple(pats_view(v@)),
        Pattern::Struct(n, fs) => PatternView::Struct(n@, pat_fields_view(fs@)),
        Pattern::Enum(n, v) => PatternView::Enum(n@, pats_view(v@)),
        Pattern::Or(a, b) => PatternView::Or(Box::new(pat_view(*a)), Box::new(pat_view(*b))),
        Pattern::Range(lo, hi) => PatternView::Range(
            match lo {
                Some(x) => Some(Box::new(pat_view(*x))),
                None => None,
            },
            match hi {
                Some(x) => Some(Box::new(pat_view(*x))),
                None => None,
            },
        ),
    }
}

pub open spec fn pats_view(s: Seq<Pattern>) -> Seq<PatternView>
    decreases s,
{
    if s.len() == 0 {
        seq![]
    } else {
        pats_view(s.drop_last()).push(pat_view(s.last()))
    }
}

pub open spec fn pat_fields_view(s: Seq<(String, Pattern)>) -> Seq<(Seq<char>, PatternView)>
    decreases s,
{
    if s.len() == 0 {
        seq![]
    } else {
        pat_fields_view(s.drop_last()).push((s.last().0@, pat_view(s.last().1)))
    }
}

/// A value to match patterns against.
#[derive(Debug)]
pub enum PatternValue {
    Literal(String),
    Int(i64),
    Bool(bool),
    Tuple(Vec<PatternValue>),
    Struct(String, Vec<(String, PatternValue)>),
}

/// The abstract content of a value.
pub enum ValueView {
    Literal(Seq<char>),
    Int(i64),
    Bool(bool),
    Tuple(Seq<ValueView>),
    Struct(Seq<char>, Seq<(Seq<char>, ValueView)>),
}

pub open spec fn value_view(v: PatternValue) -> ValueView
    decreases v,
{
    match v {
        PatternValue::Literal(s) => ValueView::Literal(s@),
        PatternValue::Int(n) => ValueView::Int(n),
        PatternValue::Bool(b) => ValueView::Bool(b),
        PatternValue::Tuple(vs) => ValueView::Tuple(values_view(vs@)),
        PatternValue::Struct(n, fs) => ValueView::Struct(n@, value_fields_view(fs@)),
    }
}

pub open spec fn values_view(s: Seq<PatternValue>) -> Seq<ValueView>
    decreases s,
{
    if s.len() == 0 {
        seq![]
    } else {
        values_view(s.drop_last()).push(value_view(s.last()))
    }
}

pub open spec fn value_fields_view(s: Seq<(String, PatternValue)>) -> Seq<(Seq<char>, ValueView)>
    decreases s,
{
    if s.len() == 0 {
        seq![]
    } else {
        value_fields_view(s.drop_last()).push((s.last().0@, value_view(s.last().1)))
    }
}

pub proof fn lemma_pats_view(s: Seq<Pattern>)
    ensures
        pats_view(s).len() == s.len(),
        forall|i: int| 0 <= i < s.len() ==> #[trigger] pats_view(s)[i] == pat_view(s[i]),
    decreases s.len(),
{
    if s.len() > 0 {
        lemma_pats_view(s.drop_last());
    }
}

pub proof fn lemma_values_view(s: Seq<PatternValue>)
    ensures
        values_view(s).len() == s.len(),
        forall|i: int| 0 <= i < s.len() ==> #[trigger] values_view(s)[i] == value_view(s[i]),
    decreases s.len(),
{
    if s.len() > 0 {
        lemma_values_view(s.drop_last());
    }
}

pub proof fn lemma_value_fields_view(s: Seq<(String, PatternValue)>)
    ensures
        value_fields_view(s).len() == s.len(),
        forall|i: int| 0 <= i < s.len() ==> #[trigger] value_fields_view(s)[i] == (s[i].0@, value_view(s[i].1)),
    decreases s.len(),
{
    if s.len() > 0 {
        lemma_value_fields_view(s.drop_last());
    }
}

/// A deep copy of `v`.
pub fn copy_value(v: &PatternValue) -> (r: PatternValue)
    ensures
        value_view(r) == value_view(*v),
    decreases v,
{
    match v {
        PatternValue::Literal(s) => PatternValue::Literal(s.clone()),
        PatternValue::Int(n) => PatternValue::Int(*n),
        PatternValue::Bool(b) => PatternValue::Bool(*b),
        PatternValue::Tuple(vs) => PatternValue::Tuple(copy_values(vs)),
        PatternValue::Struct(n, fs) => PatternValue::Struct(n.clone(), copy_value_fields(fs)),
    }
}

fn copy_values(vs: &Vec<PatternValue>) -> (r: Vec<PatternValue>)
    ensures
        values_view(r@) == values_view(vs@),
    decreases vs,
{
    let mut out: Vec<PatternValue> = Vec::new();
    let mut i: usize = 0;
    while i < vs.len()
        invariant
            i <= vs@.len(),
            out@.len() == i,
            forall|q: int| 0 <= q < i ==> value_view(#[trigger] out@[q]) == value_view(vs@[q]),
        decreases vs.len() - i,
    {
        out.push(copy_value(&vs[i]));
        i = i + 1;
    }
    proof {
        lemma_values_view(out@);
        lemma_values_view(vs@);
        assert(values_view(out@) =~= values_view(vs@));
    }
    out
}

fn copy_value_fields(fs: &Vec<(String, PatternValue)>) -> (r: Vec<(String, PatternValue)>)
    ensures
        value_fields_view(r@) == value_fields_view(fs@),
    decreases fs,
{
    let mut out: Vec<(String, PatternValue)> = Vec::new();
    let mut i: usize = 0;
    while i < fs.len()
        invariant
            i <= fs@.len(),
            out@.len() == i,
            forall|q: int| 0 <= q < i ==> (#[trigger] out@[q]).0@ == fs@[q].0@ && value_view(out@[q].1) == value_view(fs@[q].1),
        decreases fs.len() - i,
    {
        let f = &fs[i];
        out.push((f.0.clone(), copy_value(&f.1)));
        i = i + 1;
    }
    proof {
        lemma_value_fields_view(out@);
        lemma_value_fields_view(fs@);
        assert(value_fields_view(out@) =~= value_fields_view(fs@));
    }
    out
}

/// What a pattern binds.
pub type ValueBindings = Map<Seq<char>, ValueView>;

/// Matches `v` against `p`: the bindings when it matches. A tuple matches
/// element-wise (later bindings of a name win); an or-pattern tries its left
/// side first. Struct, enum and range patterns match nothing.
pub open spec fn pmatch(p: PatternView, v: ValueView) -> Option<ValueBindings>
    decreases p,
{
    match p {
        PatternView::Wildcard => Some(Map::empty()),
        PatternView::Literal(l) => if v matches ValueView::Literal(x) && x == l { Some(Map::empty()) } else { None },
        PatternView::Int(n) => if v matches ValueView::Int(x) && x == n { Some(Map::empty()) } else { None },
        PatternView::Bool(b) => if v matches ValueView::Bool(x) && x == b { Some(Map::empty()) } else { None },
        PatternView::Variable(name) => Some(Map::empty().insert(name, v)),
        PatternView::Tuple(ps) => match v {
            ValueView::Tuple(vs) => if ps.len() == vs.len() { pmatch_all(ps, vs) } else { None },
            _ => None,
        },
        PatternView::Or(a, b) => match pmatch(*a, v) {
            Some(x) => Some(x),
            None => pmatch(*b, v),
        },
        _ => None,
    }
}

pub open spec fn pmatch_all(ps: Seq<PatternView>, vs: Seq<ValueView>) -> Option<ValueBindings>
    decreases ps,
{
    if ps.len() == 0 {
        Some(Map::empty())
    } else {
        match pmatch_all(ps.drop_last(), vs.drop_last()) {
            None => None,
            Some(b) => match pmatch(ps.last(), vs.last()) {
                None => None,
                Some(b2) => Some(b.union_prefer_right(b2)),
            },
        }
    }
}

/// The bindings of the first arm (from `i` on) whose pattern matches and
/// whose guard holds.
pub open spec fn first_arm(arms: Seq<(PatternView, bool)>, v: ValueView, i: nat) -> Option<ValueBindings>
    decreases arms.len() - i,
{
    if i >= arms.len() {
        None
    } else if pmatch(arms[i as int].0, v) is Some && arms[i as int].1 {
        pmatch(arms[i as int].0, v)
    } else {
        first_arm(arms, v, i + 1)
    }
}

/// The arms of a match: each pattern with the value of its guard.
pub struct PatternMatcher {
    arms: Vec<(Pattern, bool)>,
}

pub open spec fn binds_values(m: Map<Seq<char>, PatternValue>) -> ValueBindings {
    Map::new(|k: Seq<char>| m.contains_key(k), |k: Seq<char>| value_view(m[k]))
}

impl PatternMatcher {
    pub closed spec fn spec_arms(&self) -> Seq<(PatternView, bool)> {
        Seq::new(self.arms@.len(), |i: int| (pat_view(self.arms@[i].0), self.arms@[i].1))
    }

    pub fn new() -> (m: Self)
        ensures
            m.spec_arms().len() == 0,
    {
        PatternMatcher { arms: Vec::new() }
    }

    pub fn add_arm(&mut self, pattern: Pattern, guard: bool)
        ensures
            final(self).spec_arms() == old(self).spec_arms().push((pat_view(pattern), guard)),
    {
        let ghost before = self.spec_arms();
        let ghost pv = pat_view(pattern);
        self.arms.push((pattern, guard));
        assert(self.spec_arms() =~= before.push((pv, guard)));
    }

    /// Only `bool` can be covered: by arms for both `true` and `false`.
    pub fn is_exhaustive(&self, root_type: &str) -> (b: bool)
        ensures
            b == (root_type@ == "bool"@
                && (exists|i: int| 0 <= i < self.spec_arms().len() && #[trigger] self.spec_arms()[i].0 == PatternView::Bool(true))
                && (exists|i: int| 0 <= i < self.spec_arms().len() && #[trigger] self.spec_arms()[i].0 == PatternView::Bool(false))),
    {
        if !crate::text::str_eq(root_type, "bool") {
            return false;
        }
        let mut has_true = false;
        let mut has_false = false;
        let mut i: usize = 0;
        while i < self.arms.len()
            invariant
                i <= self.arms@.len(),
                self.spec_arms().len() == self.arms@.len(),
                has_true == exists|q: int| 0 <= q < i && #[trigger] self.spec_arms()[q].0 == PatternView::Bool(true),
                has_false == exists|q: int| 0 <= q < i && #[trigger] self.spec_arms()[q].0 == PatternView::Bool(false),
            decreases self.arms.len() - i,
        {
            assert(self.spec_arms()[i as int].0 == pat_view(self.arms@[i as int].0));
            match &self.arms[i].0 {
                Pattern::Bool(b) => {
                    if *b {
                        has_true = true;
                    } else {
                        has_false = true;
                    }
                },
                _ => {},
            }
            i = i + 1;
        }
        has_true && has_false
    }

    /// The bindings of the first arm that matches `value` and whose guard holds.
    pub fn match_value(&self, value: &PatternValue) -> (r: Option<StrMap<PatternValue>>)
        ensures
            r matches Some(m) ==> first_arm(self.spec_arms(), value_view(*value), 0) == Some(binds_values(m@)),
            r is None ==> first_arm(self.spec_arms(), value_view(*value), 0) is None,
    {
        let ghost arms = self.spec_arms();
        let ghost vv = value_view(*value);
        let mut i: usize = 0;
        while i < self.arms.len()
            invariant
                i <= self.arms@.len(),
                arms == self.spec_arms(),
                arms.len() == self.arms@.len(),
                vv == value_view(*value),
                first_arm(arms, vv, 0) == first_arm(arms, vv, i as nat),
            decreases self.arms.len() - i,
        {
            let arm = &self.arms[i];
            assert(arms[i as int] == (pat_view(arm.0), arm.1));
            match self.match_pattern(&arm.0, value) {
                Some(bindings) => {
                    if arm.1 {
                        return Some(bindings);
                    }
                },
                None => {},
            }
            i = i + 1;
        }
        None
    }

    /// Matches the elements of a tuple pairwise.
    fn match_tuple(&self, ps: &Vec<Pattern>, vs: &Vec<PatternValue>) -> (r: Option<StrMap<PatternValue>>)
        requires
            ps@.len() == vs@.len(),
        ensures
            r matches Some(m) ==> pmatch_all(pats_view(ps@), values_view(vs@)) == Some(binds_values(m@)),
            r is None ==> pmatch_all(pats_view(ps@), values_view(vs@)) is None,
        decreases ps,
    {
        let ghost pv = pats_view(ps@);
        let ghost vv = values_view(vs@);
        proof {
            lemma_pats_view(ps@);
            lemma_values_view(vs@);
        }
        let mut m: StrMap<PatternValue> = StrMap::new();
        assert(binds_values(m@) =~= Map::<Seq<char>, ValueView>::empty());
        assert(pv.take(0) =~= Seq::<PatternView>::empty());
        let mut i: usize = 0;
        while i < ps.len()
            invariant
                i <= ps@.len(),
                ps@.len() == vs@.len(),
                pv == pats_view(ps@),
                vv == values_view(vs@),
                pv.len() == ps@.len(),
                vv.len() == vs@.len(),
                forall|q: int| 0 <= q < ps@.len() ==> #[trigger] pv[q] == pat_view(ps@[q]),
                forall|q: int| 0 <= q < vs@.len() ==> #[trigger] vv[q] == value_view(vs@[q]),
                pmatch_all(pv.take(i as int), vv.take(i as int)) == Some(binds_values(m@)),
            decreases ps.len() - i,
        {
            proof {
                assert(pv.take(i + 1).drop_last() =~= pv.take(i as int));
                assert(vv.take(i + 1).drop_last() =~= vv.take(i as int));
                assert(pv.take(i + 1).last() == pat_view(ps@[i as int]));
                assert(vv.take(i + 1).last() == value_view(vs@[i as int]));
            }
            match self.match_pattern(&ps[i], &vs[i]) {
                Some(b) => {
                    let ghost before = binds_values(m@);
                    let ghost bv = binds_values(b@);
                    m.extend(b);
                    assert(binds_values(m@) =~= before.union_prefer_right(bv));
                },
                None => {
                    proof {
                        lemma_pmatch_all_none(pv, vv, (i + 1) as nat);
                    }
                    return None;
                },
            }
            i = i + 1;
        }
        assert(pv.take(ps@.len() as int) =~= pv);
        assert(vv.take(vs@.len() as int) =~= vv);
        Some(m)
    }

    /// Matches `value` against `pattern`.
    fn match_pattern(&self, pattern: &Pattern, value: &PatternValue) -> (r: Option<StrMap<PatternValue>>)
        ensures
            r matches Some(m) ==> pmatch(pat_view(*pattern), value_view(*value)) == Some(binds_values(m@)),
            r is None ==> pmatch(pat_view(*pattern), value_view(*value)) is None,
        decreases pattern,
    {
        match pattern {
            Pattern::Wildcard => {
                let m: StrMap<PatternValue> = StrMap::new();
                assert(binds_values(m@) =~= Map::<Seq<char>, ValueView>::empty());
                Some(m)
            },
            Pattern::Literal(l) => match value {
                PatternValue::Literal(v) => {
                    if crate::text::str_eq(l.as_str(), v.as_str()) {
                        let m: StrMap<PatternValue> = StrMap::new();
                        assert(binds_values(m@) =~= Map::<Seq<char>, ValueView>::empty());
                        Some(m)
                    } else {
                        None
                    }
                },
                _ => None,
            },
            Pattern::Int(n) => match value {
                PatternValue::Int(v) => {
                    if *n == *v {
                        let m: StrMap<PatternValue> = StrMap::new();
                        assert(binds_values(m@) =~= Map::<Seq<char>, ValueView>::empty());
                        Some(m)
                    } else {
                        None
                    }
                },
                _ => None,
            },
            Pattern::Bool(b) => match value {
                PatternValue::Bool(v) => {
                    if *b == *v {
                        let m: StrMap<PatternValue> = StrMap::new();
                        assert(binds_values(m@) =~= Map::<Seq<char>, ValueView>::empty());
                        Some(m)
                    } else {
                        None
                    }
                },
                _ => None,
            },
            Pattern::Variable(name) => {
                let mut m: StrMap<PatternValue> = StrMap::new();
                m.insert(name.clone(), copy_value(value));
                assert(binds_values(m@) =~= Map::<Seq<char>, ValueView>::empty().insert(name@, value_view(*value)));
                Some(m)
            },
            Pattern::Tuple(ps) => match value {
                PatternValue::Tuple(vs) => {
                    proof {
                        lemma_pats_view(ps@);
                        lemma_values_view(vs@);
                    }
                    if ps.len() != vs.len() {
                        return None;
                    }
                    self.match_tuple(ps, vs)
                },
                _ => None,
            },
            Pattern::Or(a, b) => {
                match self.match_pattern(a, value) {
                    Some(m) => Some(m),
                    None => self.match_pattern(b, value),
                }
            },
            _ => None,
        }
    }
}

/// Failing on a prefix of the tuple fails the whole tuple.
pub proof fn lemma_pmatch_all_none(ps: Seq<PatternView>, vs: Seq<ValueView>, k: nat)
    requires
        k <= ps.len(),
        ps.len() == vs.len(),
        pmatch_all(ps.take(k as int), vs.take(k as int)) is None,
    ensures
        pmatch_all(ps, vs) is None,
    decreases ps.len() - k,
{
    if k < ps.len() {
        assert(ps.take(k + 1int).drop_last() =~= ps.take(k as int));
        assert(vs.take(k + 1int).drop_last() =~= vs.take(k as int));
        lemma_pmatch_all_none(ps, vs, k + 1);
    } else {
        assert(ps.take(k as int) =~= ps);
        assert(vs.take(k as int) =~= vs);
    }
}

impl Default for PatternMatcher {
    fn default() -> (m: Self)
        ensures
            m.spec_arms().len() == 0,
    {
        PatternMatcher::new()
    }
}

// ---------------------------------------------------------------------------
// Token streams and macro arguments
// ---------------------------------------------------------------------------

/// The marker written after a repeated fragment.
pub open spec fn repetition_mark(k: RepetitionKind) -> Seq<char> {
    match k {
        RepetitionKind::ZeroOrMore => "*"@,
        RepetitionKind::ZeroOrOne => "?"@,
        RepetitionKind::OneOrMore => "+"@,
    }
}

/// The text of arguments before trimming: each followed by a space; a group
/// is its contents' text in parentheses; a repetition is its fragment's text
/// followed by its marker.
pub open spec fn raw_args_text(s: Seq<ArgView>) -> Seq<char>
    decreases s,
{
    if s.len() == 0 {
        seq![]
    } else {
        raw_args_text(s.drop_last()) + arg_piece(s.last())
    }
}

pub open spec fn arg_piece(a: ArgView) -> Seq<char>
    decreases a,
{
    match a {
        ArgView::Literal(t) => t + " "@,
        ArgView::TokenTree(c) => "("@ + trim_ws(trim_ws(raw_args_text(c))) + ") "@,
        ArgView::Repetition(inner, k) => trim_ws(arg_piece(*inner)) + repetition_mark(k) + " "@,
    }
}

/// The arguments as source text, to be lexed again.
pub open spec fn args_text(s: Seq<ArgView>) -> Seq<char> {
    trim_ws(raw_args_text(s))
}

fn push_repetition_mark(s: &mut String, k: RepetitionKind)
    ensures
        final(s)@ == old(s)@ + repetition_mark(k),
{
    match k {
        RepetitionKind::ZeroOrMore => push_str(s, "*"),
        RepetitionKind::ZeroOrOne => push_str(s, "?"),
        RepetitionKind::OneOrMore => push_str(s, "+"),
    }
}

fn push_arg_piece(a: &MacroArg, s: &mut String)
    ensures
        final(s)@ == old(s)@ + arg_piece(arg_view(*a)),
    decreases a,
{
    match a {
        MacroArg::Literal(text) => {
            push_str(s, text.as_str());
            push_str(s, " ");
        },
        MacroArg::TokenTree(children) => {
            push_str(s, "(");
            let inner = raw_args_string(children);
            let t1 = trim(inner.as_str());
            let t2 = trim(t1.as_str());
            push_str(s, t2.as_str());
            push_str(s, ") ");
        },
        MacroArg::Repetition(inner, k) => {
            let mut piece = String::new();
            push_arg_piece(inner, &mut piece);
            let t = trim(piece.as_str());
            push_str(s, t.as_str());
            push_repetition_mark(s, *k);
            push_str(s, " ");
        },
    }
    assert(final(s)@ =~= old(s)@ + arg_piece(arg_view(*a)));
}

fn raw_args_string(v: &Vec<MacroArg>) -> (s: String)
    ensures
        s@ == raw_args_text(args_view(v@)),
    decreases v,
{
    let ghost av = args_view(v@);
    proof {
        lemma_args_view(v@);
        assert(av.take(0) =~= Seq::<ArgView>::empty());
    }
    let mut s = String::new();
    let mut i: usize = 0;
    while i < v.len()
        invariant
            i <= v@.len(),
            av == args_view(v@),
            av.len() == v@.len(),
            forall|q: int| 0 <= q < v@.len() ==> #[trigger] av[q] == arg_view(v@[q]),
            s@ == raw_args_text(av.take(i as int)),
        decreases v.len() - i,
    {
        push_arg_piece(&v[i], &mut s);
        assert(av.take(i + 1).drop_last() =~= av.take(i as int));
        i = i + 1;
    }
    assert(av.take(v@.len() as int) =~= av);
    s
}

/// The arguments as source text: each argument's text followed by a space,
/// groups in parentheses, repetitions with their marker, the whole trimmed.
pub fn macro_args_to_string(args: &[MacroArg]) -> (s: String)
    ensures
        s@ == args_text(args_view(args@)),
{
    let ghost av = args_view(args@);
    proof {
        lemma_args_view(args@);
        assert(av.take(0) =~= Seq::<ArgView>::empty());
    }
    let mut s = String::new();
    let mut i: usize = 0;
    while i < args.len()
        invariant
            i <= args@.len(),
            av == args_view(args@),
            av.len() == args@.len(),
            forall|q: int| 0 <= q < args@.len() ==> #[trigger] av[q] == arg_view(args@[q]),
            s@ == raw_args_text(av.take(i as int)),
        decreases args.len() - i,
    {
        push_arg_piece(&args[i], &mut s);
        assert(av.take(i + 1).drop_last() =~= av.take(i as int));
        i = i + 1;
    }
    assert(av.take(args@.len() as int) =~= av);
    trim(s.as_str())
}

/// Each token's text as a literal argument.
pub open spec fn literal_args(ts: Seq<TokenView>) -> Seq<ArgView> {
    Seq::new(ts.len(), |i: int| ArgView::Literal(ts[i].1))
}

/// Each token as a literal argument holding its text.
pub fn tokens_to_flat_macro_args(tokens: &[Token]) -> (r: Vec<MacroArg>)
    ensures
        args_view(r@) == literal_args(token_views(tokens@)),
{
    let mut out: Vec<MacroArg> = Vec::new();
    let mut i: usize = 0;
    while i < tokens.len()
        invariant
            i <= tokens@.len(),
            out@.len() == i,
            forall|q: int| 0 <= q < i ==> arg_view(#[trigger] out@[q]) == ArgView::Literal(tokens@[q].text@),
        decreases tokens.len() - i,
    {
        out.push(MacroArg::Literal(tokens[i].text.clone()));
        i = i + 1;
    }
    proof {
        lemma_args_view(out@);
        assert(args_view(out@) =~= literal_args(token_views(tokens@)));
    }
    out
}

/// The position of the delimiter closing the one at `i - 1`, scanning from
/// `i` at nesting `depth`: `open` deepens, `close` shallows, and the close that
/// reaches depth zero is the one.
pub open spec fn closing_from(ts: Seq<TokenView>, i: nat, depth: int, open: TokenKind, close: TokenKind) -> Option<nat>
    decreases ts.len() - i,
{
    if i >= ts.len() {
        None
    } else if ts[i as int].0 == open {
        closing_from(ts, i + 1, depth + 1, open, close)
    } else if ts[i as int].0 == close {
        if depth - 1 == 0 { Some(i) } else { closing_from(ts, i + 1, depth - 1, open, close) }
    } else {
        closing_from(ts, i + 1, depth, open, close)
    }
}

/// The delimiter closing the opener at `open_index`.
pub open spec fn find_closing_spec(ts: Seq<TokenView>, open_index: nat, open: TokenKind, close: TokenKind) -> Option<nat> {
    closing_from(ts, open_index + 1, 1, open, close)
}

pub proof fn lemma_closing_from_bounds(ts: Seq<TokenView>, i: nat, depth: int, open: TokenKind, close: TokenKind)
    requires
        depth >= 1,
    ensures
        closing_from(ts, i, depth, open, close) matches Some(c) ==> i <= c < ts.len() && ts[c as int].0 == close,
    decreases ts.len() - i,
{
    if i < ts.len() {
        if ts[i as int].0 == open {
            lemma_closing_from_bounds(ts, i + 1, depth + 1, open, close);
        } else if ts[i as int].0 == close {
            if depth - 1 != 0 {
                lemma_closing_from_bounds(ts, i + 1, depth - 1, open, close);
            }
        } else {
            lemma_closing_from_bounds(ts, i + 1, depth, open, close);
        }
    }
}

/// Finds the delimiter closing the opener at `open_index`, nesting included.
fn find_closing(tokens: &[Token], open_index: usize, open_kind: &TokenKind, close_kind: &TokenKind) -> (r: Option<usize>)
    requires
    ensures
        r matches Some(c) ==> find_closing_spec(token_views(tokens@), open_index as nat, *open_kind, *close_kind) == Some(c as nat),
        r is None ==> find_closing_spec(token_views(tokens@), open_index as nat, *open_kind, *close_kind) is None,
        r matches Some(c) ==> open_index < c < tokens@.len(),
{
    let ghost tv = token_views(tokens@);
    proof {
        lemma_closing_from_bounds(tv, open_index as nat + 1, 1, *open_kind, *close_kind);
    }
    let mut depth: usize = 1;
    if open_index >= tokens.len() {
        return None;
    }
    let mut i = open_index + 1;
    while i < tokens.len()
        invariant
            open_index < i <= tokens@.len(),
                tv == token_views(tokens@),
            1 <= depth <= i - open_index,
            find_closing_spec(tv, open_index as nat, *open_kind, *close_kind) == closing_from(tv, i as nat, depth as int, *open_kind, *close_kind),
        decreases tokens.len() - i,
    {
        assert(tv[i as int].0 == tokens@[i as int].kind);
        if tokens[i].kind == *open_kind {
            depth = depth + 1;
        } else if tokens[i].kind == *close_kind {
            depth = depth - 1;
            if depth == 0 {
                return Some(i);
            }
        }
        i = i + 1;
    }
    None
}

/// Layout tokens: newlines, indents and dedents.
pub open spec fn is_layout(k: TokenKind) -> bool {
    k == TokenKind::Newline || k == TokenKind::Indent || k == TokenKind::Dedent
}

/// `ts` without its layout tokens.
pub open spec fn strip_layout(ts: Seq<TokenView>) -> Seq<TokenView>
    decreases ts.len(),
{
    if ts.len() == 0 {
        seq![]
    } else if is_layout(ts.last().0) {
        strip_layout(ts.drop_last())
    } else {
        strip_layout(ts.drop_last()).push(ts.last())
    }
}

fn copy_token(t: &Token) -> (r: Token)
    ensures
        r@ == t@,
{
    Token { kind: t.kind, text: t.text.clone(), line: t.line, col: t.col }
}

/// Copies of the non-layout tokens of `tokens[a..b]`.
fn non_layout_between(tokens: &[Token], a: usize, b: usize) -> (r: Vec<Token>)
    requires
        a <= b <= tokens@.len(),
    ensures
        token_views(r@) == strip_layout(token_views(tokens@).subrange(a as int, b as int)),
{
    let ghost tv = token_views(tokens@);
    let mut out: Vec<Token> = Vec::new();
    let mut i = a;
    assert(tv.subrange(a as int, a as int) =~= Seq::<TokenView>::empty());
    assert(token_views(out@) =~= Seq::<TokenView>::empty());
    while i < b
        invariant
            a <= i <= b,
            b <= tokens@.len(),
            tv == token_views(tokens@),
            token_views(out@) == strip_layout(tv.subrange(a as int, i as int)),
        decreases b - i,
    {
        assert(tv.subrange(a as int, i + 1).drop_last() =~= tv.subrange(a as int, i as int));
        assert(tv.subrange(a as int, i + 1).last() == tokens@[i as int]@);
        let k = tokens[i].kind;
        if !(k == TokenKind::Newline || k == TokenKind::Indent || k == TokenKind::Dedent) {
            let ghost before = out@;
            out.push(copy_token(&tokens[i]));
            assert(token_views(out@) =~= token_views(before).push(tokens@[i as int]@));
        }
        i = i + 1;
    }
    out
}

/// A macro invocation `name ! (...)` (or with braces or brackets) at `pos`:
/// the closing delimiter's position, the name, and the tokens inside without
/// layout tokens.
pub open spec fn invocation_at(ts: Seq<TokenView>, pos: nat) -> Option<(nat, Seq<char>, Seq<TokenView>)> {
    if pos + 2 >= ts.len() || ts[pos as int].0 != TokenKind::Ident || ts[pos + 1int].0 != TokenKind::Bang {
        None
    } else {
        let k = ts[pos + 2int].0;
        let delims = if k == TokenKind::LParen {
            Some((TokenKind::LParen, TokenKind::RParen))
        } else if k == TokenKind::LBrace {
            Some((TokenKind::LBrace, TokenKind::RBrace))
        } else if k == TokenKind::LBracket {
            Some((TokenKind::LBracket, TokenKind::RBracket))
        } else {
            None::<(TokenKind, TokenKind)>
        };
        match delims {
            None => None,
            Some(d) => match find_closing_spec(ts, pos + 2, d.0, d.1) {
                None => None,
                Some(c) => Some((c, ts[pos as int].1, strip_layout(ts.subrange(pos + 3int, c as int)))),
            },
        }
    }
}

/// Finds a macro invocation at `pos`.
pub fn find_macro_invocation(tokens: &[Token], pos: usize) -> (r: Option<(usize, String, Vec<Token>)>)
    requires
    ensures
        r is None <==> invocation_at(token_views(tokens@), pos as nat) is None,
        r matches Some(x) ==> invocation_at(token_views(tokens@), pos as nat)
            == Some((x.0 as nat, x.1@, token_views(x.2@))),
        r matches Some(x) ==> pos + 2 < x.0 < tokens@.len(),
{
    let ghost tv = token_views(tokens@);
    if pos >= tokens.len() || tokens.len() - pos <= 2 {
        return None;
    }
    assert(tv[pos as int].0 == tokens@[pos as int].kind);
    assert(tv[pos + 1].0 == tokens@[pos + 1].kind);
    assert(tv[pos + 2].0 == tokens@[pos + 2].kind);
    if tokens[pos].kind != TokenKind::Ident {
        return None;
    }
    if tokens[pos + 1].kind != TokenKind::Bang {
        return None;
    }
    let name = tokens[pos].text.clone();
    let k = tokens[pos + 2].kind;
    let (open_kind, close_kind) = if k == TokenKind::LParen {
        (TokenKind::LParen, TokenKind::RParen)
    } else if k == TokenKind::LBrace {
        (TokenKind::LBrace, TokenKind::RBrace)
    } else if k == TokenKind::LBracket {
        (TokenKind::LBracket, TokenKind::RBracket)
    } else {
        return None;
    };
    let close = match find_closing(tokens, pos + 2, &open_kind, &close_kind) {
        Some(c) => c,
        None => {
            return None;
        },
    };
    let inner = non_layout_between(tokens, pos + 3, close);
    Some((close, name, inner))
}

pub type RuleView = (Seq<ArgView>, Seq<ArgView>);

/// Newlines and comments between the rules of a macro body.
pub open spec fn is_trivia(k: TokenKind) -> bool {
    k == TokenKind::Newline || k == TokenKind::LineComment || k == TokenKind::BlockComment
}

/// The first position in `[i, end)` that is not trivia, or `end`.
pub open spec fn skip_trivia(ts: Seq<TokenView>, i: nat, end: nat) -> nat
    decreases end - i,
{
    if i < end && i < ts.len() && is_trivia(ts[i as int].0) {
        skip_trivia(ts, i + 1, end)
    } else {
        i
    }
}

/// The first `=>` or `=` in `[i, end)`, or `end`.
pub open spec fn skip_to_arrow(ts: Seq<TokenView>, i: nat, end: nat) -> nat
    decreases end - i,
{
    if i < end && i < ts.len() && !(ts[i as int].0 == TokenKind::FatArrow || ts[i as int].0 == TokenKind::Equals) {
        skip_to_arrow(ts, i + 1, end)
    } else {
        i
    }
}

/// The first position from `i` that is not a newline.
pub open spec fn skip_newlines(ts: Seq<TokenView>, i: nat) -> nat
    decreases ts.len() - i,
{
    if i < ts.len() && ts[i as int].0 == TokenKind::Newline {
        skip_newlines(ts, i + 1)
    } else {
        i
    }
}

pub proof fn lemma_skips(ts: Seq<TokenView>, i: nat, end: nat)
    ensures
        i <= skip_trivia(ts, i, end),
        i <= skip_to_arrow(ts, i, end),
        i <= skip_newlines(ts, i),
        i <= end ==> skip_trivia(ts, i, end) <= end && skip_to_arrow(ts, i, end) <= end,
        i <= ts.len() ==> skip_newlines(ts, i) <= ts.len(),
{
    lemma_skip_trivia(ts, i, end);
    lemma_skip_to_arrow(ts, i, end);
    lemma_skip_newlines(ts, i);
}

proof fn lemma_skip_trivia(ts: Seq<TokenView>, i: nat, end: nat)
    ensures
        i <= skip_trivia(ts, i, end),
        i <= end ==> skip_trivia(ts, i, end) <= end,
    decreases end - i,
{
    if i < end && i < ts.len() && is_trivia(ts[i as int].0) {
        lemma_skip_trivia(ts, i + 1, end);
    }
}

proof fn lemma_skip_to_arrow(ts: Seq<TokenView>, i: nat, end: nat)
    ensures
        i <= skip_to_arrow(ts, i, end),
        i <= end ==> skip_to_arrow(ts, i, end) <= end,
    decreases end - i,
{
    if i < end && i < ts.len() && !(ts[i as int].0 == TokenKind::FatArrow || ts[i as int].0 == TokenKind::Equals) {
        lemma_skip_to_arrow(ts, i + 1, end);
    }
}

proof fn lemma_skip_newlines(ts: Seq<TokenView>, i: nat)
    ensures
        i <= skip_newlines(ts, i),
        i <= ts.len() ==> skip_newlines(ts, i) <= ts.len(),
    decreases ts.len() - i,
{
    if i < ts.len() && ts[i as int].0 == TokenKind::Newline {
        lemma_skip_newlines(ts, i + 1);
    }
}

/// The rules of a macro body, from `i` up to the body's end: each a
/// parenthesised pattern, an arrow, and a parenthesised template (layout
/// tokens inside dropped, each token a literal). Reading stops at the first
/// thing that does not fit; an unclosed parenthesis spoils the definition.
pub open spec fn parse_rules(ts: Seq<TokenView>, i: nat, body_end: nat, acc: Seq<RuleView>) -> Option<Seq<RuleView>>
    decreases ts.len() - i,
{
    if i >= body_end || i >= ts.len() {
        Some(acc)
    } else {
        let i1 = skip_trivia(ts, i, body_end);
        if i1 >= body_end || ts[i1 as int].0 != TokenKind::LParen {
            Some(acc)
        } else {
            match find_closing_spec(ts, i1, TokenKind::LParen, TokenKind::RParen) {
                None => None,
                Some(pc) => {
                    let pat = literal_args(strip_layout(ts.subrange(i1 + 1int, pc as int)));
                    let i2 = skip_to_arrow(ts, pc + 1, body_end);
                    if i2 >= body_end {
                        Some(acc)
                    } else {
                        let i3 = skip_trivia(ts, i2 + 1, body_end);
                        if i3 >= body_end || ts[i3 as int].0 != TokenKind::LParen {
                            Some(acc)
                        } else {
                            match find_closing_spec(ts, i3, TokenKind::LParen, TokenKind::RParen) {
                                None => None,
                                Some(tc) => {
                                    proof {
                                        lemma_skips(ts, i, body_end);
                                        lemma_skips(ts, pc + 1, body_end);
                                        lemma_skips(ts, i2 + 1, body_end);
                                        lemma_closing_from_bounds(ts, i1 + 1, 1, TokenKind::LParen, TokenKind::RParen);
                                        lemma_closing_from_bounds(ts, i3 + 1, 1, TokenKind::LParen, TokenKind::RParen);
                                    }
                                    parse_rules(ts, tc + 1, body_end,
                                        acc.push((pat, literal_args(strip_layout(ts.subrange(i3 + 1int, tc as int))))))
                                },
                            }
                        }
                    }
                },
            }
        }
    }
}

/// A macro definition `macro name { rules }` (or with an indented body) at
/// `pos`: the position of the body's closing token, the name, and the rules.
pub open spec fn definition_at(ts: Seq<TokenView>, pos: nat) -> Option<(nat, Seq<char>, Seq<RuleView>)> {
    if pos + 2 >= ts.len() || ts[pos as int].0 != TokenKind::Ident || ts[pos as int].1 != "macro"@
        || ts[pos + 1int].0 != TokenKind::Ident {
        None
    } else {
        let bs = skip_newlines(ts, pos + 2);
        if bs >= ts.len() {
            None
        } else {
            let k = ts[bs as int].0;
            let delims = if k == TokenKind::LBrace {
                Some((TokenKind::LBrace, TokenKind::RBrace))
            } else if k == TokenKind::Indent {
                Some((TokenKind::Indent, TokenKind::Dedent))
            } else {
                None::<(TokenKind, TokenKind)>
            };
            match delims {
                None => None,
                Some(d) => match find_closing_spec(ts, bs, d.0, d.1) {
                    None => None,
                    Some(be) => match parse_rules(ts, bs + 1, be, seq![]) {
                        None => None,
                        Some(rules) => Some((be, ts[pos + 1int].1, rules)),
                    },
                },
            }
        }
    }
}

pub open spec fn rule_pairs_view(v: Seq<(Vec<MacroArg>, Vec<MacroArg>)>) -> Seq<RuleView> {
    Seq::new(v.len(), |i: int| (args_view(v[i].0@), args_view(v[i].1@)))
}

fn literal_args_between(tokens: &[Token], a: usize, b: usize) -> (r: Vec<MacroArg>)
    requires
        a <= b <= tokens@.len(),
    ensures
        args_view(r@) == literal_args(strip_layout(token_views(tokens@).subrange(a as int, b as int))),
{
    let inner = non_layout_between(tokens, a, b);
    tokens_to_flat_macro_args(inner.as_slice())
}

/// Parses a macro definition at `pos`.
pub fn parse_macro_definition(tokens: &[Token], pos: usize) -> (r: Option<(usize, String, Vec<(Vec<MacroArg>, Vec<MacroArg>)>)>)
    requires
    ensures
        r is None <==> definition_at(token_views(tokens@), pos as nat) is None,
        r matches Some(x) ==> definition_at(token_views(tokens@), pos as nat)
            == Some((x.0 as nat, x.1@, rule_pairs_view(x.2@))),
        r matches Some(x) ==> pos < x.0 < tokens@.len(),
{
    let ghost tv = token_views(tokens@);
    if pos >= tokens.len() || tokens.len() - pos <= 2 {
        return None;
    }
    assert(tv[pos as int] == tokens@[pos as int]@);
    assert(tv[pos + 1] == tokens@[pos + 1]@);
    proof {
        reveal_strlit("macro");
    }
    if tokens[pos].kind != TokenKind::Ident || !crate::text::str_eq(tokens[pos].text.as_str(), "macro") {
        return None;
    }
    if tokens[pos + 1].kind != TokenKind::Ident {
        return None;
    }
    let name = tokens[pos + 1].text.clone();
    let mut body_start = pos + 2;
    while body_start < tokens.len() && tokens[body_start].kind == TokenKind::Newline
        invariant
            pos + 2 <= body_start <= tokens@.len(),
            tv == token_views(tokens@),
            skip_newlines(tv, (pos + 2) as nat) == skip_newlines(tv, body_start as nat),
        decreases tokens.len() - body_start,
    {
        assert(tv[body_start as int].0 == tokens@[body_start as int].kind);
        body_start = body_start + 1;
    }
    if body_start >= tokens.len() {
        return None;
    }
    assert(tv[body_start as int].0 == tokens@[body_start as int].kind);
    let k = tokens[body_start].kind;
    let (open_kind, close_kind) = if k == TokenKind::LBrace {
        (TokenKind::LBrace, TokenKind::RBrace)
    } else if k == TokenKind::Indent {
        (TokenKind::Indent, TokenKind::Dedent)
    } else {
        return None;
    };
    let body_end = match find_closing(tokens, body_start, &open_kind, &close_kind) {
        Some(c) => c,
        None => {
            return None;
        },
    };
    let mut rules: Vec<(Vec<MacroArg>, Vec<MacroArg>)> = Vec::new();
    let mut i = body_start + 1;
    let ghost bs = (body_start + 1) as nat;
    let ghost be = body_end as nat;
    assert(rule_pairs_view(rules@) =~= Seq::<RuleView>::empty());
    assert(definition_at(tv, pos as nat) == match parse_rules(tv, bs, be, seq![]) {
        None => None::<(nat, Seq<char>, Seq<RuleView>)>,
        Some(rs) => Some((be, name@, rs)),
    });
    let mut done = false;
    while !done && i < body_end
        invariant
            definition_at(tv, pos as nat) == match parse_rules(tv, bs, be, seq![]) {
                None => None::<(nat, Seq<char>, Seq<RuleView>)>,
                Some(rs) => Some((be, name@, rs)),
            },
            pos < body_end,
            i <= tokens@.len(),
            body_end < tokens@.len(),
            be == body_end,
                tv == token_views(tokens@),
            !done ==> parse_rules(tv, bs, be, seq![]) == parse_rules(tv, i as nat, be, rule_pairs_view(rules@)),
            done ==> parse_rules(tv, bs, be, seq![]) == Some(rule_pairs_view(rules@)),
        decreases tokens@.len() - i, (if done { 0int } else { 1int }),
    {
        let ghost i0 = i as nat;
        let ghost acc = rule_pairs_view(rules@);
        while i < body_end && (tokens[i].kind == TokenKind::Newline || tokens[i].kind == TokenKind::LineComment
            || tokens[i].kind == TokenKind::BlockComment)
            invariant
                i0 <= i <= body_end,
                body_end < tokens@.len(),
                tv == token_views(tokens@),
                skip_trivia(tv, i0, be) == skip_trivia(tv, i as nat, be),
                be == body_end,
            decreases body_end - i,
        {
            assert(tv[i as int].0 == tokens@[i as int].kind);
            i = i + 1;
        }
        if i < body_end {
            assert(tv[i as int].0 == tokens@[i as int].kind);
        }
        if i >= body_end || tokens[i].kind != TokenKind::LParen {
            done = true;
        } else {
            assert(skip_trivia(tv, i0, be) == i);
            let pc = match find_closing(tokens, i, &TokenKind::LParen, &TokenKind::RParen) {
                Some(c) => c,
                None => {
                    assert(parse_rules(tv, i0, be, acc) is None);
                    return None;
                },
            };
            let pat = literal_args_between(tokens, i + 1, pc);
            let mut j = pc + 1;
            let ghost j0 = j as nat;
            while j < body_end && !(tokens[j].kind == TokenKind::FatArrow || tokens[j].kind == TokenKind::Equals)
                invariant
                    j0 <= j,
                    j <= tokens@.len(),
                    body_end < tokens@.len(),
                    tv == token_views(tokens@),
                    skip_to_arrow(tv, j0, be) == skip_to_arrow(tv, j as nat, be),
                    be == body_end,
                decreases body_end - j,
            {
                assert(tv[j as int].0 == tokens@[j as int].kind);
                j = j + 1;
            }
            if j < body_end {
                assert(tv[j as int].0 == tokens@[j as int].kind);
            }
            if j >= body_end {
                done = true;
            } else {
                j = j + 1;
                let ghost j1 = j as nat;
                while j < body_end && (tokens[j].kind == TokenKind::Newline || tokens[j].kind == TokenKind::LineComment
                    || tokens[j].kind == TokenKind::BlockComment)
                    invariant
                        j1 <= j <= body_end,
                        body_end < tokens@.len(),
                        tv == token_views(tokens@),
                        skip_trivia(tv, j1, be) == skip_trivia(tv, j as nat, be),
                        be == body_end,
                    decreases body_end - j,
                {
                    assert(tv[j as int].0 == tokens@[j as int].kind);
                    j = j + 1;
                }
                if j < body_end {
                    assert(tv[j as int].0 == tokens@[j as int].kind);
                }
                if j >= body_end || tokens[j].kind != TokenKind::LParen {
                    done = true;
                } else {
                    assert(skip_trivia(tv, j1, be) == j);
                    let tc = match find_closing(tokens, j, &TokenKind::LParen, &TokenKind::RParen) {
                        Some(c) => c,
                        None => {
                            assert(parse_rules(tv, i0, be, acc) is None);
                            return None;
                        },
                    };
                    let tmpl = literal_args_between(tokens, j + 1, tc);
                    let ghost before = rules@;
                    rules.push((pat, tmpl));
                    assert(rule_pairs_view(rules@) =~= rule_pairs_view(before).push((args_view(rules@.last().0@), args_view(rules@.last().1@))));
                    i = tc + 1;
                }
            }
        }
    }
    Some((body_end, name, rules))
}

// ---------------------------------------------------------------------------
// Expansion before parsing
// ---------------------------------------------------------------------------

/// The rules of each defined macro, by name.
pub type DefsView = Map<Seq<char>, Seq<RuleView>>;

/// Pass one from `i`: collects the macro definitions (a later definition of a
/// name replaces an earlier one) and keeps every other token.
pub open spec fn collect_definitions(ts: Seq<TokenView>, i: nat, defs: DefsView, kept: Seq<TokenView>) -> (DefsView, Seq<TokenView>)
    decreases ts.len() - i,
{
    if i >= ts.len() {
        (defs, kept)
    } else {
        match definition_at(ts, i) {
            Some(d) => {
                proof {
                    lemma_definition_end(ts, i);
                }
                collect_definitions(ts, d.0 + 1, defs.insert(d.1, d.2), kept)
            },
            None => collect_definitions(ts, i + 1, defs, kept.push(ts[i as int])),
        }
    }
}

pub proof fn lemma_definition_end(ts: Seq<TokenView>, pos: nat)
    ensures
        definition_at(ts, pos) matches Some(d) ==> pos < d.0 < ts.len(),
{
    if !(pos + 2 >= ts.len() || ts[pos as int].0 != TokenKind::Ident || ts[pos as int].1 != "macro"@
        || ts[pos + 1int].0 != TokenKind::Ident) {
        let bs = skip_newlines(ts, pos + 2);
        lemma_skips(ts, pos + 2, 0);
        if bs < ts.len() {
            let k = ts[bs as int].0;
            if k == TokenKind::LBrace {
                lemma_closing_from_bounds(ts, bs + 1, 1, TokenKind::LBrace, TokenKind::RBrace);
            } else if k == TokenKind::Indent {
                lemma_closing_from_bounds(ts, bs + 1, 1, TokenKind::Indent, TokenKind::Dedent);
            }
        }
    }
}

pub proof fn lemma_invocation_end(ts: Seq<TokenView>, pos: nat)
    ensures
        invocation_at(ts, pos) matches Some(x) ==> pos + 2 < x.0 < ts.len(),
{
    if !(pos + 2 >= ts.len() || ts[pos as int].0 != TokenKind::Ident || ts[pos + 1int].0 != TokenKind::Bang) {
        let k = ts[pos + 2int].0;
        if k == TokenKind::LParen {
            lemma_closing_from_bounds(ts, pos + 3, 1, TokenKind::LParen, TokenKind::RParen);
        } else if k == TokenKind::LBrace {
            lemma_closing_from_bounds(ts, pos + 3, 1, TokenKind::LBrace, TokenKind::RBrace);
        } else if k == TokenKind::LBracket {
            lemma_closing_from_bounds(ts, pos + 3, 1, TokenKind::LBracket, TokenKind::RBracket);
        }
    }
}

/// What expanding part of a token stream gives: tokens, warning messages, and
/// whether re-lexing an expansion would fail an arithmetic check.
pub struct Expansion {
    pub tokens: Seq<TokenView>,
    pub warnings: Seq<Seq<char>>,
    pub panics: bool,
}

pub open spec fn join_expansions(a: Expansion, b: Expansion) -> Expansion {
    Expansion { tokens: a.tokens + b.tokens, warnings: a.warnings + b.warnings, panics: a.panics || b.panics }
}

/// `ts` without `Eof` tokens.
pub open spec fn without_eof(ts: Seq<TokenView>) -> Seq<TokenView>
    decreases ts.len(),
{
    if ts.len() == 0 {
        seq![]
    } else if ts.last().0 == TokenKind::Eof {
        without_eof(ts.drop_last())
    } else {
        without_eof(ts.drop_last()).push(ts.last())
    }
}

/// The expansion of the invocation of `name` spanning `nd[i..=end]` with
/// arguments `inner`. Unknown macros, failed expansions and expansions that do
/// not lex are left as they were; the last two also give a warning. An
/// expansion to nothing gives no tokens.
pub open spec fn expand_invocation(nd: Seq<TokenView>, i: nat, end: nat, name: Seq<char>, inner: Seq<TokenView>, defs: DefsView) -> Expansion {
    let orig = nd.subrange(i as int, end + 1int);
    if !defs.contains_key(name) {
        Expansion { tokens: orig, warnings: seq![], panics: false }
    } else {
        match first_rule(defs[name], literal_args(inner), 0) {
            None => Expansion {
                tokens: orig,
                warnings: seq!["Macro expansion failed for '"@ + name + "': "@ + "No matching rule for macro `"@ + name + "`"@],
                panics: false,
            },
            Some(exp) => {
                let text = args_text(exp);
                if text.len() == 0 {
                    Expansion { tokens: seq![], warnings: seq![], panics: false }
                } else {
                    match lex_run(text, initial_state()) {
                        LexOutcome::Done(ts) => Expansion { tokens: without_eof(ts), warnings: seq![], panics: false },
                        LexOutcome::Failed(e) => Expansion {
                            tokens: orig,
                            warnings: seq!["Failed to lexicalize expanded macro '"@ + name + "': "@ + e + " (expanded to: '"@ + text + "')"@],
                            panics: false,
                        },
                        LexOutcome::Panics => Expansion { tokens: seq![], warnings: seq![], panics: true },
                    }
                }
            },
        }
    }
}

/// Pass two from `i`: each invocation replaced by its expansion.
pub open spec fn expand_invocations(nd: Seq<TokenView>, defs: DefsView, i: nat) -> Expansion
    decreases nd.len() - i,
{
    if i >= nd.len() {
        Expansion { tokens: seq![], warnings: seq![], panics: false }
    } else {
        match invocation_at(nd, i) {
            Some(x) => {
                proof {
                    lemma_invocation_end(nd, i);
                }
                join_expansions(expand_invocation(nd, i, x.0, x.1, x.2, defs), expand_invocations(nd, defs, x.0 + 1))
            },
            None => join_expansions(
                Expansion { tokens: seq![nd[i as int]], warnings: seq![], panics: false },
                expand_invocations(nd, defs, i + 1),
            ),
        }
    }
}

/// Both passes over a token stream.
pub open spec fn pre_parse(ts: Seq<TokenView>) -> Expansion {
    let p1 = collect_definitions(ts, 0, Map::empty(), seq![]);
    expand_invocations(p1.1, p1.0, 0)
}

/// Whether `ts` holds no `macro` keyword that could start a definition.
pub open spec fn no_definitions(ts: Seq<TokenView>) -> bool {
    forall|i: int| 0 <= i < ts.len() ==> !((#[trigger] ts[i]).0 == TokenKind::Ident && ts[i].1 == "macro"@)
}

proof fn lemma_collect_without_definitions(ts: Seq<TokenView>, i: nat, defs: DefsView, kept: Seq<TokenView>)
    requires
        no_definitions(ts),
        i <= ts.len(),
    ensures
        collect_definitions(ts, i, defs, kept) == (defs, kept + ts.subrange(i as int, ts.len() as int)),
    decreases ts.len() - i,
{
    if i >= ts.len() {
        assert(kept + ts.subrange(i as int, ts.len() as int) =~= kept);
    } else {
        assert(!(ts[i as int].0 == TokenKind::Ident && ts[i as int].1 == "macro"@));
        assert(definition_at(ts, i) is None);
        lemma_collect_without_definitions(ts, i + 1, defs, kept.push(ts[i as int]));
        assert(kept.push(ts[i as int]) + ts.subrange(i + 1int, ts.len() as int) =~= kept + ts.subrange(i as int, ts.len() as int));
    }
}

proof fn lemma_expand_without_definitions(nd: Seq<TokenView>, i: nat)
    requires
        i <= nd.len(),
    ensures
        expand_invocations(nd, Map::empty(), i)
            == (Expansion { tokens: nd.subrange(i as int, nd.len() as int), warnings: seq![], panics: false }),
    decreases nd.len() - i,
{
    if i >= nd.len() {
        assert(nd.subrange(i as int, nd.len() as int) =~= Seq::<TokenView>::empty());
    } else {
        lemma_invocation_end(nd, i);
        match invocation_at(nd, i) {
            Some(x) => {
                lemma_expand_without_definitions(nd, x.0 + 1);
                assert(nd.subrange(i as int, x.0 + 1int) + nd.subrange(x.0 + 1int, nd.len() as int)
                    =~= nd.subrange(i as int, nd.len() as int));
                assert(Seq::<Seq<char>>::empty() + Seq::<Seq<char>>::empty() =~= Seq::<Seq<char>>::empty());
            },
            None => {
                lemma_expand_without_definitions(nd, i + 1);
                assert(seq![nd[i as int]] + nd.subrange(i + 1int, nd.len() as int) =~= nd.subrange(i as int, nd.len() as int));
                assert(Seq::<Seq<char>>::empty() + Seq::<Seq<char>>::empty() =~= Seq::<Seq<char>>::empty());
            },
        }
    }
}

/// Without macro definitions, expansion changes nothing: every token,
/// invocations of unknown macros included, is kept as it was, with no
/// warning.
pub proof fn law_expansion_without_definitions_is_identity(ts: Seq<TokenView>)
    requires
        no_definitions(ts),
    ensures
        pre_parse(ts) == (Expansion { tokens: ts, warnings: seq![], panics: false }),
{
    lemma_collect_without_definitions(ts, 0, Map::empty(), seq![]);
    assert(Seq::<TokenView>::empty() + ts.subrange(0, ts.len() as int) =~= ts);
    lemma_expand_without_definitions(ts, 0);
    assert(ts.subrange(0, ts.len() as int) =~= ts);
}

/// The rules of each macro an expander knows.
pub open spec fn expander_defs(e: MacroExpander) -> DefsView {
    Map::new(|k: Seq<char>| e.defs().contains_key(k), |k: Seq<char>| e.defs()[k].spec_rules())
}

/// Each definition is stored under its own name.
pub open spec fn names_match(e: MacroExpander) -> bool {
    forall|k: Seq<char>| #[trigger] e.defs().contains_key(k) ==> e.defs()[k].name@ == k
}

/// Whether `d` is a warning with the given message and the
/// unsupported-feature code, and nothing attached.
pub open spec fn is_plain_warning(d: Diagnostic, msg: Seq<char>) -> bool {
    &&& d.severity == Severity::Warning
    &&& d.code.0@ == "7001"@
    &&& d.message@ == msg
    &&& d.spans@.len() == 0
    &&& d.labels@.len() == 0
    &&& d.suggestions@.len() == 0
    &&& d.notes@.len() == 0
}

fn append_token_range(out: &mut Vec<Token>, ts: &Vec<Token>, a: usize, b: usize)
    requires
        a <= b <= ts@.len(),
    ensures
        token_views(final(out)@) == token_views(old(out)@) + token_views(ts@).subrange(a as int, b as int),
{
    let ghost start = token_views(out@);
    let mut i = a;
    assert(token_views(ts@).subrange(a as int, a as int) =~= Seq::<TokenView>::empty());
    assert(token_views(out@) =~= start + token_views(ts@).subrange(a as int, a as int));
    while i < b
        invariant
            a <= i <= b,
            b <= ts@.len(),
            token_views(out@) == start + token_views(ts@).subrange(a as int, i as int),
        decreases b - i,
    {
        let ghost before = out@;
        out.push(copy_token(&ts[i]));
        assert(token_views(out@) =~= token_views(before).push(ts@[i as int]@));
        assert(token_views(out@) =~= start + token_views(ts@).subrange(a as int, i + 1));
        i = i + 1;
    }
}

/// Appends the tokens of `ts` other than `Eof` to `out`.
fn append_without_eof(out: &mut Vec<Token>, ts: &Vec<Token>)
    ensures
        token_views(final(out)@) == token_views(old(out)@) + without_eof(token_views(ts@)),
{
    let ghost start = token_views(out@);
    let ghost tv = token_views(ts@);
    let mut i: usize = 0;
    assert(tv.take(0) =~= Seq::<TokenView>::empty());
    assert(token_views(out@) =~= start + without_eof(tv.take(0)));
    while i < ts.len()
        invariant
            i <= ts@.len(),
            tv == token_views(ts@),
            token_views(out@) == start + without_eof(tv.take(i as int)),
        decreases ts.len() - i,
    {
        assert(tv.take(i + 1).drop_last() =~= tv.take(i as int));
        assert(tv.take(i + 1).last() == ts@[i as int]@);
        if ts[i].kind != TokenKind::Eof {
            let ghost before = out@;
            out.push(copy_token(&ts[i]));
            assert(token_views(out@) =~= token_views(before).push(ts@[i as int]@));
            assert(token_views(out@) =~= start + without_eof(tv.take(i + 1)));
        } else {
            assert(token_views(out@) =~= start + without_eof(tv.take(i + 1)));
        }
        i = i + 1;
    }
    assert(tv.take(ts@.len() as int) =~= tv);
}

/// The messages of `ds`, in order.
pub open spec fn messages(ds: Seq<Diagnostic>) -> Seq<Seq<char>> {
    Seq::new(ds.len(), |i: int| ds[i].message@)
}

proof fn lemma_join_assoc(a: Expansion, b: Expansion, c: Expansion)
    ensures
        join_expansions(a, join_expansions(b, c)) == join_expansions(join_expansions(a, b), c),
{
    assert(a.tokens + (b.tokens + c.tokens) =~= (a.tokens + b.tokens) + c.tokens);
    assert(a.warnings + (b.warnings + c.warnings) =~= (a.warnings + b.warnings) + c.warnings);
}

proof fn lemma_join_empty(a: Expansion)
    ensures
        join_expansions(Expansion { tokens: seq![], warnings: seq![], panics: false }, a) == a,
{
    assert(Seq::<TokenView>::empty() + a.tokens =~= a.tokens);
    assert(Seq::<Seq<char>>::empty() + a.warnings =~= a.warnings);
}

fn is_empty_text(s: &str) -> (b: bool)
    ensures
        b == (s@.len() == 0),
{
    crate::text::chars_of(s).len() == 0
}

fn push_warning(ds: &mut Vec<Diagnostic>, msg: String)
    requires
        forall|k: int| 0 <= k < old(ds)@.len() ==> is_plain_warning(#[trigger] old(ds)@[k], old(ds)@[k].message@),
    ensures
        final(ds)@.len() == old(ds)@.len() + 1,
        forall|k: int| 0 <= k < old(ds)@.len() ==> #[trigger] final(ds)@[k] == old(ds)@[k],
        final(ds)@.last().message@ == msg@,
        forall|k: int| 0 <= k < final(ds)@.len() ==> is_plain_warning(#[trigger] final(ds)@[k], final(ds)@[k].message@),
{
    let d = Diagnostic::warning(codegen_unsupported_feature(), msg);
    proof {
        reveal_strlit("7001");
    }
    ds.push(d);
}

/// Expands macros in a token stream before parsing. Pass one removes the
/// `macro name { ... }` definitions and records them; pass two replaces each
/// invocation `name!(...)` of a defined macro by the tokens of its expansion,
/// lexed again. Invocations of unknown macros stay as they are. A failed
/// expansion keeps the invocation and gives a warning; any warning makes the
/// result the list of warnings.
pub fn expand_tokens_pre_parse(tokens: &[Token]) -> (r: Result<Vec<Token>, Vec<Diagnostic>>)
    requires
        !pre_parse(token_views(tokens@)).panics,
    ensures
        r is Ok <==> pre_parse(token_views(tokens@)).warnings.len() == 0,
        r matches Ok(ts) ==> token_views(ts@) == pre_parse(token_views(tokens@)).tokens,
        r matches Err(ds) ==> ds@.len() == pre_parse(token_views(tokens@)).warnings.len()
            && forall|k: int| 0 <= k < ds@.len() ==> is_plain_warning(#[trigger] ds@[k], pre_parse(token_views(tokens@)).warnings[k]),
{
    let ghost tv = token_views(tokens@);
    let mut expander = MacroExpander::new();
    let mut no_defs: Vec<Token> = Vec::new();
    let mut i: usize = 0;
    assert(expander_defs(expander) =~= Map::<Seq<char>, Seq<RuleView>>::empty());
    assert(token_views(no_defs@) =~= Seq::<TokenView>::empty());
    while i < tokens.len()
        invariant
            i <= tokens@.len(),
                tv == token_views(tokens@),
            no_defs@.len() <= i,
            names_match(expander),
            collect_definitions(tv, 0, Map::empty(), seq![])
                == collect_definitions(tv, i as nat, expander_defs(expander), token_views(no_defs@)),
        decreases tokens.len() - i,
    {
        match parse_macro_definition(tokens, i) {
            Some((end, name, rules)) => {
                let mut def = MacroDefinition::new(name.as_str());
                let ghost rv = rule_pairs_view(rules@);
                let mut rules = rules;
                let mut k: usize = 0;
                assert(def.spec_rules() =~= rv.take(0));
                assert(rules@ =~= rules@.skip(0));
                let ghost orig = rules@;
                assert(orig.len() == rules.len());
                while rules.len() > 0
                    invariant
                        orig.len() <= usize::MAX,
                        k <= orig.len(),
                        rv == rule_pairs_view(orig),
                        rules@ == orig.skip(k as int),
                        def.spec_rules() == rv.take(k as int),
                        def.name@ == name@,
                    decreases rules.len(),
                {
                    let (pattern, template) = rules.remove(0);
                    proof {
                        assert(orig[k as int] == (pattern, template));
                        assert(rules@ =~= orig.skip(k + 1));
                    }
                    def.add_rule(pattern, template);
                    assert(def.spec_rules() =~= rv.take(k + 1));
                    k = k + 1;
                }
                assert(rv.take(k as int) =~= rv);
                let ghost before = expander;
                expander.define(name.as_str(), def);
                assert(expander_defs(expander) =~= expander_defs(before).insert(name@, rv));
                i = end + 1;
            },
            None => {
                let ghost before = token_views(no_defs@);
                no_defs.push(copy_token(&tokens[i]));
                assert(token_views(no_defs@) =~= before.push(tv[i as int]));
                i = i + 1;
            },
        }
    }
    let ghost defs = expander_defs(expander);
    let ghost nd = token_views(no_defs@);
    let ghost whole = pre_parse(tv);
    assert(whole == expand_invocations(nd, defs, 0));
    let mut result: Vec<Token> = Vec::new();
    let mut diagnostics: Vec<Diagnostic> = Vec::new();
    let mut i: usize = 0;
    assert(token_views(result@) =~= Seq::<TokenView>::empty());
    assert(messages(diagnostics@) =~= Seq::<Seq<char>>::empty());
    proof {
        lemma_join_empty(expand_invocations(nd, defs, 0));
    }
    while i < no_defs.len()
        invariant
            i <= no_defs@.len(),
            nd == token_views(no_defs@),
            defs == expander_defs(expander),
            names_match(expander),
            whole == join_expansions(
                Expansion { tokens: token_views(result@), warnings: messages(diagnostics@), panics: false },
                expand_invocations(nd, defs, i as nat),
            ),
            !whole.panics,
            forall|k: int| 0 <= k < diagnostics@.len() ==> is_plain_warning(#[trigger] diagnostics@[k], diagnostics@[k].message@),
        decreases no_defs.len() - i,
    {
        let ghost acc = Expansion { tokens: token_views(result@), warnings: messages(diagnostics@), panics: false };
        let ghost rest = expand_invocations(nd, defs, i as nat);
        match find_macro_invocation(no_defs.as_slice(), i) {
            Some((end, name, inner)) => {
                let ghost seg = expand_invocation(nd, i as nat, end as nat, name@, token_views(inner@), defs);
                proof {
                    lemma_join_assoc(acc, seg, expand_invocations(nd, defs, end as nat + 1));
                }
                let ghost r0 = token_views(result@);
                let ghost m0 = messages(diagnostics@);
                if expander.is_defined(name.as_str()) {
                    let args = tokens_to_flat_macro_args(inner.as_slice());
                    match expander.expand(name.as_str(), args.as_slice()) {
                        Ok(expanded) => {
                            let text = macro_args_to_string(expanded.as_slice());
                            if !is_empty_text(text.as_str()) {
                                match tokenize_complete(text.as_str()) {
                                    Ok(ts) => {
                                        append_without_eof(&mut result, &ts);
                                        assert(seg.tokens == without_eof(token_views(ts@)));
                                        assert(seg.warnings =~= Seq::<Seq<char>>::empty());
                                    },
                                    Err(e) => {
                                        let mut msg = String::new();
                                        push_str(&mut msg, "Failed to lexicalize expanded macro '");
                                        push_str(&mut msg, name.as_str());
                                        push_str(&mut msg, "': ");
                                        push_str(&mut msg, e.as_str());
                                        push_str(&mut msg, " (expanded to: '");
                                        push_str(&mut msg, text.as_str());
                                        push_str(&mut msg, "')");
                                        let ghost mv = msg@;
                                        push_warning(&mut diagnostics, msg);
                                        append_token_range(&mut result, &no_defs, i, end + 1);
                                        assert(messages(diagnostics@) =~= m0 + seq![mv]);
                                        assert(seg.warnings[0] =~= mv);
                                        assert(seg.warnings =~= seq![mv]);
                                    },
                                }
                            } else {
                                assert(token_views(result@) =~= r0 + Seq::<TokenView>::empty());
                                assert(seg.warnings =~= Seq::<Seq<char>>::empty());
                            }
                        },
                        Err(e) => {
                            let mut msg = String::new();
                            push_str(&mut msg, "Macro expansion failed for '");
                            push_str(&mut msg, name.as_str());
                            push_str(&mut msg, "': ");
                            push_str(&mut msg, e.as_str());
                            let ghost mv = msg@;
                            push_warning(&mut diagnostics, msg);
                            append_token_range(&mut result, &no_defs, i, end + 1);
                            assert(messages(diagnostics@) =~= m0 + seq![mv]);
                            assert(expander.defs()[name@].name@ == name@);
                            assert(seg.warnings[0] =~= mv);
                            assert(seg.warnings =~= seq![mv]);
                        },
                    }
                } else {
                    append_token_range(&mut result, &no_defs, i, end + 1);
                    assert(seg.warnings =~= Seq::<Seq<char>>::empty());
                }
                assert(messages(diagnostics@) =~= m0 + seg.warnings);
                assert(token_views(result@) =~= r0 + seg.tokens);
                assert(rest == join_expansions(seg, expand_invocations(nd, defs, end as nat + 1)));
                assert(!seg.panics);
                assert(join_expansions(acc, seg) == Expansion { tokens: token_views(result@), warnings: messages(diagnostics@), panics: false });
                i = end + 1;
            },
            None => {
                let ghost seg = Expansion { tokens: seq![nd[i as int]], warnings: seq![], panics: false };
                proof {
                    lemma_join_assoc(acc, seg, expand_invocations(nd, defs, i as nat + 1));
                }
                let ghost r0 = result@;
                result.push(copy_token(&no_defs[i]));
                assert(token_views(result@) =~= token_views(r0).push(nd[i as int]));
                assert(token_views(result@) =~= token_views(r0) + seg.tokens);
                assert(messages(diagnostics@) =~= messages(diagnostics@) + seg.warnings);
                assert(join_expansions(acc, seg) == Expansion { tokens: token_views(result@), warnings: messages(diagnostics@), panics: false });
                i = i + 1;
            },
        }
    }
    if diagnostics.len() == 0 {
        Ok(result)
    } else {
        Err(diagnostics)
    }
}

} // verus!
