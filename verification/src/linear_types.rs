//! Linear-value tracking, `inout` parameter desugaring and the FFI sandbox.

use vstd::prelude::*;
use crate::strmap::StrMap;
use crate::text::{
    chars_contains, chars_of, contains_sub, is_prefix, push_str, replace_all, replace_chars,
    split_char, split_chars, str_eq, string_from_chars, strip_prefix_or_self,
    strip_prefix_or_self_exec,
};

verus! {

#[derive(Debug, Clone, Copy, PartialEq, Eq, Structural)]
pub enum LinearKind {
    Unrestricted,
    Linear,
    Affine,
    Owned,
}

#[derive(Debug, Clone, Copy, PartialEq, Eq, Structural)]
pub enum RegionKind {
    Static,
    Dynamic,
    Polonius,
}

#[derive(Debug, Clone, Copy, PartialEq, Eq, Structural)]
pub enum LinearState {
    Available,
    Consumed,
    Moved,
}

/// Tracks which names are linear and which linear values were used.
pub struct LinearTypeChecker {
    consumed: StrMap<LinearState>,
    linear_kinds: StrMap<LinearKind>,
}

/// "Linear value `name` " followed by `tail`.
pub open spec fn linear_msg(name: Seq<char>, tail: Seq<char>) -> Seq<char> {
    "Linear value `"@ + name + "` "@ + tail
}

fn linear_msg_exec(name: &str, tail: &str) -> (s: String)
    ensures
        s@ == linear_msg(name@, tail@),
{
    let mut s = String::new();
    push_str(&mut s, "Linear value `");
    push_str(&mut s, name);
    push_str(&mut s, "` ");
    push_str(&mut s, tail);
    assert(s@ =~= linear_msg(name@, tail@));
    s
}

impl LinearTypeChecker {
    /// The recorded state of each used name.
    pub closed spec fn states(&self) -> Map<Seq<char>, LinearState> {
        self.consumed@
    }

    /// The registered kind of each name.
    pub closed spec fn kinds(&self) -> Map<Seq<char>, LinearKind> {
        self.linear_kinds@
    }

    pub open spec fn spec_is_linear(&self, name: Seq<char>) -> bool {
        self.kinds().contains_key(name) && self.kinds()[name] == LinearKind::Linear
    }

    pub fn new() -> (c: Self)
        ensures
            c.states() == Map::<Seq<char>, LinearState>::empty(),
            c.kinds() == Map::<Seq<char>, LinearKind>::empty(),
    {
        LinearTypeChecker { consumed: StrMap::new(), linear_kinds: StrMap::new() }
    }

    pub fn register_linear(&mut self, name: &str, kind: LinearKind)
        ensures
            final(self).kinds() == old(self).kinds().insert(name@, kind),
            final(self).states() == old(self).states(),
    {
        self.linear_kinds.insert(String::from_str(name), kind);
    }

    /// Whether `name` was registered as `Linear`.
    pub fn is_linear(&self, name: &str) -> (b: bool)
        ensures
            b == self.spec_is_linear(name@),
    {
        match self.linear_kinds.get(name) {
            Some(k) => *k == LinearKind::Linear,
            None => false,
        }
    }

    /// Records the use of `name`. Using a linear value that was already used or
    /// moved is an error; other names are not tracked.
    pub fn mark_consumed(&mut self, name: &str) -> (r: Result<(), String>)
        ensures
            final(self).kinds() == old(self).kinds(),
            r is Err <==> (old(self).spec_is_linear(name@) && old(self).states().contains_key(name@)
                && old(self).states()[name@] != LinearState::Available),
            r matches Err(e) ==> e@ == linear_msg(name@,
                if old(self).states()[name@] == LinearState::Consumed { "already used"@ } else { "already moved"@ }),
            r is Ok ==> final(self).states() == (if old(self).spec_is_linear(name@) {
                old(self).states().insert(name@, LinearState::Consumed)
            } else {
                old(self).states()
            }),
            r is Err ==> final(self).states() == old(self).states(),
    {
        if self.is_linear(name) {
            match self.consumed.get(name) {
                Some(state) => {
                    if *state == LinearState::Consumed {
                        return Err(linear_msg_exec(name, "already used"));
                    }
                    if *state == LinearState::Moved {
                        return Err(linear_msg_exec(name, "already moved"));
                    }
                }
                None => {}
            }
            self.consumed.insert(String::from_str(name), LinearState::Consumed);
        }
        Ok(())
    }

    /// A linear value is available until it has any recorded state.
    pub fn check_available(&self, name: &str) -> (r: Result<(), String>)
        ensures
            r is Err <==> (self.spec_is_linear(name@) && self.states().contains_key(name@)),
            r matches Err(e) ==> e@ == linear_msg(name@, "already consumed"@),
    {
        if self.is_linear(name) {
            if self.consumed.contains_key(name) {
                return Err(linear_msg_exec(name, "already consumed"));
            }
        }
        Ok(())
    }

    /// An error for each linear name of `stmts` still recorded as available.
    pub fn check_scope_exit(&self, stmts: &[String]) -> (errors: Vec<String>)
        ensures
            errors@.map_values(|e: String| e@) == unused_linear_errors(self, stmts@.map_values(|s: String| s@)),
    {
        let ghost names = stmts@.map_values(|s: String| s@);
        let mut errors: Vec<String> = Vec::new();
        let mut k: usize = 0;
        while k < stmts.len()
            invariant
                k <= stmts@.len(),
                names == stmts@.map_values(|s: String| s@),
                errors@.map_values(|e: String| e@) == unused_linear_errors(self, names.take(k as int)),
            decreases stmts.len() - k,
        {
            let name = stmts[k].as_str();
            proof {
                assert(names.take(k + 1).drop_last() =~= names.take(k as int));
                assert(names.take(k + 1).last() == stmts@[k as int]@);
            }
            let ghost before = errors@;
            if self.is_linear(name) {
                match self.consumed.get(name) {
                    Some(state) => {
                        if *state == LinearState::Available {
                            errors.push(linear_msg_exec(name, "not used before scope exit"));
                        }
                    }
                    None => {}
                }
            }
            assert(errors@.map_values(|e: String| e@) =~= unused_linear_errors(self, names.take(k + 1)));
            k = k + 1;
        }
        assert(names.take(k as int) =~= names);
        errors
    }
}

/// The scope-exit errors for `names`, in order.
pub open spec fn unused_linear_errors(c: &LinearTypeChecker, names: Seq<Seq<char>>) -> Seq<Seq<char>>
    decreases names.len(),
{
    if names.len() == 0 {
        seq![]
    } else {
        let rest = unused_linear_errors(c, names.drop_last());
        let n = names.last();
        if c.spec_is_linear(n) && c.states().contains_key(n) && c.states()[n] == LinearState::Available {
            rest.push(linear_msg(n, "not used before scope exit"@))
        } else {
            rest
        }
    }
}

/// Rewrites `inout` parameters into move-in / move-out pairs.
pub struct InOutDesugar {
    pub inout_params: Vec<(String, Type)>,
}

/// The `inout` prefix of a parameter name.
pub open spec fn inout_prefix() -> Seq<char> {
    "inout_"@
}

/// One rewritten signature parameter.
pub open spec fn desugar_param(p: Seq<char>) -> Seq<char> {
    if contains_sub(p, "inout "@) {
        let parts = split_char(p, ':');
        "__in_"@ + replace_all(p, "inout "@, ""@) + ": "@ + (if parts.len() > 1 { parts[1] } else { Seq::<char>::empty() })
    } else {
        p
    }
}

/// The rewritten parameters of `ps`, joined with ", ".
pub open spec fn desugar_params(ps: Seq<Seq<char>>) -> Seq<char>
    decreases ps.len(),
{
    if ps.len() == 0 {
        seq![]
    } else if ps.len() == 1 {
        desugar_param(ps[0])
    } else {
        desugar_params(ps.drop_last()) + ", "@ + desugar_param(ps.last())
    }
}

impl InOutDesugar {
    pub fn new() -> (d: Self)
        ensures
            d.inout_params@.len() == 0,
    {
        InOutDesugar { inout_params: Vec::new() }
    }

    /// For each parameter: its name without the `inout_` prefix, whether it had
    /// the prefix, and an unknown type.
    pub fn detect_inout(&mut self, params: &[String]) -> (result: Vec<(String, bool, Type)>)
        ensures
            result@.len() == params@.len(),
            forall|k: int| 0 <= k < params@.len() ==> {
                &&& (#[trigger] result@[k]).1 == is_prefix(inout_prefix(), params@[k]@)
                &&& result@[k].0@ == strip_prefix_or_self(inout_prefix(), params@[k]@)
                &&& result@[k].2 == Type::Unknown
            },
    {
        let mut result: Vec<(String, bool, Type)> = Vec::new();
        let mut k: usize = 0;
        while k < params.len()
            invariant
                k <= params@.len(),
                result@.len() == k,
                forall|q: int| 0 <= q < k ==> {
                    &&& (#[trigger] result@[q]).1 == is_prefix(inout_prefix(), params@[q]@)
                    &&& result@[q].0@ == strip_prefix_or_self(inout_prefix(), params@[q]@)
                    &&& result@[q].2 == Type::Unknown
                },
            decreases params.len() - k,
        {
            let p = params[k].as_str();
            let is_io = crate::text::str_starts_with(p, "inout_");
            let name = strip_prefix_or_self_exec(p, "inout_");
            result.push((name, is_io, Type::Unknown));
            k = k + 1;
        }
        result
    }

    /// Rewrites each comma-separated parameter containing "inout " as
    /// `__in_<param without "inout ">: <text after its first ':'>`.
    pub fn desugar_signature(&self, sig: &str) -> (r: String)
        ensures
            r@ == desugar_params(split_char(sig@, ',')),
    {
        let sv = chars_of(sig);
        let parts = split_chars(sv.as_slice(), ',');
        let ghost ps = split_char(sig@, ',');
        let pat = chars_of("inout ");
        let empty: Vec<char> = Vec::new();
        proof {
            reveal_strlit("");
            assert(empty@ =~= ""@);
        }
        let mut result = String::new();
        let mut i: usize = 0;
        while i < parts.len()
            invariant
                i <= parts@.len(),
                parts@.len() == ps.len(),
                forall|k: int| 0 <= k < parts@.len() ==> (#[trigger] parts@[k])@ == ps[k],
                pat@ == "inout "@,
                empty@ == Seq::<char>::empty(),
                empty@ == ""@,
                result@ == desugar_params(ps.take(i as int)),
            decreases parts.len() - i,
        {
            let p = parts[i].as_slice();
            if i > 0 {
                push_str(&mut result, ", ");
            }
            let ghost start = result@;
            if chars_contains(p, pat.as_slice()) {
                push_str(&mut result, "__in_");
                let replaced = replace_chars(p, pat.as_slice(), empty.as_slice());
                let rs = string_from_chars(replaced.as_slice());
                push_str(&mut result, rs.as_str());
                push_str(&mut result, ": ");
                let ghost mid = result@;
                let pieces = split_chars(p, ':');
                let ghost pi = ps[i as int];
                assert(p@ == pi);
                assert(contains_sub(pi, "inout "@));
                assert(replaced@ == replace_all(pi, "inout "@, ""@));
                assert(mid == start + "__in_"@ + replace_all(pi, "inout "@, ""@) + ": "@);
                if pieces.len() > 1 {
                    let second = string_from_chars(pieces[1].as_slice());
                    push_str(&mut result, second.as_str());
                    assert(second@ == split_char(pi, ':')[1]);
                } else {
                    assert(result@ =~= mid + Seq::<char>::empty());
                }
                assert(result@ =~= start + desugar_param(ps[i as int]));
            } else {
                let whole = string_from_chars(p);
                push_str(&mut result, whole.as_str());
                assert(result@ =~= start + desugar_param(ps[i as int]));
            }
            proof {
                assert(ps.take(i + 1).drop_last() =~= ps.take(i as int));
                assert(ps.take(i + 1).last() == ps[i as int]);
                if i == 0 {
                    assert(ps.take(1) =~= seq![ps[0]]);
                    assert(start =~= Seq::<char>::empty());
                }
            }
            i = i + 1;
            assert(result@ =~= desugar_params(ps.take(i as int)));
        }
        assert(ps.take(i as int) =~= ps);
        result
    }

    /// `let __in_<name> = <param>;`, where `<name>` drops any `inout_` prefix.
    pub fn generate_move_in(&self, param: &str) -> (r: Vec<String>)
        ensures
            r@.len() == 1,
            r@[0]@ == "let __in_"@ + strip_prefix_or_self(inout_prefix(), param@) + " = "@ + param@ + ";"@,
    {
        let real_name = strip_prefix_or_self_exec(param, "inout_");
        let mut s = String::new();
        push_str(&mut s, "let __in_");
        push_str(&mut s, real_name.as_str());
        push_str(&mut s, " = ");
        push_str(&mut s, param);
        push_str(&mut s, ";");
        let mut v: Vec<String> = Vec::new();
        v.push(s);
        v
    }

    /// `<name> = __out_<name>;`, where `<name>` drops any `inout_` prefix.
    pub fn generate_move_out(&self, param: &str) -> (r: Vec<String>)
        ensures
            r@.len() == 1,
            r@[0]@ == strip_prefix_or_self(inout_prefix(), param@) + " = __out_"@
                + strip_prefix_or_self(inout_prefix(), param@) + ";"@,
    {
        let real_name = strip_prefix_or_self_exec(param, "inout_");
        let mut s = String::new();
        push_str(&mut s, real_name.as_str());
        push_str(&mut s, " = __out_");
        push_str(&mut s, real_name.as_str());
        push_str(&mut s, ";");
        let mut v: Vec<String> = Vec::new();
        v.push(s);
        v
    }
}

/// The capabilities and permitted calls of foreign code.
pub struct FfiSandbox {
    allowed_calls: StrMap<bool>,
    io_caps: Vec<String>,
    fs_caps: Vec<String>,
    memory_limit: usize,
    stack_size: usize,
}

impl FfiSandbox {
    pub closed spec fn allowed(&self) -> Map<Seq<char>, bool> {
        self.allowed_calls@
    }

    /// The granted capabilities (I/O ones, then filesystem ones).
    pub closed spec fn caps(&self) -> (Seq<Seq<char>>, Seq<Seq<char>>) {
        (self.io_caps@.map_values(|s: String| s@), self.fs_caps@.map_values(|s: String| s@))
    }

    pub closed spec fn limits(&self) -> (usize, usize) {
        (self.memory_limit, self.stack_size)
    }

    /// A sandbox with no capability and no permitted call, 1 MiB of memory and a 64 KiB stack.
    pub fn new() -> (s: Self)
        ensures
            s.allowed() == Map::<Seq<char>, bool>::empty(),
            s.caps().0.len() == 0,
            s.caps().1.len() == 0,
            s.limits() == (1048576usize, 65536usize),
    {
        let s = FfiSandbox {
            allowed_calls: StrMap::new(),
            io_caps: Vec::new(),
            fs_caps: Vec::new(),
            memory_limit: 1024 * 1024,
            stack_size: 64 * 1024,
        };
        assert(s.caps().0 =~= Seq::<Seq<char>>::empty());
        assert(s.caps().1 =~= Seq::<Seq<char>>::empty());
        s
    }

    /// "io" grants I/O; "fs" and "filesystem" grant filesystem access; anything else is ignored.
    pub fn grant_capability(&mut self, capability: &str)
        ensures
            final(self).allowed() == old(self).allowed(),
            final(self).limits() == old(self).limits(),
            capability@ == "io"@ ==> final(self).caps() == (old(self).caps().0.push("io"@), old(self).caps().1),
            (capability@ == "fs"@ || capability@ == "filesystem"@) ==>
                final(self).caps() == (old(self).caps().0, old(self).caps().1.push("filesystem"@)),
            !(capability@ == "io"@ || capability@ == "fs"@ || capability@ == "filesystem"@) ==>
                final(self).caps() == old(self).caps(),
    {
        proof {
            reveal_strlit("io");
            reveal_strlit("fs");
            reveal_strlit("filesystem");
        }
        if str_eq(capability, "io") {
            self.io_caps.push(String::from_str("io"));
            assert(self.caps().0 =~= old(self).caps().0.push("io"@));
            assert(self.caps().1 =~= old(self).caps().1);
            assert("io"@[0] != "fs"@[0]);
            assert("io"@.len() != "filesystem"@.len());
        } else if str_eq(capability, "fs") || str_eq(capability, "filesystem") {
            self.fs_caps.push(String::from_str("filesystem"));
            assert(self.caps().1 =~= old(self).caps().1.push("filesystem"@));
            assert(self.caps().0 =~= old(self).caps().0);
        }
    }

    pub fn has_capability(&self, cap: &str) -> (b: bool)
        ensures
            b == (self.caps().0.contains(cap@) || self.caps().1.contains(cap@)),
    {
        string_list_contains(&self.io_caps, cap) || string_list_contains(&self.fs_caps, cap)
    }

    /// Whether `fn_name` was permitted.
    pub fn can_call(&self, fn_name: &str) -> (b: bool)
        ensures
            b == (self.allowed().contains_key(fn_name@) && self.allowed()[fn_name@]),
    {
        match self.allowed_calls.get(fn_name) {
            Some(b) => *b,
            None => false,
        }
    }

    pub fn allow_call(&mut self, fn_name: &str)
        ensures
            final(self).allowed() == old(self).allowed().insert(fn_name@, true),
            final(self).caps() == old(self).caps(),
            final(self).limits() == old(self).limits(),
    {
        self.allowed_calls.insert(String::from_str(fn_name), true);
    }

    pub fn check(&self, call: &str) -> (r: Result<(), String>)
        ensures
            r is Ok <==> (self.allowed().contains_key(call@) && self.allowed()[call@]),
            r matches Err(e) ==> e@ == "FFI call `"@ + call@ + "` not allowed in sandbox"@,
    {
        if self.can_call(call) {
            Ok(())
        } else {
            let mut s = String::new();
            push_str(&mut s, "FFI call `");
            push_str(&mut s, call);
            push_str(&mut s, "` not allowed in sandbox");
            assert(s@ =~= "FFI call `"@ + call@ + "` not allowed in sandbox"@);
            Err(s)
        }
    }
}

/// Whether some string of `v` equals `s`.
fn string_list_contains(v: &Vec<String>, s: &str) -> (b: bool)
    ensures
        b == v@.map_values(|x: String| x@).contains(s@),
{
    let ghost vs = v@.map_values(|x: String| x@);
    let mut k: usize = 0;
    while k < v.len()
        invariant
            k <= v@.len(),
            vs == v@.map_values(|x: String| x@),
            forall|q: int| 0 <= q < k ==> vs[q] != s@,
        decreases v.len() - k,
    {
        if str_eq(v[k].as_str(), s) {
            assert(vs[k as int] == s@);
            return true;
        }
        k = k + 1;
    }
    false
}

/// A parameter type as far as the desugaring knows it.
#[derive(Debug, Clone, Copy, PartialEq, Eq, Structural)]
pub enum Type {
    Unknown,
    Int,
    String,
    Bool,
    Ptr(usize),
}

} // verus!
