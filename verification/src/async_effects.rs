//! Effect sets, cancellation, structured spawning and bounded channels.

use vstd::prelude::*;
use crate::text::push_str;

verus! {

pub const EF_ASYNC: u32 = 0x02;
pub const EF_IO: u32 = 0x01;

/// The type of a future, by the name of its inner type.
#[derive(Debug, Clone)]
pub struct FutureType {
    pub inner_type: String,
    pub state: FutureState,
}

#[derive(Debug, Clone, Copy, PartialEq, Eq, Structural)]
pub enum FutureState {
    Pending,
    Ready,
    PollError,
}

/// The tasks of an async context, by name.
#[derive(Debug, Clone)]
pub struct AsyncContext {
    pub tasks: std::collections::HashMap<String, FutureType>,
}

/// A side effect a function may perform. A thrown type is named by its text.
#[derive(Debug, Clone, Hash)]
pub enum Effect {
    Pure,
    Io,
    Async,
    Throw(String),
    Panic,
    Alloc,
    Rand,
    Time,
    Log,
    Custom(String),
}

/// The abstract content of an effect.
pub enum EffectView {
    Pure,
    Io,
    Async,
    Throw(Seq<char>),
    Panic,
    Alloc,
    Rand,
    Time,
    Log,
    Custom(Seq<char>),
}

impl View for Effect {
    type V = EffectView;

    open spec fn view(&self) -> EffectView {
        match self {
            Effect::Pure => EffectView::Pure,
            Effect::Io => EffectView::Io,
            Effect::Async => EffectView::Async,
            Effect::Throw(t) => EffectView::Throw(t@),
            Effect::Panic => EffectView::Panic,
            Effect::Alloc => EffectView::Alloc,
            Effect::Rand => EffectView::Rand,
            Effect::Time => EffectView::Time,
            Effect::Log => EffectView::Log,
            Effect::Custom(s) => EffectView::Custom(s@),
        }
    }
}

impl PartialEq for Effect {
    fn eq(&self, other: &Self) -> (r: bool) {
        match (self, other) {
            (Effect::Pure, Effect::Pure) => true,
            (Effect::Io, Effect::Io) => true,
            (Effect::Async, Effect::Async) => true,
            (Effect::Throw(a), Effect::Throw(b)) => a.eq(b),
            (Effect::Panic, Effect::Panic) => true,
            (Effect::Alloc, Effect::Alloc) => true,
            (Effect::Rand, Effect::Rand) => true,
            (Effect::Time, Effect::Time) => true,
            (Effect::Log, Effect::Log) => true,
            (Effect::Custom(a), Effect::Custom(b)) => a.eq(b),
            _ => false,
        }
    }
}

impl vstd::std_specs::cmp::PartialEqSpecImpl for Effect {
    open spec fn obeys_eq_spec() -> bool {
        true
    }

    open spec fn eq_spec(&self, other: &Self) -> bool {
        self@ == other@
    }
}

impl Eq for Effect {}

/// A copy of `e` with the same content.
pub fn copy_effect(e: &Effect) -> (r: Effect)
    ensures
        r@ == e@,
{
    match e {
        Effect::Pure => Effect::Pure,
        Effect::Io => Effect::Io,
        Effect::Async => Effect::Async,
        Effect::Throw(t) => Effect::Throw(t.clone()),
        Effect::Panic => Effect::Panic,
        Effect::Alloc => Effect::Alloc,
        Effect::Rand => Effect::Rand,
        Effect::Time => Effect::Time,
        Effect::Log => Effect::Log,
        Effect::Custom(s) => Effect::Custom(s.clone()),
    }
}

impl Effect {
    pub fn is_pure(&self) -> (b: bool)
        ensures
            b == (self@ is Pure),
    {
        match self {
            Effect::Pure => true,
            _ => false,
        }
    }

    /// Two effects compose when at least one of them is pure.
    pub fn composed_with(&self, other: &Effect) -> (b: bool)
        ensures
            b == (self@ is Pure || other@ is Pure),
    {
        match (self, other) {
            (Effect::Pure, Effect::Pure) => true,
            (Effect::Pure, _) => true,
            (_, Effect::Pure) => true,
            _ => false,
        }
    }
}

/// The display name of an effect.
pub open spec fn effect_name(e: EffectView) -> Seq<char> {
    match e {
        EffectView::Pure => "pure"@,
        EffectView::Io => "io"@,
        EffectView::Async => "async"@,
        EffectView::Throw(t) => "throw<"@ + t + ">"@,
        EffectView::Panic => "panic"@,
        EffectView::Alloc => "alloc"@,
        EffectView::Rand => "rand"@,
        EffectView::Time => "time"@,
        EffectView::Log => "log"@,
        EffectView::Custom(s) => s,
    }
}

/// The names of `es`, joined with ", ".
pub open spec fn effect_list_text(es: Seq<EffectView>) -> Seq<char>
    decreases es.len(),
{
    if es.len() == 0 {
        seq![]
    } else if es.len() == 1 {
        effect_name(es[0])
    } else {
        effect_list_text(es.drop_last()) + ", "@ + effect_name(es.last())
    }
}

/// `base` extended with each effect of `extra` not already present, in order.
pub open spec fn effect_union(base: Seq<EffectView>, extra: Seq<EffectView>) -> Seq<EffectView>
    decreases extra.len(),
{
    if extra.len() == 0 {
        base
    } else {
        let r = effect_union(base, extra.drop_last());
        if r.contains(extra.last()) { r } else { r.push(extra.last()) }
    }
}

/// An ordered set of effects: each effect occurs once, in insertion order.
#[derive(Debug, Clone)]
pub struct EffectSet {
    effects: Vec<Effect>,
}

pub open spec fn effect_views(s: Seq<Effect>) -> Seq<EffectView> {
    s.map_values(|e: Effect| e@)
}

impl View for EffectSet {
    type V = Seq<EffectView>;

    closed spec fn view(&self) -> Seq<EffectView> {
        effect_views(self.effects@)
    }
}

proof fn lemma_union_no_dup(base: Seq<EffectView>, extra: Seq<EffectView>)
    requires
        base.no_duplicates(),
    ensures
        effect_union(base, extra).no_duplicates(),
    decreases extra.len(),
{
    if extra.len() > 0 {
        lemma_union_no_dup(base, extra.drop_last());
    }
}

/// The union holds exactly the effects of either side, and keeps the left
/// side's effects first, in order.
pub proof fn law_union_members(base: Seq<EffectView>, extra: Seq<EffectView>, e: EffectView)
    ensures
        effect_union(base, extra).contains(e) <==> (base.contains(e) || extra.contains(e)),
        effect_union(base, extra).len() >= base.len(),
        effect_union(base, extra).take(base.len() as int) == base,
    decreases extra.len(),
{
    if extra.len() > 0 {
        law_union_members(base, extra.drop_last(), e);
        let r = effect_union(base, extra.drop_last());
        if extra.last() == e {
            assert(extra[extra.len() - 1] == e);
        }
        if extra.drop_last().contains(e) {
            let k = choose|k: int| 0 <= k < extra.drop_last().len() && extra.drop_last()[k] == e;
            assert(extra[k] == e);
        }
        if extra.contains(e) && extra.last() != e {
            let k = choose|k: int| 0 <= k < extra.len() && extra[k] == e;
            assert(extra.drop_last()[k] == e);
        }
        if !r.contains(extra.last()) {
            assert(r.push(extra.last()).take(base.len() as int) =~= r.take(base.len() as int));
            if r.contains(e) {
                let k = choose|k: int| 0 <= k < r.len() && r[k] == e;
                assert(r.push(extra.last())[k] == e);
            }
            if r.push(extra.last()).contains(e) && extra.last() != e {
                let k = choose|k: int| 0 <= k < r.len() + 1 && r.push(extra.last())[k] == e;
                assert(r[k] == e);
            }
            assert(r.push(extra.last())[r.len() as int] == extra.last());
        }
    }
}

/// Adding an effect twice has the effect of adding it once.
pub proof fn law_union_idempotent(base: Seq<EffectView>)
    ensures
        effect_union(base, base) == base,
{
    lemma_union_with_members(base, base);
}

proof fn lemma_union_with_members(base: Seq<EffectView>, extra: Seq<EffectView>)
    requires
        forall|k: int| 0 <= k < extra.len() ==> base.contains(#[trigger] extra[k]),
    ensures
        effect_union(base, extra) == base,
    decreases extra.len(),
{
    if extra.len() > 0 {
        lemma_union_with_members(base, extra.drop_last());
        assert(base.contains(extra[extra.len() - 1]));
    }
}

impl EffectSet {
    pub open spec fn wf(&self) -> bool {
        self@.no_duplicates()
    }

    /// A set with no effects.
    pub fn new() -> (s: EffectSet)
        ensures
            s@ == Seq::<EffectView>::empty(),
            s.wf(),
    {
        let s = EffectSet { effects: Vec::new() };
        assert(s@ =~= Seq::<EffectView>::empty());
        s
    }

    /// The set holding only `pure`.
    pub fn empty() -> (s: EffectSet)
        ensures
            s@ == seq![EffectView::Pure],
            s.wf(),
    {
        let mut v: Vec<Effect> = Vec::new();
        v.push(Effect::Pure);
        let s = EffectSet { effects: v };
        assert(s@ =~= seq![EffectView::Pure]);
        s
    }

    pub fn with_io() -> (s: EffectSet)
        ensures
            s@ == seq![EffectView::Io],
            s.wf(),
    {
        let mut es = EffectSet::new();
        es.effects.push(Effect::Io);
        assert(es@ =~= seq![EffectView::Io]);
        es
    }

    pub fn with_async() -> (s: EffectSet)
        ensures
            s@ == seq![EffectView::Async],
            s.wf(),
    {
        let mut es = EffectSet::new();
        es.effects.push(Effect::Async);
        assert(es@ =~= seq![EffectView::Async]);
        es
    }

    /// Adds `effect` unless it is already present.
    pub fn add(&mut self, effect: Effect)
        ensures
            final(self)@ == (if old(self)@.contains(effect@) { old(self)@ } else { old(self)@.push(effect@) }),
            old(self).wf() ==> final(self).wf(),
    {
        let ghost e = effect@;
        if !self.contains(&effect) {
            self.effects.push(effect);
            assert(self@ =~= old(self)@.push(e));
        }
    }

    pub fn contains(&self, effect: &Effect) -> (b: bool)
        ensures
            b == self@.contains(effect@),
    {
        let mut k: usize = 0;
        while k < self.effects.len()
            invariant
                k <= self.effects@.len(),
                forall|q: int| 0 <= q < k ==> self@[q] != effect@,
            decreases self.effects.len() - k,
        {
            if self.effects[k] == *effect {
                assert(self@[k as int] == effect@);
                return true;
            }
            k = k + 1;
        }
        false
    }

    /// The effects of `self`, then those of `other` not already present.
    pub fn union(&self, other: &EffectSet) -> (r: EffectSet)
        ensures
            r@ == effect_union(self@, other@),
            self.wf() ==> r.wf(),
    {
        let mut result = EffectSet::new();
        let mut k: usize = 0;
        while k < self.effects.len()
            invariant
                k <= self.effects@.len(),
                result@ == self@.take(k as int),
            decreases self.effects.len() - k,
        {
            let e = copy_effect(&self.effects[k]);
            let ghost before = result.effects@;
            result.effects.push(e);
            assert(effect_views(result.effects@) =~= effect_views(before).push(self@[k as int]));
            k = k + 1;
            assert(result@ =~= self@.take(k as int));
        }
        assert(self@.take(k as int) =~= self@);
        let mut j: usize = 0;
        while j < other.effects.len()
            invariant
                j <= other.effects@.len(),
                result@ == effect_union(self@, other@.take(j as int)),
            decreases other.effects.len() - j,
        {
            assert(other@.take(j + 1).drop_last() =~= other@.take(j as int));
            result.add(copy_effect(&other.effects[j]));
            j = j + 1;
        }
        assert(other@.take(j as int) =~= other@);
        proof {
            if self.wf() {
                lemma_union_no_dup(self@, other@);
            }
        }
        result
    }

    /// The effect names, joined with ", ".
    pub fn to_string_list(&self) -> (s: String)
        ensures
            s@ == effect_list_text(self@),
    {
        let mut s = String::new();
        let mut k: usize = 0;
        while k < self.effects.len()
            invariant
                k <= self.effects@.len(),
                s@ == effect_list_text(self@.take(k as int)),
            decreases self.effects.len() - k,
        {
            if k > 0 {
                push_str(&mut s, ", ");
            }
            match &self.effects[k] {
                Effect::Pure => push_str(&mut s, "pure"),
                Effect::Io => push_str(&mut s, "io"),
                Effect::Async => push_str(&mut s, "async"),
                Effect::Throw(t) => {
                    push_str(&mut s, "throw<");
                    push_str(&mut s, t.as_str());
                    push_str(&mut s, ">");
                }
                Effect::Panic => push_str(&mut s, "panic"),
                Effect::Alloc => push_str(&mut s, "alloc"),
                Effect::Rand => push_str(&mut s, "rand"),
                Effect::Time => push_str(&mut s, "time"),
                Effect::Log => push_str(&mut s, "log"),
                Effect::Custom(c) => push_str(&mut s, c.as_str()),
            }
            proof {
                assert(self@.take(k + 1).drop_last() =~= self@.take(k as int));
                assert(self@.take(k + 1).last() == self@[k as int]);
                if k == 0 {
                    assert(self@.take(1) =~= seq![self@[0]]);
                }
            }
            k = k + 1;
            assert(s@ =~= effect_list_text(self@.take(k as int)));
        }
        assert(self@.take(k as int) =~= self@);
        s
    }
}

/// A handler for the operations of one effect type.
#[derive(Debug, Clone)]
pub struct EffectHandler {
    pub effect_type: String,
    pub operations: Vec<Operation>,
}

/// An effect operation: its name, parameter type names and result type name.
#[derive(Debug, Clone)]
pub struct Operation {
    pub name: String,
    pub params: Vec<String>,
    pub ret_type: String,
}

impl EffectHandler {
    pub fn new(effect_type: &str) -> (h: Self)
        ensures
            h.effect_type@ == effect_type@,
            h.operations@.len() == 0,
    {
        EffectHandler { effect_type: String::from_str(effect_type), operations: Vec::new() }
    }

    pub fn add_operation(&mut self, op: Operation)
        ensures
            final(self).effect_type == old(self).effect_type,
            final(self).operations@ == old(self).operations@.push(op),
    {
        self.operations.push(op);
    }

    /// The first operation named `name`.
    pub fn find_operation(&self, name: &str) -> (r: Option<&Operation>)
        ensures
            r is None <==> forall|k: int| 0 <= k < self.operations@.len() ==> #[trigger] self.operations@[k].name@ != name@,
            r matches Some(op) ==> exists|k: int| {
                &&& 0 <= k < self.operations@.len()
                &&& *op == #[trigger] self.operations@[k]
                &&& op.name@ == name@
                &&& forall|q: int| 0 <= q < k ==> #[trigger] self.operations@[q].name@ != name@
            },
    {
        let mut k: usize = 0;
        while k < self.operations.len()
            invariant
                k <= self.operations@.len(),
                forall|q: int| 0 <= q < k ==> #[trigger] self.operations@[q].name@ != name@,
            decreases self.operations.len() - k,
        {
            if crate::text::str_eq(self.operations[k].name.as_str(), name) {
                return Some(&self.operations[k]);
            }
            k = k + 1;
        }
        None
    }
}

/// A cancellation flag with an optional reason.
#[derive(Debug, Clone)]
pub struct CancellationToken {
    cancelled: bool,
    cancel_reason: Option<String>,
}

impl CancellationToken {
    pub closed spec fn spec_cancelled(&self) -> bool {
        self.cancelled
    }

    pub closed spec fn spec_reason(&self) -> Option<Seq<char>> {
        match self.cancel_reason {
            Some(r) => Some(r@),
            None => None,
        }
    }

    pub fn new() -> (t: Self)
        ensures
            !t.spec_cancelled(),
            t.spec_reason() is None,
    {
        CancellationToken { cancelled: false, cancel_reason: None }
    }

    /// `Ok` while not cancelled; otherwise the reason, or "Cancelled" when none was given.
    pub fn check(&self) -> (r: Result<(), String>)
        ensures
            r is Ok <==> !self.spec_cancelled(),
            r matches Err(e) ==> e@ == (match self.spec_reason() {
                Some(reason) => reason,
                None => "Cancelled"@,
            }),
    {
        if self.cancelled {
            match &self.cancel_reason {
                Some(reason) => Err(reason.clone()),
                None => Err(String::from_str("Cancelled")),
            }
        } else {
            Ok(())
        }
    }

    pub fn cancel(&mut self, reason: Option<String>)
        ensures
            final(self).spec_cancelled(),
            final(self).spec_reason() == (match reason {
                Some(r) => Some(r@),
                None => None::<Seq<char>>,
            }),
    {
        self.cancelled = true;
        self.cancel_reason = reason;
    }

    pub fn is_cancelled(&self) -> (b: bool)
        ensures
            b == self.spec_cancelled(),
    {
        self.cancelled
    }
}

/// A scope that owns the tasks spawned in it.
#[derive(Debug, Clone)]
pub struct SpawnScope {
    pub policy: ScopePolicy,
    pub parent_id: u64,
    pub child_ids: Vec<u64>,
    pub max_children: usize,
}

#[derive(Debug, Clone, Copy, PartialEq, Eq, Structural)]
pub enum ScopePolicy {
    Detached,
    JoinAll,
    CancelOthers,
}

impl SpawnScope {
    /// A joining scope under `parent_id`, with room for 1000 children.
    pub fn new(parent_id: u64) -> (s: Self)
        ensures
            s.parent_id == parent_id,
            s.child_ids@.len() == 0,
            s.max_children == 1000,
            s.policy == ScopePolicy::JoinAll,
    {
        SpawnScope { parent_id, child_ids: Vec::new(), max_children: 1000, policy: ScopePolicy::JoinAll }
    }

    /// Records a child task; refused when the scope is full or detached.
    pub fn spawn(&mut self, child_id: u64) -> (r: Result<(), String>)
        ensures
            r is Ok <==> (old(self).child_ids@.len() < old(self).max_children && old(self).policy != ScopePolicy::Detached),
            r is Ok ==> final(self).child_ids@ == old(self).child_ids@.push(child_id),
            r is Err ==> final(self).child_ids@ == old(self).child_ids@,
            r matches Err(e) ==> e@ == (if old(self).child_ids@.len() >= old(self).max_children {
                "Max children reached"@
            } else {
                "Cannot spawn in detached scope without capability"@
            }),
            final(self).policy == old(self).policy,
            final(self).parent_id == old(self).parent_id,
            final(self).max_children == old(self).max_children,
    {
        if self.child_ids.len() >= self.max_children {
            return Err(String::from_str("Max children reached"));
        }
        if self.policy == ScopePolicy::Detached {
            return Err(String::from_str("Cannot spawn in detached scope without capability"));
        }
        self.child_ids.push(child_id);
        Ok(())
    }

    /// A joining scope may only exit once no child remains.
    pub fn verify_all_done(&self) -> (r: Result<(), String>)
        ensures
            r is Err <==> (self.child_ids@.len() > 0 && self.policy == ScopePolicy::JoinAll),
            r matches Err(e) ==> e@ == crate::text::decimal(self.child_ids@.len())
                + " child tasks not completed before scope exit"@,
    {
        if self.child_ids.len() > 0 && self.policy == ScopePolicy::JoinAll {
            let mut s = crate::text::usize_to_string(self.child_ids.len());
            push_str(&mut s, " child tasks not completed before scope exit");
            return Err(s);
        }
        Ok(())
    }
}

/// A bounded first-in first-out channel.
#[derive(Debug, Clone)]
pub struct Channel<T> {
    buffer: Vec<T>,
    capacity: usize,
    closed: bool,
}

impl<T> Channel<T> {
    /// The queued values, oldest first.
    pub closed spec fn queued(&self) -> Seq<T> {
        self.buffer@
    }

    pub closed spec fn spec_capacity(&self) -> nat {
        self.capacity as nat
    }

    pub closed spec fn spec_closed(&self) -> bool {
        self.closed
    }

    pub fn new(capacity: usize) -> (c: Self)
        ensures
            c.queued() == Seq::<T>::empty(),
            c.spec_capacity() == capacity,
            !c.spec_closed(),
    {
        Channel { buffer: Vec::new(), capacity, closed: false }
    }

    /// Queues `value`; refused when the channel is closed or full.
    pub fn send(&mut self, value: T) -> (r: Result<(), String>)
        ensures
            r is Ok <==> (!old(self).spec_closed() && old(self).queued().len() < old(self).spec_capacity()),
            r is Ok ==> final(self).queued() == old(self).queued().push(value),
            r is Err ==> final(self).queued() == old(self).queued(),
            r matches Err(e) ==> e@ == (if old(self).spec_closed() { "Channel closed"@ } else { "Channel full"@ }),
            final(self).spec_capacity() == old(self).spec_capacity(),
            final(self).spec_closed() == old(self).spec_closed(),
    {
        if self.closed {
            return Err(String::from_str("Channel closed"));
        }
        if self.buffer.len() >= self.capacity {
            return Err(String::from_str("Channel full"));
        }
        self.buffer.push(value);
        Ok(())
    }

    /// Takes the oldest queued value, if any.
    pub fn receive(&mut self) -> (r: Option<T>)
        ensures
            old(self).queued().len() == 0 ==> r is None && final(self).queued() == old(self).queued(),
            old(self).queued().len() > 0 ==> r == Some(old(self).queued()[0])
                && final(self).queued() == old(self).queued().drop_first(),
            final(self).spec_capacity() == old(self).spec_capacity(),
            final(self).spec_closed() == old(self).spec_closed(),
    {
        if self.buffer.len() == 0 {
            None
        } else {
            let v = self.buffer.remove(0);
            assert(self.buffer@ =~= old(self).queued().drop_first());
            Some(v)
        }
    }

    pub fn close(&mut self)
        ensures
            final(self).spec_closed(),
            final(self).queued() == old(self).queued(),
            final(self).spec_capacity() == old(self).spec_capacity(),
    {
        self.closed = true;
    }

    pub fn is_closed(&self) -> (b: bool)
        ensures
            b == self.spec_closed(),
    {
        self.closed
    }
}

} // verus!
