//! The interpreter's host: the variables of a session, a compile-time
//! context, and the channels and cancellation tokens that programs name.

use vstd::prelude::*;
use crate::async_effects::{CancellationToken, Channel, SpawnScope};
use crate::interpreter::Value;
use crate::macros::ComptimeContext;
use crate::strmap::StrMap;

verus! {

/// A session of the interpreter: its variables, a compile-time context with
/// a budget of 1000 operations, and named channels and cancellation tokens.
pub struct OmniInterpreter {
    pub env: StrMap<Value>,
    pub comptime: ComptimeContext,
    pub channels: StrMap<Channel<Value>>,
    pub cancellation_tokens: StrMap<CancellationToken>,
}

/// The message for a channel that was never added.
pub open spec fn channel_not_found(name: Seq<char>) -> Seq<char> {
    "Channel "@ + name + " not found"@
}

impl OmniInterpreter {
    /// A session with nothing in it.
    pub fn new() -> (it: Self)
        ensures
            it.env@ == Map::<Seq<char>, Value>::empty(),
            it.channels@ == Map::<Seq<char>, Channel<Value>>::empty(),
            it.cancellation_tokens@ == Map::<Seq<char>, CancellationToken>::empty(),
            it.comptime.ops_budget == 1000,
            it.comptime.ops_used == 0,
    {
        OmniInterpreter {
            env: StrMap::new(),
            comptime: ComptimeContext::new(1000),
            channels: StrMap::new(),
            cancellation_tokens: StrMap::new(),
        }
    }

    /// Adds (or replaces) an empty, open channel of the given capacity.
    pub fn add_channel(&mut self, name: &str, capacity: usize)
        ensures
            final(self).channels@.dom() == old(self).channels@.dom().insert(name@),
            forall|k: Seq<char>| k != name@ && #[trigger] old(self).channels@.contains_key(k)
                ==> final(self).channels@[k] == old(self).channels@[k],
            final(self).channels@[name@].queued() == Seq::<Value>::empty(),
            final(self).channels@[name@].spec_capacity() == capacity,
            !final(self).channels@[name@].spec_closed(),
            final(self).cancellation_tokens@ == old(self).cancellation_tokens@,
    {
        let ch: Channel<Value> = Channel::new(capacity);
        self.channels.insert(String::from_str(name), ch);
        assert(self.channels@.dom() =~= old(self).channels@.dom().insert(name@));
    }

    /// Sends a value on a named channel: as the channel's `send` does, or an
    /// error when there is no such channel.
    pub fn send_to_channel(&mut self, name: &str, value: Value) -> (r: Result<(), String>)
        ensures
            !old(self).channels@.contains_key(name@) ==> {
                &&& r matches Err(e) && e@ == channel_not_found(name@)
                &&& final(self).channels@ == old(self).channels@
            },
            old(self).channels@.contains_key(name@) ==> {
                let c0 = old(self).channels@[name@];
                let c1 = final(self).channels@[name@];
                &&& final(self).channels@ == old(self).channels@.insert(name@, c1)
                &&& (r is Ok <==> (!c0.spec_closed() && c0.queued().len() < c0.spec_capacity()))
                &&& (r is Ok ==> c1.queued() == c0.queued().push(value))
                &&& (r is Err ==> c1.queued() == c0.queued())
                &&& (r matches Err(e) ==> e@ == (if c0.spec_closed() { "Channel closed"@ } else { "Channel full"@ }))
                &&& c1.spec_capacity() == c0.spec_capacity()
                &&& c1.spec_closed() == c0.spec_closed()
            },
            final(self).cancellation_tokens@ == old(self).cancellation_tokens@,
    {
        match self.channels.take(name) {
            None => {
                assert(self.channels@ =~= old(self).channels@);
                let mut m = String::from_str("Channel ");
                crate::text::push_str(&mut m, name);
                crate::text::push_str(&mut m, " not found");
                Err(m)
            },
            Some(mut ch) => {
                let r = ch.send(value);
                self.channels.insert(String::from_str(name), ch);
                assert(self.channels@ =~= old(self).channels@.insert(name@, self.channels@[name@]));
                r
            },
        }
    }

    /// Takes the oldest value from a named channel: as the channel's
    /// `receive` does, or nothing when there is no such channel.
    pub fn receive_from_channel(&mut self, name: &str) -> (r: Option<Value>)
        ensures
            !old(self).channels@.contains_key(name@) ==> r is None && final(self).channels@ == old(self).channels@,
            old(self).channels@.contains_key(name@) ==> {
                let c0 = old(self).channels@[name@];
                let c1 = final(self).channels@[name@];
                &&& final(self).channels@ == old(self).channels@.insert(name@, c1)
                &&& (c0.queued().len() == 0 ==> r is None && c1.queued() == c0.queued())
                &&& (c0.queued().len() > 0 ==> r == Some(c0.queued()[0]) && c1.queued() == c0.queued().drop_first())
                &&& c1.spec_capacity() == c0.spec_capacity()
                &&& c1.spec_closed() == c0.spec_closed()
            },
            final(self).cancellation_tokens@ == old(self).cancellation_tokens@,
    {
        match self.channels.take(name) {
            None => {
                assert(self.channels@ =~= old(self).channels@);
                None
            },
            Some(mut ch) => {
                let r = ch.receive();
                self.channels.insert(String::from_str(name), ch);
                assert(self.channels@ =~= old(self).channels@.insert(name@, self.channels@[name@]));
                r
            },
        }
    }

    /// Adds (or resets) a named token that is not cancelled.
    pub fn add_cancellation_token(&mut self, name: &str)
        ensures
            final(self).cancellation_tokens@.dom() == old(self).cancellation_tokens@.dom().insert(name@),
            forall|k: Seq<char>| k != name@ && #[trigger] old(self).cancellation_tokens@.contains_key(k)
                ==> final(self).cancellation_tokens@[k] == old(self).cancellation_tokens@[k],
            !final(self).cancellation_tokens@[name@].spec_cancelled(),
            final(self).channels@ == old(self).channels@,
    {
        self.cancellation_tokens.insert(String::from_str(name), CancellationToken::new());
        assert(self.cancellation_tokens@.dom() =~= old(self).cancellation_tokens@.dom().insert(name@));
    }

    /// Cancels a named token, with a reason; nothing happens when there is no
    /// such token.
    pub fn cancel_token(&mut self, name: &str, reason: Option<String>)
        ensures
            !old(self).cancellation_tokens@.contains_key(name@) ==> final(self).cancellation_tokens@ == old(self).cancellation_tokens@,
            old(self).cancellation_tokens@.contains_key(name@) ==> {
                let t = final(self).cancellation_tokens@[name@];
                &&& final(self).cancellation_tokens@ == old(self).cancellation_tokens@.insert(name@, t)
                &&& t.spec_cancelled()
                &&& t.spec_reason() == (match reason { Some(x) => Some(x@), None => None::<Seq<char>> })
            },
            final(self).channels@ == old(self).channels@,
    {
        match self.cancellation_tokens.take(name) {
            None => {
                assert(self.cancellation_tokens@ =~= old(self).cancellation_tokens@);
            },
            Some(mut t) => {
                t.cancel(reason);
                self.cancellation_tokens.insert(String::from_str(name), t);
                assert(self.cancellation_tokens@ =~= old(self).cancellation_tokens@.insert(name@, self.cancellation_tokens@[name@]));
            },
        }
    }

    /// Whether a named token exists and is cancelled.
    pub fn is_token_cancelled(&self, name: &str) -> (b: bool)
        ensures
            b == (self.cancellation_tokens@.contains_key(name@) && self.cancellation_tokens@[name@].spec_cancelled()),
    {
        match self.cancellation_tokens.get(name) {
            Some(t) => t.is_cancelled(),
            None => false,
        }
    }

    /// A new task scope under `parent_id`.
    pub fn spawn_scope(&mut self, parent_id: u64) -> (s: SpawnScope)
        ensures
            s.parent_id == parent_id,
            s.child_ids@.len() == 0,
            s.policy == crate::async_effects::ScopePolicy::JoinAll,
            s.max_children == 1000,
    {
        SpawnScope::new(parent_id)
    }
}

} // verus!
