//! What the language-server worker does with each message, and the requests
//! it is still waiting on.
use vstd::prelude::*;

use std::collections::HashMap;

verus! {

broadcast use vstd::std_specs::hash::group_hash_axioms;

/// A message read from the server, by kind, with its id where it has one.
#[derive(Debug, Clone, Copy, PartialEq, Eq, Structural)]
pub enum Incoming {
    Request { id: u64 },
    Notification,
    Response { id: u64 },
    Error { id: u64 },
}

/// What the worker does with a message.
pub enum Reaction<C> {
    /// Handle the server's request and answer it under `id`.
    Answer { id: u64 },
    /// Handle the server's notification.
    Handle,
    /// Hand the result to the one waiting on it.
    Complete(C),
    /// The request `id` failed: the one waiting on it is dropped.
    Failed { id: u64 },
    /// A reply to no request waiting: nothing to do.
    Unexpected,
}

/// The requests sent to the server and not yet answered, by id, each with
/// what is to be done with its result.
pub struct PendingRequests<C> {
    pending: HashMap<u64, C>,
}

impl<C> View for PendingRequests<C> {
    type V = Map<u64, C>;

    closed spec fn view(&self) -> Map<u64, C> {
        self.pending@
    }
}

/// The requests waiting after `msg`, and what is done with it.
pub open spec fn on_incoming<C>(waiting: Map<u64, C>, msg: Incoming) -> (Map<u64, C>, Reaction<C>) {
    match msg {
        Incoming::Request { id } => (waiting, Reaction::Answer { id }),
        Incoming::Notification => (waiting, Reaction::Handle),
        Incoming::Response { id } => if waiting.contains_key(id) {
            (waiting.remove(id), Reaction::Complete(waiting[id]))
        } else {
            (waiting, Reaction::Unexpected)
        },
        Incoming::Error { id } => if waiting.contains_key(id) {
            (waiting.remove(id), Reaction::Failed { id })
        } else {
            (waiting, Reaction::Unexpected)
        },
    }
}

impl<C> PendingRequests<C> {
    /// No request waiting.
    pub fn new() -> (r: Self)
        ensures
            r@ == Map::<u64, C>::empty(),
    {
        PendingRequests { pending: HashMap::new() }
    }

    /// Records that request `id` was sent, with what to do with its result.
    pub fn sent(&mut self, id: u64, completer: C)
        ensures
            final(self)@ == old(self)@.insert(id, completer),
    {
        self.pending.insert(id, completer);
    }

    /// Whether request `id` is waiting.
    pub fn is_waiting(&self, id: u64) -> (r: bool)
        ensures
            r == self@.contains_key(id),
    {
        self.pending.contains_key(&id)
    }

    /// Takes in a message from the server and says what to do with it.
    pub fn receive(&mut self, msg: Incoming) -> (r: Reaction<C>)
        ensures
            (final(self)@, r) == on_incoming(old(self)@, msg),
    {
        match msg {
            Incoming::Request { id } => Reaction::Answer { id },
            Incoming::Notification => Reaction::Handle,
            Incoming::Response { id } => match self.pending.remove(&id) {
                Some(c) => Reaction::Complete(c),
                None => Reaction::Unexpected,
            },
            Incoming::Error { id } => match self.pending.remove(&id) {
                Some(_) => Reaction::Failed { id },
                None => Reaction::Unexpected,
            },
        }
    }
}

/// A reply settles its request once: the request is no longer waiting, and
/// a second reply with the same id finds nothing.
pub proof fn lemma_reply_settles<C>(waiting: Map<u64, C>, id: u64, completer: C)
    ensures
        ({
            let (after, r) = on_incoming(waiting.insert(id, completer), Incoming::Response { id });
            &&& r == Reaction::Complete(completer)
            &&& !after.contains_key(id)
            &&& on_incoming(after, Incoming::Response { id }).1 == Reaction::<C>::Unexpected
        }),
{
    assert(waiting.insert(id, completer).remove(id).contains_key(id) == false);
}

} // verus!
