//! Events, the commands the central loop understands, and the requests tasks make.
use vstd::prelude::*;
use crate::worker::WorkerId;

verus! {

/// Identifies an actor or a topic.
pub type Token = u64;

/// The serial number of an event. The central loop numbers events 1, 2, 3, ...
#[derive(Clone, Copy, Debug, PartialEq, Eq, Structural, PartialOrd, Ord, Hash)]
pub struct EventId(pub u64);

/// An event delivered to actors that listen to `topic`.
pub struct Event<D> {
    pub id: EventId,
    pub topic: Token,
    pub data: Option<D>,
}

impl<D: Clone> Clone for Event<D> {
    /// Copies the id and the topic, and clones the data.
    fn clone(&self) -> (res: Self)
        ensures
            res.id == self.id,
            res.topic == self.topic,
            res.data is Some <==> self.data is Some,
            self.data is Some ==> cloned(self.data->0, res.data->0),
    {
        let data = match &self.data {
            Some(d) => Some(d.clone()),
            None => None,
        };
        Event { id: self.id, topic: self.topic, data }
    }
}

/// What the central loop is told to do.
///
/// `S` is the sink that reaches a spawned actor.
pub enum Command<D, S> {
    /// The actor publishes data on the topic named by its own token.
    Publish(Token, D),
    /// The actor ends: its listeners get a last event with no data.
    Kill(Token),
    /// The actor (first) listens to the topic (second).
    Listen(Token, Token),
    /// The actor (first) stops listening to the topic (second).
    Ignore(Token, Token),
    /// The actor (first) spawned an actor known as the second token, reached through the sink.
    Spawn(Token, Token, S),
    /// The actor, run by the worker, waits for events newer than the given one.
    Sleep(WorkerId, Token, EventId),
}

/// What a worker forwards to the host: a command, or a request to open a stream.
pub enum Syscall<D, P, S> {
    Command(Command<D, S>),
    /// The actor opens a stream with the parameter, published on the topic.
    Open(Token, P, Token),
}

/// What a task asks for when it runs. `T` is the task a spawn starts.
pub enum Request<D, P, T> {
    Publish(D),
    Kill,
    Listen(Token),
    Ignore(Token),
    Open(P, Token),
    Spawn(T, Token),
}

} // verus!
