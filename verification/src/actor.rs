//! The part of an actor the runner keeps track of: its token and the events
//! handed to its task on its last run.
use vstd::prelude::*;
use crate::event::{Event, EventId, Token};

verus! {

/// An actor: its token, and the events its task was given on its last run.
pub struct Actor<D> {
    pub id: Token,
    inbox_buf: Vec<Event<D>>,
}

impl<D> Actor<D> {
    /// The actor's token.
    pub closed spec fn token(&self) -> Token {
        self.id
    }

    /// The events the task was given on its last run, oldest first.
    pub closed spec fn inbox(&self) -> Seq<Event<D>> {
        self.inbox_buf@
    }

    /// An actor with token `id` that has not run yet.
    pub fn create(id: Token) -> (actor: Self)
        ensures
            actor.token() == id,
            actor.inbox() == Seq::<Event<D>>::empty(),
    {
        Actor { id: id, inbox_buf: Vec::new() }
    }

    /// The id of the newest event of the last run, if there was any.
    pub fn last_eid(&self) -> (eid: Option<EventId>)
        ensures
            eid == (if self.inbox().len() == 0 {
                None::<EventId>
            } else {
                Some(self.inbox().last().id)
            }),
    {
        if self.inbox_buf.len() == 0 {
            None
        } else {
            Some(self.inbox_buf[self.inbox_buf.len() - 1].id)
        }
    }

    /// Replaces the events of the last run with `events`, those received since.
    pub fn refill(&mut self, events: Vec<Event<D>>)
        ensures
            final(self).token() == old(self).token(),
            final(self).inbox() == events@,
    {
        let mut events = events;
        self.inbox_buf.clear();
        self.inbox_buf.append(&mut events);
    }

    /// The events of the last run, oldest first, as handed to the task.
    pub fn events(&self) -> (events: &[Event<D>])
        ensures
            events@ == self.inbox(),
    {
        self.inbox_buf.as_slice()
    }
}

} // verus!
