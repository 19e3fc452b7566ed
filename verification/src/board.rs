//! A board of topics: for each topic, the listeners subscribed to it.
use std::collections::HashMap;
use vstd::prelude::*;
use crate::event::Token;

verus! {

broadcast use vstd::std_specs::hash::group_hash_axioms;

/// The listeners of `topic` on a board: empty where the board has no entry for it.
pub open spec fn listeners_on<S>(board: Map<Token, Map<Token, S>>, topic: Token) -> Map<Token, S> {
    if board.contains_key(topic) {
        board[topic]
    } else {
        Map::empty()
    }
}

/// `post` is the board `pre` after `listener` subscribed to `topic` under `id`.
pub open spec fn subscribed<S>(
    pre: Map<Token, Map<Token, S>>,
    post: Map<Token, Map<Token, S>>,
    topic: Token,
    id: Token,
    listener: S,
) -> bool {
    post == pre.insert(topic, listeners_on(pre, topic).insert(id, listener))
}

/// `post` is the board `pre` after the listener `id` left `topic`.
pub open spec fn unsubscribed<S>(
    pre: Map<Token, Map<Token, S>>,
    post: Map<Token, Map<Token, S>>,
    topic: Token,
    id: Token,
) -> bool {
    if pre.contains_key(topic) {
        post == pre.insert(topic, pre[topic].remove(id))
    } else {
        post == pre
    }
}

/// Subscribing makes the listener the one `query` finds under its id.
pub proof fn law_subscribed_listener_is_listed<S>(
    pre: Map<Token, Map<Token, S>>,
    post: Map<Token, Map<Token, S>>,
    topic: Token,
    id: Token,
    listener: S,
)
    requires
        subscribed(pre, post, topic, id, listener),
    ensures
        post.contains_key(topic),
        post[topic].contains_key(id),
        post[topic][id] == listener,
{
}

/// Unsubscribing just after subscribing succeeds, and leaves the topic's
/// listeners as they were but for that id (the topic keeps an entry).
pub proof fn law_unsubscribe_undoes_subscribe<S>(
    b0: Map<Token, Map<Token, S>>,
    b1: Map<Token, Map<Token, S>>,
    b2: Map<Token, Map<Token, S>>,
    topic: Token,
    id: Token,
    listener: S,
)
    requires
        subscribed(b0, b1, topic, id, listener),
        unsubscribed(b1, b2, topic, id),
    ensures
        listeners_on(b1, topic).contains_key(id),
        b2 == b0.insert(topic, listeners_on(b0, topic).remove(id)),
{
    assert(b2[topic] =~= listeners_on(b0, topic).remove(id));
    assert(b2 =~= b0.insert(topic, listeners_on(b0, topic).remove(id)));
}

/// Maps each topic to the listeners subscribed to it, each listener under its id.
///
/// A topic keeps its entry, possibly empty, once a listener has subscribed to it.
pub struct Board<S> {
    map: HashMap<Token, HashMap<Token, S>>,
}

impl<S> View for Board<S> {
    type V = Map<Token, Map<Token, S>>;

    closed spec fn view(&self) -> Map<Token, Map<Token, S>> {
        self.map@.map_values(|listeners: HashMap<Token, S>| listeners@)
    }
}

impl<S> Board<S> {
    /// An empty board.
    pub fn new() -> (board: Self)
        ensures
            board@ == Map::<Token, Map<Token, S>>::empty(),
    {
        let board = Board { map: HashMap::new() };
        assert(board@ =~= Map::<Token, Map<Token, S>>::empty());
        board
    }

    /// The listeners of `topic`, each under its id, or `None` where the board
    /// has no entry for it. Its `values()` are the listeners, one per id.
    pub fn query(&self, topic: &Token) -> (res: Option<&HashMap<Token, S>>)
        ensures
            res is Some <==> self@.contains_key(*topic),
            res matches Some(listeners) ==> listeners@ == self@[*topic],
    {
        self.map.get(topic)
    }

    /// Subscribes `listener` to `topic` under `listener_id`, replacing a listener
    /// with the same id. True where no listener had that id on that topic.
    pub fn subscribe(&mut self, topic: Token, listener_id: Token, listener: S) -> (added: bool)
        ensures
            subscribed(old(self)@, final(self)@, topic, listener_id, listener),
            added == !listeners_on(old(self)@, topic).contains_key(listener_id),
    {
        match self.map.remove(&topic) {
            Some(mut listeners) => {
                let added = listeners.insert(listener_id, listener).is_none();
                self.map.insert(topic, listeners);
                assert(self@ =~= old(self)@.insert(
                    topic,
                    listeners_on(old(self)@, topic).insert(listener_id, listener),
                ));
                added
            },
            None => {
                let mut listeners = HashMap::new();
                listeners.insert(listener_id, listener);
                self.map.insert(topic, listeners);
                assert(self@ =~= old(self)@.insert(
                    topic,
                    listeners_on(old(self)@, topic).insert(listener_id, listener),
                ));
                true
            },
        }
    }

    /// Removes the listener `listener_id` from `topic`. True where it was there.
    pub fn unsubscribe(&mut self, topic: Token, listener_id: Token) -> (removed: bool)
        ensures
            unsubscribed(old(self)@, final(self)@, topic, listener_id),
            removed == listeners_on(old(self)@, topic).contains_key(listener_id),
    {
        match self.map.remove(&topic) {
            Some(mut listeners) => {
                let removed = listeners.remove(&listener_id).is_some();
                self.map.insert(topic, listeners);
                assert(self@ =~= old(self)@.insert(topic, old(self)@[topic].remove(listener_id)));
                removed
            },
            None => {
                assert(self@ =~= old(self)@);
                false
            },
        }
    }
}

} // verus!
