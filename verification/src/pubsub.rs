//! Publish and subscribe: each topic has listeners, each a sink that events
//! on the topic are posted to.
use std::collections::HashMap;
use vstd::prelude::*;
use vstd::std_specs::iter::IteratorSpec;
use crate::board::{listeners_on, subscribed, unsubscribed};
use crate::event::{Event, Token};

verus! {

broadcast use vstd::std_specs::hash::group_hash_axioms;

/// Something messages can be posted to, such as the sending end of a channel.
pub trait Sink {
    type Item;

    fn post(&self, msg: Self::Item);
}

/// One post of a publication: the sink subscribed under `key`.
pub struct Post<S> {
    pub key: Token,
    pub sink: S,
}

/// The keys the posts go to, in order.
pub open spec fn post_keys<S>(posts: Seq<Post<S>>) -> Seq<Token> {
    posts.map_values(|p: Post<S>| p.key)
}

/// `posts` go once to each listener of `topic` on `board`, each through a
/// clone of the sink subscribed under its key, and to nothing else.
pub open spec fn published<S: Clone>(board: Map<Token, Map<Token, S>>, topic: Token, posts: Seq<Post<S>>) -> bool {
    let listeners = listeners_on(board, topic);
    &&& post_keys(posts).no_duplicates()
    &&& post_keys(posts).to_set() == listeners.dom()
    &&& forall|i: int|
        #![trigger posts[i]]
        0 <= i < posts.len() ==> listeners.contains_key(posts[i].key) && cloned(
            listeners[posts[i].key],
            posts[i].sink,
        )
}

/// One post to each of `listeners`, through a clone of its sink.
fn posts_to<S: Clone>(listeners: &HashMap<Token, S>) -> (posts: Vec<Post<S>>)
    ensures
        post_keys(posts@).no_duplicates(),
        post_keys(posts@).to_set() == listeners@.dom(),
        forall|i: int|
            #![trigger posts@[i]]
            0 <= i < posts@.len() ==> listeners@.contains_key(posts@[i].key) && cloned(
                listeners@[posts@[i].key],
                posts@[i].sink,
            ),
{
    let mut posts: Vec<Post<S>> = Vec::new();
    let keys = listeners.keys();
    assert(keys.remaining().len() == 0 ==> post_keys(posts@).to_set() == listeners@.dom()) by {
        if keys.remaining().len() == 0 {
            assert(keys.remaining().unref().to_set() == listeners@.dom());
            assert(keys.remaining().unref() =~= Seq::<Token>::empty());
            assert(post_keys(posts@) =~= Seq::<Token>::empty());
            assert(post_keys(posts@).to_set() =~= listeners@.dom());
        }
    }
    for key in it: keys
        invariant
            it.seq().unref().to_set() == listeners@.dom(),
            it.seq().no_duplicates(),
            posts@.len() == it.index(),
            post_keys(posts@) == it.seq().take(it.index()).unref(),
            forall|i: int|
                #![trigger posts@[i]]
                0 <= i < posts@.len() ==> listeners@.contains_key(posts@[i].key) && cloned(
                    listeners@[posts@[i].key],
                    posts@[i].sink,
                ),
            it.index() == it.seq().len() ==> post_keys(posts@).to_set() == listeners@.dom(),
            it.index() == it.seq().len() ==> post_keys(posts@).no_duplicates(),
            post_keys(posts@).no_duplicates() || it.index() < it.seq().len(),
    {
        assert(it.seq().unref()[it.index()] == *key);
        assert(listeners@.contains_key(*key)) by {
            assert(it.seq().unref().to_set().contains(*key));
        }
        let sink = listeners.get(key).unwrap().clone();
        let ghost posts0 = posts@;
        posts.push(Post { key: *key, sink: sink });
        assert(it.seq().take(it.index() + 1).unref() =~= it.seq().take(it.index()).unref().push(*key));
        assert(post_keys(posts@) =~= post_keys(posts0).push(*key));
        assert(it.index() + 1 == it.seq().len() ==> it.seq().take(it.index() + 1) =~= it.seq());
        assert(it.index() + 1 == it.seq().len() ==> it.seq().unref().no_duplicates());
    }
    posts
}

/// Maps each topic to the sinks subscribed to it, each under a key.
pub struct Broker<S> {
    map: HashMap<Token, HashMap<Token, S>>,
}

impl<S> View for Broker<S> {
    type V = Map<Token, Map<Token, S>>;

    closed spec fn view(&self) -> Map<Token, Map<Token, S>> {
        self.map@.map_values(|listeners: HashMap<Token, S>| listeners@)
    }
}

impl<S> Broker<S> {
    /// A broker with no topic.
    pub fn new() -> (broker: Self)
        ensures
            broker@ == Map::<Token, Map<Token, S>>::empty(),
    {
        let broker = Broker { map: HashMap::new() };
        assert(broker@ =~= Map::<Token, Map<Token, S>>::empty());
        broker
    }

    /// The posts that publish `event`: one to each sink subscribed to the
    /// event's topic, through a clone of it; none where the topic has no sink.
    /// The host posts a copy of the event through each.
    pub fn publish<D>(&self, event: &Event<D>) -> (posts: Vec<Post<S>>)
        where S: Clone,
        ensures
            published(self@, event.topic, posts@),
    {
        match self.map.get(&event.topic) {
            Some(listeners) => posts_to(listeners),
            None => {
                let none: HashMap<Token, S> = HashMap::new();
                assert(none@ =~= listeners_on(self@, event.topic));
                posts_to(&none)
            },
        }
    }

    /// Subscribes `listener` to `topic` under `listener_key`, replacing a sink
    /// with the same key. True where no sink had that key on that topic.
    pub fn subscribe(&mut self, topic: Token, listener_key: Token, listener: S) -> (added: bool)
        ensures
            subscribed(old(self)@, final(self)@, topic, listener_key, listener),
            added == !listeners_on(old(self)@, topic).contains_key(listener_key),
    {
        match self.map.remove(&topic) {
            Some(mut listeners) => {
                let added = listeners.insert(listener_key, listener).is_none();
                self.map.insert(topic, listeners);
                assert(self@ =~= old(self)@.insert(
                    topic,
                    listeners_on(old(self)@, topic).insert(listener_key, listener),
                ));
                added
            },
            None => {
                let mut listeners = HashMap::new();
                listeners.insert(listener_key, listener);
                self.map.insert(topic, listeners);
                assert(self@ =~= old(self)@.insert(
                    topic,
                    listeners_on(old(self)@, topic).insert(listener_key, listener),
                ));
                true
            },
        }
    }

    /// Removes the sink under `listener_key` from `topic`. True where it was there.
    pub fn unsubscribe(&mut self, topic: Token, listener_key: Token) -> (removed: bool)
        ensures
            unsubscribed(old(self)@, final(self)@, topic, listener_key),
            removed == listeners_on(old(self)@, topic).contains_key(listener_key),
    {
        match self.map.remove(&topic) {
            Some(mut listeners) => {
                let removed = listeners.remove(&listener_key).is_some();
                self.map.insert(topic, listeners);
                assert(self@ =~= old(self)@.insert(topic, old(self)@[topic].remove(listener_key)));
                removed
            },
            None => {
                assert(self@ =~= old(self)@);
                false
            },
        }
    }
}

/// A topic with no listener gets no post.
pub proof fn law_quiet_topic_gets_no_post<S: Clone>(
    board: Map<Token, Map<Token, S>>,
    topic: Token,
    posts: Seq<Post<S>>,
)
    requires
        published(board, topic, posts),
        listeners_on(board, topic).dom() == Set::<Token>::empty(),
    ensures
        posts.len() == 0,
{
    if posts.len() > 0 {
        assert(post_keys(posts).to_set().contains(posts[0].key)) by {
            assert(post_keys(posts)[0] == posts[0].key);
        }
    }
}

/// A publication on a topic just after a sink subscribed to it under `key`
/// posts exactly once under `key`, through a clone of that sink (not of a sink
/// it replaced).
pub proof fn law_subscriber_gets_one_post<S: Clone>(
    b0: Map<Token, Map<Token, S>>,
    b1: Map<Token, Map<Token, S>>,
    topic: Token,
    key: Token,
    sink: S,
    posts: Seq<Post<S>>,
)
    requires
        subscribed(b0, b1, topic, key, sink),
        published(b1, topic, posts),
    ensures
        post_keys(posts).contains(key),
        forall|i: int, j: int|
            0 <= i < posts.len() && 0 <= j < posts.len() && #[trigger] posts[i].key == key
                && #[trigger] posts[j].key == key ==> i == j,
        forall|i: int| 0 <= i < posts.len() && #[trigger] posts[i].key == key ==> cloned(sink, posts[i].sink),
{
    assert(listeners_on(b1, topic).contains_key(key));
    assert(post_keys(posts).to_set().contains(key));
    assert forall|i: int, j: int|
        0 <= i < posts.len() && 0 <= j < posts.len() && #[trigger] posts[i].key == key
            && #[trigger] posts[j].key == key implies i == j by {
        assert(post_keys(posts)[i] == post_keys(posts)[j]);
    }
    assert forall|i: int| 0 <= i < posts.len() && #[trigger] posts[i].key == key implies cloned(sink, posts[i].sink) by {
        assert(listeners_on(b1, topic)[key] == sink);
    }
}

/// A publication on a topic just after the sink under `key` left it posts
/// nothing under `key`.
pub proof fn law_unsubscribed_gets_no_post<S: Clone>(
    b0: Map<Token, Map<Token, S>>,
    b1: Map<Token, Map<Token, S>>,
    topic: Token,
    key: Token,
    posts: Seq<Post<S>>,
)
    requires
        unsubscribed(b0, b1, topic, key),
        published(b1, topic, posts),
    ensures
        forall|i: int| 0 <= i < posts.len() ==> #[trigger] posts[i].key != key,
{
    assert(!listeners_on(b1, topic).contains_key(key));
}

} // verus!
