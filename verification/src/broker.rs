//! A broker: keys with a value each, and the topics each key listens to.
//!
//! The broker keeps two maps in step. `values` maps a key to its value and to
//! the set of topics it listens to; `board` maps a topic to the listeners on
//! it, each with a copy of its value taken when it started to listen.
use std::collections::{HashMap, HashSet};
use vstd::prelude::*;
use crate::board::listeners_on;
use crate::event::Token;

verus! {

broadcast use vstd::std_specs::hash::group_hash_axioms;

/// What a broker holds: each key's value and topics, and each topic's listeners.
pub struct BrokerView<V> {
    pub values: Map<Token, (V, Set<Token>)>,
    pub board: Map<Token, Map<Token, V>>,
}

/// One operation on a broker.
pub enum BrokerOp<V> {
    Insert(Token, V),
    Remove(Token),
    Listen(Token, Token),
    Ignore(Token, Token),
    RemoveTopic(Token),
}

/// The value a broker holds for `key` after `ops`, starting empty: that of the
/// last insert of `key`, unless a removal of `key` comes after it.
pub open spec fn value_after<V>(ops: Seq<BrokerOp<V>>, key: Token) -> Option<V>
    decreases ops.len(),
{
    if ops.len() == 0 {
        None
    } else {
        match ops.last() {
            BrokerOp::Insert(k, v) => if k == key {
                Some(v)
            } else {
                value_after(ops.drop_last(), key)
            },
            BrokerOp::Remove(k) => if k == key {
                None
            } else {
                value_after(ops.drop_last(), key)
            },
            _ => value_after(ops.drop_last(), key),
        }
    }
}

/// `board` with `key` taken off every topic in `topics`.
pub open spec fn unlinked<V>(
    board: Map<Token, Map<Token, V>>,
    key: Token,
    topics: Set<Token>,
) -> Map<Token, Map<Token, V>> {
    board.map_entries(
        |t: Token, listeners: Map<Token, V>|
            if topics.contains(t) {
                listeners.remove(key)
            } else {
                listeners
            },
    )
}

/// `values` with `topic` taken off the topics of every key in `keys`.
pub open spec fn detached<V>(
    values: Map<Token, (V, Set<Token>)>,
    topic: Token,
    keys: Set<Token>,
) -> Map<Token, (V, Set<Token>)> {
    values.map_entries(
        |k: Token, entry: (V, Set<Token>)|
            if keys.contains(k) {
                (entry.0, entry.1.remove(topic))
            } else {
                entry
            },
    )
}

impl<V: Clone> BrokerView<V> {
    /// The listeners of `topic`, each with its value.
    pub open spec fn listeners(self, topic: Token) -> Map<Token, V> {
        listeners_on(self.board, topic)
    }

    /// The topics `key` listens to.
    pub open spec fn topics(self, key: Token) -> Set<Token> {
        self.values[key].1
    }

    /// `post` is `self` after `key` was given `value` and no topics.
    pub open spec fn inserted(self, post: Self, key: Token, value: V) -> bool {
        &&& post.values == self.values.insert(key, (value, Set::<Token>::empty()))
        &&& post.board == self.board
    }

    /// `post` is `self` after the key `key`, which it holds, was taken out
    /// and off every topic it listens to.
    pub open spec fn removed(self, post: Self, key: Token) -> bool {
        &&& post.values == self.values.remove(key)
        &&& post.board == unlinked(self.board, key, self.topics(key))
    }

    /// `post` is `self` after the key `key`, which it holds, started to listen
    /// to `topic`, with a clone of its value on the board.
    pub open spec fn listened(self, post: Self, key: Token, topic: Token) -> bool {
        &&& post.values == self.values.insert(key, (self.values[key].0, self.topics(key).insert(topic)))
        &&& post.board == self.board.insert(topic, self.listeners(topic).insert(key, post.board[topic][key]))
        &&& cloned(self.values[key].0, post.board[topic][key])
    }

    /// `post` is `self` after the key `key`, which listens to `topic`, stopped
    /// listening to it.
    pub open spec fn ignored(self, post: Self, key: Token, topic: Token) -> bool {
        &&& post.values == self.values.insert(key, (self.values[key].0, self.topics(key).remove(topic)))
        &&& post.board == self.board.insert(topic, self.board[topic].remove(key))
    }

    /// `post` is `self` after `topic` was taken off the board and off the
    /// topics of each of its listeners.
    pub open spec fn topic_removed(self, post: Self, topic: Token) -> bool {
        &&& post.board == self.board.remove(topic)
        &&& post.values == detached(self.values, topic, self.listeners(topic).dom())
    }

    /// `post` is `self` after `op`, as the broker's methods carry it out.
    pub open spec fn stepped(self, post: Self, op: BrokerOp<V>) -> bool {
        match op {
            BrokerOp::Insert(key, value) => self.inserted(post, key, value),
            BrokerOp::Remove(key) => if self.values.contains_key(key) {
                self.removed(post, key)
            } else {
                post == self
            },
            BrokerOp::Listen(key, topic) => if self.values.contains_key(key) {
                self.listened(post, key, topic)
            } else {
                post == self
            },
            BrokerOp::Ignore(key, topic) => if self.values.contains_key(key) && self.topics(key).contains(topic) {
                self.ignored(post, key, topic)
            } else {
                post == self
            },
            BrokerOp::RemoveTopic(topic) => self.topic_removed(post, topic),
        }
    }

    /// Every topic a key listens to lists the key among its listeners.
    pub open spec fn wf(self) -> bool {
        forall|k: Token, t: Token|
            #![trigger self.values[k].1.contains(t)]
            self.values.contains_key(k) && self.values[k].1.contains(t) ==> {
                &&& self.board.contains_key(t)
                &&& self.board[t].contains_key(k)
            }
    }

    /// Every listener of `topic` is a key of the broker.
    pub open spec fn knows_listeners_of(self, topic: Token) -> bool {
        forall|k: Token| #[trigger] self.listeners(topic).contains_key(k) ==> self.values.contains_key(k)
    }

    /// Every listener of every topic is a key of the broker.
    pub open spec fn knows_all_listeners(self) -> bool {
        forall|t: Token, k: Token|
            #![trigger self.board[t].contains_key(k)]
            self.board.contains_key(t) && self.board[t].contains_key(k) ==> self.values.contains_key(k)
    }
}

/// Keys with a value each, and for each topic the keys that listen to it.
pub struct Broker<V> {
    values: HashMap<Token, (V, HashSet<Token>)>,
    board: HashMap<Token, HashMap<Token, V>>,
}

impl<V> View for Broker<V> {
    type V = BrokerView<V>;

    closed spec fn view(&self) -> BrokerView<V> {
        BrokerView {
            values: self.values@.map_values(|entry: (V, HashSet<Token>)| (entry.0, entry.1@)),
            board: self.board@.map_values(|listeners: HashMap<Token, V>| listeners@),
        }
    }
}

impl<V: Clone> Broker<V> {
    /// An empty broker.
    pub fn new() -> (broker: Self)
        ensures
            broker@.values == Map::<Token, (V, Set<Token>)>::empty(),
            broker@.board == Map::<Token, Map<Token, V>>::empty(),
            broker@.wf(),
            broker@.knows_all_listeners(),
    {
        let broker = Broker { values: HashMap::new(), board: HashMap::new() };
        assert(broker@.values =~= Map::<Token, (V, Set<Token>)>::empty());
        assert(broker@.board =~= Map::<Token, Map<Token, V>>::empty());
        broker
    }

    /// Gives `key` the value `value` and no topics, and returns its former value.
    ///
    /// Topics that listed `key` keep it among their listeners, with its former value.
    pub fn insert(&mut self, key: Token, value: V) -> (former: Option<V>)
        requires
            old(self)@.wf(),
        ensures
            final(self)@.wf(),
            old(self)@.inserted(final(self)@, key, value),
            old(self)@.stepped(final(self)@, BrokerOp::Insert(key, value)),
            former == (if old(self)@.values.contains_key(key) {
                Some(old(self)@.values[key].0)
            } else {
                None::<V>
            }),
            old(self)@.knows_all_listeners() ==> final(self)@.knows_all_listeners(),
    {
        let former = match self.values.insert(key, (value, HashSet::new())) {
            Some(entry) => Some(entry.0),
            None => None,
        };
        assert(self@.values =~= old(self)@.values.insert(key, (value, Set::<Token>::empty())));
        assert forall|t: Token, k: Token|
            old(self)@.knows_all_listeners() && self@.board.contains_key(t)
                && #[trigger] self@.board[t].contains_key(k) implies self@.values.contains_key(k) by {
            assert(old(self)@.board[t].contains_key(k));
        }
        former
    }

    /// The value of `key`.
    pub fn get(&self, key: &Token) -> (value: Option<&V>)
        ensures
            value is Some <==> self@.values.contains_key(*key),
            value matches Some(v) ==> *v == self@.values[*key].0,
    {
        match self.values.get(key) {
            Some(entry) => Some(&entry.0),
            None => None,
        }
    }

    /// Takes `key` out of the broker, off every topic it listens to, and
    /// returns its value.
    pub fn remove(&mut self, key: &Token) -> (former: Option<V>)
        requires
            old(self)@.wf(),
        ensures
            final(self)@.wf(),
            former is Some <==> old(self)@.values.contains_key(*key),
            former matches Some(v) ==> v == old(self)@.values[*key].0 && old(self)@.removed(final(self)@, *key),
            former is None ==> final(self)@ == old(self)@,
            old(self)@.stepped(final(self)@, BrokerOp::Remove(*key)),
    {
        match self.values.remove(key) {
            Some(entry) => {
                let (value, topics) = entry;
                let ghost board0 = self@.board;
                assert(forall|t: Token| #[trigger] topics@.contains(t) ==> board0.contains_key(t)) by {
                    assert forall|t: Token| #[trigger] topics@.contains(t) implies board0.contains_key(t) by {
                        assert(old(self)@.values[*key].1.contains(t));
                    }
                }
                let ghost mut done = Set::<Token>::empty();
                for topic in it: topics.iter()
                    invariant
                        self@.values == old(self)@.values.remove(*key),
                        forall|t: Token| #[trigger] topics@.contains(t) ==> board0.contains_key(t),
                        it.seq().unref().to_set() == topics@,
                        done == it.seq().take(it.index()).unref().to_set(),
                        it.index() == it.seq().len() ==> done == topics@,
                        self@.board == unlinked(board0, *key, done),
                {
                    assert(it.seq().unref().to_set().contains(*topic)) by {
                        assert(it.seq().unref()[it.index()] == *topic);
                    }
                    assert(self@.board.contains_key(*topic));
                    let ghost prev = self@.board;
                    let mut listeners = self.board.remove(topic).unwrap();
                    listeners.remove(key);
                    self.board.insert(*topic, listeners);
                    assert(it.seq().take(it.index()).unref().push(*topic).to_set()
                        =~= it.seq().take(it.index()).unref().to_set().insert(*topic)) by {
                        it.seq().take(it.index()).unref().lemma_push_to_set_commute(*topic);
                    }
                    assert(it.seq().take(it.index() + 1).unref()
                        =~= it.seq().take(it.index()).unref().push(*topic));
                    proof {
                        done = done.insert(*topic);
                    }
                    assert(done =~= it.seq().take(it.index() + 1).unref().to_set());
                    assert(it.index() + 1 == it.seq().len() ==> it.seq().take(it.index() + 1) =~= it.seq());
                    assert(self@.board =~= prev.insert(*topic, prev[*topic].remove(*key)));
                    assert(prev[*topic].remove(*key) =~= board0[*topic].remove(*key));
                    assert(self@.board =~= unlinked(board0, *key, done));
                }
                assert(board0 == old(self)@.board);
                assert forall|k: Token, t: Token|
                    self@.values.contains_key(k) && #[trigger] self@.values[k].1.contains(t) implies
                    self@.board.contains_key(t) && self@.board[t].contains_key(k) by {
                    assert(old(self)@.values[k].1.contains(t));
                }
                Some(value)
            },
            None => {
                assert(self@.values =~= old(self)@.values);
                None
            },
        }
    }

    /// Takes `topic` off the board and off the topics of each of its listeners,
    /// and returns its listeners, each with its value (none where the board had
    /// no entry for `topic`).
    pub fn remove_topic(&mut self, topic: &Token) -> (listeners: HashMap<Token, V>)
        requires
            old(self)@.wf(),
            old(self)@.knows_listeners_of(*topic),
        ensures
            final(self)@.wf(),
            listeners@ == old(self)@.listeners(*topic),
            old(self)@.topic_removed(final(self)@, *topic),
            old(self)@.stepped(final(self)@, BrokerOp::RemoveTopic(*topic)),
            old(self)@.knows_all_listeners() ==> final(self)@.knows_all_listeners(),
    {
        match self.board.remove(topic) {
            Some(listeners) => {
                let ghost keys = listeners@.dom();
                assert(listeners@ == old(self)@.listeners(*topic));
                assert forall|k: Token| #[trigger] keys.contains(k) implies old(self)@.values.contains_key(k) by {
                    assert(old(self)@.listeners(*topic).contains_key(k));
                }
                let ghost mut done = Set::<Token>::empty();
                for key in it: listeners.keys()
                    invariant
                        self@.board == old(self)@.board.remove(*topic),
                        forall|k: Token| #[trigger] keys.contains(k) ==> old(self)@.values.contains_key(k),
                        keys == listeners@.dom(),
                        it.seq().unref().to_set() == keys,
                        done == it.seq().take(it.index()).unref().to_set(),
                        it.index() == it.seq().len() ==> done == keys,
                        self@.values == detached(old(self)@.values, *topic, done),
                {
                    assert(it.seq().unref().to_set().contains(*key)) by {
                        assert(it.seq().unref()[it.index()] == *key);
                    }
                    assert(self@.values.contains_key(*key));
                    let ghost prev = self@.values;
                    let (value, mut topics) = self.values.remove(key).unwrap();
                    topics.remove(topic);
                    self.values.insert(*key, (value, topics));
                    assert(it.seq().take(it.index()).unref().push(*key).to_set()
                        =~= it.seq().take(it.index()).unref().to_set().insert(*key)) by {
                        it.seq().take(it.index()).unref().lemma_push_to_set_commute(*key);
                    }
                    assert(it.seq().take(it.index() + 1).unref()
                        =~= it.seq().take(it.index()).unref().push(*key));
                    proof {
                        done = done.insert(*key);
                    }
                    assert(done =~= it.seq().take(it.index() + 1).unref().to_set());
                    assert(it.index() + 1 == it.seq().len() ==> it.seq().take(it.index() + 1) =~= it.seq());
                    assert(self@.values =~= prev.insert(*key, (prev[*key].0, prev[*key].1.remove(*topic))));
                    assert(prev[*key].1.remove(*topic) =~= old(self)@.values[*key].1.remove(*topic));
                    assert(self@.values =~= detached(old(self)@.values, *topic, done));
                }
                assert(self@.board =~= old(self)@.board.remove(*topic));
                assert forall|k: Token, t: Token|
                    self@.values.contains_key(k) && #[trigger] self@.values[k].1.contains(t) implies
                    self@.board.contains_key(t) && self@.board[t].contains_key(k) by {
                    assert(old(self)@.values[k].1.contains(t));
                    if t == *topic {
                        assert(keys.contains(k));
                    }
                }
                assert forall|t: Token, k: Token|
                    old(self)@.knows_all_listeners() && self@.board.contains_key(t)
                        && #[trigger] self@.board[t].contains_key(k) implies self@.values.contains_key(k) by {
                    assert(old(self)@.board[t].contains_key(k));
                }
                listeners
            },
            None => {
                let listeners = HashMap::new();
                assert(listeners@ =~= old(self)@.listeners(*topic));
                assert(self@.board =~= old(self)@.board.remove(*topic));
                assert(self@.values =~= detached(old(self)@.values, *topic, listeners@.dom()));
                listeners
            },
        }
    }

    /// Makes `key` listen to `topic`, with a copy of its value on the board.
    /// False, with nothing changed, where `key` is not in the broker.
    pub fn listen(&mut self, key: Token, topic: Token) -> (known: bool)
        requires
            old(self)@.wf(),
        ensures
            final(self)@.wf(),
            known == old(self)@.values.contains_key(key),
            known ==> old(self)@.listened(final(self)@, key, topic),
            !known ==> final(self)@ == old(self)@,
            old(self)@.stepped(final(self)@, BrokerOp::Listen(key, topic)),
            old(self)@.knows_all_listeners() ==> final(self)@.knows_all_listeners(),
    {
        match self.values.remove(&key) {
            Some(entry) => {
                let (value, mut topics) = entry;
                topics.insert(topic);
                let copy = value.clone();
                self.values.insert(key, (value, topics));
                let listeners = match self.board.remove(&topic) {
                    Some(mut listeners) => {
                        listeners.insert(key, copy);
                        listeners
                    },
                    None => {
                        let mut listeners = HashMap::new();
                        listeners.insert(key, copy);
                        listeners
                    },
                };
                self.board.insert(topic, listeners);
                assert(self@.values =~= old(self)@.values.insert(
                    key,
                    (old(self)@.values[key].0, old(self)@.topics(key).insert(topic)),
                ));
                assert(self@.board =~= old(self)@.board.insert(
                    topic,
                    old(self)@.listeners(topic).insert(key, copy),
                ));
                assert(self@.board[topic][key] == copy);
                assert forall|k: Token, t: Token|
                    self@.values.contains_key(k) && #[trigger] self@.values[k].1.contains(t) implies
                    self@.board.contains_key(t) && self@.board[t].contains_key(k) by {
                    if k != key {
                        assert(old(self)@.values[k].1.contains(t));
                    } else if t != topic {
                        assert(old(self)@.values[k].1.contains(t));
                    }
                }
                assert forall|t: Token, k: Token|
                    old(self)@.knows_all_listeners() && self@.board.contains_key(t)
                        && #[trigger] self@.board[t].contains_key(k) implies self@.values.contains_key(k) by {
                    if k != key {
                        assert(old(self)@.board[t].contains_key(k));
                    }
                }
                true
            },
            None => {
                assert(self@.values =~= old(self)@.values);
                false
            },
        }
    }

    /// Makes `key` stop listening to `topic`. True where it listened to it.
    pub fn ignore(&mut self, key: &Token, topic: &Token) -> (stopped: bool)
        requires
            old(self)@.wf(),
        ensures
            final(self)@.wf(),
            stopped == (old(self)@.values.contains_key(*key) && old(self)@.topics(*key).contains(*topic)),
            stopped ==> old(self)@.ignored(final(self)@, *key, *topic),
            !stopped ==> final(self)@ == old(self)@,
            old(self)@.stepped(final(self)@, BrokerOp::Ignore(*key, *topic)),
            old(self)@.knows_all_listeners() ==> final(self)@.knows_all_listeners(),
    {
        match self.values.remove(key) {
            Some(entry) => {
                let (value, mut topics) = entry;
                let ghost before = topics@;
                let listened = topics.remove(topic);
                self.values.insert(*key, (value, topics));
                if listened {
                    assert(old(self)@.values[*key].1.contains(*topic));
                    let mut listeners = self.board.remove(topic).unwrap();
                    listeners.remove(key);
                    self.board.insert(*topic, listeners);
                    assert(self@.values =~= old(self)@.values.insert(
                        *key,
                        (old(self)@.values[*key].0, old(self)@.topics(*key).remove(*topic)),
                    ));
                    assert(self@.board =~= old(self)@.board.insert(
                        *topic,
                        old(self)@.board[*topic].remove(*key),
                    ));
                    assert forall|k: Token, t: Token|
                        self@.values.contains_key(k) && #[trigger] self@.values[k].1.contains(t) implies
                        self@.board.contains_key(t) && self@.board[t].contains_key(k) by {
                        assert(old(self)@.values[k].1.contains(t));
                    }
                    assert forall|t: Token, k: Token|
                        old(self)@.knows_all_listeners() && self@.board.contains_key(t)
                            && #[trigger] self@.board[t].contains_key(k) implies self@.values.contains_key(k) by {
                        assert(old(self)@.board[t].contains_key(k));
                    }
                    true
                } else {
                    assert(topics@ =~= before);
                    assert(self@.values =~= old(self)@.values);
                    false
                }
            },
            None => {
                assert(self@.values =~= old(self)@.values);
                false
            },
        }
    }

    /// The listeners of `topic`, each with its value; `None` where the board
    /// has no entry for `topic`.
    pub fn query(&self, topic: &Token) -> (listeners: Option<&HashMap<Token, V>>)
        ensures
            listeners is Some <==> self@.board.contains_key(*topic),
            listeners matches Some(m) ==> m@ == self@.board[*topic],
    {
        self.board.get(topic)
    }
}

/// What `insert` gave a key is its value afterwards, and the key listens to no topic.
pub proof fn law_get_after_insert<V: Clone>(
    pre: BrokerView<V>,
    post: BrokerView<V>,
    key: Token,
    value: V,
)
    requires
        pre.inserted(post, key, value),
    ensures
        post.values.contains_key(key),
        post.values[key].0 == value,
        post.topics(key) == Set::<Token>::empty(),
{
}

/// After a key starts to listen to a topic, the topic lists it, with a clone of its value.
pub proof fn law_listener_is_listed<V: Clone>(
    pre: BrokerView<V>,
    post: BrokerView<V>,
    key: Token,
    topic: Token,
)
    requires
        pre.values.contains_key(key),
        pre.listened(post, key, topic),
    ensures
        post.topics(key).contains(topic),
        post.listeners(topic).contains_key(key),
        cloned(pre.values[key].0, post.listeners(topic)[key]),
{
}

/// Ignoring a topic just after starting to listen to it succeeds, and where the
/// key did not listen to it before, leaves the key's topics as they were and
/// the topic's listeners as they were but for the key (the topic keeps an
/// entry on the board).
pub proof fn law_ignore_undoes_listen<V: Clone>(
    b0: BrokerView<V>,
    b1: BrokerView<V>,
    b2: BrokerView<V>,
    key: Token,
    topic: Token,
)
    requires
        b0.values.contains_key(key),
        !b0.topics(key).contains(topic),
        b0.listened(b1, key, topic),
        b1.ignored(b2, key, topic),
    ensures
        b1.values.contains_key(key) && b1.topics(key).contains(topic),
        b2.values == b0.values,
        b2.board == b0.board.insert(topic, b0.listeners(topic).remove(key)),
{
    assert(b2.values[key].1 =~= b0.values[key].1);
    assert(b2.values =~= b0.values);
    assert(b2.board[topic] =~= b0.listeners(topic).remove(key));
    assert(b2.board =~= b0.board.insert(topic, b0.listeners(topic).remove(key)));
}

/// A removed key is gone, and no topic it listened to lists it any more.
pub proof fn law_removed_key_is_unlisted<V: Clone>(
    pre: BrokerView<V>,
    post: BrokerView<V>,
    key: Token,
)
    requires
        pre.wf(),
        pre.values.contains_key(key),
        pre.removed(post, key),
    ensures
        !post.values.contains_key(key),
        forall|t: Token| #[trigger] pre.topics(key).contains(t) ==> {
            &&& post.board.contains_key(t)
            &&& !post.board[t].contains_key(key)
        },
{
    assert forall|t: Token| #[trigger] pre.topics(key).contains(t) implies {
        &&& post.board.contains_key(t)
        &&& !post.board[t].contains_key(key)
    } by {
        assert(pre.values[key].1.contains(t));
    }
}

/// Once a topic is removed, the board has no entry for it and no key listens to it.
pub proof fn law_removed_topic_has_no_listener<V: Clone>(
    pre: BrokerView<V>,
    post: BrokerView<V>,
    topic: Token,
)
    requires
        pre.wf(),
        pre.topic_removed(post, topic),
    ensures
        !post.board.contains_key(topic),
        forall|k: Token| #[trigger] post.values.contains_key(k) ==> !post.topics(k).contains(topic),
{
    assert forall|k: Token| #[trigger] post.values.contains_key(k) implies !post.topics(k).contains(topic) by {
        if pre.values[k].1.contains(topic) {
            assert(pre.listeners(topic).contains_key(k));
        }
    }
}

/// Removing a key just after it was given a value leaves the board as it was,
/// and, where the key was new, the values too.
pub proof fn law_remove_undoes_insert<V: Clone>(
    b0: BrokerView<V>,
    b1: BrokerView<V>,
    b2: BrokerView<V>,
    key: Token,
    value: V,
)
    requires
        b0.inserted(b1, key, value),
        b1.removed(b2, key),
    ensures
        b2.board == b0.board,
        !b0.values.contains_key(key) ==> b2.values == b0.values,
{
    assert(b2.board =~= b0.board);
    assert(!b0.values.contains_key(key) ==> b2.values =~= b0.values);
}

/// One step keeps each key's value as `value_after` says.
proof fn lemma_value_step<V: Clone>(
    pre: BrokerView<V>,
    post: BrokerView<V>,
    op: BrokerOp<V>,
    key: Token,
)
    requires
        pre.stepped(post, op),
    ensures
        post.values.contains_key(key) == (match op {
            BrokerOp::Insert(k, _) => k == key || pre.values.contains_key(key),
            BrokerOp::Remove(k) => k != key && pre.values.contains_key(key),
            _ => pre.values.contains_key(key),
        }),
        post.values.contains_key(key) ==> post.values[key].0 == (match op {
            BrokerOp::Insert(k, v) => if k == key { v } else { pre.values[key].0 },
            _ => pre.values[key].0,
        }),
{
}

/// `bs[n]` holds for `key` the value `value_after` gives for the first `n` ops.
proof fn lemma_value_at<V: Clone>(
    bs: Seq<BrokerView<V>>,
    ops: Seq<BrokerOp<V>>,
    key: Token,
    n: int,
)
    requires
        bs.len() == ops.len() + 1,
        bs[0].values == Map::<Token, (V, Set<Token>)>::empty(),
        forall|i: int| 0 <= i < ops.len() ==> #[trigger] bs[i].stepped(bs[i + 1], ops[i]),
        0 <= n < bs.len(),
    ensures
        match value_after(ops.take(n), key) {
            Some(v) => bs[n].values.contains_key(key) && bs[n].values[key].0 == v,
            None => !bs[n].values.contains_key(key),
        },
    decreases n,
{
    if n > 0 {
        lemma_value_at(bs, ops, key, n - 1);
        assert(bs[n - 1].stepped(bs[n - 1 + 1], ops[n - 1]));
        lemma_value_step(bs[n - 1], bs[n], ops[n - 1], key);
        assert(ops.take(n).drop_last() =~= ops.take(n - 1));
        assert(ops.take(n).last() == ops[n - 1]);
    } else {
        assert(ops.take(0).len() == 0);
    }
}

/// Along any run of operations from an empty broker, `get(key)` gives the
/// value of the last insert of `key`, unless a removal of `key` came after
/// it; listening, ignoring and removing topics never change it.
pub proof fn law_get_follows_history<V: Clone>(
    bs: Seq<BrokerView<V>>,
    ops: Seq<BrokerOp<V>>,
    key: Token,
)
    requires
        bs.len() == ops.len() + 1,
        bs[0].values == Map::<Token, (V, Set<Token>)>::empty(),
        forall|i: int| 0 <= i < ops.len() ==> #[trigger] bs[i].stepped(bs[i + 1], ops[i]),
    ensures
        match value_after(ops, key) {
            Some(v) => bs.last().values.contains_key(key) && bs.last().values[key].0 == v,
            None => !bs.last().values.contains_key(key),
        },
{
    lemma_value_at(bs, ops, key, ops.len() as int);
    assert(ops.take(ops.len() as int) =~= ops);
}

/// Listening twice to the same topic changes nothing but the board's copy of
/// the key's value, which is a fresh clone of the same value.
pub proof fn law_listen_twice<V: Clone>(
    b0: BrokerView<V>,
    b1: BrokerView<V>,
    b2: BrokerView<V>,
    key: Token,
    topic: Token,
)
    requires
        b0.values.contains_key(key),
        b0.listened(b1, key, topic),
        b1.listened(b2, key, topic),
    ensures
        b2.values == b1.values,
        b2.board == b1.board.insert(topic, b1.board[topic].insert(key, b2.board[topic][key])),
        cloned(b1.values[key].0, b1.board[topic][key]),
        cloned(b1.values[key].0, b2.board[topic][key]),
{
    assert(b1.values[key].1.insert(topic) =~= b1.values[key].1);
    assert(b2.values =~= b1.values);
    assert(b1.listeners(topic) == b1.board[topic]);
}

/// For values whose clone is an exact copy, listening twice to the same topic
/// leaves the broker as the first listen left it.
pub proof fn law_listen_twice_exact<V: Clone>(
    b0: BrokerView<V>,
    b1: BrokerView<V>,
    b2: BrokerView<V>,
    key: Token,
    topic: Token,
)
    requires
        forall|a: V, b: V| #[trigger] cloned(a, b) ==> a == b,
        b0.values.contains_key(key),
        b0.listened(b1, key, topic),
        b1.listened(b2, key, topic),
    ensures
        b2 == b1,
{
    law_listen_twice(b0, b1, b2, key, topic);
    assert(b2.board[topic][key] == b1.board[topic][key]);
    assert(b2.board[topic] =~= b1.board[topic]);
    assert(b2.board =~= b1.board);
}

} // verus!
