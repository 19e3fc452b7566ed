//! The builder of a turbine: the rotor it drives, how many workers, and how
//! their threads are named.
use std::collections::HashMap;
use vstd::prelude::*;
use crate::board::{listeners_on, subscribed, unsubscribed};
use crate::event::{Event, Token};
use crate::outside::{cpu_count, decimal, prefixed_index};
use crate::pubsub::{post_keys, published, Broker, Post};
use crate::worker::WorkerId;

verus! {

/// Settings of a turbine driven by the rotor `R`.
pub struct Turbine<R> {
    rotor: R,
    worker_count: usize,
    prefix: String,
}

impl<R> Turbine<R> {
    /// The rotor.
    pub closed spec fn rotor_of(&self) -> R {
        self.rotor
    }

    /// The number of workers.
    pub closed spec fn workers(&self) -> usize {
        self.worker_count
    }

    /// The prefix of the workers' thread names.
    pub closed spec fn name_prefix_of(&self) -> Seq<char> {
        self.prefix@
    }

    /// Settings for `rotor`: one worker per CPU, threads named `turbine-0`, `turbine-1`, ...
    pub fn new(rotor: R) -> (turbine: Self)
        ensures
            turbine.rotor_of() == rotor,
            turbine.workers() >= 1,
            turbine.name_prefix_of() == "turbine-"@,
    {
        Turbine { rotor: rotor, worker_count: cpu_count(), prefix: "turbine-".to_owned() }
    }

    /// The same settings with `worker_count` workers.
    pub fn num_workers(self, worker_count: usize) -> (turbine: Self)
        ensures
            turbine.rotor_of() == self.rotor_of(),
            turbine.workers() == worker_count,
            turbine.name_prefix_of() == self.name_prefix_of(),
    {
        let mut turbine = self;
        turbine.worker_count = worker_count;
        turbine
    }

    /// The same settings with thread names starting with `prefix`.
    pub fn name_prefix(self, prefix: String) -> (turbine: Self)
        ensures
            turbine.rotor_of() == self.rotor_of(),
            turbine.workers() == self.workers(),
            turbine.name_prefix_of() == prefix@,
    {
        let mut turbine = self;
        turbine.prefix = prefix;
        turbine
    }

    /// The rotor.
    pub fn rotor(&self) -> (rotor: &R)
        ensures
            *rotor == self.rotor_of(),
    {
        &self.rotor
    }

    /// The number of workers.
    pub fn worker_count(&self) -> (count: usize)
        ensures
            count == self.workers(),
    {
        self.worker_count
    }

    /// The name of the thread of worker `index`: the prefix, then `index` in decimal.
    pub fn thread_name(&self, index: usize) -> (name: String)
        ensures
            name@ == self.name_prefix_of() + decimal(index as nat),
    {
        prefixed_index(self.prefix.as_str(), index)
    }
}

broadcast use vstd::std_specs::hash::group_hash_axioms;

/// What the loop of a turbine is told to do.
pub enum TurbineCommand<D, Q> {
    /// Post the event to the workers that listen to its topic.
    Publish(Event<D>),
    /// The worker listens to the token and asks for a stream with the parameter.
    Request(WorkerId, Token, Q),
    /// The worker listens to the token.
    Listen(WorkerId, Token),
    /// The worker stops listening to the token.
    Ignore(WorkerId, Token),
}

/// What the host of a turbine does after a command was routed.
pub enum TurbineAction<D, Q, S> {
    /// Nothing more.
    Done,
    /// Post a copy of the event through each post's sink.
    Publish(Event<D>, Vec<Post<S>>),
    /// Start the stream for the token with the parameter.
    StartStream(Token, Q),
}

/// The key a worker listens under on a turbine's broker.
pub open spec fn worker_key(wid: WorkerId) -> Token {
    wid.0 as Token
}

/// The commands `route` can take: a worker that listens must be one of `workers`.
pub open spec fn routable<D, Q, S>(workers: Map<usize, S>, command: TurbineCommand<D, Q>) -> bool {
    match command {
        TurbineCommand::Request(wid, _, _) => workers.contains_key(wid.0),
        TurbineCommand::Listen(wid, _) => workers.contains_key(wid.0),
        _ => true,
    }
}

/// Routes one command of a turbine's loop: lists the workers an event goes
/// to (those that listen to its topic), subscribes and unsubscribes workers (each reached through its
/// sink in `workers`), and says which stream to start.
pub fn route<D, Q, S: Clone>(
    broker: &mut Broker<S>,
    workers: &HashMap<usize, S>,
    command: TurbineCommand<D, Q>,
) -> (action: TurbineAction<D, Q, S>)
    requires
        routable(workers@, command),
    ensures
        match command {
            TurbineCommand::Publish(event) => {
                &&& final(broker)@ == old(broker)@
                &&& action matches TurbineAction::Publish(e, posts) && {
                    &&& e == event
                    &&& published(old(broker)@, event.topic, posts@)
                }
            },
            TurbineCommand::Request(wid, token, param) => {
                let key = worker_key(wid);
                &&& subscribed(old(broker)@, final(broker)@, token, key, final(broker)@[token][key])
                &&& cloned(workers@[wid.0], final(broker)@[token][key])
                &&& action == TurbineAction::<D, Q, S>::StartStream(token, param)
            },
            TurbineCommand::Listen(wid, token) => {
                let key = worker_key(wid);
                &&& subscribed(old(broker)@, final(broker)@, token, key, final(broker)@[token][key])
                &&& cloned(workers@[wid.0], final(broker)@[token][key])
                &&& action is Done
            },
            TurbineCommand::Ignore(wid, token) => {
                &&& unsubscribed(old(broker)@, final(broker)@, token, worker_key(wid))
                &&& action is Done
            },
        },
{
    match command {
        TurbineCommand::Publish(event) => {
            let posts = broker.publish(&event);
            TurbineAction::Publish(event, posts)
        },
        TurbineCommand::Request(wid, token, param) => {
            let sink = workers.get(&wid.0).unwrap().clone();
            broker.subscribe(token, wid.0 as Token, sink);
            TurbineAction::StartStream(token, param)
        },
        TurbineCommand::Listen(wid, token) => {
            let sink = workers.get(&wid.0).unwrap().clone();
            broker.subscribe(token, wid.0 as Token, sink);
            TurbineAction::Done
        },
        TurbineCommand::Ignore(wid, token) => {
            broker.unsubscribe(token, wid.0 as Token);
            TurbineAction::Done
        },
    }
}

/// Distinct workers listen under distinct keys, so one worker's subscription
/// never replaces or removes another's.
pub proof fn law_worker_keys_distinct(w1: WorkerId, w2: WorkerId)
    ensures
        w1 != w2 ==> worker_key(w1) != worker_key(w2),
{
}

/// Two distinct workers that listened to a topic (as `route` subscribes them)
/// both get a later publication on it: one post each, through a clone of its
/// own sink.
pub proof fn law_listening_workers_all_get_posts<S: Clone>(
    workers: Map<usize, S>,
    b0: Map<Token, Map<Token, S>>,
    b1: Map<Token, Map<Token, S>>,
    b2: Map<Token, Map<Token, S>>,
    w1: WorkerId,
    w2: WorkerId,
    topic: Token,
    posts: Seq<Post<S>>,
)
    requires
        w1 != w2,
        subscribed(b0, b1, topic, worker_key(w1), b1[topic][worker_key(w1)]),
        cloned(workers[w1.0], b1[topic][worker_key(w1)]),
        subscribed(b1, b2, topic, worker_key(w2), b2[topic][worker_key(w2)]),
        cloned(workers[w2.0], b2[topic][worker_key(w2)]),
        published(b2, topic, posts),
    ensures
        exists|i: int|
            0 <= i < posts.len() && #[trigger] posts[i].key == worker_key(w1) && cloned(b1[topic][worker_key(w1)], posts[i].sink)
                && cloned(workers[w1.0], b1[topic][worker_key(w1)]),
        exists|j: int|
            0 <= j < posts.len() && #[trigger] posts[j].key == worker_key(w2) && cloned(b2[topic][worker_key(w2)], posts[j].sink)
                && cloned(workers[w2.0], b2[topic][worker_key(w2)]),
        b2[topic][worker_key(w1)] == b1[topic][worker_key(w1)],
{
    let k1 = worker_key(w1);
    let k2 = worker_key(w2);
    assert(k1 != k2);
    assert(b2[topic][k1] == b1[topic][k1]);
    assert(listeners_on(b2, topic).contains_key(k1));
    assert(listeners_on(b2, topic).contains_key(k2));
    assert(post_keys(posts).to_set().contains(k1));
    assert(post_keys(posts).to_set().contains(k2));
    let i = choose|i: int| 0 <= i < post_keys(posts).len() && post_keys(posts)[i] == k1;
    let j = choose|j: int| 0 <= j < post_keys(posts).len() && post_keys(posts)[j] == k2;
    assert(posts[i].key == k1);
    assert(posts[j].key == k2);
}

} // verus!
