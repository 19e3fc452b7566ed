//! The central loop's decisions: numbering events, routing them to listeners,
//! and putting actors to sleep and waking them.
use std::collections::HashMap;
use vstd::prelude::*;
use vstd::std_specs::iter::IteratorSpec;
use crate::broker::{Broker, BrokerView};
use crate::event::{Command, Event, EventId, Token};
use crate::worker::WorkerId;
use crate::outside::{cpu_count, decimal, prefixed_index, shuffle};

verus! {

broadcast use vstd::std_specs::hash::group_hash_axioms;

/// What the central loop knows of an actor.
#[derive(Clone, Copy, Debug, PartialEq, Eq, Structural)]
pub struct ActorState {
    /// The worker the actor belongs to.
    pub wid: WorkerId,
    /// The newest event sent to the actor.
    pub last_eid: EventId,
    /// Whether the actor has gone to sleep waiting for events; only a new spawn under its token clears it.
    pub is_sleep: bool,
}

impl ActorState {
    /// An actor of worker `wid` that has had no event yet and is awake.
    pub fn new(wid: WorkerId) -> (state: Self)
        ensures
            state == (ActorState { wid, last_eid: EventId(0), is_sleep: false }),
    {
        ActorState { wid: wid, last_eid: EventId(0), is_sleep: false }
    }
}

/// Numbers a new event on `topic`: its id is one more than the last one issued.
pub fn new_event<D>(topic: &Token, data: Option<D>, id_ctx: &mut u64) -> (event: Event<D>)
    requires
        *old(id_ctx) < u64::MAX,
    ensures
        *final(id_ctx) == *old(id_ctx) + 1,
        event == (Event { id: EventId(*final(id_ctx)), topic: *topic, data }),
{
    let nid = *id_ctx + 1;
    *id_ctx = nid;
    Event { id: EventId(nid), topic: *topic, data: data }
}

/// One actor an event goes to: its token, the sink that reaches it, and the
/// worker to wake it on, where it sleeps.
pub struct Delivery<S> {
    pub actor: Token,
    pub sink: S,
    pub wake: Option<WorkerId>,
}

/// What the host has to do after the central loop handled a command.
pub enum Reaction<D, S> {
    /// Send the event through each delivery's sink, and wake each delivery's
    /// actor on the worker it names.
    Deliver(Event<D>, Vec<Delivery<S>>),
    /// Wake the actor (second) on the worker (first).
    Wake(WorkerId, Token),
    /// Nothing to do.
    Nothing,
}

/// The actors the deliveries go to, in order.
pub open spec fn recipients<S>(deliveries: Seq<Delivery<S>>) -> Seq<Token> {
    deliveries.map_values(|d: Delivery<S>| d.actor)
}

/// `state` after event `eid` was sent to the actor.
pub open spec fn after_event(state: ActorState, eid: EventId) -> ActorState {
    ActorState { last_eid: eid, ..state }
}

/// `deliveries` send event `eid` once to each of `listeners` (with a clone of
/// its sink, and a wake-up where it sleeps in `pre`), and `post` is `pre` with
/// `eid` as the newest event of each listener.
pub open spec fn delivered<S: Clone>(
    pre: Map<Token, ActorState>,
    post: Map<Token, ActorState>,
    listeners: Map<Token, S>,
    eid: EventId,
    deliveries: Seq<Delivery<S>>,
) -> bool {
    &&& recipients(deliveries).no_duplicates()
    &&& recipients(deliveries).to_set() == listeners.dom()
    &&& forall|i: int|
        #![trigger deliveries[i]]
        0 <= i < deliveries.len() ==> {
            let a = deliveries[i].actor;
            &&& listeners.contains_key(a)
            &&& cloned(listeners[a], deliveries[i].sink)
            &&& deliveries[i].wake == (if pre[a].is_sleep { Some(pre[a].wid) } else { None::<WorkerId> })
        }
    &&& post == pre.map_entries(
        |a: Token, state: ActorState|
            if listeners.contains_key(a) {
                after_event(state, eid)
            } else {
                state
            },
    )
}

/// Sends event `eid` to each of `listeners`: records it as their newest event
/// and lists, for each, its sink and whether to wake it.
fn deliver<S: Clone>(
    listeners: &HashMap<Token, S>,
    states: &mut HashMap<Token, ActorState>,
    eid: EventId,
) -> (deliveries: Vec<Delivery<S>>)
    requires
        forall|a: Token| #[trigger] listeners@.contains_key(a) ==> old(states)@.contains_key(a),
    ensures
        delivered(old(states)@, final(states)@, listeners@, eid, deliveries@),
{
    let mut deliveries: Vec<Delivery<S>> = Vec::new();
    let ghost pre = states@;
    let ghost mut done = Set::<Token>::empty();
    assert(states@ =~= pre.map_entries(
        |a: Token, state: ActorState| if done.contains(a) { after_event(state, eid) } else { state },
    ));
    let keys = listeners.keys();
    assert(keys.remaining().len() == 0 ==> delivered(pre, states@, listeners@, eid, deliveries@)) by {
        if keys.remaining().len() == 0 {
            assert(listeners@.dom() =~= Set::<Token>::empty()) by {
                assert(keys.remaining().unref().to_set() == listeners@.dom());
                assert(keys.remaining().unref() =~= Seq::<Token>::empty());
            }
            assert(recipients(deliveries@) =~= Seq::<Token>::empty());
            assert(states@ =~= pre.map_entries(
                |a: Token, state: ActorState|
                    if listeners@.contains_key(a) { after_event(state, eid) } else { state },
            ));
            assert(recipients(deliveries@).no_duplicates());
            assert(recipients(deliveries@).to_set() =~= listeners@.dom());
        }
    }
    for aid in it: keys
        invariant
            pre == old(states)@,
            forall|a: Token| #[trigger] listeners@.contains_key(a) ==> pre.contains_key(a),
            it.seq().unref().to_set() == listeners@.dom(),
            it.seq().no_duplicates(),
            deliveries@.len() == it.index(),
            recipients(deliveries@) == it.seq().take(it.index()).unref(),
            done == it.seq().take(it.index()).unref().to_set(),
            forall|i: int|
                #![trigger deliveries@[i]]
                0 <= i < deliveries@.len() ==> {
                    let a = deliveries@[i].actor;
                    &&& listeners@.contains_key(a)
                    &&& cloned(listeners@[a], deliveries@[i].sink)
                    &&& deliveries@[i].wake == (if pre[a].is_sleep { Some(pre[a].wid) } else { None::<WorkerId> })
                },
            states@ == pre.map_entries(
                |a: Token, state: ActorState| if done.contains(a) { after_event(state, eid) } else { state },
            ),
            it.index() == it.seq().len() ==> delivered(pre, states@, listeners@, eid, deliveries@),
    {
        assert(it.seq().unref()[it.index()] == *aid);
        assert(listeners@.contains_key(*aid));
        assert(!done.contains(*aid)) by {
            if done.contains(*aid) {
                let j = choose|j: int| 0 <= j < it.index() && it.seq().take(it.index()).unref()[j] == *aid;
                assert(it.seq()[j] == it.seq()[it.index()]);
            }
        }
        assert(states@.contains_key(*aid));
        let ghost states0 = states@;
        let state = states.remove(aid).unwrap();
        assert(state == pre[*aid]);
        let wake = if state.is_sleep {
            Some(state.wid)
        } else {
            None
        };
        states.insert(*aid, ActorState { wid: state.wid, last_eid: eid, is_sleep: state.is_sleep });
        let sink = listeners.get(aid).unwrap().clone();
        let ghost deliveries0 = deliveries@;
        deliveries.push(Delivery { actor: *aid, sink: sink, wake: wake });
        assert(it.seq().take(it.index()).unref().push(*aid).to_set()
            =~= it.seq().take(it.index()).unref().to_set().insert(*aid)) by {
            it.seq().take(it.index()).unref().lemma_push_to_set_commute(*aid);
        }
        assert(it.seq().take(it.index() + 1).unref() =~= it.seq().take(it.index()).unref().push(*aid));
        assert(recipients(deliveries@) =~= recipients(deliveries0).push(*aid));
        proof {
            done = done.insert(*aid);
        }
        assert(states@ =~= pre.map_entries(
            |a: Token, state: ActorState| if done.contains(a) { after_event(state, eid) } else { state },
        ));
        assert(it.index() + 1 == it.seq().len() ==> it.seq().take(it.index() + 1) =~= it.seq());
        assert(it.index() + 1 == it.seq().len() ==> it.seq().unref().no_duplicates());
        assert(it.index() + 1 == it.seq().len() ==> states@ =~= pre.map_entries(
            |a: Token, state: ActorState|
                if listeners@.contains_key(a) { after_event(state, eid) } else { state },
        ));
    }
    deliveries
}

/// Delivering an event keeps the known actors, and each actor's newest event
/// is either what it was or the delivered one.
proof fn lemma_delivered_bounds<S: Clone>(
    pre: Map<Token, ActorState>,
    post: Map<Token, ActorState>,
    listeners: Map<Token, S>,
    eid: EventId,
    deliveries: Seq<Delivery<S>>,
    bound: u64,
)
    requires
        delivered(pre, post, listeners, eid, deliveries),
        eid.0 <= bound,
        forall|a: Token| #[trigger] pre.contains_key(a) ==> pre[a].last_eid.0 <= bound,
    ensures
        post.dom() == pre.dom(),
        forall|a: Token| #[trigger] post.contains_key(a) ==> post[a].last_eid.0 <= bound,
{
    assert(post.dom() =~= pre.dom());
}

/// The workers other than `index` among `count` workers, by increasing index.
pub open spec fn others(count: usize, index: usize) -> Seq<usize> {
    let n = if index < count { count - 1 } else { count as int };
    Seq::new(n as nat, |i: int| (if i < index { i } else { i + 1 }) as usize)
}

/// The workers other than `index` among `count` workers, in a random order:
/// the order in which worker `index` tries to take work from the others.
pub fn colleagues(count: usize, index: usize) -> (order: Vec<usize>)
    ensures
        order@.to_multiset() == others(count, index).to_multiset(),
{
    let mut order: Vec<usize> = Vec::new();
    for i in 0..count
        invariant
            order@ == Seq::new(
                (if index < i { i - 1 } else { i as int }) as nat,
                |j: int| (if j < index { j } else { j + 1 }) as usize,
            ),
    {
        if i != index {
            order.push(i);
        }
        assert(order@ =~= Seq::new(
            (if index < i + 1 { i + 1 - 1 } else { i + 1 }) as nat,
            |j: int| (if j < index { j } else { j + 1 }) as usize,
        ));
    }
    assert(order@ =~= others(count, index));
    shuffle(&mut order);
    order
}

/// Settings of a runner driven by the kernel `K`.
pub struct Builder<K> {
    kernel: K,
    worker_count: usize,
    prefix: String,
}

impl<K> Builder<K> {
    /// The kernel.
    pub closed spec fn kernel_of(&self) -> K {
        self.kernel
    }

    /// The number of workers.
    pub closed spec fn workers(&self) -> usize {
        self.worker_count
    }

    /// The prefix of the workers' thread names.
    pub closed spec fn name_prefix_of(&self) -> Seq<char> {
        self.prefix@
    }

    /// Settings for `kernel`: one worker per CPU, threads named `flock-0`, `flock-1`, ...
    pub fn new(kernel: K) -> (builder: Self)
        ensures
            builder.kernel_of() == kernel,
            builder.workers() >= 1,
            builder.name_prefix_of() == "flock-"@,
    {
        Builder { kernel: kernel, worker_count: cpu_count(), prefix: "flock-".to_owned() }
    }

    /// The same settings with `worker_count` workers.
    pub fn num_workers(self, worker_count: usize) -> (builder: Self)
        ensures
            builder.kernel_of() == self.kernel_of(),
            builder.workers() == worker_count,
            builder.name_prefix_of() == self.name_prefix_of(),
    {
        let mut builder = self;
        builder.worker_count = worker_count;
        builder
    }

    /// The same settings with thread names starting with `prefix`.
    pub fn name_prefix(self, prefix: String) -> (builder: Self)
        ensures
            builder.kernel_of() == self.kernel_of(),
            builder.workers() == self.workers(),
            builder.name_prefix_of() == prefix@,
    {
        let mut builder = self;
        builder.prefix = prefix;
        builder
    }

    /// The kernel.
    pub fn kernel(&self) -> (kernel: &K)
        ensures
            *kernel == self.kernel_of(),
    {
        &self.kernel
    }

    /// The number of workers.
    pub fn worker_count(&self) -> (count: usize)
        ensures
            count == self.workers(),
    {
        self.worker_count
    }

    /// The name of the thread of worker `index`: the prefix, then `index` in decimal.
    pub fn thread_name(&self, index: usize) -> (name: String)
        ensures
            name@ == self.name_prefix_of() + decimal(index as nat),
    {
        prefixed_index(self.prefix.as_str(), index)
    }
}

/// What the central loop holds: the broker of actors and topics, the state of
/// each actor, and the id of the last event it issued.
pub struct DispatcherView<S> {
    pub broker: BrokerView<S>,
    pub actors: Map<Token, ActorState>,
    pub last_id: u64,
}

impl<S: Clone> DispatcherView<S> {
    /// The broker keeps its links, knows every listener, and holds exactly
    /// the known actors; no actor has been sent an event not yet issued.
    pub open spec fn wf(self) -> bool {
        &&& self.broker.wf()
        &&& self.broker.knows_all_listeners()
        &&& self.broker.values.dom() == self.actors.dom()
        &&& forall|a: Token| #[trigger] self.actors.contains_key(a) ==> self.actors[a].last_eid.0 <= self.last_id
    }

    /// The commands the central loop can handle in this state: an event can
    /// still be numbered, and the actor a spawn or a sleep names is known.
    pub open spec fn accepts<D>(self, command: Command<D, S>) -> bool {
        match command {
            Command::Publish(_, _) => self.last_id < u64::MAX,
            Command::Kill(_) => self.last_id < u64::MAX,
            Command::Spawn(parent, _, _) => self.actors.contains_key(parent),
            Command::Sleep(_, aid, _) => self.actors.contains_key(aid),
            _ => true,
        }
    }

    /// `post` is `self` after `command` was handled with `reaction` as outcome.
    pub open spec fn handled<D>(self, post: Self, command: Command<D, S>, reaction: Reaction<D, S>) -> bool {
        match command {
            Command::Publish(topic, data) => {
                &&& post.last_id == self.last_id + 1
                &&& post.broker == self.broker
                &&& reaction matches Reaction::Deliver(event, deliveries) && {
                    &&& event == (Event { id: EventId(post.last_id), topic, data: Some(data) })
                    &&& delivered(self.actors, post.actors, self.broker.listeners(topic), event.id, deliveries@)
                }
            },
            Command::Kill(topic) => {
                &&& post.last_id == self.last_id + 1
                &&& self.broker.topic_removed(post.broker, topic)
                &&& reaction matches Reaction::Deliver(event, deliveries) && {
                    &&& event == (Event { id: EventId(post.last_id), topic, data: None::<D> })
                    &&& delivered(self.actors, post.actors, self.broker.listeners(topic), event.id, deliveries@)
                }
            },
            Command::Listen(aid, topic) => {
                &&& reaction is Nothing
                &&& post.actors == self.actors
                &&& post.last_id == self.last_id
                &&& if self.broker.values.contains_key(aid) {
                    self.broker.listened(post.broker, aid, topic)
                } else {
                    post.broker == self.broker
                }
            },
            Command::Ignore(aid, topic) => {
                &&& reaction is Nothing
                &&& post.actors == self.actors
                &&& post.last_id == self.last_id
                &&& if self.broker.values.contains_key(aid) && self.broker.topics(aid).contains(topic) {
                    self.broker.ignored(post.broker, aid, topic)
                } else {
                    post.broker == self.broker
                }
            },
            Command::Spawn(parent, child, sink) => {
                let spawned = BrokerView {
                    values: self.broker.values.insert(child, (sink, Set::<Token>::empty())),
                    board: self.broker.board,
                };
                &&& reaction is Nothing
                &&& post.actors == self.actors.insert(
                    child,
                    ActorState { wid: self.actors[parent].wid, last_eid: EventId(0), is_sleep: false },
                )
                &&& post.last_id == self.last_id
                &&& spawned.listened(post.broker, parent, child)
            },
            Command::Sleep(wid, aid, eid) => {
                &&& post.broker == self.broker
                &&& post.last_id == self.last_id
                &&& if self.actors[aid].last_eid.0 > eid.0 {
                    &&& reaction == Reaction::<D, S>::Wake(wid, aid)
                    &&& post.actors == self.actors
                } else {
                    &&& reaction is Nothing
                    &&& post.actors == self.actors.insert(aid, ActorState { is_sleep: true, ..self.actors[aid] })
                }
            },
        }
    }
}

/// The central loop's state: routes commands from actors to the actors that
/// listen, numbers events, and tracks which actors sleep.
pub struct Dispatcher<S> {
    broker: Broker<S>,
    actor_states: HashMap<Token, ActorState>,
    id_ctx: u64,
}

impl<S: Clone> View for Dispatcher<S> {
    type V = DispatcherView<S>;

    closed spec fn view(&self) -> DispatcherView<S> {
        DispatcherView { broker: self.broker@, actors: self.actor_states@, last_id: self.id_ctx }
    }
}

impl<S: Clone> Dispatcher<S> {
    /// A loop that knows one actor, `init`, of worker 0, reached through `sink`;
    /// no event has been issued yet.
    pub fn new(init: Token, sink: S) -> (dispatcher: Self)
        ensures
            dispatcher@.wf(),
            dispatcher@.last_id == 0,
            dispatcher@.actors == Map::<Token, ActorState>::empty().insert(
                init,
                ActorState { wid: WorkerId(0), last_eid: EventId(0), is_sleep: false },
            ),
            dispatcher@.broker.values == Map::<Token, (S, Set<Token>)>::empty().insert(
                init,
                (sink, Set::<Token>::empty()),
            ),
            dispatcher@.broker.board == Map::<Token, Map<Token, S>>::empty(),
    {
        let mut broker = Broker::new();
        let mut actor_states = HashMap::new();
        broker.insert(init, sink);
        actor_states.insert(init, ActorState::new(WorkerId(0)));
        let dispatcher = Dispatcher { broker, actor_states, id_ctx: 0 };
        assert(dispatcher@.broker.values.dom() =~= dispatcher@.actors.dom());
        dispatcher
    }

    /// Whether `handle` can take `command` in this state.
    pub fn accepts<D>(&self, command: &Command<D, S>) -> (ok: bool)
        ensures
            ok == self@.accepts(*command),
    {
        match command {
            Command::Publish(_, _) => self.id_ctx < u64::MAX,
            Command::Kill(_) => self.id_ctx < u64::MAX,
            Command::Spawn(parent, _, _) => self.actor_states.contains_key(parent),
            Command::Sleep(_, aid, _) => self.actor_states.contains_key(aid),
            _ => true,
        }
    }

    /// Handles one command and says what the host has to do about it.
    pub fn handle<D>(&mut self, command: Command<D, S>) -> (reaction: Reaction<D, S>)
        requires
            old(self)@.wf(),
            old(self)@.accepts(command),
        ensures
            final(self)@.wf(),
            old(self)@.handled(final(self)@, command, reaction),
    {
        match command {
            Command::Publish(topic, data) => {
                let event = new_event(&topic, Some(data), &mut self.id_ctx);
                let deliveries = match self.broker.query(&topic) {
                    Some(listeners) => {
                        assert forall|a: Token| #[trigger] listeners@.contains_key(a) implies
                            self.actor_states@.contains_key(a) by {
                            assert(self.broker@.board[topic].contains_key(a));
                        }
                        deliver(listeners, &mut self.actor_states, event.id)
                    },
                    None => {
                        let empty: HashMap<Token, S> = HashMap::new();
                        assert(empty@ =~= self.broker@.listeners(topic));
                        deliver(&empty, &mut self.actor_states, event.id)
                    },
                };
                proof {
                    lemma_delivered_bounds(old(self)@.actors, self@.actors, old(self)@.broker.listeners(topic), event.id, deliveries@, self.id_ctx);
                }
                assert(self@.broker.values.dom() =~= self@.actors.dom());
                Reaction::Deliver(event, deliveries)
            },
            Command::Kill(topic) => {
                let event = new_event(&topic, None, &mut self.id_ctx);
                assert(self.broker@.knows_listeners_of(topic)) by {
                    assert forall|k: Token| #[trigger] self.broker@.listeners(topic).contains_key(k) implies
                        self.broker@.values.contains_key(k) by {
                        assert(self.broker@.board[topic].contains_key(k));
                    }
                }
                let listeners = self.broker.remove_topic(&topic);
                let deliveries = deliver(&listeners, &mut self.actor_states, event.id);
                proof {
                    lemma_delivered_bounds(old(self)@.actors, self@.actors, old(self)@.broker.listeners(topic), event.id, deliveries@, self.id_ctx);
                }
                assert(self@.broker.values.dom() =~= self@.actors.dom());
                Reaction::Deliver(event, deliveries)
            },
            Command::Listen(aid, topic) => {
                self.broker.listen(aid, topic);
                assert(self@.broker.values.dom() =~= self@.actors.dom());
                Reaction::Nothing
            },
            Command::Ignore(aid, topic) => {
                self.broker.ignore(&aid, &topic);
                assert(self@.broker.values.dom() =~= self@.actors.dom());
                Reaction::Nothing
            },
            Command::Spawn(parent, child, sink) => {
                let wid = self.actor_states.get(&parent).unwrap().wid;
                self.actor_states.insert(child, ActorState::new(wid));
                self.broker.insert(child, sink);
                self.broker.listen(parent, child);
                assert(self@.broker.values.dom() =~= self@.actors.dom());
                Reaction::Nothing
            },
            Command::Sleep(wid, aid, last_eid) => {
                let state = *self.actor_states.get(&aid).unwrap();
                if state.last_eid.0 > last_eid.0 {
                    Reaction::Wake(wid, aid)
                } else {
                    self.actor_states.insert(aid, ActorState { wid: state.wid, last_eid: state.last_eid, is_sleep: true });
                    assert(self@.broker.values.dom() =~= self@.actors.dom());
                    Reaction::Nothing
                }
            },
        }
    }
}

/// No wake-up is lost: an actor that reports it has seen event `eid` while a
/// newer event was already sent to it is woken at once; otherwise it is
/// marked asleep, and the next event sent to it comes with a wake-up on its
/// worker.
pub proof fn law_sleeper_is_woken<D, S: Clone>(
    d0: DispatcherView<S>,
    d1: DispatcherView<S>,
    d2: DispatcherView<S>,
    wid: WorkerId,
    aid: Token,
    eid: EventId,
    r1: Reaction<D, S>,
    next: Command<D, S>,
    r2: Reaction<D, S>,
)
    requires
        d0.wf(),
        d0.accepts(Command::<D, S>::Sleep(wid, aid, eid)),
        d0.handled(d1, Command::<D, S>::Sleep(wid, aid, eid), r1),
        d1.handled(d2, next, r2),
    ensures
        d0.actors[aid].last_eid.0 > eid.0 ==> r1 == Reaction::<D, S>::Wake(wid, aid),
        d0.actors[aid].last_eid.0 <= eid.0 ==> {
            &&& r1 is Nothing
            &&& d1.actors[aid].is_sleep
            &&& r2 matches Reaction::Deliver(event, deliveries) ==> forall|i: int|
                0 <= i < deliveries@.len() && #[trigger] deliveries@[i].actor == aid
                    ==> deliveries@[i].wake == Some(d0.actors[aid].wid)
        },
{
    if d0.actors[aid].last_eid.0 <= eid.0 {
        if let Reaction::Deliver(event, deliveries) = r2 {
            assert forall|i: int|
                0 <= i < deliveries@.len() && #[trigger] deliveries@[i].actor == aid
                    implies deliveries@[i].wake == Some(d0.actors[aid].wid) by {
                assert(deliveries@[i].actor == aid);
            }
        }
    }
}

/// Events are numbered in order: a handled command either leaves the last
/// issued id as it was, or issues an event whose id is one more.
pub proof fn law_event_ids_increase<D, S: Clone>(
    pre: DispatcherView<S>,
    post: DispatcherView<S>,
    command: Command<D, S>,
    reaction: Reaction<D, S>,
)
    requires
        pre.handled(post, command, reaction),
    ensures
        reaction matches Reaction::Deliver(event, _) ==> {
            &&& event.id.0 == pre.last_id + 1
            &&& post.last_id == event.id.0
        },
        !(reaction is Deliver) ==> post.last_id == pre.last_id,
{
}

/// After a kill, no known actor listens to the killed topic any more.
pub proof fn law_killed_topic_is_silent<D, S: Clone>(
    pre: DispatcherView<S>,
    post: DispatcherView<S>,
    topic: Token,
    reaction: Reaction<D, S>,
)
    requires
        pre.wf(),
        pre.handled(post, Command::<D, S>::Kill(topic), reaction),
    ensures
        post.broker.listeners(topic) == Map::<Token, S>::empty(),
        forall|a: Token| #[trigger] post.actors.contains_key(a) ==> !post.broker.topics(a).contains(topic),
{
    crate::broker::law_removed_topic_has_no_listener(pre.broker, post.broker, topic);
    assert(post.actors.dom() =~= pre.actors.dom()) by {
        if let Reaction::Deliver(event, deliveries) = reaction {
            lemma_delivered_bounds(pre.actors, post.actors, pre.broker.listeners(topic), event.id, deliveries@, post.last_id);
        }
    }
    assert forall|a: Token| #[trigger] post.actors.contains_key(a) implies !post.broker.topics(a).contains(topic) by {
        assert(pre.broker.values.contains_key(a));
        assert(post.broker.values.contains_key(a));
    }
}

/// `ds`, `cs` and `rs` are a run of the central loop: every state is well
/// formed, and each command `cs[i]` took the state `ds[i]` to `ds[i + 1]`,
/// with reaction `rs[i]`.
pub open spec fn is_run<D, S: Clone>(
    ds: Seq<DispatcherView<S>>,
    cs: Seq<Command<D, S>>,
    rs: Seq<Reaction<D, S>>,
) -> bool {
    &&& ds.len() == cs.len() + 1
    &&& rs.len() == cs.len()
    &&& forall|i: int| 0 <= i < ds.len() ==> #[trigger] ds[i].wf()
    &&& forall|i: int| 0 <= i < cs.len() ==> #[trigger] ds[i].handled(ds[i + 1], cs[i], rs[i])
}

/// `command` spawns an actor under the token `aid`.
pub open spec fn respawns<D, S>(command: Command<D, S>, aid: Token) -> bool {
    match command {
        Command::Spawn(_, child, _) => child == aid,
        _ => false,
    }
}

/// `command` can make `aid` stop listening to `topic`: it ignores the topic,
/// kills it, or spawns an actor anew under `aid`.
pub open spec fn ends_listening<D, S>(command: Command<D, S>, aid: Token, topic: Token) -> bool {
    match command {
        Command::Ignore(a, t) => a == aid && t == topic,
        Command::Kill(t) => t == topic,
        Command::Spawn(_, child, _) => child == aid,
        _ => false,
    }
}

/// `command` can make `aid` a listener of `topic` again.
pub open spec fn starts_listening<D, S>(command: Command<D, S>, aid: Token, topic: Token) -> bool {
    match command {
        Command::Listen(a, t) => a == aid && t == topic,
        Command::Spawn(parent, child, _) => parent == aid && child == topic,
        _ => false,
    }
}

/// `reaction` sends its event to `aid`, and, where it does, with the wake-up `wake`.
pub open spec fn reaches<D, S>(reaction: Reaction<D, S>, aid: Token) -> bool {
    reaction matches Reaction::Deliver(_, deliveries) && recipients(deliveries@).contains(aid)
}

/// Every delivery of `reaction` to `aid` wakes it on `wid`.
pub open spec fn wakes<D, S>(reaction: Reaction<D, S>, aid: Token, wid: WorkerId) -> bool {
    reaction matches Reaction::Deliver(_, deliveries) ==> forall|k: int|
        0 <= k < deliveries@.len() && #[trigger] deliveries@[k].actor == aid
            ==> deliveries@[k].wake == Some(wid)
}

/// One step of a run keeps a sleeping actor asleep on its worker, unless the
/// step spawns an actor anew under its token.
proof fn lemma_sleep_step<D, S: Clone>(
    pre: DispatcherView<S>,
    post: DispatcherView<S>,
    command: Command<D, S>,
    reaction: Reaction<D, S>,
    aid: Token,
)
    requires
        pre.handled(post, command, reaction),
        pre.actors.contains_key(aid),
        pre.actors[aid].is_sleep,
        !respawns(command, aid),
    ensures
        post.actors.contains_key(aid),
        post.actors[aid].is_sleep,
        post.actors[aid].wid == pre.actors[aid].wid,
        wakes(reaction, aid, pre.actors[aid].wid),
{
    match command {
        Command::Publish(topic, _) => {
            if let Reaction::Deliver(event, deliveries) = reaction {
                assert(post.actors.contains_key(aid));
                assert forall|k: int|
                    0 <= k < deliveries@.len() && #[trigger] deliveries@[k].actor == aid
                        implies deliveries@[k].wake == Some(pre.actors[aid].wid) by {
                    assert(deliveries@[k].actor == aid);
                }
            }
        },
        Command::Kill(topic) => {
            if let Reaction::Deliver(event, deliveries) = reaction {
                assert(post.actors.contains_key(aid));
                assert forall|k: int|
                    0 <= k < deliveries@.len() && #[trigger] deliveries@[k].actor == aid
                        implies deliveries@[k].wake == Some(pre.actors[aid].wid) by {
                    assert(deliveries@[k].actor == aid);
                }
            }
        },
        _ => {},
    }
}

/// From step `j` up to step `m`, a sleeping actor stays asleep on its worker,
/// where no step in between spawns an actor anew under its token.
proof fn lemma_asleep_until<D, S: Clone>(
    ds: Seq<DispatcherView<S>>,
    cs: Seq<Command<D, S>>,
    rs: Seq<Reaction<D, S>>,
    j: int,
    aid: Token,
    m: int,
)
    requires
        is_run(ds, cs, rs),
        0 <= j <= m < ds.len(),
        ds[j].actors.contains_key(aid),
        ds[j].actors[aid].is_sleep,
        forall|i: int| j <= i < cs.len() ==> !respawns(#[trigger] cs[i], aid),
    ensures
        ds[m].actors.contains_key(aid),
        ds[m].actors[aid].is_sleep,
        ds[m].actors[aid].wid == ds[j].actors[aid].wid,
    decreases m - j,
{
    if m > j {
        lemma_asleep_until(ds, cs, rs, j, aid, m - 1);
        assert(ds[m - 1].handled(ds[m - 1 + 1], cs[m - 1], rs[m - 1]));
        assert(!respawns(cs[m - 1], aid));
        lemma_sleep_step(ds[m - 1], ds[m], cs[m - 1], rs[m - 1], aid);
    }
}

/// No wake-up is lost, however many commands come in between: once an actor
/// sleeps, it stays asleep on its worker until an actor is spawned anew under
/// its token, and every event sent to it until then comes with a wake-up on
/// that worker.
pub proof fn law_sleeper_stays_asleep<D, S: Clone>(
    ds: Seq<DispatcherView<S>>,
    cs: Seq<Command<D, S>>,
    rs: Seq<Reaction<D, S>>,
    j: int,
    aid: Token,
)
    requires
        is_run(ds, cs, rs),
        0 <= j < ds.len(),
        ds[j].actors.contains_key(aid),
        ds[j].actors[aid].is_sleep,
        forall|i: int| j <= i < cs.len() ==> !respawns(#[trigger] cs[i], aid),
    ensures
        forall|m: int|
            j <= m < ds.len() ==> {
                &&& #[trigger] ds[m].actors.contains_key(aid)
                &&& ds[m].actors[aid].is_sleep
                &&& ds[m].actors[aid].wid == ds[j].actors[aid].wid
            },
        forall|m: int| j <= m < cs.len() ==> wakes(#[trigger] rs[m], aid, ds[j].actors[aid].wid),
{
    assert forall|m: int| j <= m < ds.len() implies {
        &&& #[trigger] ds[m].actors.contains_key(aid)
        &&& ds[m].actors[aid].is_sleep
        &&& ds[m].actors[aid].wid == ds[j].actors[aid].wid
    } by {
        lemma_asleep_until(ds, cs, rs, j, aid, m);
    }
    assert forall|m: int| j <= m < cs.len() implies wakes(#[trigger] rs[m], aid, ds[j].actors[aid].wid) by {
        lemma_asleep_until(ds, cs, rs, j, aid, m);
        assert(ds[m].handled(ds[m + 1], cs[m], rs[m]));
        assert(!respawns(cs[m], aid));
        lemma_sleep_step(ds[m], ds[m + 1], cs[m], rs[m], aid);
    }
}

/// `command` publishes on `topic`.
pub open spec fn publishes<D, S>(command: Command<D, S>, topic: Token) -> bool {
    match command {
        Command::Publish(t, _) => t == topic,
        _ => false,
    }
}

/// One step keeps `aid` listening to `topic`, unless the step can end that.
proof fn lemma_listening_step<D, S: Clone>(
    pre: DispatcherView<S>,
    post: DispatcherView<S>,
    command: Command<D, S>,
    reaction: Reaction<D, S>,
    aid: Token,
    topic: Token,
)
    requires
        pre.handled(post, command, reaction),
        pre.broker.values.contains_key(aid),
        pre.broker.topics(aid).contains(topic),
        !ends_listening(command, aid, topic),
    ensures
        post.broker.values.contains_key(aid),
        post.broker.topics(aid).contains(topic),
{
    match command {
        Command::Kill(t) => {
            assert(post.broker.values[aid].1 =~= pre.broker.values[aid].1.remove(t)
                || post.broker.values[aid].1 == pre.broker.values[aid].1);
        },
        Command::Ignore(a, t) => {
            if a == aid && pre.broker.topics(aid).contains(t) {
                assert(post.broker.values[aid].1 == pre.broker.values[aid].1.remove(t));
            }
        },
        _ => {},
    }
}

/// Publishing on a topic in a well-formed state reaches every key that listens to it.
proof fn lemma_publish_reaches<D, S: Clone>(
    pre: DispatcherView<S>,
    post: DispatcherView<S>,
    command: Command<D, S>,
    reaction: Reaction<D, S>,
    aid: Token,
    topic: Token,
)
    requires
        pre.wf(),
        pre.handled(post, command, reaction),
        publishes(command, topic),
        pre.broker.values.contains_key(aid),
        pre.broker.topics(aid).contains(topic),
    ensures
        reaches(reaction, aid),
{
    assert(pre.broker.values[aid].1.contains(topic));
    assert(pre.broker.listeners(topic).contains_key(aid));
    if let Reaction::Deliver(event, deliveries) = reaction {
        assert(recipients(deliveries@).to_set().contains(aid));
    }
}

/// From step `j` up to step `m`, `aid` keeps listening to `topic`, where no
/// step in between can end that.
proof fn lemma_listening_until<D, S: Clone>(
    ds: Seq<DispatcherView<S>>,
    cs: Seq<Command<D, S>>,
    rs: Seq<Reaction<D, S>>,
    j: int,
    aid: Token,
    topic: Token,
    m: int,
)
    requires
        is_run(ds, cs, rs),
        0 <= j <= m < ds.len(),
        ds[j].broker.values.contains_key(aid),
        ds[j].broker.topics(aid).contains(topic),
        forall|i: int| j <= i < cs.len() ==> !ends_listening(#[trigger] cs[i], aid, topic),
    ensures
        ds[m].broker.values.contains_key(aid),
        ds[m].broker.topics(aid).contains(topic),
    decreases m - j,
{
    if m > j {
        lemma_listening_until(ds, cs, rs, j, aid, topic, m - 1);
        assert(ds[m - 1].handled(ds[m - 1 + 1], cs[m - 1], rs[m - 1]));
        assert(!ends_listening(cs[m - 1], aid, topic));
        lemma_listening_step(ds[m - 1], ds[m], cs[m - 1], rs[m - 1], aid, topic);
    }
}

/// An actor that listens to a topic hears every later publication on it, until
/// a command ignores or kills the topic or spawns an actor anew under its token.
pub proof fn law_listener_hears<D, S: Clone>(
    ds: Seq<DispatcherView<S>>,
    cs: Seq<Command<D, S>>,
    rs: Seq<Reaction<D, S>>,
    j: int,
    aid: Token,
    topic: Token,
)
    requires
        is_run(ds, cs, rs),
        0 <= j < cs.len(),
        cs[j] == Command::<D, S>::Listen(aid, topic),
        ds[j].actors.contains_key(aid),
        forall|i: int| j < i < cs.len() ==> !ends_listening(#[trigger] cs[i], aid, topic),
    ensures
        forall|m: int| j < m < cs.len() && publishes(#[trigger] cs[m], topic) ==> reaches(rs[m], aid),
{
    assert(ds[j].handled(ds[j + 1], cs[j], rs[j]));
    assert(ds[j].wf());
    assert(ds[j].broker.values.contains_key(aid));
    assert(ds[j + 1].broker.topics(aid).contains(topic));
    assert forall|m: int| j < m < cs.len() && publishes(#[trigger] cs[m], topic) implies reaches(rs[m], aid) by {
        lemma_listening_until(ds, cs, rs, j + 1, aid, topic, m);
        assert(ds[m].handled(ds[m + 1], cs[m], rs[m]));
        assert(ds[m].wf());
        lemma_publish_reaches(ds[m], ds[m + 1], cs[m], rs[m], aid, topic);
    }
}

/// A spawned actor is known on its parent's worker, reached through the given
/// sink, and its parent hears every later publication on the child's token,
/// until a command ignores or kills that topic or spawns anew under the parent.
pub proof fn law_spawn_registers_child<D, S: Clone>(
    ds: Seq<DispatcherView<S>>,
    cs: Seq<Command<D, S>>,
    rs: Seq<Reaction<D, S>>,
    j: int,
    parent: Token,
    child: Token,
    sink: S,
)
    requires
        is_run(ds, cs, rs),
        0 <= j < cs.len(),
        cs[j] == Command::<D, S>::Spawn(parent, child, sink),
        ds[j].actors.contains_key(parent),
        forall|i: int| j < i < cs.len() ==> !ends_listening(#[trigger] cs[i], parent, child),
    ensures
        ds[j + 1].actors[child] == (ActorState {
            wid: ds[j].actors[parent].wid,
            last_eid: EventId(0),
            is_sleep: false,
        }),
        ds[j + 1].broker.values[child].0 == sink,
        forall|m: int| j < m < cs.len() && publishes(#[trigger] cs[m], child) ==> reaches(rs[m], parent),
{
    assert(ds[j].handled(ds[j + 1], cs[j], rs[j]));
    assert(ds[j].wf());
    assert(ds[j].broker.values.contains_key(parent));
    assert(ds[j + 1].broker.values.contains_key(parent));
    assert(ds[j + 1].broker.topics(parent).contains(child));
    assert forall|m: int| j < m < cs.len() && publishes(#[trigger] cs[m], child) implies reaches(rs[m], parent) by {
        lemma_listening_until(ds, cs, rs, j + 1, parent, child, m);
        assert(ds[m].handled(ds[m + 1], cs[m], rs[m]));
        assert(ds[m].wf());
        lemma_publish_reaches(ds[m], ds[m + 1], cs[m], rs[m], parent, child);
    }
}

/// One step keeps `aid` off the listeners of `topic`, unless the step can put it back.
proof fn lemma_unlisted_step<D, S: Clone>(
    pre: DispatcherView<S>,
    post: DispatcherView<S>,
    command: Command<D, S>,
    reaction: Reaction<D, S>,
    aid: Token,
    topic: Token,
)
    requires
        pre.broker.wf(),
        pre.handled(post, command, reaction),
        !pre.broker.listeners(topic).contains_key(aid),
        !starts_listening(command, aid, topic),
    ensures
        !post.broker.listeners(topic).contains_key(aid),
{
    match command {
        Command::Listen(a, t) => {
            if pre.broker.values.contains_key(a) {
                if t == topic {
                    assert(a != aid);
                    assert(post.broker.board[topic] == pre.broker.listeners(topic).insert(a, post.broker.board[topic][a]));
                } else {
                    assert(post.broker.listeners(topic) == pre.broker.listeners(topic));
                }
            }
        },
        Command::Ignore(a, t) => {
            if pre.broker.values.contains_key(a) && pre.broker.topics(a).contains(t) {
                assert(pre.broker.values[a].1.contains(t));
                if t == topic {
                    assert(post.broker.board[topic] == pre.broker.board[topic].remove(a));
                } else {
                    assert(post.broker.listeners(topic) == pre.broker.listeners(topic));
                }
            }
        },
        Command::Spawn(p, c, sink) => {
            let spawned = BrokerView {
                values: pre.broker.values.insert(c, (sink, Set::<Token>::empty())),
                board: pre.broker.board,
            };
            assert(spawned.listened(post.broker, p, c));
            if c == topic {
                assert(p != aid);
                assert(post.broker.board[topic] == pre.broker.listeners(topic).insert(p, post.broker.board[topic][p]));
            } else {
                assert(post.broker.listeners(topic) == pre.broker.listeners(topic));
            }
        },
        Command::Kill(t) => {
            assert(post.broker.board == pre.broker.board.remove(t));
            if t != topic {
                assert(post.broker.listeners(topic) == pre.broker.listeners(topic));
            }
        },
        _ => {},
    }
}

/// From step `j` up to step `m`, `aid` stays off the listeners of `topic`,
/// where no step in between can put it back.
proof fn lemma_unlisted_until<D, S: Clone>(
    ds: Seq<DispatcherView<S>>,
    cs: Seq<Command<D, S>>,
    rs: Seq<Reaction<D, S>>,
    j: int,
    aid: Token,
    topic: Token,
    m: int,
)
    requires
        is_run(ds, cs, rs),
        0 <= j <= m < ds.len(),
        !ds[j].broker.listeners(topic).contains_key(aid),
        forall|i: int| j <= i < cs.len() ==> !starts_listening(#[trigger] cs[i], aid, topic),
    ensures
        !ds[m].broker.listeners(topic).contains_key(aid),
    decreases m - j,
{
    if m > j {
        lemma_unlisted_until(ds, cs, rs, j, aid, topic, m - 1);
        assert(ds[m - 1].wf());
        assert(ds[m - 1].handled(ds[m - 1 + 1], cs[m - 1], rs[m - 1]));
        assert(!starts_listening(cs[m - 1], aid, topic));
        lemma_unlisted_step(ds[m - 1], ds[m], cs[m - 1], rs[m - 1], aid, topic);
    }
}

/// An actor that stops listening to a topic hears no later publication on it,
/// until a command makes it listen to the topic again.
pub proof fn law_ignorer_hears_nothing<D, S: Clone>(
    ds: Seq<DispatcherView<S>>,
    cs: Seq<Command<D, S>>,
    rs: Seq<Reaction<D, S>>,
    j: int,
    aid: Token,
    topic: Token,
)
    requires
        is_run(ds, cs, rs),
        0 <= j < cs.len(),
        cs[j] == Command::<D, S>::Ignore(aid, topic),
        ds[j].broker.values.contains_key(aid),
        ds[j].broker.topics(aid).contains(topic),
        forall|i: int| j < i < cs.len() ==> !starts_listening(#[trigger] cs[i], aid, topic),
    ensures
        forall|m: int| j < m < cs.len() && publishes(#[trigger] cs[m], topic) ==> !reaches(rs[m], aid),
{
    assert(ds[j].handled(ds[j + 1], cs[j], rs[j]));
    assert(ds[j + 1].broker.board[topic] == ds[j].broker.board[topic].remove(aid));
    assert(!ds[j + 1].broker.listeners(topic).contains_key(aid));
    assert forall|m: int| j < m < cs.len() && publishes(#[trigger] cs[m], topic) implies !reaches(rs[m], aid) by {
        lemma_unlisted_until(ds, cs, rs, j + 1, aid, topic, m);
        assert(ds[m].handled(ds[m + 1], cs[m], rs[m]));
        if let Reaction::Deliver(event, deliveries) = rs[m] {
            if recipients(deliveries@).contains(aid) {
                assert(recipients(deliveries@).to_set().contains(aid));
            }
        }
    }
}

/// No wake-up is lost along a run: an actor that reports, with `Sleep`, the
/// newest event it has seen is woken at once where a newer event was already
/// sent to it; otherwise every event sent to it later, until an actor is
/// spawned anew under its token, comes with a wake-up on its worker.
pub proof fn law_no_lost_wakeup<D, S: Clone>(
    ds: Seq<DispatcherView<S>>,
    cs: Seq<Command<D, S>>,
    rs: Seq<Reaction<D, S>>,
    j: int,
    wid: WorkerId,
    aid: Token,
    eid: EventId,
)
    requires
        is_run(ds, cs, rs),
        0 <= j < cs.len(),
        cs[j] == Command::<D, S>::Sleep(wid, aid, eid),
        ds[j].actors.contains_key(aid),
        forall|i: int| j < i < cs.len() ==> !respawns(#[trigger] cs[i], aid),
    ensures
        ds[j].actors[aid].last_eid.0 > eid.0 ==> rs[j] == Reaction::<D, S>::Wake(wid, aid),
        ds[j].actors[aid].last_eid.0 <= eid.0 ==> forall|m: int|
            j < m < cs.len() ==> wakes(#[trigger] rs[m], aid, ds[j].actors[aid].wid),
{
    assert(ds[j].handled(ds[j + 1], cs[j], rs[j]));
    if ds[j].actors[aid].last_eid.0 <= eid.0 {
        assert(ds[j + 1].actors.contains_key(aid));
        assert(ds[j + 1].actors[aid].is_sleep);
        law_sleeper_stays_asleep(ds, cs, rs, j + 1, aid);
    }
}

/// Sending an event never puts an actor to sleep or wakes it, nor moves it:
/// after a publish or a kill, each known actor is still known, on the same
/// worker, with the same sleep flag; and a delivery carries a wake-up exactly
/// where its actor was asleep before.
pub proof fn law_delivery_keeps_sleep<D, S: Clone>(
    pre: DispatcherView<S>,
    post: DispatcherView<S>,
    command: Command<D, S>,
    reaction: Reaction<D, S>,
)
    requires
        pre.handled(post, command, reaction),
        command is Publish || command is Kill,
    ensures
        post.actors.dom() == pre.actors.dom(),
        forall|a: Token| #[trigger] pre.actors.contains_key(a) ==> {
            &&& post.actors[a].is_sleep == pre.actors[a].is_sleep
            &&& post.actors[a].wid == pre.actors[a].wid
        },
        reaction matches Reaction::Deliver(_, deliveries) ==> forall|i: int|
            0 <= i < deliveries@.len() ==> (#[trigger] deliveries@[i]).wake == (if pre.actors[deliveries@[i].actor].is_sleep {
                Some(pre.actors[deliveries@[i].actor].wid)
            } else {
                None::<WorkerId>
            }),
{
    assert(post.actors.dom() =~= pre.actors.dom());
}

/// An actor's newest event is the newest event actually sent to it: a publish
/// or a kill records the new event's id for the listeners of its topic, and
/// leaves every other actor's state as it was.
pub proof fn law_only_listeners_get_the_event<D, S: Clone>(
    pre: DispatcherView<S>,
    post: DispatcherView<S>,
    command: Command<D, S>,
    reaction: Reaction<D, S>,
)
    requires
        pre.handled(post, command, reaction),
        command is Publish || command is Kill,
    ensures
        reaction matches Reaction::Deliver(event, _) && forall|a: Token|
            #[trigger] pre.actors.contains_key(a) ==> if pre.broker.listeners(event.topic).contains_key(a) {
                post.actors[a].last_eid == event.id
            } else {
                post.actors[a] == pre.actors[a]
            },
{
}

/// The loop refuses a command only where it names an unknown actor (a spawn's
/// parent or a sleeper) or where no event id is left: it takes a listen or an
/// ignore always, and a sleep or a spawn from any known actor, asleep or not.
pub proof fn law_accepts_known_actors<D, S: Clone>(
    d: DispatcherView<S>,
    command: Command<D, S>,
)
    ensures
        (command is Listen || command is Ignore) ==> d.accepts(command),
        (command is Publish || command is Kill) ==> (d.accepts(command) <==> d.last_id < u64::MAX),
        command matches Command::Sleep(_, aid, _) ==> (d.accepts(command) <==> d.actors.contains_key(aid)),
        command matches Command::Spawn(parent, _, _) ==> (d.accepts(command) <==> d.actors.contains_key(parent)),
{
}

/// An actor that has just gone to sleep can report a sleep again: the loop
/// takes another `Sleep` from it, whatever its flag.
pub proof fn law_sleeper_can_sleep_again<D, S: Clone>(
    pre: DispatcherView<S>,
    post: DispatcherView<S>,
    wid: WorkerId,
    aid: Token,
    eid: EventId,
    reaction: Reaction<D, S>,
    next: Command<D, S>,
)
    requires
        pre.accepts(Command::<D, S>::Sleep(wid, aid, eid)),
        pre.handled(post, Command::<D, S>::Sleep(wid, aid, eid), reaction),
        next matches Command::Sleep(_, a, _) && a == aid,
    ensures
        post.accepts(next),
{
}

} // verus!
