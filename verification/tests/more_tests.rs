use std::cell::RefCell;
use std::collections::HashMap;
use std::rc::Rc;

use flock::broker::Broker;
use flock::central::{Dispatcher, Reaction};
use flock::event::{Command, Event, EventId, Syscall};
use flock::pubsub;
use flock::turbine::{route, TurbineAction, TurbineCommand};
use flock::worker::{finish_run, forward, run_end, spawn_syscall, Forward, RunEnd, WorkerId};
use flock::event::Request;

type Cmd = Command<u32, char>;

fn wakes_of(r: Reaction<u32, char>) -> Vec<(u64, Option<WorkerId>)> {
    match r {
        Reaction::Deliver(_, ds) => {
            let mut v: Vec<_> = ds.into_iter().map(|d| (d.actor, d.wake)).collect();
            v.sort_by_key(|t| t.0);
            v
        }
        _ => panic!("expected a delivery"),
    }
}

#[test]
fn sleeper_stays_asleep_across_commands() {
    let mut d: Dispatcher<char> = Dispatcher::new(1, 'a');
    d.handle::<u32>(Cmd::Listen(1, 9));
    d.handle::<u32>(Cmd::Sleep(WorkerId(0), 1, EventId(0)));
    d.handle::<u32>(Cmd::Listen(1, 8));
    d.handle::<u32>(Cmd::Spawn(1, 2, 'b'));
    assert_eq!(wakes_of(d.handle(Cmd::Publish(8, 1))), vec![(1, Some(WorkerId(0)))]);
    assert_eq!(wakes_of(d.handle(Cmd::Publish(9, 2))), vec![(1, Some(WorkerId(0)))]);
    // a new spawn under its token makes it a fresh, awake actor
    d.handle::<u32>(Cmd::Spawn(1, 1, 'c'));
    d.handle::<u32>(Cmd::Listen(1, 7));
    assert_eq!(wakes_of(d.handle(Cmd::Publish(7, 3))), vec![(1, None)]);
}

#[test]
fn listener_hears_until_ignore() {
    let mut d: Dispatcher<char> = Dispatcher::new(1, 'a');
    d.handle::<u32>(Cmd::Listen(1, 9));
    d.handle::<u32>(Cmd::Listen(1, 8));
    d.handle::<u32>(Cmd::Ignore(1, 8));
    assert_eq!(wakes_of(d.handle(Cmd::Publish(9, 1))), vec![(1, None)]);
    assert_eq!(wakes_of(d.handle(Cmd::Publish(8, 2))), vec![]);
    d.handle::<u32>(Cmd::Ignore(1, 9));
    assert_eq!(wakes_of(d.handle(Cmd::Publish(9, 3))), vec![]);
}

#[test]
fn spawned_child_is_heard_by_parent() {
    let mut d: Dispatcher<char> = Dispatcher::new(1, 'a');
    d.handle::<u32>(Cmd::Spawn(1, 2, 'b'));
    d.handle::<u32>(Cmd::Listen(2, 5));
    assert_eq!(wakes_of(d.handle(Cmd::Publish(2, 1))), vec![(1, None)]);
    assert_eq!(wakes_of(d.handle(Cmd::Publish(5, 1))), vec![(2, None)]);
}

#[test]
fn get_follows_history() {
    let mut b: Broker<u32> = Broker::new();
    b.insert(1, 10);
    b.listen(1, 4);
    b.insert(2, 20);
    b.ignore(&1, &4);
    b.remove_topic(&4);
    assert_eq!(b.get(&1), Some(&10));
    b.insert(1, 11);
    assert_eq!(b.get(&1), Some(&11));
    b.remove(&1);
    assert_eq!(b.get(&1), None);
    assert_eq!(b.get(&2), Some(&20));
}

#[test]
fn listen_twice_changes_nothing_for_copied_values() {
    let mut b: Broker<u32> = Broker::new();
    b.insert(1, 10);
    assert!(b.listen(1, 4));
    assert!(b.listen(1, 4));
    assert_eq!(b.query(&4).unwrap().len(), 1);
    assert_eq!(b.query(&4).unwrap().get(&1), Some(&10));
    assert!(b.ignore(&1, &4));
    assert!(!b.ignore(&1, &4));
}

#[test]
fn worker_run_end_and_finish() {
    let post = forward::<u8, (), &str, char>(3, Request::Publish(1));
    assert_eq!(run_end(&post), None);
    let kill = forward::<u8, (), &str, char>(3, Request::Kill);
    assert_eq!(run_end(&kill), Some(RunEnd::Killed));
    let spawn = forward::<u8, (), &str, char>(3, Request::Spawn("t", 6));
    assert_eq!(run_end(&spawn), Some(RunEnd::Spawned));
    assert!(matches!(spawn, Forward::Spawn("t", 6)));
    assert!(matches!(
        spawn_syscall::<u8, (), char>(3, 6, 'z'),
        Syscall::Command(Command::Spawn(3, 6, 'z'))
    ));
    let (sleep, again) = finish_run::<u8, char>(WorkerId(2), 3, RunEnd::Spawned, Some(EventId(4)));
    assert!(again);
    assert!(matches!(sleep, Some(Command::Sleep(WorkerId(2), 3, EventId(4)))));
    let (sleep, again) = finish_run::<u8, char>(WorkerId(2), 3, RunEnd::Killed, None);
    assert!(!again);
    assert!(sleep.is_none());
    let (sleep, again) = finish_run::<u8, char>(WorkerId(2), 3, RunEnd::Exhausted, None);
    assert!(!again);
    assert!(matches!(sleep, Some(Command::Sleep(WorkerId(2), 3, EventId(0)))));
}

#[derive(Clone)]
struct Mailbox {
    name: usize,
    got: Rc<RefCell<Vec<(usize, u64)>>>,
}

impl pubsub::Sink for Mailbox {
    type Item = Event<u32>;

    fn post(&self, msg: Event<u32>) {
        self.got.borrow_mut().push((self.name, msg.id.0));
    }
}

fn post_routed(action: TurbineAction<u32, &str, Mailbox>) {
    match action {
        TurbineAction::Publish(event, posts) => {
            for post in posts {
                pubsub::Sink::post(&post.sink, event.clone());
            }
        }
        _ => panic!("expected posts"),
    }
}

#[test]
fn turbine_routes_commands() {
    let got = Rc::new(RefCell::new(Vec::new()));
    let mut workers = HashMap::new();
    workers.insert(0usize, Mailbox { name: 0, got: got.clone() });
    workers.insert(1usize, Mailbox { name: 1, got: got.clone() });
    let mut broker: pubsub::Broker<Mailbox> = pubsub::Broker::new();

    match route::<u32, &str, Mailbox>(&mut broker, &workers, TurbineCommand::Request(WorkerId(1), 7, "feed")) {
        TurbineAction::StartStream(token, param) => assert_eq!((token, param), (7, "feed")),
        _ => panic!("expected a stream to start"),
    }
    assert!(matches!(
        route::<u32, &str, Mailbox>(&mut broker, &workers, TurbineCommand::Listen(WorkerId(0), 7)),
        TurbineAction::Done
    ));
    post_routed(route::<u32, &str, Mailbox>(&mut broker, &workers, TurbineCommand::Publish(Event { id: EventId(1), topic: 7, data: Some(5) })));
    let mut seen = got.borrow().clone();
    seen.sort();
    assert_eq!(seen, vec![(0, 1), (1, 1)]);

    route::<u32, &str, Mailbox>(&mut broker, &workers, TurbineCommand::Ignore(WorkerId(0), 7));
    post_routed(route::<u32, &str, Mailbox>(&mut broker, &workers, TurbineCommand::Publish(Event { id: EventId(2), topic: 7, data: None })));
    post_routed(route::<u32, &str, Mailbox>(&mut broker, &workers, TurbineCommand::Publish(Event { id: EventId(3), topic: 8, data: None })));
    assert_eq!(got.borrow().len(), 3);
    assert_eq!(got.borrow()[2], (1, 2));
}
