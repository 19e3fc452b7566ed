use flock::actor::Actor;
use flock::central::{colleagues, new_event, ActorState, Builder, Dispatcher, Reaction};
use flock::event::{Command, Event, EventId};
use flock::turbine::Turbine;
use flock::worker::{forward, sleep_command, Forward, WorkerId};
use flock::event::{Request, Syscall};

type Cmd = Command<u32, char>;

fn deliveries(r: Reaction<u32, char>) -> (Event<u32>, Vec<(u64, char, Option<WorkerId>)>) {
    match r {
        Reaction::Deliver(e, ds) => {
            let mut v: Vec<_> = ds.into_iter().map(|d| (d.actor, d.sink, d.wake)).collect();
            v.sort_by_key(|t| t.0);
            (e, v)
        }
        _ => panic!("expected a delivery"),
    }
}

#[test]
fn actor_state_new_is_awake() {
    let s = ActorState::new(WorkerId(3));
    assert_eq!(s, ActorState { wid: WorkerId(3), last_eid: EventId(0), is_sleep: false });
}

#[test]
fn new_event_numbers_in_order() {
    let mut ctx = 0u64;
    let a = new_event(&5, Some(1u8), &mut ctx);
    let b = new_event(&6, None::<u8>, &mut ctx);
    assert_eq!(a.id, EventId(1));
    assert_eq!(b.id, EventId(2));
    assert_eq!(b.topic, 6);
    assert_eq!(ctx, 2);
}

#[test]
fn publish_reaches_listeners_and_wakes_sleepers() {
    let mut d: Dispatcher<char> = Dispatcher::new(1, 'a');
    d.handle::<u32>(Cmd::Spawn(1, 2, 'b'));
    d.handle::<u32>(Cmd::Listen(1, 9));
    d.handle::<u32>(Cmd::Listen(2, 9));
    // actor 2 goes to sleep having seen nothing
    assert!(matches!(d.handle::<u32>(Cmd::Sleep(WorkerId(0), 2, EventId(0))), Reaction::Nothing));
    let (e, ds) = deliveries(d.handle(Cmd::Publish(9, 77)));
    assert_eq!(e.id, EventId(1));
    assert_eq!(e.topic, 9);
    assert_eq!(e.data, Some(77));
    assert_eq!(ds, vec![(1, 'a', None), (2, 'b', Some(WorkerId(0)))]);
}

#[test]
fn publish_on_quiet_topic_delivers_nothing() {
    let mut d: Dispatcher<char> = Dispatcher::new(1, 'a');
    let (e, ds) = deliveries(d.handle(Cmd::Publish(4, 1)));
    assert_eq!(e.id, EventId(1));
    assert!(ds.is_empty());
    let (e2, _) = deliveries(d.handle(Cmd::Publish(4, 2)));
    assert_eq!(e2.id, EventId(2));
}

#[test]
fn spawn_makes_parent_listen_to_child() {
    let mut d: Dispatcher<char> = Dispatcher::new(1, 'a');
    d.handle::<u32>(Cmd::Spawn(1, 2, 'b'));
    let (_, ds) = deliveries(d.handle(Cmd::Publish(2, 5)));
    assert_eq!(ds, vec![(1, 'a', None)]);
}

#[test]
fn sleep_with_outdated_event_wakes_at_once() {
    let mut d: Dispatcher<char> = Dispatcher::new(1, 'a');
    d.handle::<u32>(Cmd::Listen(1, 9));
    d.handle(Cmd::Publish(9, 1));
    match d.handle::<u32>(Cmd::Sleep(WorkerId(4), 1, EventId(0))) {
        Reaction::Wake(w, a) => {
            assert_eq!(w, WorkerId(4));
            assert_eq!(a, 1);
        }
        _ => panic!("expected a wake-up"),
    }
    // up to date: it sleeps, and the next event wakes it on its own worker
    assert!(matches!(d.handle::<u32>(Cmd::Sleep(WorkerId(4), 1, EventId(1))), Reaction::Nothing));
    let (_, ds) = deliveries(d.handle(Cmd::Publish(9, 2)));
    assert_eq!(ds, vec![(1, 'a', Some(WorkerId(0)))]);
}

#[test]
fn kill_sends_last_event_and_silences_topic() {
    let mut d: Dispatcher<char> = Dispatcher::new(1, 'a');
    d.handle::<u32>(Cmd::Spawn(1, 2, 'b'));
    let (e, ds) = deliveries(d.handle(Cmd::Kill(2)));
    assert_eq!(e.id, EventId(1));
    assert_eq!(e.data, None);
    assert_eq!(ds, vec![(1, 'a', None)]);
    let (_, ds2) = deliveries(d.handle(Cmd::Publish(2, 3)));
    assert!(ds2.is_empty());
}

#[test]
fn ignore_stops_delivery() {
    let mut d: Dispatcher<char> = Dispatcher::new(1, 'a');
    d.handle::<u32>(Cmd::Listen(1, 9));
    d.handle::<u32>(Cmd::Ignore(1, 9));
    let (_, ds) = deliveries(d.handle(Cmd::Publish(9, 3)));
    assert!(ds.is_empty());
}

#[test]
fn accepts_refuses_unknown_actors() {
    let d: Dispatcher<char> = Dispatcher::new(1, 'a');
    assert!(d.accepts(&Cmd::Spawn(1, 2, 'b')));
    assert!(!d.accepts(&Cmd::Spawn(3, 2, 'b')));
    assert!(!d.accepts(&Cmd::Sleep(WorkerId(0), 3, EventId(0))));
    assert!(d.accepts(&Cmd::Publish(3, 0)));
    assert!(d.accepts(&Cmd::Listen(3, 4)));
}

#[test]
fn colleagues_are_the_other_workers() {
    let mut order = colleagues(5, 2);
    order.sort();
    assert_eq!(order, vec![0, 1, 3, 4]);
    assert!(colleagues(1, 0).is_empty());
    let mut all = colleagues(3, 7);
    all.sort();
    assert_eq!(all, vec![0, 1, 2]);
}

#[test]
fn builder_settings() {
    let b = Builder::new(());
    assert!(b.worker_count() >= 1);
    assert_eq!(b.thread_name(0), "flock-0");
    let b = b.num_workers(3).name_prefix(String::from("w-"));
    assert_eq!(b.worker_count(), 3);
    assert_eq!(b.thread_name(12), "w-12");
}

#[test]
fn turbine_settings() {
    let t = Turbine::new(5u8);
    assert!(t.worker_count() >= 1);
    assert_eq!(*t.rotor(), 5);
    assert_eq!(t.thread_name(107), "turbine-107");
    let t = t.num_workers(2).name_prefix(String::from("t"));
    assert_eq!(t.worker_count(), 2);
    assert_eq!(t.thread_name(3), "t3");
}

#[test]
fn actor_last_eid_follows_inbox() {
    let mut a: Actor<u8> = Actor::create(4);
    assert_eq!(a.id, 4);
    assert_eq!(a.last_eid(), None);
    a.refill(vec![
        Event { id: EventId(2), topic: 1, data: Some(1) },
        Event { id: EventId(5), topic: 1, data: None },
    ]);
    assert_eq!(a.last_eid(), Some(EventId(5)));
    assert_eq!(a.events().len(), 2);
    a.refill(Vec::new());
    assert_eq!(a.last_eid(), None);
}

#[test]
fn forward_translates_requests() {
    match forward::<u8, (), &str, char>(3, Request::Publish(9)) {
        Forward::Post(Syscall::Command(Command::Publish(a, d))) => assert_eq!((a, d), (3, 9)),
        _ => panic!(),
    }
    assert!(matches!(
        forward::<u8, (), &str, char>(3, Request::Kill),
        Forward::Last(Syscall::Command(Command::Kill(3)))
    ));
    assert!(matches!(
        forward::<u8, u16, &str, char>(3, Request::Open(1, 8)),
        Forward::Post(Syscall::Open(3, 1, 8))
    ));
    assert!(matches!(
        forward::<u8, (), &str, char>(3, Request::Listen(6)),
        Forward::Post(Syscall::Command(Command::Listen(3, 6)))
    ));
    assert!(matches!(
        forward::<u8, (), &str, char>(3, Request::Ignore(6)),
        Forward::Post(Syscall::Command(Command::Ignore(3, 6)))
    ));
    assert!(matches!(
        forward::<u8, (), &str, char>(3, Request::Spawn("task", 6)),
        Forward::Spawn("task", 6)
    ));
}

#[test]
fn sleep_command_unless_killed() {
    assert!(sleep_command::<u8, char>(WorkerId(1), 3, true, Some(EventId(2))).is_none());
    assert!(matches!(
        sleep_command::<u8, char>(WorkerId(1), 3, false, Some(EventId(2))),
        Some(Command::Sleep(WorkerId(1), 3, EventId(2)))
    ));
    assert!(matches!(
        sleep_command::<u8, char>(WorkerId(1), 3, false, None),
        Some(Command::Sleep(WorkerId(1), 3, EventId(0)))
    ));
}
