use flock::board::Board;
use flock::pubsub::{Broker, Sink};
use flock::event::{Event, EventId};
use std::cell::RefCell;

#[test]
fn board_subscribe_and_query() {
    let mut board: Board<&str> = Board::new();
    assert!(board.query(&1).is_none());
    assert!(board.subscribe(1, 10, "a"));
    assert!(board.subscribe(1, 11, "b"));
    assert!(!board.subscribe(1, 10, "c"));
    let mut found: Vec<&str> = board.query(&1).unwrap().values().copied().collect();
    found.sort();
    assert_eq!(found, vec!["b", "c"]);
}

#[test]
fn board_unsubscribe_undoes_subscribe() {
    let mut board: Board<u8> = Board::new();
    board.subscribe(1, 10, 0);
    assert!(board.unsubscribe(1, 10));
    assert!(!board.unsubscribe(1, 10));
    assert!(!board.unsubscribe(2, 10));
    assert_eq!(board.query(&1).unwrap().len(), 0);
}

struct Recorder {
    got: RefCell<Vec<(u64, Option<u32>)>>,
}

impl Sink for &Recorder {
    type Item = Event<u32>;

    fn post(&self, msg: Event<u32>) {
        self.got.borrow_mut().push((msg.id.0, msg.data));
    }
}

fn post_all(broker: &Broker<&Recorder>, event: Event<u32>) -> Vec<u64> {
    let posts = broker.publish(&event);
    let keys: Vec<u64> = posts.iter().map(|p| p.key).collect();
    for post in posts {
        post.sink.post(event.clone());
    }
    keys
}

#[test]
fn pubsub_publish_reaches_subscribers_of_topic_only() {
    let a = Recorder { got: RefCell::new(Vec::new()) };
    let b = Recorder { got: RefCell::new(Vec::new()) };
    let mut broker: Broker<&Recorder> = Broker::new();
    assert!(broker.subscribe(7, 1, &a));
    assert!(broker.subscribe(8, 2, &b));
    assert_eq!(post_all(&broker, Event { id: EventId(3), topic: 7, data: Some(42) }), vec![1]);
    assert!(post_all(&broker, Event { id: EventId(4), topic: 9, data: Some(43) }).is_empty());
    assert_eq!(*a.got.borrow(), vec![(3, Some(42))]);
    assert!(b.got.borrow().is_empty());
    assert!(broker.unsubscribe(7, 1));
    assert!(!broker.unsubscribe(7, 1));
    assert!(post_all(&broker, Event { id: EventId(5), topic: 7, data: None }).is_empty());
    assert_eq!(a.got.borrow().len(), 1);
}

#[test]
fn event_clone_copies_fields() {
    let e = Event { id: EventId(9), topic: 4, data: Some(String::from("x")) };
    let c = e.clone();
    assert_eq!(c.id, EventId(9));
    assert_eq!(c.topic, 4);
    assert_eq!(c.data.as_deref(), Some("x"));
}

#[test]
fn pubsub_resubscribe_replaces_sink() {
    let a = Recorder { got: RefCell::new(Vec::new()) };
    let b = Recorder { got: RefCell::new(Vec::new()) };
    let mut broker: Broker<&Recorder> = Broker::new();
    assert!(broker.subscribe(7, 1, &a));
    assert!(!broker.subscribe(7, 1, &b));
    assert_eq!(post_all(&broker, Event { id: EventId(1), topic: 7, data: Some(1) }), vec![1]);
    assert!(a.got.borrow().is_empty());
    assert_eq!(*b.got.borrow(), vec![(1, Some(1))]);
}
