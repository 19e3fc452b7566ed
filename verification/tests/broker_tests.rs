use flock::broker::Broker;

#[test]
fn insert_returns_former_value() {
    let mut broker: Broker<u32> = Broker::new();
    assert_eq!(broker.insert(1, 10), None);
    assert_eq!(broker.insert(1, 11), Some(10));
    assert_eq!(broker.get(&1), Some(&11));
    assert_eq!(broker.get(&2), None);
}

#[test]
fn listen_lists_key_with_its_value() {
    let mut broker: Broker<u32> = Broker::new();
    broker.insert(1, 10);
    assert!(broker.listen(1, 7));
    let listeners = broker.query(&7).unwrap();
    assert_eq!(listeners.len(), 1);
    assert_eq!(listeners.get(&1), Some(&10));
}

#[test]
fn listen_unknown_key_changes_nothing() {
    let mut broker: Broker<u32> = Broker::new();
    assert!(!broker.listen(5, 7));
    assert!(broker.query(&7).is_none());
}

#[test]
fn ignore_undoes_listen() {
    let mut broker: Broker<u32> = Broker::new();
    broker.insert(1, 10);
    broker.insert(2, 20);
    broker.listen(1, 7);
    broker.listen(2, 7);
    assert!(broker.ignore(&1, &7));
    let listeners = broker.query(&7).unwrap();
    assert_eq!(listeners.len(), 1);
    assert_eq!(listeners.get(&2), Some(&20));
    // a second ignore finds nothing to stop
    assert!(!broker.ignore(&1, &7));
    // the topic keeps its (possibly empty) entry
    assert!(broker.ignore(&2, &7));
    assert_eq!(broker.query(&7).unwrap().len(), 0);
}

#[test]
fn ignore_unknown_key_or_topic() {
    let mut broker: Broker<u32> = Broker::new();
    broker.insert(1, 10);
    assert!(!broker.ignore(&1, &7));
    assert!(!broker.ignore(&9, &7));
}

#[test]
fn remove_takes_key_off_its_topics() {
    let mut broker: Broker<u32> = Broker::new();
    broker.insert(1, 10);
    broker.insert(2, 20);
    broker.listen(1, 7);
    broker.listen(1, 8);
    broker.listen(2, 8);
    assert_eq!(broker.remove(&1), Some(10));
    assert_eq!(broker.get(&1), None);
    assert_eq!(broker.query(&7).unwrap().len(), 0);
    let on_8 = broker.query(&8).unwrap();
    assert_eq!(on_8.len(), 1);
    assert!(on_8.contains_key(&2));
    assert_eq!(broker.remove(&1), None);
}

#[test]
fn reinsert_keeps_stale_listing() {
    let mut broker: Broker<u32> = Broker::new();
    broker.insert(1, 10);
    broker.listen(1, 7);
    assert_eq!(broker.insert(1, 11), Some(10));
    // the key no longer listens, but the board still lists its former value
    assert!(!broker.ignore(&1, &7));
    assert_eq!(broker.query(&7).unwrap().get(&1), Some(&10));
}

#[test]
fn remove_topic_returns_listeners_and_detaches_them() {
    let mut broker: Broker<u32> = Broker::new();
    broker.insert(1, 10);
    broker.insert(2, 20);
    broker.listen(1, 7);
    broker.listen(2, 7);
    broker.listen(2, 8);
    let removed = broker.remove_topic(&7);
    assert_eq!(removed.len(), 2);
    assert_eq!(removed.get(&1), Some(&10));
    assert_eq!(removed.get(&2), Some(&20));
    assert!(broker.query(&7).is_none());
    assert!(!broker.ignore(&1, &7));
    assert!(!broker.ignore(&2, &7));
    assert!(broker.ignore(&2, &8));
}

#[test]
fn remove_topic_without_entry_is_empty() {
    let mut broker: Broker<u32> = Broker::new();
    broker.insert(1, 10);
    assert!(broker.remove_topic(&3).is_empty());
    assert_eq!(broker.get(&1), Some(&10));
}

#[test]
fn remove_undoes_insert() {
    let mut broker: Broker<u32> = Broker::new();
    broker.insert(1, 10);
    broker.listen(1, 7);
    assert_eq!(broker.insert(2, 20), None);
    assert_eq!(broker.remove(&2), Some(20));
    assert_eq!(broker.get(&2), None);
    assert_eq!(broker.query(&7).unwrap().len(), 1);
}
