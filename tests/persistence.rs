use crunch::errors::PersistenceError;
use crunch::{EventInfo, InMemoryPersistence};

fn info() -> EventInfo {
    EventInfo::new("some-domain", "some-entity-type", "some-event-name")
}

#[test]
fn fifo_order_of_next() {
    let mut p = InMemoryPersistence::new();
    p.insert_with_id("e1".to_string(), &info(), b"one").unwrap();
    p.insert_with_id("e2".to_string(), &info(), b"two").unwrap();
    p.insert_with_id("e3".to_string(), &info(), b"three").unwrap();
    assert_eq!(p.next().unwrap().unwrap().0, "e1");
    assert_eq!(p.next().unwrap().unwrap().0, "e2");
    assert_eq!(p.next().unwrap().unwrap().0, "e3");
    assert!(p.next().unwrap().is_none());
}

#[test]
fn fifo_with_random_ids() {
    let mut p = InMemoryPersistence::new();
    for content in [b"a", b"b", b"c"] {
        p.insert(&info(), content.to_vec()).unwrap();
    }
    let mut seen = Vec::new();
    while let Some((id, _)) = p.next().unwrap() {
        let (_, content) = p.get(&id).unwrap().unwrap();
        seen.push((id, content));
    }
    let contents: Vec<Vec<u8>> = seen.iter().map(|s| s.1.clone()).collect();
    assert_eq!(contents, vec![b"a".to_vec(), b"b".to_vec(), b"c".to_vec()]);
    // the ids are fresh
    assert_ne!(seen[0].0, seen[1].0);
    assert_ne!(seen[1].0, seen[2].0);
    assert_eq!(seen[0].0.len(), 36);
}

#[test]
fn get_before_and_after_update_published() {
    let mut p = InMemoryPersistence::new();
    p.insert(&info(), b"some-strange-and-cruncy-content".to_vec()).unwrap();
    let (id, _) = p.next().unwrap().unwrap();
    let (got_info, content) = p.get(&id).unwrap().unwrap();
    assert_eq!(got_info.domain, "some-domain");
    assert_eq!(got_info.entity_type, "some-entity-type");
    assert_eq!(got_info.event_name, "some-event-name");
    assert_eq!(content, b"some-strange-and-cruncy-content");
    p.update_published(&id).unwrap();
    assert!(p.get(&id).unwrap().is_none());
}

#[test]
fn not_found_and_empty_store() {
    let mut p = InMemoryPersistence::new();
    assert!(p.get("missing").unwrap().is_none());
    assert!(p.next().unwrap().is_none());
    match p.update_published("missing") {
        Err(PersistenceError::UpdatePublished(msg)) => {
            assert_eq!(msg, "event was not found on id: missing")
        }
        other => panic!("unexpected: {:?}", other),
    }
}

#[test]
fn update_published_twice_is_a_no_op() {
    let mut p = InMemoryPersistence::new();
    p.insert_with_id("e1".to_string(), &info(), b"x").unwrap();
    p.update_published("e1").unwrap();
    p.update_published("e1").unwrap();
    assert!(p.get("e1").unwrap().is_none());
    assert_eq!(p.store.len(), 1);
    assert_eq!(p.store[0].state, crunch::MsgState::Published);
}

#[test]
fn update_published_takes_the_id_off_the_queue() {
    let mut p = InMemoryPersistence::new();
    p.insert_with_id("e1".to_string(), &info(), b"x").unwrap();
    p.insert_with_id("e2".to_string(), &info(), b"y").unwrap();
    p.update_published("e1").unwrap();
    assert_eq!(p.next().unwrap().unwrap().0, "e2");
    assert!(p.next().unwrap().is_none());
}

#[test]
fn popped_id_is_still_served_and_can_be_requeued() {
    let mut p = InMemoryPersistence::new();
    p.insert_with_id("e1".to_string(), &info(), b"x").unwrap();
    let (id, _) = p.next().unwrap().unwrap();
    assert!(p.get(&id).unwrap().is_some());
    assert!(p.requeue(&id));
    assert!(!p.requeue(&id));
    assert_eq!(p.next().unwrap().unwrap().0, "e1");
    p.update_published("e1").unwrap();
    assert!(!p.requeue("e1"));
    assert!(!p.requeue("unknown"));
}

#[test]
fn duplicate_id_is_refused() {
    let mut p = InMemoryPersistence::new();
    p.insert_with_id("e1".to_string(), &info(), b"x").unwrap();
    match p.insert_with_id("e1".to_string(), &info(), b"y") {
        Err(PersistenceError::InsertErr(_)) => {}
        other => panic!("unexpected: {:?}", other),
    }
    assert_eq!(p.get("e1").unwrap().unwrap().1, b"x");
}

#[test]
fn event_info_names() {
    let i = EventInfo::new("billing", "invoice", "created");
    assert_eq!(i.transport_name(), "crunch.billing.invoice.created");
    assert_eq!(i.to_string(), "domain: billing, entity_type: invoice");
    let c = i.clone();
    assert_eq!(c.event_name, "created");
}

#[test]
fn unused_id_avoids_taken_ids() {
    let mut p = InMemoryPersistence::new();
    assert_eq!(p.unused_id("e1".to_string()), "e1");
    p.insert_with_id("e1".to_string(), &info(), b"x").unwrap();
    p.insert_with_id("long-id".to_string(), &info(), b"y").unwrap();
    assert_eq!(p.unused_id("e1".to_string()), "long-id-");
    assert_eq!(p.unused_id("free".to_string()), "free");
    p.insert(&info(), b"z".to_vec()).unwrap();
    assert_eq!(p.store.len(), 3);
}

#[test]
fn topic_names_are_lower_case() {
    let i = EventInfo::new("Billing", "Invoice", "Created");
    assert_eq!(i.topic_key(), "crunch.Billing.Invoice.Created");
    assert_eq!(i.transport_name(), "crunch.billing.invoice.created");
}
