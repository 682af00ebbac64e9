use crunch::transport::InMemoryTransport;
use crunch::EventInfo;

fn info() -> EventInfo {
    EventInfo::new("billing", "invoice", "created")
}

#[test]
fn two_subscribers_each_get_every_message() {
    let mut t = InMemoryTransport::new();
    t.publish(&info(), b"before".to_vec()).unwrap();
    let mut a = t.subscriber(&info()).unwrap().unwrap();
    let mut b = t.subscriber(&info()).unwrap().unwrap();
    assert_eq!(a.topic, "crunch.billing.invoice.created");
    t.publish(&info(), b"one".to_vec()).unwrap();
    t.publish(&info(), b"two".to_vec()).unwrap();
    assert_eq!(t.poll(&mut a), Some(b"one".to_vec()));
    assert_eq!(t.poll(&mut a), Some(b"two".to_vec()));
    assert_eq!(t.poll(&mut a), None);
    assert_eq!(t.poll(&mut b), Some(b"one".to_vec()));
    assert_eq!(t.poll(&mut b), Some(b"two".to_vec()));
    assert_eq!(t.poll(&mut b), None);
}

#[test]
fn topics_are_separate() {
    let mut t = InMemoryTransport::new();
    let other = EventInfo::new("billing", "invoice", "paid");
    let mut a = t.subscriber(&info()).unwrap().unwrap();
    t.publish(&other, b"paid".to_vec()).unwrap();
    assert_eq!(t.poll(&mut a), None);
}

#[test]
fn slow_subscriber_skips_dropped_messages() {
    let mut t = InMemoryTransport::with_capacity(2);
    let mut a = t.subscriber(&info()).unwrap().unwrap();
    for m in [b"1", b"2", b"3"] {
        t.publish(&info(), m.to_vec()).unwrap();
    }
    assert_eq!(t.poll(&mut a), Some(b"2".to_vec()));
    assert_eq!(t.poll(&mut a), Some(b"3".to_vec()));
    assert_eq!(t.poll(&mut a), None);
}

#[test]
fn publish_without_subscribers_is_dropped_for_later_ones() {
    let mut t = InMemoryTransport::new();
    t.publish(&info(), b"lost".to_vec()).unwrap();
    let mut a = t.subscriber(&info()).unwrap().unwrap();
    assert_eq!(t.poll(&mut a), None);
}

#[test]
fn topics_differing_in_case_are_one_topic() {
    let mut t = InMemoryTransport::new();
    let upper = EventInfo::new("Billing", "Invoice", "Created");
    let mut a = t.subscriber(&info()).unwrap().unwrap();
    t.publish(&upper, b"one".to_vec()).unwrap();
    assert_eq!(t.poll(&mut a), Some(b"one".to_vec()));
}
