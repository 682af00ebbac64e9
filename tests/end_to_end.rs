use crunch::errors::{
    DeserializeError, PersistenceError, PublishError, SerializeError, SubscriptionError,
    TransportError,
};
use crunch::outbox::{after_get, after_mark, after_next, after_requeue, should_back_off, RelayStep};
use crunch::{
    Builder, Deserializer, Event, EventInfo, Persistence, Publisher, RelayOutcome, Serializer,
    Subscriber,
};

#[derive(Debug, PartialEq)]
struct EventA {
    body: Vec<u8>,
}

impl Serializer for EventA {
    fn serialize(&self) -> Result<Vec<u8>, SerializeError> {
        Ok(self.body.clone())
    }
}

impl Deserializer for EventA {
    fn deserialize(raw: Vec<u8>) -> Result<Self, DeserializeError> {
        if raw == b"bad" {
            return Err(DeserializeError::FailedToDeserialize("bad".to_string()));
        }
        Ok(EventA { body: raw })
    }
}

impl Event for EventA {
    fn event_info() -> EventInfo {
        EventInfo::new("billing", "invoice", "created")
    }
}

struct Unserializable;

impl Serializer for Unserializable {
    fn serialize(&self) -> Result<Vec<u8>, SerializeError> {
        Err(SerializeError::FailedToSerialize("no".to_string()))
    }
}

impl Deserializer for Unserializable {
    fn deserialize(_raw: Vec<u8>) -> Result<Self, DeserializeError> {
        Ok(Unserializable)
    }
}

impl Event for Unserializable {
    fn event_info() -> EventInfo {
        EventInfo::new("billing", "invoice", "created")
    }
}

#[test]
fn publish_relay_subscribe() {
    let mut crunch = Builder::new()
        .with_in_memory_persistence()
        .with_in_memory_transport()
        .build()
        .unwrap();
    let subscriber = Subscriber::new();
    let mut sub = subscriber.subscribe::<EventA, _>(&mut crunch.transport).unwrap();
    assert_eq!(sub.topic, "crunch.billing.invoice.created");
    // a raw subscription sees what the transport received
    let mut raw = crunch.transport.subscriber(&EventA::event_info()).unwrap().unwrap();

    Publisher::new()
        .publish(&mut crunch.persistence, &EventA { body: b"x".to_vec() })
        .unwrap();
    match crunch.relay_once() {
        RelayOutcome::Published(_) => {}
        other => panic!("unexpected: {:?}", other),
    }
    assert!(matches!(crunch.relay_once(), RelayOutcome::Idle));

    assert_eq!(crunch.transport.poll(&mut raw), Some(b"x".to_vec()));
    assert_eq!(crunch.transport.poll(&mut raw), None);

    let got = subscriber.receive::<EventA>(&crunch.transport, &mut sub);
    assert_eq!(got.unwrap().unwrap(), EventA { body: b"x".to_vec() });
    assert!(subscriber.receive::<EventA>(&crunch.transport, &mut sub).is_none());
}

#[test]
fn undecodable_item_is_reported_and_skipped() {
    let mut crunch = Builder::new()
        .with_in_memory_persistence()
        .with_in_memory_transport()
        .build()
        .unwrap();
    let subscriber = Subscriber::new();
    let mut sub = subscriber.subscribe::<EventA, _>(&mut crunch.transport).unwrap();
    let publisher = Publisher::new();
    publisher.publish(&mut crunch.persistence, &EventA { body: b"bad".to_vec() }).unwrap();
    publisher.publish(&mut crunch.persistence, &EventA { body: b"good".to_vec() }).unwrap();
    crunch.relay_once();
    crunch.relay_once();
    match subscriber.receive::<EventA>(&crunch.transport, &mut sub) {
        Some(Err(SubscriptionError::DeserializationFailed(_))) => {}
        other => panic!("unexpected: {:?}", other),
    }
    let got = subscriber.receive::<EventA>(&crunch.transport, &mut sub);
    assert_eq!(got.unwrap().unwrap(), EventA { body: b"good".to_vec() });
}

#[test]
fn serialization_failure_stores_nothing() {
    let mut persistence = Persistence::in_memory();
    match Publisher::new().publish(&mut persistence, &Unserializable) {
        Err(PublishError::SerializeError(_)) => {}
        other => panic!("unexpected: {:?}", other),
    }
    assert!(persistence.store.next().unwrap().is_none());
}

#[test]
fn relay_skips_an_id_already_published() {
    let mut crunch = Builder::new()
        .with_in_memory_persistence()
        .with_in_memory_transport()
        .build()
        .unwrap();
    crunch
        .persistence
        .store
        .insert_with_id("e1".to_string(), &EventA::event_info(), b"x")
        .unwrap();
    // published without being relayed: it leaves the queue
    crunch.persistence.store.update_published("e1").unwrap();
    assert!(matches!(crunch.relay_once(), RelayOutcome::Idle));
}

#[test]
fn build_needs_both_dependencies() {
    assert!(Builder::new().with_in_memory_transport().build().is_err());
    assert!(Builder::new().with_in_memory_persistence().build().is_err());
    let c = Builder::new()
        .with_outbox(false)
        .with_in_memory_persistence()
        .with_in_memory_transport()
        .build()
        .unwrap();
    assert!(!c.outbox_enabled);
}

#[test]
fn default_builder_is_in_memory_with_relay() {
    let mut c = Builder::default().build().unwrap();
    assert!(c.outbox_enabled);
    Publisher::new()
        .publish_tx(&mut c.persistence, &EventA { body: b"y".to_vec() })
        .unwrap();
    assert!(matches!(c.relay_once(), RelayOutcome::Published(_)));
}

#[test]
fn subscription_answers_map_to_errors() {
    let ok: Result<u8, SubscriptionError> = Subscriber::subscription_from(Ok(Some(7u8)));
    assert_eq!(ok.unwrap(), 7);
    match Subscriber::subscription_from::<u8>(Ok(None)) {
        Err(SubscriptionError::FailedToSubscribe(_)) => {}
        other => panic!("unexpected: {:?}", other),
    }
    match Subscriber::subscription_from::<u8>(Err(TransportError::Failed("down".to_string()))) {
        Err(SubscriptionError::ConnectionFailed(TransportError::Failed(m))) => assert_eq!(m, "down"),
        other => panic!("unexpected: {:?}", other),
    }
}

#[test]
fn relay_decisions_per_store_answer() {
    assert_eq!(after_next(Ok(Some(("a".to_string(), ())))).unwrap(), "a");
    assert!(matches!(after_next::<()>(Ok(None)), Err(RelayOutcome::Idle)));
    assert!(matches!(
        after_next::<()>(Err(PersistenceError::GetErr("x".to_string()))),
        Err(RelayOutcome::Failed(RelayStep::Next, PersistenceError::GetErr(_)))
    ));
    assert!(matches!(after_get("a".to_string(), Ok(None)), Err(RelayOutcome::Skipped(_))));
    assert!(matches!(
        after_get("a".to_string(), Err(PersistenceError::GetErr("x".to_string()))),
        Err(RelayOutcome::Failed(RelayStep::Get, _))
    ));
    assert!(matches!(after_mark("a".to_string(), Ok(())), RelayOutcome::Published(_)));
    assert!(matches!(
        after_mark("a".to_string(), Err(PersistenceError::UpdatePublished("x".to_string()))),
        RelayOutcome::Failed(RelayStep::MarkPublished, _)
    ));
    assert!(matches!(after_requeue("a".to_string(), Ok(true)), RelayOutcome::Requeued(_)));
    assert!(matches!(
        after_requeue("a".to_string(), Err(PersistenceError::GetErr("x".to_string()))),
        RelayOutcome::Failed(RelayStep::Requeue, _)
    ));
    assert!(should_back_off(&RelayOutcome::Idle));
    assert!(!should_back_off(&RelayOutcome::Published("a".to_string())));
    assert!(!should_back_off(&RelayOutcome::Skipped("a".to_string())));
    assert!(should_back_off(&RelayOutcome::Requeued("a".to_string())));
}

#[test]
fn store_errors_are_passed_on() {
    match Publisher::insert_outcome(Err(PersistenceError::InsertErr("full".to_string()))) {
        Err(PublishError::DbError(PersistenceError::InsertErr(m))) => assert_eq!(m, "full"),
        other => panic!("unexpected: {:?}", other),
    }
    assert!(Publisher::insert_outcome(Ok(())).is_ok());
}
