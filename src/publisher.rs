//! Publishing: serialize a domain event and record it in the outbox.
use vstd::prelude::*;
use crate::errors::{PersistenceError, PublishError, SerializeError};
use crate::event::{Event, EventInfo, EventInfoView};
use crate::persistence::{InMemoryPersistence, InMemoryTx, OutboxModel, fits};
use crate::persistence::Persistence as Store;

verus! {

/// The outbox store that the library writes to, chosen when it is
/// assembled.
pub struct Persistence {
    pub store: InMemoryPersistence,
}

impl Persistence {
    /// An empty in-memory store.
    pub fn in_memory() -> (r: Persistence)
        ensures
            r.valid(),
            r.outbox() == OutboxModel::empty(),
            r.infallible(),
    {
        Persistence { store: InMemoryPersistence::new() }
    }
}

impl Store for Persistence {
    type Token = InMemoryTx;

    open spec fn outbox(&self) -> OutboxModel {
        self.store.model()
    }

    open spec fn valid(&self) -> bool {
        self.store.wf()
    }

    open spec fn infallible(&self) -> bool {
        true
    }

    proof fn lemma_valid_inv(&self) {
    }

    fn insert(&mut self, info: &EventInfo, content: Vec<u8>) -> (r: Result<(), PersistenceError>) {
        let ghost m0 = self.store.model();
        let ghost c = content@;
        let r = self.store.insert(info, content);
        proof {
            if r is Ok {
                let id = choose|id: Seq<char>|
                    !m0.has(id) && self.store.model() == m0.inserted(id, info@, c);
                assert(m0 == old(self).outbox());
                assert(!old(self).outbox().has(id) && self.outbox() == old(self).outbox().inserted(
                    id,
                    info@,
                    c,
                ));
            }
        }
        r
    }

    fn next(&mut self) -> (r: Result<Option<(String, InMemoryTx)>, PersistenceError>) {
        self.store.next()
    }

    fn get(&self, id: &str) -> (r: Result<Option<(EventInfo, Vec<u8>)>, PersistenceError>) {
        self.store.get(id)
    }

    fn update_published(&mut self, id: &str) -> (r: Result<(), PersistenceError>) {
        self.store.update_published(id)
    }

    fn requeue(&mut self, id: &str) -> (r: Result<bool, PersistenceError>) {
        Ok(self.store.requeue(id))
    }
}

pub struct Publisher {}

impl Publisher {
    pub fn new() -> Publisher {
        Publisher {}
    }

    /// What the store's answer to an insert decides: success, or its error
    /// as `DbError`.
    pub fn insert_outcome(r: Result<(), PersistenceError>) -> (o: Result<(), PublishError>)
        ensures
            match r {
                Ok(()) => o is Ok,
                Err(e) => o == Err::<(), PublishError>(PublishError::DbError(e)),
            },
    {
        match r {
            Ok(()) => Ok(()),
            Err(e) => Err(PublishError::DbError(e)),
        }
    }

    /// Records an event whose serialization gave `serialized`: a failed
    /// serialization is reported and nothing is stored; otherwise the bytes
    /// are inserted as a new Pending message.
    pub fn publish_serialized<P: Store>(
        &self,
        persistence: &mut P,
        info: &EventInfo,
        serialized: Result<Vec<u8>, SerializeError>,
    ) -> (r: Result<(), PublishError>)
        requires
            old(persistence).valid(),
        ensures
            final(persistence).valid(),
            final(persistence).infallible() == old(persistence).infallible(),
            r is Err ==> final(persistence).outbox() == old(persistence).outbox(),
            serialized matches Err(e) ==> r == Err::<(), PublishError>(
                PublishError::SerializeError(e),
            ),
            serialized is Ok && r is Err ==> r matches Err(PublishError::DbError(_)),
            serialized matches Ok(c) ==> (old(persistence).infallible() && fits(info@, c@)
                ==> r is Ok),
            r is Ok ==> (serialized matches Ok(c) && exists|id: Seq<char>|
                !old(persistence).outbox().has(id) && final(persistence).outbox() == old(
                    persistence,
                ).outbox().inserted(id, info@, c@)),
    {
        match serialized {
            Err(e) => Err(PublishError::SerializeError(e)),
            Ok(content) => {
                let ghost c = content@;
                let ghost m0 = persistence.outbox();
                let res = persistence.insert(info, content);
                proof {
                    if res is Ok {
                        assert(exists|id: Seq<char>|
                            !m0.has(id) && persistence.outbox() == m0.inserted(id, info@, c));
                    }
                }
                Self::insert_outcome(res)
            },
        }
    }

    /// Serializes `event` and records it in the outbox; on success the store
    /// holds one more Pending message, queued last.
    pub fn publish<P: Store, T: Event>(&self, persistence: &mut P, event: &T) -> (r: Result<
        (),
        PublishError,
    >)
        requires
            old(persistence).valid(),
        ensures
            final(persistence).valid(),
            final(persistence).infallible() == old(persistence).infallible(),
            r is Err ==> final(persistence).outbox() == old(persistence).outbox(),
            r is Ok ==> exists|id: Seq<char>, info: EventInfoView, c: Seq<u8>|
                !old(persistence).outbox().has(id) && final(persistence).outbox() == old(
                    persistence,
                ).outbox().inserted(id, info, c),
    {
        let serialized = event.serialize();
        let info = T::event_info();
        self.publish_serialized(persistence, &info, serialized)
    }

    /// As `publish`; the in-memory store has no transactions to join.
    pub fn publish_tx<P: Store, T: Event>(&self, persistence: &mut P, event: &T) -> (r: Result<
        (),
        PublishError,
    >)
        requires
            old(persistence).valid(),
        ensures
            final(persistence).valid(),
            final(persistence).infallible() == old(persistence).infallible(),
            r is Err ==> final(persistence).outbox() == old(persistence).outbox(),
            r is Ok ==> exists|id: Seq<char>, info: EventInfoView, c: Seq<u8>|
                !old(persistence).outbox().has(id) && final(persistence).outbox() == old(
                    persistence,
                ).outbox().inserted(id, info, c),
    {
        self.publish(persistence, event)
    }
}

} // verus!
