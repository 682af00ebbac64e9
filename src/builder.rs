//! Assembling the library: pick the store and the transport, then build.
use vstd::prelude::*;
use crate::errors::BuilderError;
use crate::outbox::{RelayOutcome, handle_messages, relay_post};
use crate::persistence::OutboxModel;
use crate::persistence::Persistence as Store;
use crate::publisher::Persistence;
use crate::transport::{InMemoryTransport, TopicModel, Transport};

verus! {

/// An assembled library: the outbox store, the transport, and whether a
/// relay should run between them.
pub struct Crunch<P, T> {
    pub persistence: P,
    pub transport: T,
    pub outbox_enabled: bool,
}

impl<P: Store, T: Transport> Crunch<P, T> {
    pub open spec fn wf(&self) -> bool {
        self.persistence.valid() && self.transport.valid()
    }

    /// An assembled library over any store and transport.
    pub fn new(persistence: P, transport: T, outbox_enabled: bool) -> (r: Crunch<P, T>)
        ensures
            r.persistence == persistence,
            r.transport == transport,
            r.outbox_enabled == outbox_enabled,
    {
        Crunch { persistence, transport, outbox_enabled }
    }

    /// One relay step from the store to the transport.
    pub fn relay_once(&mut self) -> (r: RelayOutcome)
        requires
            old(self).wf(),
        ensures
            final(self).wf(),
            final(self).outbox_enabled == old(self).outbox_enabled,
            old(self).persistence.infallible() ==> !(r is Failed),
            relay_post(
                old(self).persistence.outbox(),
                final(self).persistence.outbox(),
                old(self).transport.received(),
                final(self).transport.received(),
                |n: Seq<char>| old(self).transport.accepts(n),
                old(self).persistence.infallible(),
                r,
            ),
    {
        handle_messages(&mut self.persistence, &mut self.transport)
    }
}

pub struct Builder {
    pub persistence: Option<Persistence>,
    pub transport: Option<InMemoryTransport>,
    pub outbox_enabled: bool,
}

impl Default for Builder {
    /// The in-memory store and transport, with the relay enabled.
    fn default() -> (r: Builder)
        ensures
            r.wf(),
            r.persistence matches Some(p) && p.outbox() == OutboxModel::empty(),
            r.transport matches Some(t) && forall|n: Seq<char>| t.topic(n) == TopicModel::empty(),
            r.outbox_enabled,
    {
        Builder {
            persistence: Some(Persistence::in_memory()),
            transport: Some(InMemoryTransport::new()),
            outbox_enabled: true,
        }
    }
}

impl Builder {
    pub open spec fn wf(&self) -> bool {
        &&& self.persistence matches Some(p) ==> p.valid()
        &&& self.transport matches Some(t) ==> t.wf()
    }

    /// A builder with nothing chosen and the relay enabled.
    pub fn new() -> (r: Builder)
        ensures
            r.wf(),
            r.persistence is None,
            r.transport is None,
            r.outbox_enabled,
    {
        Builder { persistence: None, transport: None, outbox_enabled: true }
    }

    pub fn with_in_memory_persistence(self) -> (r: Builder)
        requires
            self.wf(),
        ensures
            r.wf(),
            r.persistence matches Some(p) && p.outbox() == OutboxModel::empty(),
            r.transport == self.transport,
            r.outbox_enabled == self.outbox_enabled,
    {
        Builder {
            persistence: Some(Persistence::in_memory()),
            transport: self.transport,
            outbox_enabled: self.outbox_enabled,
        }
    }

    pub fn with_in_memory_transport(self) -> (r: Builder)
        requires
            self.wf(),
        ensures
            r.wf(),
            r.transport matches Some(t) && forall|n: Seq<char>| t.topic(n) == TopicModel::empty(),
            r.persistence == self.persistence,
            r.outbox_enabled == self.outbox_enabled,
    {
        Builder {
            persistence: self.persistence,
            transport: Some(InMemoryTransport::new()),
            outbox_enabled: self.outbox_enabled,
        }
    }

    pub fn with_outbox(self, enabled: bool) -> (r: Builder)
        ensures
            r.persistence == self.persistence,
            r.transport == self.transport,
            r.outbox_enabled == enabled,
    {
        Builder { persistence: self.persistence, transport: self.transport, outbox_enabled: enabled }
    }

    /// The assembled library; fails when the store or the transport was not
    /// chosen.
    pub fn build(self) -> (r: Result<Crunch<Persistence, InMemoryTransport>, BuilderError>)
        requires
            self.wf(),
        ensures
            r is Ok <==> self.persistence is Some && self.transport is Some,
            r matches Ok(c) ==> c.wf() && Some(c.persistence) == self.persistence && Some(
                c.transport,
            ) == self.transport && c.outbox_enabled == self.outbox_enabled,
    {
        let persistence = match self.persistence {
            Some(p) => p,
            None => {
                return Err(
                    BuilderError::DependencyError(String::from_str("persistence was not set")),
                );
            },
        };
        let transport = match self.transport {
            Some(t) => t,
            None => {
                return Err(BuilderError::DependencyError(String::from_str("transport was not set")));
            },
        };
        Ok(Crunch { persistence, transport, outbox_enabled: self.outbox_enabled })
    }
}

} // verus!
