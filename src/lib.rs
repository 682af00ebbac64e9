//! Transactional-outbox event publishing.
//!
//! Producers record events in an outbox store before they are delivered; a
//! relay moves them from the store to a fan-out transport and marks them
//! published. Events travel framed in an envelope that carries their routing
//! key next to the opaque payload.
pub mod builder;
pub mod codec;
pub mod envelope_capnp;
pub mod errors;
pub mod event;
pub mod layout;
pub mod outbox;
pub mod persistence;
pub mod proto;
pub mod publisher;
pub mod subscriber;
pub mod transport;
pub mod varint;
pub mod wire;

pub use builder::{Builder, Crunch};
pub use codec::{EnvelopeError, Metadata, unwrap, wrap};
pub use event::{Deserializer, Event, EventInfo, Serializer};
pub use outbox::{RelayOutcome, handle_messages};
pub use persistence::{InMemoryPersistence, InMemoryTx, Msg, MsgState, Tx};
pub use publisher::{Persistence, Publisher};
pub use subscriber::Subscriber;
pub use transport::{InMemoryTransport, Subscription, Transport};
