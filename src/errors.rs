//! Error kinds of the library. Each carries a human-readable description.
use vstd::prelude::*;

verus! {

#[derive(Debug)]
pub enum SerializeError {
    FailedToSerialize(String),
}

#[derive(Debug)]
pub enum DeserializeError {
    FailedToDeserialize(String),
}

#[derive(Debug)]
pub enum PublishError {
    SerializeError(SerializeError),
    DbError(PersistenceError),
    DbTxError(String),
    ConnectionError(String),
}

#[derive(Debug)]
pub enum SubscriptionError {
    FailedToSubscribe(String),
    ConnectionFailed(TransportError),
    DeserializationFailed(DeserializeError),
}

#[derive(Debug)]
pub enum TransportError {
    Failed(String),
}

#[derive(Debug)]
pub enum PersistenceError {
    /// A stored message could not be read back.
    GetErr(String),
    /// The message to mark as published does not exist.
    UpdatePublished(String),
    /// The message could not be stored.
    InsertErr(String),
}

#[derive(Debug)]
pub enum BuilderError {
    DependencyError(String),
}

} // verus!
