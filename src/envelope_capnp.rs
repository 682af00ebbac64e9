//! Readers for the envelope schema: `Envelope { metadata @0, content @1 }` and
//! `Metadata { domain @0 :Text, entity @1 :Text, timestamp @2 :UInt64, sequence @3 :UInt64 }`.
pub mod envelope;
pub mod metadata;
