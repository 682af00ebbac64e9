//! Routing metadata of a domain event and the capability traits that domain
//! types implement.
use vstd::prelude::*;
use crate::errors::{DeserializeError, SerializeError};

verus! {

/// The routing key of an event, as plain characters.
pub struct EventInfoView {
    pub domain: Seq<char>,
    pub entity_type: Seq<char>,
    pub event_name: Seq<char>,
}

/// Identifies an event type: its topic and, with the type, how to decode it.
#[derive(Debug)]
pub struct EventInfo {
    pub domain: String,
    pub entity_type: String,
    pub event_name: String,
}

impl View for EventInfo {
    type V = EventInfoView;

    open spec fn view(&self) -> EventInfoView {
        EventInfoView {
            domain: self.domain@,
            entity_type: self.entity_type@,
            event_name: self.event_name@,
        }
    }
}

/// The namespace that every topic starts with.
pub open spec fn namespace() -> Seq<char> {
    seq!['c', 'r', 'u', 'n', 'c', 'h']
}

/// `"<namespace>.<domain>.<entity_type>.<event_name>"`, the fields as given.
pub open spec fn topic_key(info: EventInfoView) -> Seq<char> {
    namespace() + seq!['.'] + info.domain + seq!['.'] + info.entity_type + seq!['.']
        + info.event_name
}

/// The characters of `s` in lower case.
pub uninterp spec fn lower_of(s: Seq<char>) -> Seq<char>;

/// The transport-level routing key: the topic key in lower case.
pub open spec fn topic_of(info: EventInfoView) -> Seq<char> {
    lower_of(topic_key(info))
}

/// Relies on `str::to_lowercase`: the lower-case form of the characters of
/// `s`, which depends on them alone.
#[verifier::external_body]
fn lowercase(s: &str) -> (r: String)
    ensures
        r@ == lower_of(s@),
{
    s.to_lowercase()
}

impl Clone for EventInfo {
    fn clone(&self) -> (r: Self)
        ensures
            r@ == self@,
    {
        EventInfo {
            domain: self.domain.clone(),
            entity_type: self.entity_type.clone(),
            event_name: self.event_name.clone(),
        }
    }
}

impl EventInfo {
    pub fn new(domain: &str, entity_type: &str, event_name: &str) -> (r: EventInfo)
        ensures
            r.domain@ == domain@,
            r.entity_type@ == entity_type@,
            r.event_name@ == event_name@,
    {
        EventInfo {
            domain: domain.to_owned(),
            entity_type: entity_type.to_owned(),
            event_name: event_name.to_owned(),
        }
    }

    /// The topic key: namespace and fields joined by dots, as given.
    pub fn topic_key(&self) -> (r: String)
        ensures
            r@ == topic_key(self@),
    {
        proof {
            reveal_strlit("crunch");
            reveal_strlit(".");
        }
        let mut r = String::from_str("crunch");
        r.append(".");
        r.append(self.domain.as_str());
        r.append(".");
        r.append(self.entity_type.as_str());
        r.append(".");
        r.append(self.event_name.as_str());
        assert(r@ =~= topic_key(self@));
        r
    }

    /// The transport-level routing key of this event type: the topic key,
    /// all in lower case.
    pub fn transport_name(&self) -> (r: String)
        ensures
            r@ == topic_of(self@),
    {
        let key = self.topic_key();
        lowercase(key.as_str())
    }

    /// A readable rendering: `"domain: <domain>, entity_type: <entity_type>"`.
    pub fn to_string(&self) -> (r: String)
        ensures
            r@ == seq!['d', 'o', 'm', 'a', 'i', 'n', ':', ' '] + self.domain@ + seq![
                ',',
                ' ',
                'e',
                'n',
                't',
                'i',
                't',
                'y',
                '_',
                't',
                'y',
                'p',
                'e',
                ':',
                ' ',
            ] + self.entity_type@,
    {
        proof {
            reveal_strlit("domain: ");
            reveal_strlit(", entity_type: ");
        }
        let mut r = String::from_str("domain: ");
        r.append(self.domain.as_str());
        r.append(", entity_type: ");
        r.append(self.entity_type.as_str());
        r
    }
}

/// A domain type that can be turned into bytes.
pub trait Serializer {
    fn serialize(&self) -> Result<Vec<u8>, SerializeError>;
}

/// A domain type that can be read back from bytes.
pub trait Deserializer: Sized {
    fn deserialize(raw: Vec<u8>) -> Result<Self, DeserializeError>;
}

/// A domain event: serializable both ways, with one routing key per type.
pub trait Event: Serializer + Deserializer {
    fn event_info() -> EventInfo;
}

} // verus!
