//! Subscribing: read a topic's messages and turn them into domain values.
use vstd::prelude::*;
use crate::errors::{SubscriptionError, TransportError};
use crate::event::{Deserializer, Event, EventInfoView, topic_of};
use crate::transport::{InMemoryTransport, Subscription, Transport};

verus! {

pub struct Subscriber {}

impl Subscriber {
    pub fn new() -> Subscriber {
        Subscriber {}
    }

    /// What the transport's answer to a subscription request decides: the
    /// stream, `FailedToSubscribe` when it has no channel, or its error as
    /// `ConnectionFailed`.
    pub fn subscription_from<S>(r: Result<Option<S>, TransportError>) -> (o: Result<
        S,
        SubscriptionError,
    >)
        ensures
            match r {
                Ok(Some(s)) => o == Ok::<S, SubscriptionError>(s),
                Ok(None) => o matches Err(SubscriptionError::FailedToSubscribe(_)),
                Err(e) => o == Err::<S, SubscriptionError>(SubscriptionError::ConnectionFailed(e)),
            },
    {
        match r {
            Ok(Some(s)) => Ok(s),
            Ok(None) => Err(
                SubscriptionError::FailedToSubscribe(
                    String::from_str("failed to find channel to subscribe to"),
                ),
            ),
            Err(e) => Err(SubscriptionError::ConnectionFailed(e)),
        }
    }

    /// A subscription to the topic of `I`, which reads what is published
    /// from now on.
    pub fn subscribe<I: Event, T: Transport>(&self, transport: &mut T) -> (r: Result<
        T::Stream,
        SubscriptionError,
    >)
        requires
            old(transport).valid(),
        ensures
            final(transport).valid(),
            final(transport).received() == old(transport).received(),
            r matches Ok(s) ==> exists|info: EventInfoView|
                old(transport).starts_at(topic_of(info), s),
    {
        let info = I::event_info();
        let answer = transport.subscriber(&info);
        Self::subscription_from(answer)
    }

    /// The next message for `sub`, turned into an `I`; `None` when it has
    /// read everything. A message that does not decode is reported, and the
    /// cursor moves past it all the same.
    pub fn receive<I: Deserializer>(&self, transport: &InMemoryTransport, sub: &mut Subscription) -> (r:
        Option<Result<I, SubscriptionError>>)
        requires
            transport.wf(),
        ensures
            final(sub).topic@ == old(sub).topic@,
            ({
                let d = transport.topic(old(sub).topic@).deliverable(old(sub).cursor as int);
                &&& r is None <==> d.len() == 0
                &&& r is Some ==> transport.topic(old(sub).topic@).deliverable(
                    final(sub).cursor as int,
                ) == d.drop_first()
            }),
    {
        match transport.poll(sub) {
            None => None,
            Some(raw) => Some(
                match I::deserialize(raw) {
                    Ok(item) => Ok(item),
                    Err(e) => Err(SubscriptionError::DeserializationFailed(e)),
                },
            ),
        }
    }
}

} // verus!
