//! The relay step: moves one queued message from the outbox store to the
//! transport. A host runs it in a loop and backs off when `should_back_off`
//! says so.
//!
//! Delivery is at least once: a message leaves the Pending state only after
//! the transport accepted it, and one that the transport refuses is queued
//! again.
use vstd::prelude::*;
use crate::errors::PersistenceError;
use crate::event::{EventInfo, topic_of};
use crate::persistence::{OutboxModel, Persistence};
use crate::transport::Transport;

verus! {

/// The store call at which a relay step failed.
#[derive(Clone, Copy, Debug, PartialEq, Eq, Structural)]
pub enum RelayStep {
    /// Taking the head of the queue.
    Next,
    /// Reading the message.
    Get,
    /// Marking it published, after the transport accepted it.
    MarkPublished,
    /// Queuing it again, after the transport refused it.
    Requeue,
}

/// What one relay step did.
#[derive(Debug)]
pub enum RelayOutcome {
    /// The queue was empty.
    Idle,
    /// The message was handed to the transport and marked published.
    Published(String),
    /// The queued id no longer named a Pending message; it was dropped.
    Skipped(String),
    /// The transport refused the message; it was queued again.
    Requeued(String),
    /// The store failed at the given call.
    Failed(RelayStep, PersistenceError),
}

/// What a relay step that ended in `r` did, from store `before` and
/// accepted publishes `sent_before` to `after` and `sent_after`. `accepts`
/// says which topics the transport takes; a store that is `infallible`
/// never fails.
pub open spec fn relay_post(
    before: OutboxModel,
    after: OutboxModel,
    sent_before: Seq<(Seq<char>, Seq<u8>)>,
    sent_after: Seq<(Seq<char>, Seq<u8>)>,
    accepts: spec_fn(Seq<char>) -> bool,
    infallible: bool,
    r: RelayOutcome,
) -> bool {
    match r {
        RelayOutcome::Idle => before.head() is None && after == before && sent_after == sent_before,
        RelayOutcome::Published(id) => before.head() == Some(id@) && match before.fetch(id@) {
            Some((info, c)) => accepts(topic_of(info)) && sent_after == sent_before.push(
                (topic_of(info), c),
            ) && after == before.popped().published(id@),
            None => false,
        },
        RelayOutcome::Skipped(id) => before.head() == Some(id@) && before.fetch(id@) is None
            && after == before.popped() && sent_after == sent_before,
        RelayOutcome::Requeued(id) => before.head() == Some(id@) && match before.fetch(id@) {
            Some((info, c)) => !accepts(topic_of(info)) && sent_after == sent_before && after
                == before.popped().requeued(id@),
            None => false,
        },
        RelayOutcome::Failed(step, _) => !infallible && match step {
            RelayStep::Next => after == before && sent_after == sent_before,
            RelayStep::Get => before.head() is Some && after == before.popped() && sent_after
                == sent_before,
            RelayStep::MarkPublished => match before.head() {
                Some(id) => match before.fetch(id) {
                    Some((info, c)) => accepts(topic_of(info)) && sent_after == sent_before.push(
                        (topic_of(info), c),
                    ) && after == before.popped(),
                    None => false,
                },
                None => false,
            },
            RelayStep::Requeue => match before.head() {
                Some(id) => match before.fetch(id) {
                    Some((info, c)) => !accepts(topic_of(info)) && sent_after == sent_before
                        && after == before.popped(),
                    None => false,
                },
                None => false,
            },
        },
    }
}

/// What the result of taking the head decides: the id to relay, or the
/// outcome of the step.
pub fn after_next<K>(r: Result<Option<(String, K)>, PersistenceError>) -> (o: Result<
    String,
    RelayOutcome,
>)
    ensures
        match r {
            Ok(Some((id, _))) => o == Ok::<String, RelayOutcome>(id),
            Ok(None) => o matches Err(RelayOutcome::Idle),
            Err(e) => o == Err::<String, RelayOutcome>(RelayOutcome::Failed(RelayStep::Next, e)),
        },
{
    match r {
        Ok(Some((id, _))) => Ok(id),
        Ok(None) => Err(RelayOutcome::Idle),
        Err(e) => Err(RelayOutcome::Failed(RelayStep::Next, e)),
    }
}

/// What the result of reading message `id` decides: what to hand to the
/// transport, or the outcome of the step.
pub fn after_get(id: String, r: Result<Option<(EventInfo, Vec<u8>)>, PersistenceError>) -> (o:
    Result<(String, EventInfo, Vec<u8>), RelayOutcome>)
    ensures
        match r {
            Ok(Some((info, c))) => o == Ok::<_, RelayOutcome>((id, info, c)),
            Ok(None) => o == Err::<(String, EventInfo, Vec<u8>), _>(RelayOutcome::Skipped(id)),
            Err(e) => o == Err::<(String, EventInfo, Vec<u8>), _>(
                RelayOutcome::Failed(RelayStep::Get, e),
            ),
        },
{
    match r {
        Ok(Some((info, c))) => Ok((id, info, c)),
        Ok(None) => Err(RelayOutcome::Skipped(id)),
        Err(e) => Err(RelayOutcome::Failed(RelayStep::Get, e)),
    }
}

/// The outcome once message `id` was delivered and marking it published
/// gave `r`.
pub fn after_mark(id: String, r: Result<(), PersistenceError>) -> (o: RelayOutcome)
    ensures
        match r {
            Ok(()) => o == RelayOutcome::Published(id),
            Err(e) => o == RelayOutcome::Failed(RelayStep::MarkPublished, e),
        },
{
    match r {
        Ok(()) => RelayOutcome::Published(id),
        Err(e) => RelayOutcome::Failed(RelayStep::MarkPublished, e),
    }
}

/// The outcome once the transport refused message `id` and queuing it again
/// gave `r`.
pub fn after_requeue(id: String, r: Result<bool, PersistenceError>) -> (o: RelayOutcome)
    ensures
        match r {
            Ok(_) => o == RelayOutcome::Requeued(id),
            Err(e) => o == RelayOutcome::Failed(RelayStep::Requeue, e),
        },
{
    match r {
        Ok(_) => RelayOutcome::Requeued(id),
        Err(e) => RelayOutcome::Failed(RelayStep::Requeue, e),
    }
}

/// Whether the host should wait before the next step: when there was
/// nothing to relay or something failed.
pub fn should_back_off(o: &RelayOutcome) -> (r: bool)
    ensures
        r == !(o is Published || o is Skipped),
{
    match o {
        RelayOutcome::Published(_) => false,
        RelayOutcome::Skipped(_) => false,
        _ => true,
    }
}

/// Relays the message at the head of the queue, if any.
pub fn handle_messages<P: Persistence, T: Transport>(p: &mut P, t: &mut T) -> (r: RelayOutcome)
    requires
        old(p).valid(),
        old(t).valid(),
    ensures
        final(p).valid(),
        final(p).infallible() == old(p).infallible(),
        final(t).valid(),
        relay_post(
            old(p).outbox(),
            final(p).outbox(),
            old(t).received(),
            final(t).received(),
            |n: Seq<char>| old(t).accepts(n),
            old(p).infallible(),
            r,
        ),
{
    let ghost m0 = p.outbox();
    proof {
        p.lemma_valid_inv();
    }
    let next = p.next();
    let id = match after_next(next) {
        Ok(id) => id,
        Err(o) => return o,
    };
    proof {
        assert(p.outbox().records == m0.records);
        assert(p.outbox().fetch(id@) == m0.fetch(id@));
    }
    let got = p.get(id.as_str());
    let (id, info, content) = match after_get(id, got) {
        Ok(x) => x,
        Err(o) => return o,
    };
    let ghost m1 = p.outbox();
    match t.publish(&info, content) {
        Ok(()) => {
            proof {
                assert(m1.has(id@));
            }
            let marked = p.update_published(id.as_str());
            after_mark(id, marked)
        },
        Err(_) => {
            proof {
                assert(m0.queue[0] == id@);
                assert(m0.queue.no_duplicates());
                assert(!m1.queue.contains(id@)) by {
                    if m1.queue.contains(id@) {
                        let k = choose|k: int| 0 <= k < m1.queue.len() && m1.queue[k] == id@;
                        assert(m0.queue[k + 1] == id@);
                    }
                }
                assert(m1.is_pending(id@));
            }
            let again = p.requeue(id.as_str());
            after_requeue(id, again)
        },
    }
}

} // verus!
