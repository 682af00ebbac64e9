//! The outbox store: its contract as a trait over a plain-value model, and
//! the in-memory store, which keeps every message under a unique id and a
//! queue of the ids that still wait to be relayed.
//!
//! Every message starts Pending and moves once to Published. The queue holds
//! ids in insertion order; each queued id names a Pending message, and no id
//! is queued twice. Taking an id off the queue leaves its message as it was,
//! so `get` can still serve it until it is marked published.
use vstd::prelude::*;
use vstd::string::StrSliceExecFns;
use vstd::utf8::encode_utf8;
use crate::proto::{decode, fits_proto, lemma_round_trip, unwrap, wrap};
use crate::errors::PersistenceError;
use crate::event::{EventInfo, EventInfoView};

verus! {

#[derive(Clone, Copy, Debug, PartialEq, Eq, Structural)]
pub enum MsgState {
    Pending,
    Published,
}

/// One stored message as plain values.
pub struct Record {
    pub id: Seq<char>,
    pub info: EventInfoView,
    pub content: Seq<u8>,
    pub state: MsgState,
}

/// The whole store as plain values: the queue of ids and the messages in
/// the order they were inserted.
pub struct OutboxModel {
    pub queue: Seq<Seq<char>>,
    pub records: Seq<Record>,
}

impl OutboxModel {
    pub open spec fn empty() -> OutboxModel {
        OutboxModel { queue: Seq::empty(), records: Seq::empty() }
    }

    pub open spec fn has(self, id: Seq<char>) -> bool {
        exists|i: int| 0 <= i < self.records.len() && self.records[i].id == id
    }

    pub open spec fn index_of(self, id: Seq<char>) -> int {
        choose|i: int| 0 <= i < self.records.len() && self.records[i].id == id
    }

    pub open spec fn queue_index(self, id: Seq<char>) -> int {
        choose|k: int| 0 <= k < self.queue.len() && self.queue[k] == id
    }

    pub open spec fn is_pending(self, id: Seq<char>) -> bool {
        self.has(id) && self.records[self.index_of(id)].state == MsgState::Pending
    }

    pub open spec fn ids_unique(self) -> bool {
        forall|i: int, j: int|
            0 <= i < self.records.len() && 0 <= j < self.records.len() && i != j
                ==> self.records[i].id != self.records[j].id
    }

    /// Ids are unique, queued ids are distinct and name Pending messages.
    pub open spec fn inv(self) -> bool {
        &&& self.ids_unique()
        &&& self.queue.no_duplicates()
        &&& forall|k: int| 0 <= k < self.queue.len() ==> self.is_pending(#[trigger] self.queue[k])
    }

    /// A new Pending message at the tail of the queue.
    pub open spec fn inserted(self, id: Seq<char>, info: EventInfoView, content: Seq<u8>) -> OutboxModel {
        OutboxModel {
            queue: self.queue.push(id),
            records: self.records.push(
                Record { id, info, content, state: MsgState::Pending },
            ),
        }
    }

    /// The id at the head of the queue.
    pub open spec fn head(self) -> Option<Seq<char>> {
        if self.queue.len() == 0 {
            None
        } else {
            Some(self.queue[0])
        }
    }

    /// The store after taking the head of the queue.
    pub open spec fn popped(self) -> OutboxModel {
        if self.queue.len() == 0 {
            self
        } else {
            OutboxModel { queue: self.queue.drop_first(), records: self.records }
        }
    }

    /// What `get` serves: the routing key and content of a Pending message.
    pub open spec fn fetch(self, id: Seq<char>) -> Option<(EventInfoView, Seq<u8>)> {
        if self.is_pending(id) {
            let r = self.records[self.index_of(id)];
            Some((r.info, r.content))
        } else {
            None
        }
    }

    /// The store with `id` queued again at the tail.
    pub open spec fn requeued(self, id: Seq<char>) -> OutboxModel {
        OutboxModel { queue: self.queue.push(id), records: self.records }
    }

    /// The store after marking `id` published: its state changes and it
    /// leaves the queue.
    pub open spec fn published(self, id: Seq<char>) -> OutboxModel {
        let i = self.index_of(id);
        let r = self.records[i];
        OutboxModel {
            queue: if self.queue.contains(id) {
                self.queue.remove(self.queue_index(id))
            } else {
                self.queue
            },
            records: self.records.update(
                i,
                Record { id: r.id, info: r.info, content: r.content, state: MsgState::Published },
            ),
        }
    }
}

/// With unique ids, the message at position `i` is the one its id names.
pub proof fn lemma_index_of(m: OutboxModel, i: int)
    requires
        m.ids_unique(),
        0 <= i < m.records.len(),
    ensures
        m.has(m.records[i].id),
        m.index_of(m.records[i].id) == i,
{
    let id = m.records[i].id;
    assert(m.records[i].id == id);
    let j = m.index_of(id);
    assert(m.records[j].id == id);
}

/// With distinct queued ids, the id at position `k` is found at `k`.
pub proof fn lemma_queue_index(m: OutboxModel, k: int)
    requires
        m.queue.no_duplicates(),
        0 <= k < m.queue.len(),
    ensures
        m.queue.contains(m.queue[k]),
        m.queue_index(m.queue[k]) == k,
{
    let id = m.queue[k];
    assert(m.queue[k] == id);
    let j = m.queue_index(id);
    assert(m.queue[j] == id);
}

/// Inserting a message under an unused id keeps the invariant.
pub proof fn lemma_inserted_inv(m: OutboxModel, id: Seq<char>, info: EventInfoView, c: Seq<u8>)
    requires
        m.inv(),
        !m.has(id),
    ensures
        m.inserted(id, info, c).inv(),
        m.inserted(id, info, c).has(id),
{
    let m1 = m.inserted(id, info, c);
    let n = m.records.len() as int;
    assert forall|i: int, j: int|
        0 <= i < m1.records.len() && 0 <= j < m1.records.len() && i != j implies m1.records[i].id
        != m1.records[j].id by {
        if i < n && j < n {
        } else if i == n {
            assert(m.records[j].id == m1.records[j].id);
        } else {
            assert(m.records[i].id == m1.records[i].id);
        }
    }
    assert(m1.records[n].id == id);
    lemma_index_of(m1, n);
    assert forall|k: int| 0 <= k < m1.queue.len() implies m1.is_pending(#[trigger] m1.queue[k]) by {
        if k < m.queue.len() {
            let q = m.queue[k];
            assert(m.is_pending(q));
            let i = m.index_of(q);
            assert(m1.records[i] == m.records[i]);
            lemma_index_of(m1, i);
        }
    }
    assert forall|a: int, b: int|
        0 <= a < m1.queue.len() && 0 <= b < m1.queue.len() && a != b implies m1.queue[a]
        != m1.queue[b] by {
        if a < m.queue.len() && b < m.queue.len() {
        } else if a == m.queue.len() {
            assert(m.is_pending(m.queue[b]));
        } else {
            assert(m.is_pending(m.queue[a]));
        }
    }
}

/// Taking the head of the queue keeps the invariant.
pub proof fn lemma_popped_inv(m: OutboxModel)
    requires
        m.inv(),
    ensures
        m.popped().inv(),
{
    if m.queue.len() > 0 {
        let m1 = m.popped();
        assert forall|k: int| 0 <= k < m1.queue.len() implies m1.is_pending(#[trigger] m1.queue[k]) by {
            assert(m1.queue[k] == m.queue[k + 1]);
            assert(m.is_pending(m.queue[k + 1]));
        }
        assert forall|a: int, b: int|
            0 <= a < m1.queue.len() && 0 <= b < m1.queue.len() && a != b implies m1.queue[a]
            != m1.queue[b] by {
            assert(m1.queue[a] == m.queue[a + 1]);
            assert(m1.queue[b] == m.queue[b + 1]);
        }
    }
}

/// Marking an existing message published keeps the invariant.
pub proof fn lemma_published_inv(m: OutboxModel, id: Seq<char>)
    requires
        m.inv(),
        m.has(id),
    ensures
        m.published(id).inv(),
        !m.published(id).queue.contains(id),
        m.published(id).has(id),
        m.published(id).index_of(id) == m.index_of(id),
        !m.published(id).is_pending(id),
{
    let m1 = m.published(id);
    let i = m.index_of(id);
    assert forall|a: int, b: int|
        0 <= a < m1.records.len() && 0 <= b < m1.records.len() && a != b implies m1.records[a].id
        != m1.records[b].id by {
        assert(m1.records[a].id == m.records[a].id);
        assert(m1.records[b].id == m.records[b].id);
    }
    assert(m1.records[i].id == id);
    lemma_index_of(m1, i);
    if m.queue.contains(id) {
        let k = m.queue_index(id);
        assert(m.queue[k] == id);
        assert forall|a: int, b: int|
            0 <= a < m1.queue.len() && 0 <= b < m1.queue.len() && a != b implies m1.queue[a]
            != m1.queue[b] by {
            let a0 = if a < k { a } else { a + 1 };
            let b0 = if b < k { b } else { b + 1 };
            assert(m1.queue[a] == m.queue[a0]);
            assert(m1.queue[b] == m.queue[b0]);
        }
        assert forall|a: int| 0 <= a < m1.queue.len() implies m1.queue[a] != id by {
            let a0 = if a < k { a } else { a + 1 };
            assert(m1.queue[a] == m.queue[a0]);
        }
    }
    assert forall|a: int| 0 <= a < m1.queue.len() implies m1.is_pending(#[trigger] m1.queue[a]) by {
        let q = m1.queue[a];
        assert(m.queue.contains(q)) by {
            if m.queue.contains(id) {
                let k = m.queue_index(id);
                let a0 = if a < k { a } else { a + 1 };
                assert(m.queue[a0] == q);
            } else {
                assert(m.queue[a] == q);
            }
        }
        let b = choose|b: int| 0 <= b < m.queue.len() && m.queue[b] == q;
        assert(m.is_pending(m.queue[b]));
        assert(q != id);
        let j = m.index_of(q);
        assert(m1.records[j].id == q);
        lemma_index_of(m1, j);
    }
}

/// Queuing again a Pending id that is not queued keeps the invariant.
pub proof fn lemma_requeued_inv(m: OutboxModel, id: Seq<char>)
    requires
        m.inv(),
        m.is_pending(id),
        !m.queue.contains(id),
    ensures
        m.requeued(id).inv(),
{
    let m1 = m.requeued(id);
    assert forall|k: int| 0 <= k < m1.queue.len() implies m1.is_pending(#[trigger] m1.queue[k]) by {
        if k < m.queue.len() {
            assert(m.is_pending(m.queue[k]));
        }
    }
}

/// Three messages inserted in turn into an empty queue come off it in the
/// order they went in, and then the queue is empty.
pub proof fn lemma_fifo(
    m: OutboxModel,
    id1: Seq<char>,
    info1: EventInfoView,
    c1: Seq<u8>,
    id2: Seq<char>,
    info2: EventInfoView,
    c2: Seq<u8>,
    id3: Seq<char>,
    info3: EventInfoView,
    c3: Seq<u8>,
)
    requires
        m.queue.len() == 0,
    ensures
        ({
            let s = m.inserted(id1, info1, c1).inserted(id2, info2, c2).inserted(id3, info3, c3);
            &&& s.head() == Some(id1)
            &&& s.popped().head() == Some(id2)
            &&& s.popped().popped().head() == Some(id3)
            &&& s.popped().popped().popped().head() is None
        }),
{
    let s = m.inserted(id1, info1, c1).inserted(id2, info2, c2).inserted(id3, info3, c3);
    assert(s.queue =~= seq![id1, id2, id3]);
    assert(s.popped().queue =~= seq![id2, id3]);
    assert(s.popped().popped().queue =~= seq![id3]);
}

/// A message just inserted is served with its routing key and content until
/// it is marked published, and not after; taking its id off the queue with
/// `next` does not change that.
pub proof fn lemma_state_filtering(m: OutboxModel, id: Seq<char>, info: EventInfoView, c: Seq<u8>)
    requires
        m.inv(),
        !m.has(id),
    ensures
        m.inserted(id, info, c).fetch(id) == Some((info, c)),
        m.inserted(id, info, c).has(id),
        m.inserted(id, info, c).popped().fetch(id) == Some((info, c)),
        m.inserted(id, info, c).published(id).fetch(id) is None,
        m.inserted(id, info, c).popped().published(id).fetch(id) is None,
{
    let m1 = m.inserted(id, info, c);
    lemma_inserted_inv(m, id, info, c);
    assert(m1.records[m.records.len() as int].id == id);
    lemma_index_of(m1, m.records.len() as int);
    lemma_published_inv(m1, id);
    lemma_popped_inv(m1);
    let m2 = m1.popped();
    assert(m2.records == m1.records);
    lemma_published_inv(m2, id);
}

/// The relay's view of a published event: on a store with an empty queue,
/// an event inserted under a new id is at the head and served with its
/// routing key and content, so one relay step hands exactly that pair to
/// the transport; after it the message is no longer served and the queue is
/// empty again.
pub proof fn lemma_end_to_end(m: OutboxModel, id: Seq<char>, info: EventInfoView, c: Seq<u8>)
    requires
        m.inv(),
        m.queue.len() == 0,
        !m.has(id),
    ensures
        m.inserted(id, info, c).head() == Some(id),
        m.inserted(id, info, c).fetch(id) == Some((info, c)),
        m.inserted(id, info, c).popped().published(id).fetch(id) is None,
        m.inserted(id, info, c).popped().published(id).queue.len() == 0,
{
    lemma_state_filtering(m, id, info, c);
    let m1 = m.inserted(id, info, c);
    assert(m1.queue =~= seq![id]);
    assert(m1.popped().queue =~= Seq::<Seq<char>>::empty());
}

/// An id that names no message is not served, and an empty store has nothing
/// to hand out.
pub proof fn lemma_not_found(m: OutboxModel, id: Seq<char>)
    requires
        !m.has(id),
    ensures
        m.fetch(id) is None,
        OutboxModel::empty().fetch(id) is None,
        OutboxModel::empty().head() is None,
        OutboxModel::empty().popped() == OutboxModel::empty(),
{
}

/// Marking a message published a second time changes nothing, and the
/// message stays Published.
pub proof fn lemma_publish_idempotent(m: OutboxModel, id: Seq<char>)
    requires
        m.inv(),
        m.has(id),
    ensures
        m.published(id).has(id),
        m.published(id).published(id) == m.published(id),
        m.published(id).records[m.index_of(id)].state == MsgState::Published,
{
    let m1 = m.published(id);
    lemma_published_inv(m, id);
    let i = m.index_of(id);
    assert(m1.published(id).records =~= m1.records);
}

/// The envelope of the routing key and content fits in memory.
pub open spec fn fits(info: EventInfoView, content: Seq<u8>) -> bool {
    fits_proto(encode_utf8(info.domain), encode_utf8(info.entity_type), content)
}

/// A stored message: its id, routing key, envelope bytes and state.
#[derive(Debug)]
pub struct Msg {
    pub id: String,
    pub info: EventInfo,
    pub msg: Vec<u8>,
    pub state: MsgState,
}

impl Msg {
    pub open spec fn record(&self) -> Record {
        Record {
            id: self.id@,
            info: self.info@,
            content: match decode(self.msg@) {
                Ok((c, _)) => c,
                Err(_) => Seq::empty(),
            },
            state: self.state,
        }
    }
}

/// A capability token that `next` hands out with an id, for stores that
/// claim messages inside a transaction.
pub trait Tx {}

/// The transaction token of the in-memory store; it does nothing.
pub struct InMemoryTx {}

impl Tx for InMemoryTx {}

pub struct InMemoryPersistence {
    pub outbox: Vec<String>,
    pub store: Vec<Msg>,
}

/// Relies on `uuid::Uuid::new_v4` and its hyphenated rendering: a random id.
#[verifier::external_body]
fn fresh_id() -> (r: String) {
    uuid::Uuid::new_v4().to_string()
}

impl InMemoryPersistence {
    pub open spec fn model(&self) -> OutboxModel {
        OutboxModel {
            queue: self.outbox@.map_values(|s: String| s@),
            records: self.store@.map_values(|m: Msg| m.record()),
        }
    }

    pub open spec fn wf(&self) -> bool {
        &&& self.model().inv()
        &&& forall|i: int| 0 <= i < self.store@.len() ==> (#[trigger] self.store@[i]).readable()
    }

    pub fn new() -> (r: InMemoryPersistence)
        ensures
            r.wf(),
            r.model() == OutboxModel::empty(),
    {
        let r = InMemoryPersistence { outbox: Vec::new(), store: Vec::new() };
        assert(r.model().queue =~= Seq::<Seq<char>>::empty());
        assert(r.model().records =~= Seq::<Record>::empty());
        r
    }

    fn scan(&self, id: &String) -> (r: Option<usize>)
        ensures
            r matches Some(i) ==> i < self.store@.len() && self.store@[i as int].id@ == id@,
            r is None ==> forall|j: int| 0 <= j < self.store@.len() ==> self.store@[j].id@ != id@,
    {
        let mut i: usize = 0;
        while i < self.store.len()
            invariant
                i <= self.store@.len(),
                forall|j: int| 0 <= j < i ==> self.store@[j].id@ != id@,
            decreases self.store@.len() - i,
        {
            if self.store[i].id == *id {
                return Some(i);
            }
            i = i + 1;
        }
        None
    }

    fn find(&self, id: &String) -> (r: Option<usize>)
        requires
            self.wf(),
        ensures
            r matches Some(i) ==> i < self.store@.len() && self.store@[i as int].id@ == id@
                && self.model().index_of(id@) == i && self.model().has(id@),
            r is None ==> !self.model().has(id@),
    {
        let r = self.scan(id);
        proof {
            let m = self.model();
            match r {
                Some(i) => {
                    assert(m.records[i as int].id == id@);
                    lemma_index_of(m, i as int);
                },
                None => {
                    assert forall|j: int| 0 <= j < m.records.len() implies m.records[j].id
                        != id@ by {
                        assert(m.records[j].id == self.store@[j].id@);
                    }
                },
            }
        }
        r
    }

    /// Stores a new Pending message under `id` and queues it.
    pub fn insert_with_id(&mut self, id: String, info: &EventInfo, content: &[u8]) -> (r: Result<
        (),
        PersistenceError,
    >)
        requires
            old(self).wf(),
        ensures
            final(self).wf(),
            r is Ok <==> fits(info@, content@) && !old(self).model().has(id@),
            r is Ok ==> final(self).model() == old(self).model().inserted(id@, info@, content@),
            r is Err ==> final(self).model() == old(self).model(),
    {
        let d = info.domain.as_str();
        let e = info.entity_type.as_str();
        let total: u128 = d.as_bytes().len() as u128 + e.as_bytes().len() as u128
            + content.len() as u128 + 64;
        if total > usize::MAX as u128 {
            return Err(PersistenceError::InsertErr(String::from_str("event is too large")));
        }
        if self.find(&id).is_some() {
            return Err(PersistenceError::InsertErr(String::from_str("event id is already taken")));
        }
        let msg = wrap(d, e, content);
        proof {
            lemma_round_trip(info.domain@, info.entity_type@, content@);
            lemma_inserted_inv(self.model(), id@, info@, content@);
        }
        let ghost m0 = self.model();
        let ghost s0 = self.store@;
        let stored = Msg { id: id.clone(), info: info.clone(), msg, state: MsgState::Pending };
        self.store.push(stored);
        self.outbox.push(id);
        proof {
            let m1 = self.model();
            let want = m0.inserted(id@, info@, content@);
            assert(m1.queue =~= want.queue);
            assert(m1.records =~= want.records);
            assert forall|i: int| 0 <= i < self.store@.len() implies (
            #[trigger] self.store@[i]).readable() by {
                if i < s0.len() {
                    assert(s0[i].readable());
                }
            }
        }
        Ok(())
    }

    /// An id that no stored message has: `candidate` when it is unused,
    /// otherwise the longest stored id followed by a dash, which is longer
    /// than every stored id.
    pub fn unused_id(&self, candidate: String) -> (r: String)
        requires
            self.wf(),
        ensures
            !self.model().has(r@),
            !self.model().has(candidate@) ==> r@ == candidate@,
    {
        if self.find(&candidate).is_none() {
            return candidate;
        }
        let mut best: usize = 0;
        let mut best_len: usize = self.store[0].id.as_str().unicode_len();
        let mut i: usize = 1;
        while i < self.store.len()
            invariant
                1 <= i <= self.store@.len(),
                best < self.store@.len(),
                best_len == self.store@[best as int].id@.len(),
                forall|j: int| 0 <= j < i ==> self.store@[j].id@.len() <= best_len,
            decreases self.store@.len() - i,
        {
            let l = self.store[i].id.as_str().unicode_len();
            if l > best_len {
                best = i;
                best_len = l;
            }
            i = i + 1;
        }
        let mut r = self.store[best].id.clone();
        proof {
            reveal_strlit("-");
        }
        r.append("-");
        proof {
            let m = self.model();
            assert forall|j: int| 0 <= j < m.records.len() implies m.records[j].id != r@ by {
                assert(m.records[j].id == self.store@[j].id@);
                assert(self.store@[j].id@.len() < r@.len());
            }
        }
        r
    }

    /// Stores a new Pending message under a fresh id and queues it; fails
    /// only when the envelope would not fit in memory.
    pub fn insert(&mut self, info: &EventInfo, content: Vec<u8>) -> (r: Result<(), PersistenceError>)
        requires
            old(self).wf(),
        ensures
            final(self).wf(),
            r is Ok <==> fits(info@, content@),
            r is Ok ==> exists|id: Seq<char>|
                !old(self).model().has(id) && final(self).model() == old(self).model().inserted(
                    id,
                    info@,
                    content@,
                ),
            r is Err ==> final(self).model() == old(self).model(),
    {
        let id = self.unused_id(fresh_id());
        self.insert_with_id(id, info, content.as_slice())
    }

    /// Takes the id at the head of the queue; its message stays as it is.
    pub fn next(&mut self) -> (r: Result<Option<(String, InMemoryTx)>, PersistenceError>)
        requires
            old(self).wf(),
        ensures
            final(self).wf(),
            final(self).model() == old(self).model().popped(),
            r matches Ok(o) && match o {
                Some((id, _)) => old(self).model().head() == Some(id@),
                None => old(self).model().head() is None,
            },
    {
        if self.outbox.len() == 0 {
            return Ok(None);
        }
        let ghost m0 = self.model();
        let id = self.outbox.remove(0);
        proof {
            lemma_popped_inv(m0);
            let m1 = self.model();
            assert(m1.queue =~= m0.queue.drop_first());
            assert(m1.records =~= m0.records);
        }
        Ok(Some((id, InMemoryTx {})))
    }

    /// The routing key and content of `id`, when it names a Pending message.
    pub fn get(&self, id: &str) -> (r: Result<Option<(EventInfo, Vec<u8>)>, PersistenceError>)
        requires
            self.wf(),
        ensures
            r matches Ok(o) && match o {
                Some((info, c)) => self.model().fetch(id@) == Some((info@, c@)),
                None => self.model().fetch(id@) is None,
            },
    {
        let key = id.to_owned();
        match self.find(&key) {
            Some(i) => {
                if self.store[i].state != MsgState::Pending {
                    return Ok(None);
                }
                assert(self.store@[i as int].readable());
                match unwrap(self.store[i].msg.as_slice()) {
                    Ok((c, _)) => {
                        let info = self.store[i].info.clone();
                        assert(self.model().records[i as int] == self.store@[i as int].record());
                        Ok(Some((info, c)))
                    },
                    Err(_) => Err(PersistenceError::GetErr(String::from_str("stored event is unreadable"))),
                }
            },
            None => Ok(None),
        }
    }

    fn scan_queue(&self, id: &String) -> (r: Option<usize>)
        ensures
            r matches Some(k) ==> k < self.outbox@.len() && self.outbox@[k as int]@ == id@,
            r is None ==> forall|j: int| 0 <= j < self.outbox@.len() ==> self.outbox@[j]@ != id@,
    {
        let mut k: usize = 0;
        while k < self.outbox.len()
            invariant
                k <= self.outbox@.len(),
                forall|j: int| 0 <= j < k ==> self.outbox@[j]@ != id@,
            decreases self.outbox@.len() - k,
        {
            if self.outbox[k] == *id {
                return Some(k);
            }
            k = k + 1;
        }
        None
    }

    fn queue_position(&self, id: &String) -> (r: Option<usize>)
        requires
            self.wf(),
        ensures
            r matches Some(k) ==> k < self.outbox@.len() && self.model().queue.contains(id@)
                && self.model().queue_index(id@) == k,
            r is None ==> !self.model().queue.contains(id@),
    {
        let r = self.scan_queue(id);
        proof {
            let q = self.model().queue;
            match r {
                Some(f) => {
                    assert(q[f as int] == id@);
                    lemma_queue_index(self.model(), f as int);
                },
                None => {
                    assert forall|j: int| 0 <= j < q.len() implies q[j] != id@ by {
                        assert(q[j] == self.outbox@[j]@);
                    }
                },
            }
        }
        r
    }

    /// Puts `id` back at the tail of the queue, when it names a Pending
    /// message that is not queued; says whether it did.
    pub fn requeue(&mut self, id: &str) -> (r: bool)
        requires
            old(self).wf(),
        ensures
            final(self).wf(),
            r == (old(self).model().is_pending(id@) && !old(self).model().queue.contains(id@)),
            r ==> final(self).model() == old(self).model().requeued(id@),
            !r ==> final(self).model() == old(self).model(),
    {
        let key = id.to_owned();
        let i = match self.find(&key) {
            Some(i) => i,
            None => return false,
        };
        if self.store[i].state != MsgState::Pending {
            return false;
        }
        if self.queue_position(&key).is_some() {
            return false;
        }
        proof {
            lemma_requeued_inv(self.model(), id@);
        }
        let ghost m0 = self.model();
        self.outbox.push(key);
        assert(self.model().queue =~= m0.requeued(id@).queue);
        assert(self.model().records =~= m0.records);
        true
    }

    /// Marks `id` published and takes it off the queue; fails when no
    /// message has that id.
    pub fn update_published(&mut self, id: &str) -> (r: Result<(), PersistenceError>)
        requires
            old(self).wf(),
        ensures
            final(self).wf(),
            r is Ok <==> old(self).model().has(id@),
            r is Ok ==> final(self).model() == old(self).model().published(id@),
            r matches Err(e) ==> e is UpdatePublished && final(self).model() == old(self).model(),
    {
        let key = id.to_owned();
        let i = match self.find(&key) {
            Some(i) => i,
            None => {
                let mut msg = String::from_str("event was not found on id: ");
                msg.append(id);
                return Err(PersistenceError::UpdatePublished(msg));
            },
        };
        let ghost m0 = self.model();
        let ghost s0 = self.store@;
        proof {
            lemma_published_inv(m0, id@);
        }
        let pos = self.queue_position(&key);
        self.store[i].state = MsgState::Published;
        match pos {
            Some(k) => {
                self.outbox.remove(k);
            },
            None => {},
        }
        proof {
            let m1 = self.model();
            let want = m0.published(id@);
            assert(m1.queue =~= want.queue);
            assert(m1.records =~= want.records);
            assert forall|j: int| 0 <= j < self.store@.len() implies (
            #[trigger] self.store@[j]).readable() by {
                assert(s0[j].readable());
                assert(self.store@[j].msg == s0[j].msg);
            }
        }
        Ok(())
    }
}

impl Msg {
    /// The envelope bytes read back.
    pub open spec fn readable(&self) -> bool {
        decode(self.msg@) is Ok
    }
}

/// The contract of an outbox store, whatever keeps it. `outbox` is the
/// store as plain values; a store that does no I/O is `infallible`, and then
/// only the errors that the contract names can occur.
pub trait Persistence {
    type Token: Tx;

    spec fn outbox(&self) -> OutboxModel;

    spec fn valid(&self) -> bool;

    spec fn infallible(&self) -> bool;

    /// A valid store keeps the invariant of its model.
    proof fn lemma_valid_inv(&self)
        requires
            self.valid(),
        ensures
            self.outbox().inv(),
    ;

    /// Stores a new Pending message under a fresh id and queues it.
    fn insert(&mut self, info: &EventInfo, content: Vec<u8>) -> (r: Result<(), PersistenceError>)
        requires
            old(self).valid(),
        ensures
            final(self).valid(),
            final(self).infallible() == old(self).infallible(),
            old(self).infallible() && fits(info@, content@) ==> r is Ok,
            r is Ok ==> exists|id: Seq<char>|
                !old(self).outbox().has(id) && final(self).outbox() == old(self).outbox().inserted(
                    id,
                    info@,
                    content@,
                ),
            r is Err ==> final(self).outbox() == old(self).outbox(),
    ;

    /// Takes the id at the head of the queue.
    fn next(&mut self) -> (r: Result<Option<(String, Self::Token)>, PersistenceError>)
        requires
            old(self).valid(),
        ensures
            final(self).valid(),
            final(self).infallible() == old(self).infallible(),
            old(self).infallible() ==> r is Ok,
            r is Ok ==> final(self).outbox() == old(self).outbox().popped(),
            r matches Ok(Some((id, _))) ==> old(self).outbox().head() == Some(id@),
            r matches Ok(None) ==> old(self).outbox().head() is None,
            r is Err ==> final(self).outbox() == old(self).outbox(),
    ;

    /// The routing key and content of `id`, when it names a Pending message.
    fn get(&self, id: &str) -> (r: Result<Option<(EventInfo, Vec<u8>)>, PersistenceError>)
        requires
            self.valid(),
        ensures
            self.infallible() ==> r is Ok,
            r matches Ok(Some((info, c))) ==> self.outbox().fetch(id@) == Some((info@, c@)),
            r matches Ok(None) ==> self.outbox().fetch(id@) is None,
    ;

    /// Marks `id` published and takes it off the queue.
    fn update_published(&mut self, id: &str) -> (r: Result<(), PersistenceError>)
        requires
            old(self).valid(),
        ensures
            final(self).valid(),
            final(self).infallible() == old(self).infallible(),
            old(self).infallible() && old(self).outbox().has(id@) ==> r is Ok,
            !old(self).outbox().has(id@) ==> r matches Err(PersistenceError::UpdatePublished(_)),
            r is Ok ==> old(self).outbox().has(id@) && final(self).outbox() == old(
                self,
            ).outbox().published(id@),
            r is Err ==> final(self).outbox() == old(self).outbox(),
    ;

    /// Queues `id` again when it names a Pending message that is not
    /// queued; says whether it did.
    fn requeue(&mut self, id: &str) -> (r: Result<bool, PersistenceError>)
        requires
            old(self).valid(),
        ensures
            final(self).valid(),
            final(self).infallible() == old(self).infallible(),
            old(self).infallible() ==> r is Ok,
            r matches Ok(b) ==> b == (old(self).outbox().is_pending(id@) && !old(
                self,
            ).outbox().queue.contains(id@)),
            r matches Ok(true) ==> final(self).outbox() == old(self).outbox().requeued(id@),
            !(r matches Ok(true)) ==> final(self).outbox() == old(self).outbox(),
    ;
}

impl Persistence for InMemoryPersistence {
    type Token = InMemoryTx;

    open spec fn outbox(&self) -> OutboxModel {
        self.model()
    }

    open spec fn valid(&self) -> bool {
        self.wf()
    }

    open spec fn infallible(&self) -> bool {
        true
    }

    proof fn lemma_valid_inv(&self) {
    }

    fn insert(&mut self, info: &EventInfo, content: Vec<u8>) -> (r: Result<(), PersistenceError>) {
        let ghost m0 = self.model();
        let ghost c = content@;
        let r = InMemoryPersistence::insert(self, info, content);
        proof {
            if r is Ok {
                let id = choose|id: Seq<char>| !m0.has(id) && self.model() == m0.inserted(id, info@, c);
                assert(m0 == old(self).outbox());
                assert(self.model() == self.outbox());
                assert(!old(self).outbox().has(id) && self.outbox() == old(self).outbox().inserted(
                    id,
                    info@,
                    c,
                ));
            }
        }
        r
    }

    fn next(&mut self) -> (r: Result<Option<(String, InMemoryTx)>, PersistenceError>) {
        InMemoryPersistence::next(self)
    }

    fn get(&self, id: &str) -> (r: Result<Option<(EventInfo, Vec<u8>)>, PersistenceError>) {
        InMemoryPersistence::get(self, id)
    }

    fn update_published(&mut self, id: &str) -> (r: Result<(), PersistenceError>) {
        InMemoryPersistence::update_published(self, id)
    }

    fn requeue(&mut self, id: &str) -> (r: Result<bool, PersistenceError>) {
        Ok(InMemoryPersistence::requeue(self, id))
    }
}

} // verus!
