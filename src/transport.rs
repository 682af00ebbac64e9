//! The in-memory fan-out transport.
//!
//! Each topic keeps the most recent `capacity` messages and a count of all
//! messages ever published to it. A subscription is a cursor: the number of
//! messages published before the next one it will read. Reading never changes
//! the topic, so subscribers do not take messages from one another; a
//! subscriber that falls more than `capacity` behind skips what was dropped.
use vstd::prelude::*;
use vstd::slice::slice_to_vec;
use crate::errors::TransportError;
use crate::event::{EventInfo, topic_of};

verus! {

/// A topic as plain values: how many messages were ever published, and the
/// most recent of them, oldest first.
pub struct TopicModel {
    pub total: int,
    pub buffer: Seq<Seq<u8>>,
}

impl TopicModel {
    pub open spec fn empty() -> TopicModel {
        TopicModel { total: 0, buffer: Seq::empty() }
    }

    pub open spec fn wf(self, capacity: int) -> bool {
        self.buffer.len() <= capacity && self.buffer.len() <= self.total
    }

    /// The sequence number of the oldest buffered message.
    pub open spec fn first(self) -> int {
        self.total - self.buffer.len()
    }

    /// The topic after one more message; the oldest goes when it is full.
    pub open spec fn published(self, msg: Seq<u8>, capacity: int) -> TopicModel {
        let b = self.buffer.push(msg);
        TopicModel {
            total: self.total + 1,
            buffer: if b.len() > capacity {
                b.drop_first()
            } else {
                b
            },
        }
    }

    /// The messages that a subscriber at `cursor` will read, in order.
    pub open spec fn deliverable(self, cursor: int) -> Seq<Seq<u8>> {
        let start = if cursor < self.first() {
            self.first()
        } else {
            cursor
        };
        if start >= self.total {
            Seq::empty()
        } else {
            self.buffer.subrange(start - self.first(), self.buffer.len() as int)
        }
    }
}

/// The topic after publishing `msgs` in order.
pub open spec fn publish_all(t: TopicModel, msgs: Seq<Seq<u8>>, capacity: int) -> TopicModel
    decreases msgs.len(),
{
    if msgs.len() == 0 {
        t
    } else {
        publish_all(t, msgs.drop_last(), capacity).published(msgs.last(), capacity)
    }
}

proof fn lemma_publish_all(t: TopicModel, msgs: Seq<Seq<u8>>, capacity: int)
    requires
        capacity >= 1,
        t.wf(capacity),
    ensures
        ({
            let p = publish_all(t, msgs, capacity);
            let all = t.buffer + msgs;
            let k = if all.len() > capacity {
                capacity
            } else {
                all.len() as int
            };
            &&& p.wf(capacity)
            &&& p.total == t.total + msgs.len()
            &&& p.buffer == all.subrange(all.len() - k, all.len() as int)
        }),
    decreases msgs.len(),
{
    let all = t.buffer + msgs;
    if msgs.len() == 0 {
        assert(all =~= t.buffer);
        assert(all.subrange(0, all.len() as int) =~= all);
    } else {
        let prev = msgs.drop_last();
        lemma_publish_all(t, prev, capacity);
        let q = publish_all(t, prev, capacity);
        let pall = t.buffer + prev;
        let pk = if pall.len() > capacity {
            capacity
        } else {
            pall.len() as int
        };
        assert(all =~= pall.push(msgs.last()));
        let b = q.buffer.push(msgs.last());
        assert(b =~= all.subrange(all.len() - (pk + 1), all.len() as int));
        if b.len() > capacity {
            assert(b.drop_first() =~= all.subrange(all.len() - capacity, all.len() as int));
        }
    }
}

/// Subscribers that attach to a topic before a run of messages no longer
/// than the capacity each read exactly that run, in order: nothing that was
/// published before they attached, and nothing lost.
pub proof fn lemma_fan_out(t: TopicModel, msgs: Seq<Seq<u8>>, capacity: int)
    requires
        capacity >= 1,
        t.wf(capacity),
        msgs.len() <= capacity,
    ensures
        publish_all(t, msgs, capacity).deliverable(t.total) == msgs,
{
    lemma_publish_all(t, msgs, capacity);
    let p = publish_all(t, msgs, capacity);
    let all = t.buffer + msgs;
    if msgs.len() > 0 {
        assert(p.buffer.subrange(p.buffer.len() - msgs.len(), p.buffer.len() as int) =~= msgs);
    } else {
        assert(p.deliverable(t.total) =~= msgs);
    }
}

/// One topic: its name, its recent messages and how many were ever published.
pub struct TopicChannel {
    pub name: String,
    pub buffer: Vec<Vec<u8>>,
    pub total: u64,
}

impl TopicChannel {
    pub open spec fn model(&self) -> TopicModel {
        TopicModel { total: self.total as int, buffer: self.buffer@.map_values(|m: Vec<u8>| m@) }
    }
}

/// A subscriber's position on a topic.
#[derive(Debug)]
pub struct Subscription {
    pub topic: String,
    pub cursor: u64,
}

pub struct InMemoryTransport {
    pub topics: Vec<TopicChannel>,
    pub capacity: usize,
    /// Every accepted publish, as topic and content, oldest first.
    pub log: Ghost<Seq<(Seq<char>, Seq<u8>)>>,
}

/// How many recent messages each topic keeps.
pub const DEFAULT_CAPACITY: usize = 100;

impl InMemoryTransport {
    pub open spec fn names_unique(&self) -> bool {
        forall|i: int, j: int|
            0 <= i < self.topics@.len() && 0 <= j < self.topics@.len() && i != j
                ==> self.topics@[i].name@ != self.topics@[j].name@
    }

    pub open spec fn wf(&self) -> bool {
        &&& self.capacity >= 1
        &&& self.names_unique()
        &&& forall|i: int|
            0 <= i < self.topics@.len() ==> (#[trigger] self.topics@[i]).model().wf(
                self.capacity as int,
            )
    }

    pub open spec fn has_topic(&self, name: Seq<char>) -> bool {
        exists|i: int| 0 <= i < self.topics@.len() && self.topics@[i].name@ == name
    }

    /// The topic named `name`; one never used is empty.
    pub open spec fn topic(&self, name: Seq<char>) -> TopicModel {
        if self.has_topic(name) {
            self.topics@[choose|i: int|
                0 <= i < self.topics@.len() && self.topics@[i].name@ == name].model()
        } else {
            TopicModel::empty()
        }
    }

    pub fn new() -> (r: InMemoryTransport)
        ensures
            r.wf(),
            r.capacity == DEFAULT_CAPACITY,
            forall|name: Seq<char>| r.topic(name) == TopicModel::empty(),
    {
        InMemoryTransport { topics: Vec::new(), capacity: DEFAULT_CAPACITY, log: Ghost(Seq::empty()) }
    }

    pub fn with_capacity(capacity: usize) -> (r: InMemoryTransport)
        requires
            capacity >= 1,
        ensures
            r.wf(),
            r.capacity == capacity,
            forall|name: Seq<char>| r.topic(name) == TopicModel::empty(),
    {
        InMemoryTransport { topics: Vec::new(), capacity, log: Ghost(Seq::empty()) }
    }

    fn scan(&self, name: &String) -> (r: Option<usize>)
        ensures
            r matches Some(i) ==> i < self.topics@.len() && self.topics@[i as int].name@ == name@,
            r is None ==> !self.has_topic(name@),
    {
        let mut i: usize = 0;
        while i < self.topics.len()
            invariant
                i <= self.topics@.len(),
                forall|j: int| 0 <= j < i ==> self.topics@[j].name@ != name@,
            decreases self.topics@.len() - i,
        {
            if self.topics[i].name == *name {
                return Some(i);
            }
            i = i + 1;
        }
        None
    }

    fn find(&self, name: &String) -> (r: Option<usize>)
        requires
            self.wf(),
        ensures
            r matches Some(i) ==> i < self.topics@.len() && self.topics@[i as int].name@ == name@
                && self.topic(name@) == self.topics@[i as int].model(),
            r is None ==> !self.has_topic(name@) && self.topic(name@) == TopicModel::empty(),
    {
        let r = self.scan(name);
        proof {
            if let Some(i) = r {
                assert(self.has_topic(name@));
                let j = choose|j: int|
                    0 <= j < self.topics@.len() && self.topics@[j].name@ == name@;
                assert(j == i);
            }
        }
        r
    }

    /// The index of the topic named `name`, created empty if it is new.
    fn register_channel(&mut self, name: &String) -> (r: usize)
        requires
            old(self).wf(),
        ensures
            final(self).wf(),
            final(self).capacity == old(self).capacity,
            final(self).log == old(self).log,
            r < final(self).topics@.len(),
            final(self).topics@[r as int].name@ == name@,
            final(self).topic(name@) == final(self).topics@[r as int].model(),
            forall|n: Seq<char>| final(self).topic(n) == old(self).topic(n),
            forall|j: int|
                0 <= j < final(self).topics@.len() && j != r ==> final(self).topics@[j].name@
                    != name@,
    {
        match self.find(name) {
            Some(i) => i,
            None => {
                let ghost t0 = self.topics@;
                self.topics.push(TopicChannel { name: name.clone(), buffer: Vec::new(), total: 0 });
                let i = self.topics.len() - 1;
                proof {
                    assert forall|a: int, b: int|
                        0 <= a < self.topics@.len() && 0 <= b < self.topics@.len() && a
                            != b implies self.topics@[a].name@ != self.topics@[b].name@ by {
                        if a < t0.len() && b < t0.len() {
                            assert(self.topics@[a] == t0[a]);
                            assert(self.topics@[b] == t0[b]);
                        } else if a < t0.len() {
                            assert(self.topics@[a] == t0[a]);
                        } else if b < t0.len() {
                            assert(self.topics@[b] == t0[b]);
                        }
                    }
                    assert forall|k: int| 0 <= k < self.topics@.len() implies (
                    #[trigger] self.topics@[k]).model().wf(self.capacity as int) by {
                        if k < t0.len() {
                            assert(self.topics@[k] == t0[k]);
                        } else {
                            assert(self.topics@[k].model().buffer =~= Seq::<Seq<u8>>::empty());
                        }
                    }
                    assert(self.topics@[i as int].name@ == name@);
                    assert(self.has_topic(name@));
                    let c = choose|c: int|
                        0 <= c < self.topics@.len() && self.topics@[c].name@ == name@;
                    assert(c == i);
                    assert(self.topics@[i as int].buffer@ =~= Seq::<Vec<u8>>::empty());
                    assert(self.topics@[i as int].model().buffer =~= Seq::<Seq<u8>>::empty());
                    assert forall|n: Seq<char>| self.topic(n) == old(self).topic(n) by {
                        if n == name@ {
                        } else if old(self).has_topic(n) {
                            let a = choose|a: int|
                                0 <= a < t0.len() && t0[a].name@ == n;
                            assert(self.topics@[a] == t0[a]);
                            assert(self.has_topic(n));
                            let b = choose|b: int|
                                0 <= b < self.topics@.len() && self.topics@[b].name@ == n;
                            assert(a == b);
                        } else {
                            assert forall|b: int| 0 <= b < self.topics@.len() implies self.topics@[b].name@ != n by {
                                if b < t0.len() {
                                    assert(self.topics@[b] == t0[b]);
                                }
                            }
                        }
                    }
                }
                i
            },
        }
    }

    /// Delivers `content` to every subscriber of the topic of `info`.
    pub fn publish(&mut self, info: &EventInfo, content: Vec<u8>) -> (r: Result<(), TransportError>)
        requires
            old(self).wf(),
        ensures
            final(self).wf(),
            final(self).capacity == old(self).capacity,
            r is Ok <==> old(self).topic(topic_of(info@)).total < u64::MAX,
            r is Ok ==> forall|n: Seq<char>|
                final(self).topic(n) == if n == topic_of(info@) {
                    old(self).topic(n).published(content@, old(self).capacity as int)
                } else {
                    old(self).topic(n)
                },
            r is Err ==> forall|n: Seq<char>| final(self).topic(n) == old(self).topic(n),
            r is Ok ==> final(self).log@ == old(self).log@.push((topic_of(info@), content@)),
            r is Err ==> final(self).log == old(self).log,
    {
        let ghost sent = content@;
        let name = info.transport_name();
        let i = self.register_channel(&name);
        if self.topics[i].total == u64::MAX {
            return Err(TransportError::Failed(String::from_str("topic has reached its message limit")));
        }
        let ghost mid = *self;
        let ghost before = self.topics@[i as int].model();
        let ghost cap = self.capacity as int;
        let mut channel = self.topics.remove(i);
        let ghost b0 = channel.buffer@;
        channel.buffer.push(content);
        if channel.buffer.len() > self.capacity {
            channel.buffer.remove(0);
        }
        channel.total = channel.total + 1;
        proof {
            let want = before.published(content@, cap);
            let got = channel.model();
            assert(got.buffer =~= want.buffer);
        }
        self.topics.insert(i, channel);
        self.log = Ghost(self.log@.push((name@, sent)));
        proof {
            assert forall|k: int|
                0 <= k < self.topics@.len() && k != i implies self.topics@[k] == mid.topics@[k] by {}
            assert forall|a: int, b: int|
                0 <= a < self.topics@.len() && 0 <= b < self.topics@.len() && a
                    != b implies self.topics@[a].name@ != self.topics@[b].name@ by {
                assert(a != i ==> self.topics@[a] == mid.topics@[a]);
                assert(b != i ==> self.topics@[b] == mid.topics@[b]);
            }
            assert forall|k: int| 0 <= k < self.topics@.len() implies (
            #[trigger] self.topics@[k]).model().wf(cap) by {
                if k != i {
                    assert(self.topics@[k] == mid.topics@[k]);
                }
            }
            assert forall|n: Seq<char>|
                self.topic(n) == if n == name@ {
                    mid.topic(n).published(content@, cap)
                } else {
                    mid.topic(n)
                } by {
                if n == name@ {
                    assert(self.topics@[i as int].name@ == mid.topics@[i as int].name@);
                    assert(self.topics@[i as int].name@ == n);
                    assert(self.has_topic(n));
                    let c = choose|c: int|
                        0 <= c < self.topics@.len() && self.topics@[c].name@ == n;
                    assert(c == i);
                } else if mid.has_topic(n) {
                    let a = choose|a: int|
                        0 <= a < mid.topics@.len() && mid.topics@[a].name@ == n;
                    assert(a != i);
                    assert(self.topics@[a] == mid.topics@[a]);
                    assert(self.has_topic(n));
                    let b = choose|b: int|
                        0 <= b < self.topics@.len() && self.topics@[b].name@ == n;
                    assert(a == b);
                } else {
                    assert forall|b: int| 0 <= b < self.topics@.len() implies self.topics@[b].name@ != n by {
                        if b != i {
                            assert(self.topics@[b] == mid.topics@[b]);
                        }
                    }
                }
            }
        }
        Ok(())
    }

    /// A subscription to the topic of `info`, which reads what is published
    /// from now on.
    pub fn subscriber(&mut self, info: &EventInfo) -> (r: Result<Option<Subscription>, TransportError>)
        requires
            old(self).wf(),
        ensures
            final(self).wf(),
            final(self).capacity == old(self).capacity,
            forall|n: Seq<char>| final(self).topic(n) == old(self).topic(n),
            final(self).log == old(self).log,
            r matches Ok(Some(s)) && s.topic@ == topic_of(info@) && s.cursor == old(self).topic(
                topic_of(info@),
            ).total,
    {
        let name = info.transport_name();
        let i = self.register_channel(&name);
        let cursor = self.topics[i].total;
        Ok(Some(Subscription { topic: name, cursor }))
    }

    /// The next message for `sub`, moving its cursor past it; `None` when it
    /// has read everything.
    pub fn poll(&self, sub: &mut Subscription) -> (r: Option<Vec<u8>>)
        requires
            self.wf(),
        ensures
            final(sub).topic@ == old(sub).topic@,
            ({
                let d = self.topic(old(sub).topic@).deliverable(old(sub).cursor as int);
                &&& r is None <==> d.len() == 0
                &&& r matches Some(m) ==> m@ == d[0]
                &&& r is Some ==> self.topic(old(sub).topic@).deliverable(final(sub).cursor as int)
                    == d.drop_first()
            }),
    {
        let i = match self.find(&sub.topic) {
            Some(i) => i,
            None => {
                assert(self.topic(sub.topic@).deliverable(sub.cursor as int) =~= Seq::<Seq<u8>>::empty());
                return None;
            },
        };
        let channel = &self.topics[i];
        assert(channel.model().wf(self.capacity as int));
        let first = channel.total - channel.buffer.len() as u64;
        let start = if sub.cursor < first {
            first
        } else {
            sub.cursor
        };
        if start >= channel.total {
            return None;
        }
        let msg = slice_to_vec(channel.buffer[(start - first) as usize].as_slice());
        sub.cursor = start + 1;
        proof {
            let t = channel.model();
            let d = t.deliverable(old(sub).cursor as int);
            assert(d[0] == t.buffer[start - first]);
            assert(t.deliverable(sub.cursor as int) =~= d.drop_first());
        }
        Some(msg)
    }
}

/// The contract of a transport, whatever carries the messages. `received`
/// is every publish it accepted, as topic and content, oldest first; a
/// transport that `accepts` a topic takes the next publish to it.
pub trait Transport {
    type Stream;

    spec fn valid(&self) -> bool;

    spec fn received(&self) -> Seq<(Seq<char>, Seq<u8>)>;

    spec fn accepts(&self, topic: Seq<char>) -> bool;

    /// `s` reads `topic` from the messages published after this state on.
    spec fn starts_at(&self, topic: Seq<char>, s: Self::Stream) -> bool;

    /// Delivers `content` to the current subscribers of the topic of `info`.
    fn publish(&mut self, info: &EventInfo, content: Vec<u8>) -> (r: Result<(), TransportError>)
        requires
            old(self).valid(),
        ensures
            final(self).valid(),
            r is Ok <==> old(self).accepts(topic_of(info@)),
            r is Ok ==> final(self).received() == old(self).received().push(
                (topic_of(info@), content@),
            ),
            r is Err ==> final(self).received() == old(self).received(),
    ;

    /// A stream of what is published to the topic of `info` from now on.
    fn subscriber(&mut self, info: &EventInfo) -> (r: Result<Option<Self::Stream>, TransportError>)
        requires
            old(self).valid(),
        ensures
            final(self).valid(),
            final(self).received() == old(self).received(),
            r matches Ok(Some(s)) ==> old(self).starts_at(topic_of(info@), s),
    ;
}

impl Transport for InMemoryTransport {
    type Stream = Subscription;

    open spec fn valid(&self) -> bool {
        self.wf()
    }

    open spec fn received(&self) -> Seq<(Seq<char>, Seq<u8>)> {
        self.log@
    }

    open spec fn accepts(&self, topic: Seq<char>) -> bool {
        self.topic(topic).total < u64::MAX
    }

    open spec fn starts_at(&self, topic: Seq<char>, s: Subscription) -> bool {
        s.topic@ == topic && s.cursor == self.topic(topic).total
    }

    fn publish(&mut self, info: &EventInfo, content: Vec<u8>) -> (r: Result<(), TransportError>) {
        InMemoryTransport::publish(self, info, content)
    }

    fn subscriber(&mut self, info: &EventInfo) -> (r: Result<Option<Subscription>, TransportError>) {
        InMemoryTransport::subscriber(self, info)
    }
}

} // verus!
