//! One-to-many channel (pub-sub-like): one sender, several receivers, each
//! with its own bounded queue.

use vstd::prelude::*;
use crate::{AgentId, Message};
use crate::ids::ChannelId;
use super::channel::{Channel, ChannelType, IpcError};

verus! {

/// One-to-many broadcast channel.
///
/// Each receiver has an independent queue; a sent message is copied to
/// every receiver's queue, addressed to that receiver.
#[derive(Debug)]
pub struct BroadcastChannel {
    id: ChannelId,
    sender: AgentId,
    receivers: Vec<AgentId>,
    /// The distinct receivers, one per queue, in order of first appearance.
    keys: Vec<AgentId>,
    /// `queues[i]` is the queue of `keys[i]`.
    queues: Vec<Vec<Message>>,
    capacity: usize,
}

/// A message with its receiver set to `r`.
pub open spec fn readdressed(m: Message, r: AgentId) -> Message {
    Message { receiver: r, ..m }
}

/// The queues after appending, for each entry of `rs` in order, the message
/// addressed to that receiver.
pub open spec fn after_broadcast(
    q: Map<AgentId, Seq<Message>>,
    rs: Seq<AgentId>,
    msg: Message,
) -> Map<AgentId, Seq<Message>>
    decreases rs.len(),
{
    if rs.len() == 0 {
        q
    } else {
        let p = after_broadcast(q, rs.drop_last(), msg);
        p.insert(rs.last(), p[rs.last()].push(readdressed(msg, rs.last())))
    }
}

/// A broadcast reaches each receiver once: when the receivers are distinct
/// and each has a queue, every receiver's queue gets one copy of the
/// message after what it held, a copy addressed to that receiver and
/// otherwise the message as sent; every other queue is left as it was.
pub proof fn lemma_broadcast_once_each(q: Map<AgentId, Seq<Message>>, rs: Seq<AgentId>, msg: Message, k: AgentId)
    requires
        rs.no_duplicates(),
        forall|x: AgentId| #[trigger] rs.contains(x) ==> q.dom().contains(x),
    ensures
        after_broadcast(q, rs, msg).dom() == q.dom(),
        rs.contains(k) ==> after_broadcast(q, rs, msg)[k] == q[k].push(readdressed(msg, k)),
        !rs.contains(k) && q.dom().contains(k) ==> after_broadcast(q, rs, msg)[k] == q[k],
        rs.contains(k) ==> ({
            let c = after_broadcast(q, rs, msg)[k].last();
            &&& after_broadcast(q, rs, msg)[k].len() == q[k].len() + 1
            &&& c.receiver == k
            &&& c.sender == msg.sender
            &&& c.message_type == msg.message_type
            &&& c.payload == msg.payload
            &&& c.metadata == msg.metadata
        }),
    decreases rs.len(),
{
    if rs.len() > 0 {
        let init = rs.drop_last();
        let last = rs.last();
        assert(init.no_duplicates()) by {
            assert forall|i: int, j: int| 0 <= i < j < init.len() implies init[i] != init[j] by {
                assert(rs[i] != rs[j]);
            }
        }
        assert forall|x: AgentId| #[trigger] init.contains(x) implies q.dom().contains(x) by {
            let j = choose|j: int| 0 <= j < init.len() && init[j] == x;
            assert(rs[j] == x);
            assert(rs.contains(x));
        }
        assert(!init.contains(last)) by {
            if init.contains(last) {
                let j = choose|j: int| 0 <= j < init.len() && init[j] == last;
                assert(rs[j] == rs[rs.len() - 1]);
            }
        }
        assert(rs.contains(last)) by {
            assert(rs[rs.len() - 1] == last);
        }
        lemma_broadcast_once_each(q, init, msg, k);
        lemma_broadcast_once_each(q, init, msg, last);
        let p = after_broadcast(q, init, msg);
        assert(p.dom().contains(last));
        assert(after_broadcast(q, rs, msg).dom() =~= q.dom());
        if k != last {
            if rs.contains(k) {
                let j = choose|j: int| 0 <= j < rs.len() && rs[j] == k;
                assert(init[j] == k);
            } else if q.dom().contains(k) {
                assert(!init.contains(k)) by {
                    if init.contains(k) {
                        let j = choose|j: int| 0 <= j < init.len() && init[j] == k;
                        assert(rs[j] == k);
                    }
                }
            }
        }
    }
}

/// Position of the first occurrence of `k` in `s` (or `s.len()`).
pub open spec fn first_index(s: Seq<AgentId>, k: AgentId) -> int
    decreases s.len(),
{
    if s.len() == 0 {
        0
    } else if s[0] == k {
        0
    } else {
        1 + first_index(s.drop_first(), k)
    }
}

proof fn lemma_first_index(s: Seq<AgentId>, k: AgentId)
    ensures
        0 <= first_index(s, k) <= s.len(),
        first_index(s, k) < s.len() <==> s.contains(k),
        first_index(s, k) < s.len() ==> s[first_index(s, k)] == k,
        forall|j: int| 0 <= j < first_index(s, k) ==> s[j] != k,
    decreases s.len(),
{
    if s.len() > 0 && s[0] != k {
        lemma_first_index(s.drop_first(), k);
        if s.contains(k) {
            let j = choose|j: int| 0 <= j < s.len() && s[j] == k;
            assert(s.drop_first()[j - 1] == k);
        }
        assert forall|j: int| 0 <= j < first_index(s, k) implies s[j] != k by {
            if j > 0 {
                assert(s[j] == s.drop_first()[j - 1]);
            }
        }
    }
}

impl BroadcastChannel {
    /// The channel's internal consistency: one queue per distinct receiver.
    pub closed spec fn wf(self) -> bool {
        &&& self.keys@.no_duplicates()
        &&& self.keys@.len() == self.queues@.len()
        &&& forall|k: AgentId| self.keys@.contains(k) <==> self.receivers@.contains(k)
    }

    pub closed spec fn spec_id(self) -> ChannelId {
        self.id
    }

    pub closed spec fn spec_sender(self) -> AgentId {
        self.sender
    }

    /// The receivers, as given at creation.
    pub closed spec fn spec_receivers(self) -> Seq<AgentId> {
        self.receivers@
    }

    pub closed spec fn spec_capacity(self) -> usize {
        self.capacity
    }

    /// The queue of each receiver, oldest message first.
    pub closed spec fn queues_view(self) -> Map<AgentId, Seq<Message>> {
        Map::new(
            |k: AgentId| self.keys@.contains(k),
            |k: AgentId| self.queues@[first_index(self.keys@, k)]@,
        )
    }

    /// The queue of `k` (empty for an agent that is not a receiver).
    pub open spec fn queue_of(self, k: AgentId) -> Seq<Message> {
        if self.queues_view().dom().contains(k) {
            self.queues_view()[k]
        } else {
            Seq::empty()
        }
    }

    proof fn lemma_view(self)
        requires
            self.wf(),
        ensures
            self.queues_view().dom() =~= self.receivers@.to_set(),
            forall|i: int|
                0 <= i < self.keys@.len() ==> #[trigger] first_index(self.keys@, self.keys@[i]) == i,
    {
        assert forall|i: int| 0 <= i < self.keys@.len() implies #[trigger] first_index(
            self.keys@,
            self.keys@[i],
        ) == i by {
            lemma_first_index(self.keys@, self.keys@[i]);
            let f = first_index(self.keys@, self.keys@[i]);
            if f < i {
                assert(self.keys@[f] == self.keys@[i]);
            }
        }
        assert forall|k: AgentId| self.queues_view().dom().contains(k) <==> self.receivers@.to_set().contains(k) by {
        }
    }

    /// Exactly the receivers have queues, in every consistent channel, so
    /// `lemma_broadcast_once_each` applies to a channel's queues.
    pub proof fn lemma_queue_dom(self)
        requires
            self.wf(),
        ensures
            self.queues_view().dom() =~= self.spec_receivers().to_set(),
    {
        self.lemma_view();
    }

    /// Index of the queue of `receiver`, if it is a receiver.
    fn find_queue(&self, receiver: AgentId) -> (r: Option<usize>)
        requires
            self.wf(),
        ensures
            r is Some <==> self.receivers@.contains(receiver),
            r matches Some(i) ==> i < self.keys@.len() && self.keys@[i as int] == receiver
                && first_index(self.keys@, receiver) == i,
    {
        proof {
            self.lemma_view();
        }
        let mut i: usize = 0;
        while i < self.keys.len()
            invariant
                self.wf(),
                i <= self.keys@.len(),
                forall|j: int| 0 <= j < i ==> self.keys@[j] != receiver,
            decreases self.keys@.len() - i,
        {
            if self.keys[i] == receiver {
                proof {
                    self.lemma_view();
                }
                return Some(i);
            }
            i = i + 1;
        }
        None
    }

    /// Create a broadcast channel with an empty queue for every receiver.
    pub fn new(sender: AgentId, receivers: Vec<AgentId>, capacity: usize) -> (c: Self)
        ensures
            c.wf(),
            c.spec_sender() == sender,
            c.spec_receivers() == receivers@,
            c.spec_capacity() == capacity,
            c.queues_view().dom() == receivers@.to_set(),
            forall|k: AgentId| #[trigger] c.queue_of(k).len() == 0,
    {
        let mut keys: Vec<AgentId> = Vec::new();
        let mut queues: Vec<Vec<Message>> = Vec::new();
        let mut i: usize = 0;
        while i < receivers.len()
            invariant
                i <= receivers@.len(),
                keys@.no_duplicates(),
                keys@.len() == queues@.len(),
                forall|k: AgentId| keys@.contains(k) <==> receivers@.take(i as int).contains(k),
                forall|j: int| 0 <= j < queues@.len() ==> (#[trigger] queues@[j])@.len() == 0,
            decreases receivers@.len() - i,
        {
            let r = receivers[i];
            let mut present = false;
            let mut j: usize = 0;
            while j < keys.len()
                invariant
                    j <= keys@.len(),
                    i < receivers@.len(),
                    r == receivers@[i as int],
                    forall|k: AgentId| keys@.contains(k) <==> receivers@.take(i as int).contains(k),
                    present == (exists|t: int| 0 <= t < j && keys@[t] == r),
                decreases keys@.len() - j,
            {
                if keys[j] == r {
                    present = true;
                }
                j = j + 1;
            }
            proof {
                assert(receivers@.take(i + 1) =~= receivers@.take(i as int).push(r));
            }
            let ghost old_keys = keys@;
            if !present {
                keys.push(r);
                queues.push(Vec::new());
                proof {
                    assert(keys@ == old_keys.push(r));
                    assert forall|k: AgentId| #![trigger keys@.contains(k)] keys@.contains(k) <==> old_keys.contains(k) || k == r by {
                        if keys@.contains(k) {
                            let t = choose|t: int| 0 <= t < keys@.len() && keys@[t] == k;
                            if t < old_keys.len() {
                                assert(old_keys[t] == k);
                            }
                        }
                        if old_keys.contains(k) {
                            let t = choose|t: int| 0 <= t < old_keys.len() && old_keys[t] == k;
                            assert(keys@[t] == k);
                        }
                        if k == r {
                            assert(keys@[keys@.len() - 1] == k);
                        }
                    }
                    assert(keys@[keys@.len() - 1] == r);
                    assert(keys@.contains(r));
                    assert(old_keys.no_duplicates());
                    assert(!old_keys.contains(r));
                }
            } else {
                proof {
                    let t = choose|t: int| 0 <= t < j && keys@[t] == r;
                    assert(keys@.contains(r));
                }
            }
            proof {
                assert forall|k: AgentId| #![trigger receivers@.take(i + 1).contains(k)] receivers@.take(i + 1).contains(k) <==> receivers@.take(i as int).contains(k) || k == r by {
                    let t1 = receivers@.take(i + 1);
                    if t1.contains(k) {
                        let t = choose|t: int| 0 <= t < t1.len() && t1[t] == k;
                        if t < i {
                            assert(receivers@.take(i as int)[t] == k);
                        }
                    }
                    if receivers@.take(i as int).contains(k) {
                        let t = choose|t: int| 0 <= t < i && receivers@.take(i as int)[t] == k;
                        assert(t1[t] == k);
                    }
                    if k == r {
                        assert(t1[i as int] == k);
                    }
                }
                assert(keys@.contains(r));
                assert forall|k: AgentId| #![trigger keys@.contains(k)] keys@.contains(k) <==> receivers@.take(i + 1).contains(k) by {
                    if k != r {
                        assert(keys@.contains(k) <==> old_keys.contains(k));
                        assert(old_keys.contains(k) <==> receivers@.take(i as int).contains(k));
                    }
                }
            }
            i = i + 1;
        }
        proof {
            assert(receivers@.take(receivers@.len() as int) =~= receivers@);
        }
        let c = BroadcastChannel { id: ChannelId::new(), sender, receivers, keys, queues, capacity };
        proof {
            c.lemma_view();
            assert forall|k: AgentId| #[trigger] c.queue_of(k).len() == 0 by {
                if c.queues_view().dom().contains(k) {
                    lemma_first_index(c.keys@, k);
                }
            }
        }
        c
    }

    /// Whether `receiver` is one of the receivers.
    pub fn has_receiver(&self, receiver: AgentId) -> (r: bool)
        ensures
            r == self.spec_receivers().contains(receiver),
    {
        let mut i: usize = 0;
        while i < self.receivers.len()
            invariant
                i <= self.receivers@.len(),
                forall|j: int| 0 <= j < i ==> self.receivers@[j] != receiver,
            decreases self.receivers@.len() - i,
        {
            if self.receivers[i] == receiver {
                return true;
            }
            i = i + 1;
        }
        false
    }

    /// The receivers, as given at creation.
    pub fn receivers(&self) -> (r: &[AgentId])
        ensures
            r@ == self.spec_receivers(),
    {
        self.receivers.as_slice()
    }
}


/// Every receiver's queue has room for one more message.
pub open spec fn all_have_room(c: BroadcastChannel) -> bool {
    forall|k: AgentId| #[trigger] c.spec_receivers().contains(k) ==> c.queue_of(k).len() < c.spec_capacity()
}

impl BroadcastChannel {
    proof fn lemma_queue_index(self, i: int)
        requires
            self.wf(),
            0 <= i < self.keys@.len(),
        ensures
            self.queue_of(self.keys@[i]) == self.queues@[i]@,
            self.queues_view().dom().contains(self.keys@[i]),
    {
        self.lemma_view();
        assert(self.keys@.contains(self.keys@[i]));
    }

    /// Sets the queue at `idx` and shows how the view changes.
    fn push_at(&mut self, idx: usize, m: Message)
        requires
            old(self).wf(),
            idx < old(self).keys@.len(),
        ensures
            final(self).wf(),
            final(self).spec_id() == old(self).spec_id(),
            final(self).spec_sender() == old(self).spec_sender(),
            final(self).spec_receivers() == old(self).spec_receivers(),
            final(self).spec_capacity() == old(self).spec_capacity(),
            final(self).keys@ == old(self).keys@,
            final(self).queues_view() == old(self).queues_view().insert(
                old(self).keys@[idx as int],
                old(self).queues_view()[old(self).keys@[idx as int]].push(m),
            ),
    {
        let ghost old_self = *self;
        proof {
            old_self.lemma_view();
            old_self.lemma_queue_index(idx as int);
        }
        self.queues[idx].push(m);
        proof {
            self.lemma_view();
            let k0 = old_self.keys@[idx as int];
            assert forall|k: AgentId| #[trigger] self.queues_view().dom().contains(k) implies self.queues_view()[k]
                == old_self.queues_view().insert(k0, old_self.queues_view()[k0].push(m))[k] by {
                lemma_first_index(self.keys@, k);
                let f = first_index(self.keys@, k);
                if k != k0 {
                    assert(f != idx);
                }
            }
            assert(self.queues_view() =~= old_self.queues_view().insert(k0, old_self.queues_view()[k0].push(m)));
        }
    }

    /// Replaces the queue at `idx` by an empty one and returns it.
    fn take_at(&mut self, idx: usize) -> (r: Vec<Message>)
        requires
            old(self).wf(),
            idx < old(self).keys@.len(),
        ensures
            final(self).wf(),
            final(self).spec_id() == old(self).spec_id(),
            final(self).spec_sender() == old(self).spec_sender(),
            final(self).spec_receivers() == old(self).spec_receivers(),
            final(self).spec_capacity() == old(self).spec_capacity(),
            final(self).keys@ == old(self).keys@,
            r@ == old(self).queues_view()[old(self).keys@[idx as int]],
            final(self).queues_view() == old(self).queues_view().insert(old(self).keys@[idx as int], Seq::empty()),
    {
        let ghost old_self = *self;
        proof {
            old_self.lemma_view();
            old_self.lemma_queue_index(idx as int);
        }
        let mut taken: Vec<Message> = Vec::new();
        std::mem::swap(&mut self.queues[idx], &mut taken);
        proof {
            self.lemma_view();
            let k0 = old_self.keys@[idx as int];
            assert forall|k: AgentId| #[trigger] self.queues_view().dom().contains(k) implies self.queues_view()[k]
                == old_self.queues_view().insert(k0, Seq::empty())[k] by {
                lemma_first_index(self.keys@, k);
                let f = first_index(self.keys@, k);
                if k != k0 {
                    assert(f != idx);
                }
            }
            assert(self.queues_view() =~= old_self.queues_view().insert(k0, Seq::empty()));
        }
        taken
    }
}

impl Channel for BroadcastChannel {
    open spec fn inv(&self) -> bool {
        self.wf()
    }

    fn id(&self) -> (r: ChannelId)
        ensures
            r == self.spec_id(),
    {
        self.id
    }

    fn channel_type(&self) -> (r: ChannelType)
        ensures
            r == ChannelType::Broadcast,
    {
        ChannelType::Broadcast
    }

    fn sender(&self) -> (r: AgentId)
        ensures
            r == self.spec_sender(),
    {
        self.sender
    }

    /// Checks the sender, then that every receiver's queue has room; only
    /// then appends, for each receiver in order, the message addressed to it.
    fn send(&mut self, msg: Message) -> (r: Result<(), IpcError>)
        ensures
            final(self).spec_id() == old(self).spec_id(),
            final(self).spec_sender() == old(self).spec_sender(),
            final(self).spec_receivers() == old(self).spec_receivers(),
            final(self).spec_capacity() == old(self).spec_capacity(),
            msg.sender != old(self).spec_sender() ==> r == Err::<(), IpcError>(IpcError::InvalidSender),
            msg.sender == old(self).spec_sender() && !all_have_room(*old(self))
                ==> r == Err::<(), IpcError>(IpcError::ChannelFull),
            r == Ok::<(), IpcError>(()) <==> msg.sender == old(self).spec_sender() && all_have_room(*old(self)),
            r is Ok ==> final(self).queues_view() == after_broadcast(
                old(self).queues_view(),
                old(self).spec_receivers(),
                msg,
            ),
            r is Err ==> final(self).queues_view() == old(self).queues_view(),
            old(self).wf() ==> final(self).queues_view().dom() == final(self).spec_receivers().to_set(),
    {
        if msg.sender != self.sender {
            return Err(IpcError::InvalidSender);
        }
        let mut i: usize = 0;
        while i < self.receivers.len()
            invariant
                self.wf(),
                *self == *old(self),
                msg.sender == self.sender,
                i <= self.receivers@.len(),
                forall|j: int| 0 <= j < i ==> self.queue_of(#[trigger] self.receivers@[j]).len() < self.capacity,
            decreases self.receivers@.len() - i,
        {
            let r = self.receivers[i];
            proof {
                assert(self.receivers@.contains(r));
            }
            let idx = self.find_queue(r).unwrap();
            proof {
                self.lemma_queue_index(idx as int);
            }
            if self.queues[idx].len() >= self.capacity {
                proof {
                    assert(self.receivers@.contains(r) && self.queue_of(r).len() >= self.capacity);
                }
                return Err(IpcError::ChannelFull);
            }
            i = i + 1;
        }
        proof {
            assert forall|k: AgentId| #[trigger] self.spec_receivers().contains(k) implies self.queue_of(k).len()
                < self.spec_capacity() by {
                let j = choose|j: int| 0 <= j < self.receivers@.len() && self.receivers@[j] == k;
                assert(self.queue_of(self.receivers@[j]).len() < self.capacity);
            }
        }
        let ghost old_view = self.queues_view();
        let mut i: usize = 0;
        while i < self.receivers.len()
            invariant
                self.wf(),
                i <= self.receivers@.len(),
                self.spec_id() == old(self).spec_id(),
                self.spec_sender() == old(self).spec_sender(),
                self.spec_receivers() == old(self).spec_receivers(),
                self.spec_capacity() == old(self).spec_capacity(),
                old_view == old(self).queues_view(),
                self.queues_view() == after_broadcast(old_view, self.receivers@.take(i as int), msg),
            decreases self.receivers@.len() - i,
        {
            let r = self.receivers[i];
            proof {
                assert(self.receivers@.contains(r));
            }
            let idx = self.find_queue(r).unwrap();
            let mut m = msg.clone();
            m.receiver = r;
            self.push_at(idx, m);
            proof {
                assert(self.receivers@.take(i + 1).drop_last() =~= self.receivers@.take(i as int));
            }
            i = i + 1;
        }
        proof {
            assert(self.receivers@.take(self.receivers@.len() as int) =~= self.receivers@);
        }
        Ok(())
    }

    /// A receiver takes every message of its queue, oldest first; any other
    /// agent gets nothing and nothing changes.
    fn poll(&mut self, receiver: AgentId) -> (r: Vec<Message>)
        ensures
            final(self).spec_id() == old(self).spec_id(),
            final(self).spec_sender() == old(self).spec_sender(),
            final(self).spec_receivers() == old(self).spec_receivers(),
            final(self).spec_capacity() == old(self).spec_capacity(),
            old(self).spec_receivers().contains(receiver) ==> r@ == old(self).queue_of(receiver)
                && final(self).queues_view() == old(self).queues_view().insert(receiver, Seq::empty()),
            !old(self).spec_receivers().contains(receiver) ==> r@ == Seq::<Message>::empty()
                && final(self).queues_view() == old(self).queues_view(),
            r@ == old(self).queue_of(receiver),
            forall|x: AgentId| #[trigger] final(self).queue_of(x) == if x == receiver {
                Seq::<Message>::empty()
            } else {
                old(self).queue_of(x)
            },
    {
        proof {
            old(self).lemma_view();
        }
        match self.find_queue(receiver) {
            None => {
                let v: Vec<Message> = Vec::new();
                assert(v@ =~= Seq::<Message>::empty());
                proof {
                    assert(!old(self).queues_view().dom().contains(receiver));
                }
                v
            },
            Some(idx) => {
                proof {
                    self.lemma_queue_index(idx as int);
                }
                let r = self.take_at(idx);
                proof {
                    self.lemma_view();
                }
                r
            },
        }
    }

    fn pending_count(&self, receiver: AgentId) -> (r: usize)
        ensures
            r == self.queue_of(receiver).len(),
    {
        proof {
            self.lemma_view();
        }
        match self.find_queue(receiver) {
            None => 0,
            Some(idx) => {
                proof {
                    self.lemma_queue_index(idx as int);
                }
                self.queues[idx].len()
            },
        }
    }

    /// Full when some receiver's queue is at capacity.
    fn is_full(&self) -> (r: bool)
        ensures
            r == (exists|k: AgentId| #[trigger] self.spec_receivers().contains(k) && self.queue_of(k).len()
                >= self.spec_capacity()),
    {
        proof {
            self.lemma_view();
        }
        let mut i: usize = 0;
        while i < self.queues.len()
            invariant
                self.wf(),
                i <= self.queues@.len(),
                forall|j: int| 0 <= j < i ==> (#[trigger] self.queues@[j])@.len() < self.capacity,
            decreases self.queues@.len() - i,
        {
            if self.queues[i].len() >= self.capacity {
                proof {
                    self.lemma_queue_index(i as int);
                    assert(self.receivers@.contains(self.keys@[i as int]));
                    assert(self.spec_receivers().contains(self.keys@[i as int]) && self.queue_of(self.keys@[i as int]).len()
                        >= self.spec_capacity());
                }
                return true;
            }
            i = i + 1;
        }
        proof {
            assert forall|k: AgentId| #[trigger] self.spec_receivers().contains(k) implies self.queue_of(k).len()
                < self.spec_capacity() by {
                self.lemma_view();
                lemma_first_index(self.keys@, k);
                self.lemma_queue_index(first_index(self.keys@, k));
            }
        }
        false
    }

    fn capacity(&self) -> (r: usize)
        ensures
            r == self.spec_capacity(),
    {
        self.capacity
    }
}

} // verus!
